use ply_engine::text_cache::{MeasureTextCache, MeasuredWordData};

fn word(start: i32, length: i32, width: f32) -> MeasuredWordData<f32> {
    MeasuredWordData { start_offset: start, length, width }
}

#[test]
fn inserted_words_read_back_in_order() {
    let mut cache: MeasureTextCache<f32, (f32, f32)> = MeasureTextCache::new();
    let words = vec![word(0, 6, 50.0), word(6, 5, 40.0)];
    let start = cache.insert(11, 1, (90.0, 20.0), false, &words);
    assert_eq!(start, 0);
    assert_eq!(cache.words_of(11), words);
    let item = cache.lookup(11, 2).expect("cached");
    assert_eq!(item.measurement, (90.0, 20.0));
    assert_eq!(item.generation, 2);
    assert_eq!(item.measured_words_start_index, 0);
    assert!(cache.lookup(12, 2).is_none());
}

#[test]
fn text_without_words_has_no_start() {
    let mut cache: MeasureTextCache<f32, u8> = MeasureTextCache::new();
    assert_eq!(cache.insert(1, 0, 7, false, &vec![]), -1);
    assert!(cache.words_of(1).is_empty());
}

#[test]
fn stale_entries_are_evicted_and_slots_reused() {
    let mut cache: MeasureTextCache<f32, u8> = MeasureTextCache::new();
    cache.insert(1, 1, 0, false, &vec![word(0, 1, 1.0), word(1, 1, 2.0)]);
    cache.insert(2, 4, 0, true, &vec![word(0, 3, 3.0)]);
    cache.evict_stale(4);
    assert!(cache.lookup(1, 4).is_none());
    assert_eq!(cache.words_of(2), vec![word(0, 3, 3.0)]);
    let start = cache.insert(3, 4, 0, false, &vec![word(5, 2, 9.0), word(7, 2, 8.0), word(9, 1, 7.0)]);
    assert!(start == 0 || start == 1);
    assert_eq!(cache.words_of(3), vec![word(5, 2, 9.0), word(7, 2, 8.0), word(9, 1, 7.0)]);
    assert_eq!(cache.words_of(2), vec![word(0, 3, 3.0)]);
}

#[test]
fn recently_used_entries_survive_eviction() {
    let mut cache: MeasureTextCache<f32, u8> = MeasureTextCache::new();
    cache.insert(1, 10, 0, false, &vec![word(0, 1, 1.0)]);
    cache.evict_stale(12);
    assert!(cache.lookup(1, 12).is_some());
    cache.evict_stale(15);
    assert!(cache.lookup(1, 15).is_none());
}

#[test]
fn freshness_wraps_around_frame_numbers() {
    let mut cache: MeasureTextCache<f32, u8> = MeasureTextCache::new();
    cache.insert(1, u32::MAX, 0, false, &vec![word(0, 1, 1.0)]);
    cache.evict_stale(1);
    assert!(cache.lookup(1, 1).is_some());
}
