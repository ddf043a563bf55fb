use ply_engine::scroll::{deepest_under_pointer, ScrollContainers};

fn ids(s: &ScrollContainers<u8>) -> Vec<u32> {
    (0..s.len()).map(|i| s.get(i).element_id).collect()
}

#[test]
fn declaring_adds_new_containers_and_refreshes_known_ones() {
    let mut s: ScrollContainers<u8> = ScrollContainers::new();
    s.declare(10, 1, 7);
    s.declare(20, 2, 8);
    assert_eq!(ids(&s), vec![10, 20]);
    assert_eq!(s.find(20), Some(1));
    assert_eq!(s.find(30), None);
    s.retain_declared();
    assert!(!s.get(0).open_this_frame);
    s.declare(10, 5, 99);
    let c = s.get(0);
    assert_eq!((c.layout_element_index, c.open_this_frame, c.data), (5, true, 7));
    assert_eq!(s.len(), 2);
}

#[test]
fn undeclared_containers_are_dropped_with_the_last_moving_in() {
    let mut s: ScrollContainers<u8> = ScrollContainers::new();
    for id in [1u32, 2, 3, 4] {
        s.declare(id, id as i32, 0);
    }
    s.retain_declared();
    s.declare(1, 1, 0);
    s.declare(3, 3, 0);
    s.declare(4, 4, 0);
    s.retain_declared();
    assert_eq!(ids(&s), vec![1, 4, 3]);
    assert!((0..s.len()).all(|i| !s.get(i).open_this_frame));
    s.retain_declared();
    assert_eq!(s.len(), 0);
}

#[test]
fn drags_start_on_one_container_and_end_on_all() {
    let mut s: ScrollContainers<u8> = ScrollContainers::new();
    s.declare(1, 0, 0);
    s.declare(2, 1, 0);
    let target = deepest_under_pointer(&vec![true, true]).unwrap();
    assert_eq!(target, 1);
    s.begin_drag(target);
    assert!(s.get(1).pointer_scroll_active && !s.get(0).pointer_scroll_active);
    s.set_data(1, 42);
    assert_eq!(s.get(1).data, 42);
    s.end_drags();
    assert!(!s.get(1).pointer_scroll_active);
    assert_eq!(s.get(1).data, 42);
}

#[test]
fn deepest_container_is_the_last_hit() {
    assert_eq!(deepest_under_pointer(&vec![]), None);
    assert_eq!(deepest_under_pointer(&vec![false, false]), None);
    assert_eq!(deepest_under_pointer(&vec![true, false, true, false]), Some(2));
}
