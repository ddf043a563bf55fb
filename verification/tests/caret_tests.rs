use ply_engine::engine::{
    hash_string, undo_kind_for_action, PlyContext, TextEditState, TextInputAction, TextInputSettings, UndoActionKind,
};
use ply_engine::text_cache::{MeasureTextCache, MeasuredWordData};

fn state(cursor: usize, anchor: Option<usize>) -> TextEditState {
    let mut s = TextEditState::new();
    s.text = "hello world".to_string();
    s.cursor_pos = cursor;
    s.selection_anchor = anchor;
    s
}

#[test]
fn visual_moves_extend_or_end_the_selection() {
    let mut s = state(3, None);
    s.move_caret_to(8, true);
    assert_eq!((s.cursor_pos, s.selection_anchor), (8, Some(3)));
    s.move_caret_to(3, true);
    assert_eq!((s.cursor_pos, s.selection_anchor), (3, None));
    s.move_caret_to(0, true);
    assert_eq!((s.cursor_pos, s.selection_anchor), (0, Some(3)));
    s.move_caret_to(11, false);
    assert_eq!((s.cursor_pos, s.selection_anchor), (11, None));
    assert_eq!(s.text, "hello world");
}

#[test]
fn clicks_place_the_caret_and_shift_extends() {
    let mut s = state(2, None);
    s.click_caret_to(7, true);
    assert_eq!((s.cursor_pos, s.selection_anchor), (7, Some(2)));
    s.click_caret_to(2, true);
    assert_eq!((s.cursor_pos, s.selection_anchor), (2, Some(2)));
    s.click_caret_to(5, false);
    assert_eq!((s.cursor_pos, s.selection_anchor), (5, None));
}

#[test]
fn caret_moves_apply_to_the_named_input_only() {
    let mut ctx = PlyContext::new();
    ctx.reset_seed_stack();
    ctx.begin_layout();
    let a = hash_string("a", 0);
    let b = hash_string("b", 0);
    ctx.add_hash_map_item(&a, 1);
    ctx.add_hash_map_item(&b, 2);
    let settings = TextInputSettings { is_multiline: true, max_length: None };
    ctx.register_text_input(a.id, settings, false);
    ctx.register_text_input(b.id, settings, false);
    ctx.set_text_value(a.id, "first line");
    ctx.set_text_value(b.id, "second");
    ctx.set_cursor_pos(a.id, 2);
    ctx.move_text_caret(a.id, 6, true);
    assert_eq!(ctx.get_cursor_pos(a.id), 6);
    assert_eq!(ctx.get_text_value(b.id), "second");
    ctx.click_text_caret(b.id, 4, false);
    assert_eq!(ctx.get_cursor_pos(b.id), 4);
    assert_eq!(ctx.get_cursor_pos(a.id), 6);
    ctx.move_text_caret(999, 1, false);
    assert_eq!(ctx.get_cursor_pos(999), 0);
}

#[test]
fn undo_entries_recorded_for_edits_only() {
    assert_eq!(undo_kind_for_action(&TextInputAction::Backspace, false), Some(UndoActionKind::Backspace));
    assert_eq!(undo_kind_for_action(&TextInputAction::Delete, false), Some(UndoActionKind::Delete));
    assert_eq!(undo_kind_for_action(&TextInputAction::BackspaceWord, false), Some(UndoActionKind::DeleteWord));
    assert_eq!(undo_kind_for_action(&TextInputAction::DeleteWord, true), Some(UndoActionKind::DeleteWord));
    assert_eq!(undo_kind_for_action(&TextInputAction::Cut, false), Some(UndoActionKind::Cut));
    assert_eq!(
        undo_kind_for_action(&TextInputAction::Paste { text: "x".to_string() }, false),
        Some(UndoActionKind::Paste)
    );
    assert_eq!(undo_kind_for_action(&TextInputAction::Submit, true), Some(UndoActionKind::InsertChar));
    assert_eq!(undo_kind_for_action(&TextInputAction::Submit, false), None);
    assert_eq!(undo_kind_for_action(&TextInputAction::MoveLeft { shift: true }, true), None);
    assert_eq!(undo_kind_for_action(&TextInputAction::Undo, false), None);
    assert_eq!(undo_kind_for_action(&TextInputAction::Copy, false), None);
}

#[test]
fn setting_one_value_leaves_other_inputs() {
    let mut ctx = PlyContext::new();
    ctx.set_text_value(1, "one");
    ctx.set_text_value(2, "two");
    ctx.set_text_value(1, "uno");
    assert_eq!(ctx.get_text_value(1), "uno");
    assert_eq!(ctx.get_text_value(2), "two");
}

#[test]
fn measurement_is_kept_for_two_frames_then_dropped() {
    let mut cache: MeasureTextCache<f32, u8> = MeasureTextCache::new();
    let words = vec![MeasuredWordData { start_offset: 0, length: 3, width: 1.5f32 }];
    cache.insert(9, 100, 0, false, &words);
    assert!(cache.contains(9));
    assert_eq!(cache.slot_count(), 1);
    cache.evict_stale(101);
    assert!(cache.contains(9));
    cache.evict_stale(102);
    assert!(cache.contains(9));
    cache.evict_stale(103);
    assert!(!cache.contains(9));
    assert_eq!(cache.slot_count(), 1);
}
