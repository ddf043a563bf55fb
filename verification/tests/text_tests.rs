use ply_engine::engine::{hash_string, PlyContext, TextInputSettings};
use ply_engine::input::{edit_key_action, edit_key_applies, repeat_id, repeat_key, shortcut_action, EditKey, ShortcutKey};
use ply_engine::engine::TextInputAction;
use ply_engine::renderer::count_visible_chars;
use ply_engine::strings::debug_escape_str;
use ply_engine::text_measure::{split_measured_words, WordKind, WordSpan};

fn ctx_with_input(label: &str) -> (PlyContext, u32) {
    let mut ctx = PlyContext::new();
    ctx.reset_seed_stack();
    ctx.begin_layout();
    let id = hash_string(label, 0);
    ctx.add_hash_map_item(&id, 1);
    ctx.register_text_input(id.id, TextInputSettings { is_multiline: false, max_length: None }, false);
    (ctx, id.id)
}

#[test]
fn text_value_read_after_write() {
    let (mut ctx, id) = ctx_with_input("name");
    assert_eq!(ctx.get_text_value(id), "");
    ctx.set_text_value(id, "héllo");
    assert_eq!(ctx.get_text_value(id), "héllo");
    assert_eq!(ctx.get_text_value(777), "");
}

#[test]
fn set_text_value_creates_state_and_clamps_cursor() {
    let mut ctx = PlyContext::new();
    ctx.set_text_value(5, "abcdef");
    assert_eq!(ctx.get_cursor_pos(5), 0);
    ctx.set_cursor_pos(5, 6);
    assert_eq!(ctx.get_cursor_pos(5), 6);
    ctx.set_text_value(5, "ab");
    assert_eq!(ctx.get_cursor_pos(5), 2);
}

#[test]
fn cursor_and_selection_are_clamped_to_characters() {
    let (mut ctx, id) = ctx_with_input("field");
    ctx.set_text_value(id, "añb");
    ctx.set_cursor_pos(id, 10);
    assert_eq!(ctx.get_cursor_pos(id), 3);
    ctx.set_selection(id, 9, 1);
    assert_eq!(ctx.get_cursor_pos(id), 1);
    ctx.set_cursor_pos(999, 4);
    assert_eq!(ctx.get_cursor_pos(999), 0);
}

#[test]
fn focus_on_text_input_is_reported() {
    let (mut ctx, id) = ctx_with_input("f");
    assert!(!ctx.is_text_input_focused());
    ctx.set_focus(id);
    assert!(ctx.is_text_input_focused());
    assert!(!ctx.is_focused_text_input_multiline());
}

#[test]
fn split_words_of_mixed_text() {
    let words = split_measured_words(b"hello world\nfoo");
    assert_eq!(
        words,
        vec![
            WordSpan { start_offset: 0, length: 6, kind: WordKind::SpaceTerminated },
            WordSpan { start_offset: 6, length: 5, kind: WordKind::NewlineTerminated },
            WordSpan { start_offset: 12, length: 0, kind: WordKind::LineBreak },
            WordSpan { start_offset: 12, length: 3, kind: WordKind::Trailing },
        ]
    );
}

#[test]
fn split_words_edge_cases() {
    assert!(split_measured_words(b"").is_empty());
    assert_eq!(
        split_measured_words(b"\n\n"),
        vec![
            WordSpan { start_offset: 1, length: 0, kind: WordKind::LineBreak },
            WordSpan { start_offset: 2, length: 0, kind: WordKind::LineBreak },
        ]
    );
    assert_eq!(
        split_measured_words(b"a  "),
        vec![
            WordSpan { start_offset: 0, length: 2, kind: WordKind::SpaceTerminated },
            WordSpan { start_offset: 2, length: 1, kind: WordKind::SpaceTerminated },
        ]
    );
}

#[test]
fn split_words_cover_every_byte() {
    let text = b"one two\n\nthree  four\nx";
    let words = split_measured_words(text);
    let covered: usize = words
        .iter()
        .map(|w| w.length + if w.kind == WordKind::LineBreak { 1 } else { 0 })
        .sum();
    assert_eq!(covered, text.len());
}

#[test]
fn escape_debug_strings() {
    assert_eq!(debug_escape_str("a{b|c}\\d"), "a\\{b\\|c\\}\\\\d");
    assert_eq!(debug_escape_str("plain"), "plain");
}

#[test]
fn visible_characters_skip_markup() {
    assert_eq!(count_visible_chars("{red|hello} world"), 11);
    assert_eq!(count_visible_chars("a\\{b"), 3);
    assert_eq!(count_visible_chars("x|y"), 3);
    assert_eq!(count_visible_chars(""), 0);
}

#[test]
fn escaped_text_counts_all_characters() {
    let s = "{weird|text} with \\ and |";
    assert_eq!(count_visible_chars(&debug_escape_str(s)), s.chars().count());
}

#[test]
fn editing_keys_map_to_actions() {
    assert!(matches!(edit_key_action(EditKey::Left, true, true), TextInputAction::MoveWordLeft { shift: true }));
    assert!(matches!(edit_key_action(EditKey::Left, false, false), TextInputAction::MoveLeft { shift: false }));
    assert!(matches!(edit_key_action(EditKey::Backspace, true, false), TextInputAction::BackspaceWord));
    assert!(matches!(edit_key_action(EditKey::Delete, false, false), TextInputAction::Delete));
    assert!(matches!(edit_key_action(EditKey::End, false, true), TextInputAction::MoveEnd { shift: true }));
    assert!(!edit_key_applies(EditKey::Up, false));
    assert!(edit_key_applies(EditKey::Up, true));
    assert!(edit_key_applies(EditKey::Home, false));
}

#[test]
fn shortcut_keys_map_to_actions() {
    assert!(matches!(shortcut_action(ShortcutKey::Z, true, true), Some(TextInputAction::Redo)));
    assert!(matches!(shortcut_action(ShortcutKey::Z, true, false), Some(TextInputAction::Undo)));
    assert!(shortcut_action(ShortcutKey::A, false, false).is_none());
    assert!(matches!(shortcut_action(ShortcutKey::Enter, false, false), Some(TextInputAction::Submit)));
    assert!(matches!(shortcut_action(ShortcutKey::X, true, false), Some(TextInputAction::Cut)));
}

#[test]
fn repeat_ids_round_trip() {
    for key in [EditKey::Left, EditKey::Right, EditKey::Backspace, EditKey::Delete, EditKey::Home, EditKey::End, EditKey::Up, EditKey::Down] {
        assert_eq!(repeat_key(repeat_id(key)), Some(key));
    }
    assert_eq!(repeat_id(EditKey::Down), 8);
    assert_eq!(repeat_key(0), None);
}
