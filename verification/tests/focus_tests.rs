use ply_engine::engine::{
    hash_string, ArrowDirection, FocusNeighbors, MapItemOutcome, PlyContext, TextInputSettings,
};
use ply_engine::focus::{sort_tab_order, FocusableEntry};

fn no_neighbors() -> FocusNeighbors {
    FocusNeighbors { focus_left: None, focus_right: None, focus_up: None, focus_down: None }
}

/// One frame that declares focusable elements with the given labels and tab indices.
fn frame_with_buttons(ctx: &mut PlyContext, buttons: &[(&str, Option<i32>)]) {
    ctx.reset_seed_stack();
    ctx.begin_layout();
    for (index, (label, tab)) in buttons.iter().enumerate() {
        let id = hash_string(label, 0);
        ctx.add_hash_map_item(&id, (index + 1) as i32);
        ctx.register_accessibility(id.id, true, *tab, no_neighbors());
    }
}

#[test]
fn test_tab_navigation_cycles_focus() {
    let mut ctx = PlyContext::new();
    frame_with_buttons(&mut ctx, &[("a", None), ("b", None), ("c", None)]);
    let id_a = hash_string("a", 0).id;
    let id_b = hash_string("b", 0).id;
    let id_c = hash_string("c", 0).id;

    assert!(ctx.focused_element().is_none());
    ctx.cycle_focus(false);
    assert_eq!(ctx.focused_element_id(), id_a);
    ctx.cycle_focus(false);
    assert_eq!(ctx.focused_element_id(), id_b);
    ctx.cycle_focus(false);
    assert_eq!(ctx.focused_element_id(), id_c);
    ctx.cycle_focus(false);
    assert_eq!(ctx.focused_element_id(), id_a);
    ctx.cycle_focus(true);
    assert_eq!(ctx.focused_element_id(), id_c);
    assert!(ctx.focus_from_keyboard());
}

#[test]
fn test_tab_index_ordering() {
    let mut ctx = PlyContext::new();
    frame_with_buttons(&mut ctx, &[("third", Some(3)), ("first", Some(1)), ("second", Some(2))]);
    ctx.cycle_focus(false);
    assert_eq!(ctx.focused_element_id(), hash_string("first", 0).id);
    ctx.cycle_focus(false);
    assert_eq!(ctx.focused_element_id(), hash_string("second", 0).id);
    ctx.cycle_focus(false);
    assert_eq!(ctx.focused_element_id(), hash_string("third", 0).id);
}

#[test]
fn explicit_tab_indices_come_before_declaration_order() {
    let entries = vec![
        FocusableEntry { element_id: 10, tab_index: None, insertion_order: 0 },
        FocusableEntry { element_id: 20, tab_index: Some(5), insertion_order: 1 },
        FocusableEntry { element_id: 30, tab_index: None, insertion_order: 2 },
        FocusableEntry { element_id: 40, tab_index: Some(-1), insertion_order: 3 },
        FocusableEntry { element_id: 50, tab_index: Some(5), insertion_order: 4 },
    ];
    let order: Vec<u32> = sort_tab_order(&entries).iter().map(|e| e.element_id).collect();
    assert_eq!(order, vec![40, 20, 50, 10, 30]);
}

#[test]
fn shift_tab_from_no_focus_goes_to_last() {
    let mut ctx = PlyContext::new();
    frame_with_buttons(&mut ctx, &[("a", None), ("b", None)]);
    let change = ctx.cycle_focus(true);
    assert_eq!(change.previous, 0);
    assert_eq!(change.current, hash_string("b", 0).id);
}

#[test]
fn tab_with_nothing_focusable_does_nothing() {
    let mut ctx = PlyContext::new();
    frame_with_buttons(&mut ctx, &[]);
    let change = ctx.cycle_focus(false);
    assert_eq!(change.previous, change.current);
    assert_eq!(ctx.focused_element_id(), 0);
    assert!(!ctx.focus_from_keyboard());
}

#[test]
fn tab_then_shift_tab_returns_to_start() {
    let mut ctx = PlyContext::new();
    frame_with_buttons(&mut ctx, &[("x", Some(2)), ("y", None), ("z", Some(1))]);
    let id_y = hash_string("y", 0).id;
    ctx.set_focus(id_y);
    ctx.cycle_focus(false);
    assert_ne!(ctx.focused_element_id(), id_y);
    ctx.cycle_focus(true);
    assert_eq!(ctx.focused_element_id(), id_y);
}

#[test]
fn test_arrow_key_navigation() {
    let mut ctx = PlyContext::new();
    let id_a = hash_string("a", 0).id;
    let id_b = hash_string("b", 0).id;
    ctx.reset_seed_stack();
    ctx.begin_layout();
    ctx.add_hash_map_item(&hash_string("a", 0), 1);
    ctx.register_accessibility(id_a, true, None, FocusNeighbors { focus_right: Some(id_b), ..no_neighbors() });
    ctx.add_hash_map_item(&hash_string("b", 0), 2);
    ctx.register_accessibility(id_b, true, None, FocusNeighbors { focus_left: Some(id_a), ..no_neighbors() });

    ctx.set_focus(id_a);
    assert_eq!(ctx.focused_element_id(), id_a);
    ctx.arrow_focus(ArrowDirection::Right);
    assert_eq!(ctx.focused_element_id(), id_b);
    ctx.arrow_focus(ArrowDirection::Left);
    assert_eq!(ctx.focused_element_id(), id_a);
    ctx.arrow_focus(ArrowDirection::Up);
    assert_eq!(ctx.focused_element_id(), id_a);
    assert!(ctx.focus_from_keyboard());
}

#[test]
fn arrow_without_focus_does_nothing() {
    let mut ctx = PlyContext::new();
    let change = ctx.arrow_focus(ArrowDirection::Down);
    assert_eq!(change.previous, change.current);
    assert!(!ctx.focus_from_keyboard());
}

#[test]
fn test_focused_query() {
    let mut ctx = PlyContext::new();
    frame_with_buttons(&mut ctx, &[("a", None)]);
    let id_a = hash_string("a", 0).id;
    ctx.set_focus(id_a);
    frame_with_buttons(&mut ctx, &[("a", None)]);
    assert!(ctx.focused(id_a));
    assert!(!ctx.focused(0));
    let focused = ctx.focused_element().expect("a focused element");
    assert_eq!(focused.id, id_a);
    assert_eq!(focused.string_id.text, "a");
}

#[test]
fn test_on_focus_callback_fires_on_tab() {
    let mut ctx = PlyContext::new();
    frame_with_buttons(&mut ctx, &[("a", None), ("b", None)]);
    let id_a = hash_string("a", 0).id;
    let id_b = hash_string("b", 0).id;
    let change = ctx.cycle_focus(false);
    assert_eq!((change.previous, change.current), (0, id_a));
    let change = ctx.cycle_focus(false);
    assert_eq!((change.previous, change.current), (id_a, id_b));
}

#[test]
fn test_on_focus_callback_fires_on_set_focus() {
    let mut ctx = PlyContext::new();
    frame_with_buttons(&mut ctx, &[("a", None)]);
    let id_a = hash_string("a", 0).id;
    let change = ctx.set_focus(id_a);
    assert_eq!((change.previous, change.current), (0, id_a));
    let again = ctx.set_focus(id_a);
    assert_eq!(again.previous, again.current);
    let cleared = ctx.clear_focus();
    assert_eq!((cleared.previous, cleared.current), (id_a, 0));
    assert!(!ctx.focus_from_keyboard());
}

#[test]
fn text_inputs_join_tab_order_once() {
    let mut ctx = PlyContext::new();
    ctx.reset_seed_stack();
    ctx.begin_layout();
    let field = hash_string("field", 0);
    ctx.add_hash_map_item(&field, 1);
    let settings = TextInputSettings { is_multiline: true, max_length: None };
    ctx.register_text_input(field.id, settings, false);
    ctx.register_text_input(field.id, settings, false);
    ctx.cycle_focus(false);
    assert_eq!(ctx.focused_element_id(), field.id);
    ctx.cycle_focus(false);
    assert_eq!(ctx.focused_element_id(), field.id);
    assert!(ctx.is_text_input_focused());
    assert!(ctx.is_focused_text_input_multiline());
    assert_eq!(ctx.focused_text_input_settings(), Some(settings));
    assert!(ctx.get_element_item(field.id).unwrap().is_text_input);
}

#[test]
fn begin_layout_forgets_last_frames_focusables() {
    let mut ctx = PlyContext::new();
    frame_with_buttons(&mut ctx, &[("a", None)]);
    ctx.reset_seed_stack();
    let root = ctx.begin_layout();
    assert_eq!(root.id, hash_string("Ply__RootContainer", 0).id);
    let change = ctx.cycle_focus(false);
    assert_eq!(change.previous, change.current);
    assert_eq!(ctx.generation(), 2);
}

#[test]
fn duplicate_ids_in_a_frame_collide() {
    let mut ctx = PlyContext::new();
    ctx.reset_seed_stack();
    ctx.begin_layout();
    let id = hash_string("dup", 0);
    assert_eq!(ctx.add_hash_map_item(&id, 1), MapItemOutcome::Inserted);
    assert_eq!(ctx.add_hash_map_item(&id, 2), MapItemOutcome::Collision);
    assert!(ctx.get_element_item(id.id).unwrap().collision);
    ctx.begin_layout();
    assert_eq!(ctx.add_hash_map_item(&id, 3), MapItemOutcome::Refreshed { hover_reset: false });
    assert!(!ctx.get_element_item(id.id).unwrap().collision);
    assert_eq!(ctx.get_element_item(id.id).unwrap().layout_element_index, 3);
}

#[test]
fn element_absent_for_two_frames_loses_hover() {
    let mut ctx = PlyContext::new();
    ctx.reset_seed_stack();
    ctx.begin_layout();
    let id = hash_string("h", 0);
    ctx.add_hash_map_item(&id, 1);
    ctx.update_hover(id.id, true);
    assert!(ctx.get_hover_state(id.id).has());
    ctx.begin_layout();
    ctx.begin_layout();
    ctx.begin_layout();
    assert_eq!(ctx.add_hash_map_item(&id, 1), MapItemOutcome::Refreshed { hover_reset: true });
    assert!(!ctx.get_hover_state(id.id).has());
}

#[test]
fn generate_id_chains_seeds() {
    let mut ctx = PlyContext::new();
    ctx.reset_seed_stack();
    let first = ctx.generate_id();
    assert_eq!(first.id, ply_engine::engine::hash_number(1, 0).id);
    let second = ctx.generate_id();
    assert_eq!(second.id, ply_engine::engine::hash_number(1, first.id).id);
}

#[test]
fn element_absent_for_one_frame_keeps_hover() {
    let mut ctx = PlyContext::new();
    ctx.reset_seed_stack();
    ctx.begin_layout();
    let id = hash_string("k", 0);
    ctx.add_hash_map_item(&id, 1);
    ctx.update_hover(id.id, true);
    ctx.begin_layout();
    ctx.begin_layout();
    assert_eq!(ctx.add_hash_map_item(&id, 1), MapItemOutcome::Refreshed { hover_reset: false });
    assert!(ctx.get_hover_state(id.id).has());
}
