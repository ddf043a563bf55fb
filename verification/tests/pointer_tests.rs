use ply_engine::engine::{
    hash_string, FocusNeighbors, PlyContext, PointerDataInteractionState, TextInputSettings,
};
use ply_engine::id::Id;

fn frame(ctx: &mut PlyContext, labels: &[&str]) -> Vec<Id> {
    ctx.reset_seed_stack();
    let root = ctx.begin_layout();
    let mut ids = vec![root];
    for (i, l) in labels.iter().enumerate() {
        let id = hash_string(l, 0);
        ctx.add_hash_map_item(&id, (i + 1) as i32);
        ids.push(id);
    }
    ids
}

#[test]
fn test_on_press_callback_fires() {
    let mut ctx = PlyContext::new();
    let ids = frame(&mut ctx, &["btn"]);
    let over = vec![ids[0].clone(), ids[1].clone()];
    let ev = ctx.update_pointer_state(over.clone(), true);
    assert_eq!(ev.press_targets.iter().filter(|i| i.id == ids[1].id).count(), 1);
    assert!(ev.release_targets.is_empty());
    let ev = ctx.update_pointer_state(over, false);
    assert_eq!(ev.release_targets.iter().filter(|i| i.id == ids[1].id).count(), 1);
    assert!(ev.press_targets.is_empty());
}

#[test]
fn test_pressed_query() {
    let mut ctx = PlyContext::new();
    let ids = frame(&mut ctx, &["btn"]);
    ctx.update_pointer_state(vec![ids[0].clone(), ids[1].clone()], true);
    frame(&mut ctx, &["btn"]);
    assert!(ctx.is_element_pressed(ids[1].id));
    assert_eq!(ctx.pointer_state(), PointerDataInteractionState::PressedThisFrame);
}

#[test]
fn press_state_goes_through_one_frame_states() {
    let mut ctx = PlyContext::new();
    assert_eq!(ctx.pointer_state(), PointerDataInteractionState::Released);
    ctx.update_pointer_state(vec![], true);
    assert_eq!(ctx.pointer_state(), PointerDataInteractionState::PressedThisFrame);
    let ev = ctx.update_pointer_state(vec![], true);
    assert_eq!(ctx.pointer_state(), PointerDataInteractionState::Pressed);
    assert!(ev.press_targets.is_empty());
    ctx.update_pointer_state(vec![], false);
    assert_eq!(ctx.pointer_state(), PointerDataInteractionState::ReleasedThisFrame);
    ctx.update_pointer_state(vec![], false);
    assert_eq!(ctx.pointer_state(), PointerDataInteractionState::Released);
}

#[test]
fn clicking_elsewhere_clears_focus_unless_preserved() {
    let mut ctx = PlyContext::new();
    let ids = frame(&mut ctx, &["a", "toolbar"]);
    ctx.set_focus(ids[1].id);
    let ev = ctx.update_pointer_state(vec![ids[0].clone()], true);
    assert_eq!((ev.focus.previous, ev.focus.current), (ids[1].id, 0));
    assert_eq!(ctx.focused_element_id(), 0);
    ctx.update_pointer_state(vec![], false);

    ctx.set_focus(ids[1].id);
    ctx.set_preserve_focus(ids[2].id);
    let ev = ctx.update_pointer_state(vec![ids[0].clone(), ids[2].clone()], true);
    assert_eq!(ev.focus.previous, ev.focus.current);
    assert_eq!(ctx.focused_element_id(), ids[1].id);
}

#[test]
fn clicking_a_text_input_focuses_it_without_press_callbacks() {
    let mut ctx = PlyContext::new();
    let ids = frame(&mut ctx, &["field"]);
    ctx.register_text_input(ids[1].id, TextInputSettings { is_multiline: false, max_length: Some(8) }, false);
    ctx.register_accessibility(ids[1].id, false, None, FocusNeighbors { focus_left: None, focus_right: None, focus_up: None, focus_down: None });
    let ev = ctx.update_pointer_state(vec![ids[0].clone(), ids[1].clone()], true);
    assert_eq!(ev.text_input_click, Some(ids[1].id));
    assert!(ev.press_targets.is_empty());
    assert_eq!(ctx.focused_element_id(), ids[1].id);
    assert!(!ctx.focus_from_keyboard());
    assert!(ctx.is_element_pressed(ids[1].id));
}

#[test]
fn hover_flags_report_changes_once() {
    let mut ctx = PlyContext::new();
    let ids = frame(&mut ctx, &["h"]);
    let h = ctx.update_hover(ids[1].id, true);
    assert!(h.hovered && h.just_added);
    let h = ctx.update_hover(ids[1].id, true);
    assert!(h.hovered && !h.just_added);
    let h = ctx.update_hover(ids[1].id, false);
    assert!(!h.hovered && h.just_removed);
    let h = ctx.update_hover(ids[1].id, false);
    assert!(!h.hovered && !h.just_removed);
    let unknown = ctx.update_hover(12345, true);
    assert!(!unknown.hovered);
}

#[test]
fn pointer_over_queries() {
    let mut ctx = PlyContext::new();
    let ids = frame(&mut ctx, &["p"]);
    ctx.update_pointer_state(vec![ids[0].clone(), ids[1].clone()], false);
    assert!(ctx.pointer_over(&ids[1]));
    assert!(ctx.is_element_hovered(ids[1].id));
    assert!(!ctx.is_element_hovered(99));
    assert_eq!(ctx.get_pointer_over_ids().len(), 2);
}

#[test]
fn keyboard_activation_presses_and_releases_focused_element() {
    let mut ctx = PlyContext::new();
    let ids = frame(&mut ctx, &["k"]);
    let none = ctx.handle_keyboard_activation(true, true);
    assert!(none.press_target.is_none());
    ctx.set_focus(ids[1].id);
    let ev = ctx.handle_keyboard_activation(true, false);
    assert_eq!(ev.press_target.map(|i| i.id), Some(ids[1].id));
    assert!(ctx.is_element_pressed(ids[1].id));
    let ev = ctx.handle_keyboard_activation(false, true);
    assert_eq!(ev.release_targets.len(), 1);
    assert!(!ctx.is_element_pressed(ids[1].id));
}
