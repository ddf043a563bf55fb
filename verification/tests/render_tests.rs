use ply_engine::debug_view::DebugRow;
use ply_engine::elements::FloatingAttachToElement;
use ply_engine::engine::{
    hash_string, text_action_events, ClipConfig, ElementConfig, ElementConfigType, FloatingConfig, FocusNeighbors,
    PlyContext, PointerDataInteractionState, TextActionEvents, TextInputAction, TextInputSettings, UndoActionKind,
};
use ply_engine::render::{RenderFacts, RenderStep};

fn facts(offscreen: bool, groups: u32, text_lines: usize, background: bool, dividers: bool) -> RenderFacts {
    RenderFacts { offscreen, groups, text_lines, background, dividers }
}

/// root(0) > panel(1: clip, border) > [img(2: image), text(3)]; float(4) on the root, z 1.
fn scene() -> (PlyContext, Vec<u32>) {
    let mut ctx = PlyContext::new();
    ctx.reset_seed_stack();
    let root = ctx.begin_layout();
    let panel = hash_string("panel", 0);
    ctx.open_element_with_id(&panel);
    ctx.begin_element_configs(0);
    ctx.attach_clip(ClipConfig { horizontal: true, vertical: true, scroll_x: false, scroll_y: false });
    ctx.attach_element_config(ElementConfigType::Border, 0);
    let img = hash_string("img", 0);
    ctx.open_element_with_id(&img);
    ctx.begin_element_configs(0);
    ctx.attach_element_config(ElementConfigType::Image, 0);
    ctx.close_element();
    let text = ctx.open_text_element(0, 0, 0, false);
    ctx.close_element();
    let f = hash_string("float", 0);
    ctx.open_element_with_id(&f);
    ctx.begin_element_configs(0);
    let config = FloatingConfig { z_index: 1, attach_to: FloatingAttachToElement::Root, ..Default::default() };
    let (pid, cid) = ctx.resolve_floating(&config).unwrap();
    ctx.attach_floating(pid, cid, 1, 0);
    ctx.close_element();
    ctx.close_element();
    ctx.sort_tree_roots_by_z_index();
    (ctx, vec![root.id, panel.id, img.id, text.id, f.id])
}

fn scene_facts(panel_offscreen: bool) -> Vec<RenderFacts> {
    vec![
        facts(false, 0, 0, false, false),
        facts(panel_offscreen, 1, 0, true, true),
        facts(false, 0, 0, true, false),
        facts(false, 0, 2, false, false),
        facts(false, 0, 0, true, false),
    ]
}

#[test]
fn render_steps_draw_roots_in_order_depth_first() {
    let (ctx, _) = scene();
    let steps = ctx.render_steps(&scene_facts(false), true);
    assert_eq!(
        steps,
        vec![
            RenderStep::GroupBegin(1),
            RenderStep::ScissorStart(1),
            RenderStep::Rectangle(1),
            RenderStep::Image(2),
            RenderStep::Text { element: 3, line: 0 },
            RenderStep::Text { element: 3, line: 1 },
            RenderStep::Border(1),
            RenderStep::Divider { element: 1, child: 1 },
            RenderStep::ScissorEnd(1),
            RenderStep::GroupEnd(1),
            RenderStep::Rectangle(4),
        ]
    );
}

#[test]
fn render_steps_skip_offscreen_content_but_keep_background_and_groups() {
    let (ctx, _) = scene();
    let steps = ctx.render_steps(&scene_facts(true), false);
    assert_eq!(
        steps,
        vec![
            RenderStep::GroupBegin(1),
            RenderStep::Rectangle(1),
            RenderStep::Image(2),
            RenderStep::Text { element: 3, line: 0 },
            RenderStep::Text { element: 3, line: 1 },
            RenderStep::ScissorEnd(1),
            RenderStep::GroupEnd(1),
            RenderStep::Rectangle(4),
        ]
    );
}

#[test]
fn focus_ring_is_drawn_last_for_keyboard_focus() {
    let (mut ctx, ids) = scene();
    ctx.register_accessibility(ids[1], true, None, FocusNeighbors::default());
    ctx.cycle_focus(false);
    assert_eq!(ctx.focused_element_id(), ids[1]);
    let steps = ctx.render_steps(&scene_facts(false), true);
    assert_eq!(steps.last(), Some(&RenderStep::FocusRing(ids[1])));
    let steps = ctx.render_steps(&scene_facts(false), false);
    assert_eq!(steps.last(), Some(&RenderStep::Rectangle(4)));
}

#[test]
fn render_steps_pair_groups_and_scissors() {
    let (ctx, _) = scene();
    let steps = ctx.render_steps(&scene_facts(false), false);
    let count = |f: &dyn Fn(&RenderStep) -> bool| steps.iter().filter(|s| f(s)).count();
    assert_eq!(count(&|s| matches!(s, RenderStep::GroupBegin(_))), count(&|s| matches!(s, RenderStep::GroupEnd(_))));
    assert_eq!(count(&|s| matches!(s, RenderStep::ScissorStart(_))), count(&|s| matches!(s, RenderStep::ScissorEnd(_))));
}

#[test]
fn debug_rows_list_elements_with_depth() {
    let (mut ctx, ids) = scene();
    ctx.toggle_debug_selection(ids[2]);
    let rows = ctx.debug_rows(&vec![false, false, false, true, false]);
    let summary: Vec<(usize, usize, usize, bool, bool, bool, bool)> = rows
        .iter()
        .map(|r: &DebugRow| (r.root, r.element_index, r.depth, r.has_children, r.is_text, r.selected, r.offscreen))
        .collect();
    assert_eq!(
        summary,
        vec![
            (0, 0, 0, true, false, false, false),
            (0, 1, 1, true, false, false, false),
            (0, 2, 2, false, false, true, false),
            (0, 3, 2, false, true, false, true),
            (1, 4, 0, false, false, false, false),
        ]
    );
    assert_eq!(rows[1].id, ids[1]);
}

#[test]
fn collapsed_element_hides_its_children_in_debug_rows() {
    let (mut ctx, ids) = scene();
    ctx.toggle_collapsed(ids[1]);
    let rows = ctx.debug_rows(&vec![false; 5]);
    let listed: Vec<usize> = rows.iter().map(|r| r.element_index).collect();
    assert_eq!(listed, vec![0, 1, 4]);
    assert!(rows[1].collapsed);
    ctx.toggle_collapsed(ids[1]);
    let rows = ctx.debug_rows(&vec![false; 5]);
    assert_eq!(rows.len(), 5);
}

#[test]
fn collapse_button_press_toggles_its_element() {
    let (mut ctx, ids) = scene();
    let button = ply_engine::engine::hash_string_with_offset("Ply__DebugView_CollapseElement", ids[1], 0);
    ctx.update_pointer_state(vec![button], true);
    assert_eq!(ctx.pointer_state(), PointerDataInteractionState::PressedThisFrame);
    ctx.debug_collapse_click();
    assert!(ctx.get_element_item(ids[1]).unwrap().collapsed);
}

#[test]
fn debug_config_rows_list_the_element_configs() {
    let (ctx, _) = scene();
    let rows = ctx.debug_config_rows(1);
    let kinds: Vec<ElementConfigType> = rows.iter().map(|c: &ElementConfig| c.config_type).collect();
    assert_eq!(kinds, vec![ElementConfigType::Clip, ElementConfigType::Border]);
    assert!(ctx.debug_config_rows(0).is_empty());
}

#[test]
fn hovered_and_pressed_query_the_open_element() {
    let mut ctx = PlyContext::new();
    ctx.reset_seed_stack();
    ctx.begin_layout();
    let b = hash_string("button", 0);
    ctx.open_element_with_id(&b);
    ctx.update_pointer_state(vec![b.clone()], true);
    assert!(ctx.hovered());
    assert!(ctx.pressed());
    ctx.close_element();
    assert!(!ctx.hovered());
}

#[test]
fn text_action_plan_needs_a_focused_text_input() {
    let mut ctx = PlyContext::new();
    ctx.reset_seed_stack();
    ctx.begin_layout();
    assert_eq!(ctx.plan_text_input_action(&TextInputAction::Backspace), None);
    let field = hash_string("field", 0);
    ctx.register_text_input(field.id, TextInputSettings { is_multiline: false, max_length: Some(4) }, false);
    ctx.set_focus(field.id);
    let plan = ctx.plan_text_input_action(&TextInputAction::Backspace).unwrap();
    assert_eq!(plan.element_id, field.id);
    assert_eq!(plan.undo, Some(UndoActionKind::Backspace));
    assert_eq!(plan.settings.max_length, Some(4));
    assert!(!plan.submit);
    let submit = ctx.plan_text_input_action(&TextInputAction::Submit).unwrap();
    assert!(submit.submit);
    assert_eq!(submit.undo, None);
}

#[test]
fn submit_reports_submission_and_edits_report_changes() {
    let mut ctx = PlyContext::new();
    ctx.reset_seed_stack();
    ctx.begin_layout();
    let field = hash_string("notes", 0);
    ctx.register_text_input(field.id, TextInputSettings { is_multiline: true, max_length: None }, false);
    ctx.set_focus(field.id);
    let enter = ctx.plan_text_input_action(&TextInputAction::Submit).unwrap();
    assert!(!enter.submit);
    assert_eq!(enter.undo, Some(UndoActionKind::InsertChar));
    let ev = text_action_events(&enter, &String::from("ab"), &String::from("ab\n"));
    assert_eq!(ev, TextActionEvents { submitted: None, changed: Some(field.id) });
    let ev = text_action_events(&enter, &String::from("ab"), &String::from("ab"));
    assert_eq!(ev, TextActionEvents { submitted: None, changed: None });
    let single = ply_engine::engine::TextActionPlan { submit: true, ..enter };
    let ev = text_action_events(&single, &String::from("ab"), &String::from("ab"));
    assert_eq!(ev, TextActionEvents { submitted: Some(field.id), changed: None });
}

#[test]
fn debug_row_click_selects_the_element_on_that_row() {
    let (mut ctx, ids) = scene();
    let rows = ctx.debug_rows(&vec![false; 5]);
    assert_eq!(ply_engine::debug_view::debug_row_at(&rows, 3), Some(3));
    assert_eq!(ply_engine::debug_view::debug_row_at(&rows, 4), None);
    assert_eq!(ply_engine::debug_view::debug_row_at(&rows, 5), None);
    assert_eq!(ply_engine::debug_view::debug_row_at(&rows, 6), Some(4));
    assert_eq!(ply_engine::debug_view::debug_row_at(&rows, -1), None);
    assert_eq!(ctx.debug_row_click(&rows, 6), Some(ids[4]));
    assert_eq!(ctx.debug_selected_element_id(), 0);
    ctx.update_pointer_state(vec![], true);
    assert_eq!(ctx.debug_row_click(&rows, 6), Some(ids[4]));
    assert_eq!(ctx.debug_selected_element_id(), ids[4]);
    ctx.debug_row_click(&rows, 6);
    assert_eq!(ctx.debug_selected_element_id(), 0);
}

#[test]
fn debug_view_buttons_close_the_view_and_deselect() {
    let (mut ctx, ids) = scene();
    ctx.set_debug_mode_enabled(true);
    ctx.toggle_debug_selection(ids[1]);
    let header = hash_string("Ply__DebugView_LayoutConfigHeader", 0);
    ctx.update_pointer_state(vec![header], true);
    ctx.debug_view_click();
    assert_eq!(ctx.debug_selected_element_id(), 0);
    assert!(ctx.is_debug_mode_enabled());
    ctx.update_pointer_state(vec![], false);
    let close = hash_string("Ply__DebugView_CloseButton", 0);
    ctx.update_pointer_state(vec![close], true);
    ctx.debug_view_click();
    assert!(!ctx.is_debug_mode_enabled());
}
