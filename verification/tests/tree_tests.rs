use ply_engine::elements::{FloatingAttachToElement, FloatingClipToElement};
use ply_engine::engine::{
    hash_number, hash_string, ClipConfig, ElementConfigType, FloatingConfig, PlyContext,
};

fn clip(horizontal: bool, vertical: bool) -> ClipConfig {
    ClipConfig { horizontal, vertical, scroll_x: false, scroll_y: false }
}

fn floating(attach_to: FloatingAttachToElement, parent_id: u32, z_index: i16) -> FloatingConfig {
    FloatingConfig { parent_id, z_index, attach_to, ..Default::default() }
}

fn frame() -> (PlyContext, u32) {
    let mut ctx = PlyContext::new();
    ctx.reset_seed_stack();
    let root = ctx.begin_layout();
    (ctx, root.id)
}

#[test]
fn begin_layout_opens_the_root_twice() {
    let (ctx, root_id) = frame();
    let tree = ctx.layout_tree();
    assert_eq!(tree.element_count(), 1);
    assert_eq!(tree.open_depth(), 2);
    assert_eq!(tree.element(0).id, root_id);
    assert_eq!(tree.element(0).text_data_index, -1);
    assert_eq!(tree.tree_roots().len(), 1);
    assert_eq!(tree.tree_roots()[0].layout_element_index, 0);
    assert_eq!(ctx.get_open_element_id(), root_id);
    assert_eq!(root_id, hash_string("Ply__RootContainer", 0).id);
}

#[test]
fn anonymous_ids_follow_position_under_parent() {
    let (mut ctx, root_id) = frame();
    let first = ctx.open_element();
    assert_eq!(first.offset, 0);
    assert_eq!(first.base_id, root_id);
    assert_eq!(first.id, hash_number(0, root_id).id);
    assert_eq!(ctx.get_parent_element_id(), root_id);
    ctx.close_element();
    let second = ctx.open_element();
    assert_eq!(second.offset, 1);
    assert_eq!(second.id, hash_number(1, root_id).id);
    assert_ne!(first.id, second.id);
    assert_eq!(ctx.get_open_element_id(), second.id);
}

#[test]
fn children_are_recorded_in_declaration_order() {
    let (mut ctx, _) = frame();
    ctx.open_element_with_id(&hash_string("list", 0));
    ctx.open_element_with_id(&hash_string("a", 0));
    ctx.close_element();
    ctx.open_element_with_id(&hash_string("b", 0));
    ctx.close_element();
    ctx.open_element_with_id(&hash_string("c", 0));
    ctx.close_element();
    let closed = ctx.close_element();
    assert_eq!(closed.element_index, 1);
    assert_eq!(closed.children_length, 3);
    assert!(!closed.is_floating);
    let tree = ctx.layout_tree();
    let start = closed.children_start;
    assert_eq!(&tree.children()[start..start + 3], &[2, 3, 4]);
    assert_eq!(tree.element(1).children_start, start);
    assert_eq!(tree.element(0).children_length, 1);
    let root = ctx.close_element();
    assert_eq!(root.element_index, 0);
    assert_eq!(root.children_length, 1);
    assert_eq!(ctx.layout_tree().children()[root.children_start], 1);
}

#[test]
fn text_elements_are_children_with_their_text_configuration() {
    let (mut ctx, root_id) = frame();
    let text = ctx.open_text_element(0, 7, 3, false);
    assert_eq!(text.id, hash_number(0, root_id).id);
    let tree = ctx.layout_tree();
    let e = tree.element(1);
    assert_eq!(e.text_data_index, 0);
    assert_eq!(e.layout_config_index, 3);
    assert_eq!(e.element_configs.length, 1);
    assert_eq!(tree.find_element_config_index(1, ElementConfigType::Text), Some(7));
    assert_eq!(tree.element(0).children_length, 1);
    let next = ctx.open_element();
    assert_eq!(next.offset, 1);
}

#[test]
fn clipping_applies_to_descendants_and_ends_with_the_element() {
    let (mut ctx, _) = frame();
    let scroller = hash_string("scroller", 0);
    ctx.open_element_with_id(&scroller);
    ctx.begin_element_configs(1);
    ctx.attach_clip(clip(false, true));
    ctx.open_element_with_id(&hash_string("inside", 0));
    assert_eq!(ctx.layout_tree().clip_element_id(2), scroller.id as i32);
    ctx.close_element();
    let closed = ctx.close_element();
    assert!(!closed.clip_horizontal);
    assert!(closed.clip_vertical);
    ctx.open_element_with_id(&hash_string("after", 0));
    assert_eq!(ctx.layout_tree().clip_element_id(3), 0);
}

#[test]
fn floating_children_are_counted_apart() {
    let (mut ctx, root_id) = frame();
    ctx.open_element();
    ctx.begin_element_configs(1);
    let config = floating(FloatingAttachToElement::Parent, 0, 5);
    let (parent_id, clip_id) = ctx.resolve_floating(&config).unwrap();
    assert_eq!(parent_id, root_id);
    assert_eq!(clip_id, 0);
    ctx.attach_floating(parent_id, clip_id, 5, 0);
    let closed = ctx.close_element();
    assert!(closed.is_floating);
    let tree = ctx.layout_tree();
    assert_eq!(tree.element(0).children_length, 0);
    assert_eq!(tree.element(0).floating_children_count, 1);
    assert_eq!(tree.tree_roots().len(), 2);
    assert_eq!(tree.tree_roots()[1].z_index, 5);
    assert_eq!(tree.tree_roots()[1].parent_id, root_id);
    let next = ctx.open_element();
    assert_eq!(next.offset, 1);
}

#[test]
fn floating_without_attachment_attaches_to_the_parent() {
    let (mut ctx, root_id) = frame();
    ctx.open_element();
    assert_eq!(ctx.resolve_floating(&floating(FloatingAttachToElement::Unattached, 0, 0)), Some((root_id, 0)));
    assert_eq!(
        ctx.resolve_floating(&floating(FloatingAttachToElement::Unattached, 0, 0)),
        ctx.resolve_floating(&floating(FloatingAttachToElement::Parent, 0, 0))
    );
    let root_attached = ctx.resolve_floating(&floating(FloatingAttachToElement::Root, 99, 0)).unwrap();
    assert_eq!(root_attached.0, hash_string("Ply__RootContainer", 0).id);
}

#[test]
fn floating_by_id_takes_the_target_clip_unless_unclipped() {
    let (mut ctx, _) = frame();
    let clipper = hash_string("clipper", 0);
    ctx.open_element_with_id(&clipper);
    ctx.begin_element_configs(1);
    ctx.attach_clip(clip(true, true));
    let target = hash_string("target", 0);
    ctx.open_element_with_id(&target);
    ctx.close_element();
    ctx.close_element();
    ctx.open_element();
    let mut config = floating(FloatingAttachToElement::ElementWithId, target.id, 0);
    config.clip_to = FloatingClipToElement::AttachedParent;
    assert_eq!(ctx.resolve_floating(&config), Some((target.id, clipper.id)));
    config.clip_to = FloatingClipToElement::Unclipped;
    assert_eq!(ctx.resolve_floating(&config), Some((target.id, 0)));
}

#[test]
fn tree_roots_sort_by_z_index_stably() {
    let (mut ctx, _) = frame();
    let z = [3i16, -1, 3, 0];
    for (k, zi) in z.iter().enumerate() {
        ctx.open_element();
        ctx.begin_element_configs(k + 1);
        let config = floating(FloatingAttachToElement::Root, 0, *zi);
        let (pid, cid) = ctx.resolve_floating(&config).unwrap();
        ctx.attach_floating(pid, cid, *zi, k);
        ctx.close_element();
    }
    ctx.sort_tree_roots_by_z_index();
    let roots: Vec<(i16, i32)> = ctx
        .layout_tree()
        .tree_roots()
        .iter()
        .map(|r| (r.z_index, r.layout_element_index))
        .collect();
    assert_eq!(roots, vec![(-1, 2), (0, 0), (0, 4), (3, 1), (3, 3)]);
}

fn hit_frame() -> (PlyContext, Vec<u32>) {
    let (mut ctx, root_id) = frame();
    let a = hash_string("a", 0);
    ctx.open_element_with_id(&a);
    let b = hash_string("b", 0);
    ctx.open_element_with_id(&b);
    ctx.close_element();
    let text = ctx.open_text_element(0, 0, 0, false);
    ctx.close_element();
    let f = hash_string("f", 0);
    ctx.open_element_with_id(&f);
    ctx.begin_element_configs(0);
    let config = floating(FloatingAttachToElement::Root, 0, 1);
    let (pid, cid) = ctx.resolve_floating(&config).unwrap();
    ctx.attach_floating(pid, cid, 1, 0);
    ctx.close_element();
    ctx.close_element();
    ctx.sort_tree_roots_by_z_index();
    (ctx, vec![root_id, a.id, b.id, text.id, f.id])
}

#[test]
fn hit_test_walks_roots_from_the_top_depth_first() {
    let (ctx, _) = hit_frame();
    assert_eq!(ctx.hit_test(&vec![false; 5], &vec![false, false]), vec![4, 0, 1, 2, 3]);
    assert_eq!(ctx.hit_test(&vec![false, false, false, false, true], &vec![false, true]), vec![4]);
    assert_eq!(ctx.hit_test(&vec![false; 5], &vec![false, true]), vec![4, 0, 1, 2, 3]);
}

#[test]
fn pointer_over_lists_hit_elements_outermost_first() {
    let (mut ctx, ids) = hit_frame();
    let inside = vec![true, true, false, true, false];
    ctx.set_pointer_state(&inside, &vec![false, false], false);
    let over: Vec<u32> = ctx.get_pointer_over_ids().iter().map(|i| i.id).collect();
    assert_eq!(over, vec![ids[0], ids[1], ids[3]]);
    assert!(ctx.is_element_hovered(ids[1]));
    assert!(!ctx.is_element_hovered(ids[2]));
    assert!(ctx.get_hover_state(ids[1]).just_added);
    ctx.set_pointer_state(&vec![true, false, false, false, false], &vec![false, false], false);
    assert!(!ctx.is_element_hovered(ids[1]));
    assert!(ctx.get_hover_state(ids[1]).just_removed);
}

#[test]
fn capturing_floating_root_hides_what_lies_below() {
    let (mut ctx, ids) = hit_frame();
    let inside = vec![true, true, true, true, true];
    ctx.set_pointer_state(&inside, &vec![false, true], true);
    let over: Vec<u32> = ctx.get_pointer_over_ids().iter().map(|i| i.id).collect();
    assert_eq!(over, vec![ids[4]]);
    assert!(ctx.is_element_pressed(ids[4]));
    assert!(!ctx.is_element_pressed(ids[0]));
}

#[test]
fn a_lone_element_without_children_can_be_closed() {
    let mut ctx = PlyContext::new();
    let id = hash_string("lone", 0);
    ctx.open_element_with_id(&id);
    assert_eq!(ctx.layout_tree().open_depth(), 1);
    let closed = ctx.close_element();
    assert_eq!(closed.element_index, 0);
    assert_eq!(closed.children_length, 0);
    assert_eq!(ctx.layout_tree().open_depth(), 0);
    assert_eq!(ctx.layout_tree().element_count(), 1);
}
