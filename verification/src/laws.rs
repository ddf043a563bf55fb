//! Properties of the engine that span several operations.
use vstd::prelude::*;
use vstd::seq_lib::group_to_multiset_ensures;
use crate::engine::{
    spec_add_item, spec_add_outcome, spec_change_focus, spec_next_hover, spec_next_pointer_state,
    spec_pointer_update, LayoutElementHashMapItem, LayoutElementInteractionState, MapItemOutcome,
    PlyContextView, PointerDataInteractionState,
};
use crate::focus::{
    cycle_index, first_index_of, lemma_tab_order_sorted, spec_cycle_target, tab_order, FocusableEntry,
};
use crate::id::Id;
use crate::elements::{FloatingAttachToElement, FloatingClipToElement};
use crate::engine::{spec_resolve_floating, FloatingConfig, anonymous_offset, flag_at, hit_roots, hit_visit, inside_only, spec_text_value, ClipConfig, ElementConfigType};
use crate::text_cache::{spec_keep_fresh, MeasureTextCacheItem, MeasureTextCacheView, MeasuredWordData};
use vstd::wrapping::u32_specs::{wrapping_add, wrapping_sub};
use crate::scroll::{
    declared_in, first_container_of, has_container_in, lemma_first_container_of, lemma_retain_from, retain_from, spec_declare,
    ScrollContainer,
};
use crate::engine::{spec_arrow_focus, spec_press_hits_text_input, spec_toggle_collapsed, ArrowDirection, FocusChange};
use crate::render::{lemma_roots_prefix, render_root, render_roots, spec_render_steps, RenderFacts};
use crate::tree::{
    is_rearrangement, is_stable_z_order, LayoutElementTreeRoot,
    clip_pops, open_index, spec_attach_clip, spec_begin_configs, spec_close, spec_open, tree_indices_valid, LayoutTreeView,
};

verus! {

/// Declaring the same id a second time within one frame is reported as a
/// duplicate, whatever the map held before the first declaration.
pub proof fn law_duplicate_id_in_frame_is_collision(
    map: Map<u32, LayoutElementHashMapItem>,
    first: Id,
    second: Id,
    first_index: i32,
    generation: u32,
)
    requires
        generation < u32::MAX,
        first.id == second.id,
    ensures
        spec_add_outcome(spec_add_item(map, first, first_index, generation), second, generation)
            == MapItemOutcome::Collision,
{
}

/// An element declared again in the very next frame keeps its hover state.
pub proof fn law_redeclared_next_frame_keeps_hover(
    map: Map<u32, LayoutElementHashMapItem>,
    id: Id,
    first_index: i32,
    second_index: i32,
    generation: u32,
)
    requires
        generation < u32::MAX - 1,
        map.contains_key(id.id) ==> map[id.id].generation <= generation,
    ensures
        ({
            let m1 = spec_add_item(map, id, first_index, generation);
            let m2 = spec_add_item(m1, id, second_index, (generation + 1) as u32);
            &&& spec_add_outcome(m1, id, (generation + 1) as u32) == (MapItemOutcome::Refreshed { hover_reset: false })
            &&& m2[id.id].hover == m1[id.id].hover
            &&& m2[id.id].layout_element_index == second_index
        }),
{
}

/// Focusing an element that already has focus changes nothing.
pub proof fn law_change_focus_idempotent(v: PlyContextView, id: u32)
    ensures
        spec_change_focus(spec_change_focus(v, id), id) == spec_change_focus(v, id),
{
}

/// A button press is reported on exactly one frame, and so is its release:
/// holding the button for two frames reaches `Pressed`, letting it go for two
/// frames reaches `Released`.
pub proof fn law_press_and_release_reported_once(state: PointerDataInteractionState)
    ensures
        spec_next_pointer_state(spec_next_pointer_state(state, true), true) == PointerDataInteractionState::Pressed,
        spec_next_pointer_state(spec_next_pointer_state(state, false), false) == PointerDataInteractionState::Released,
        (spec_next_pointer_state(state, true) == PointerDataInteractionState::PressedThisFrame)
            <==> (state == PointerDataInteractionState::Released || state == PointerDataInteractionState::ReleasedThisFrame),
{
}

/// The elements whose release callbacks fire when the button goes up are
/// exactly the elements that were under the pointer when it went down.
pub proof fn law_release_targets_are_pressed_elements(v: PlyContextView, over_press: Seq<Id>, over_release: Seq<Id>)
    requires
        v.pointer_state == PointerDataInteractionState::Released
            || v.pointer_state == PointerDataInteractionState::ReleasedThisFrame,
    ensures
        ({
            let (v1, _e1) = spec_pointer_update(v, over_press, true);
            let (v2, e2) = spec_pointer_update(v1, over_release, false);
            &&& e2.release_targets == over_press
            &&& v2.pressed_element_ids.len() == 0
        }),
{
}

/// Hovering is reported as new on the first frame only, and leaving on the
/// first frame after only.
pub proof fn law_hover_enter_and_leave_reported_once(h: LayoutElementInteractionState)
    ensures
        spec_next_hover(spec_next_hover(h, true), true).hovered,
        !spec_next_hover(spec_next_hover(h, true), true).just_added,
        !spec_next_hover(spec_next_hover(h, false), false).hovered,
        !spec_next_hover(spec_next_hover(h, false), false).just_removed,
{
}

/// In a tab order where each element occurs once, Shift+Tab after Tab
/// returns focus to where it was.
pub proof fn law_tab_then_shift_tab_returns(entries: Seq<FocusableEntry>, focused: u32)
    requires
        entries.len() > 0,
        forall|i: int, j: int|
            0 <= i < entries.len() && 0 <= j < entries.len() && i != j
                ==> #[trigger] entries[i].element_id != #[trigger] entries[j].element_id,
        exists|i: int| 0 <= i < entries.len() && entries[i].element_id == focused,
    ensures
        spec_cycle_target(entries, spec_cycle_target(entries, focused, false), true) == focused,
        spec_cycle_target(entries, spec_cycle_target(entries, focused, true), false) == focused,
{
    let order = tab_order(entries);
    lemma_tab_order_sorted(entries);
    lemma_unique_ids_in_order(entries);
    let k = choose|i: int| 0 <= i < entries.len() && entries[i].element_id == focused;
    lemma_in_order(entries, k);
    let n = order.len() as int;
    let p = first_index_of(order, focused);
    assert(0 <= p < n);
    let qf = cycle_index(n, p, false);
    let qb = cycle_index(n, p, true);
    lemma_first_index_of_unique(order, qf);
    lemma_first_index_of_unique(order, qb);
}

/// An entry of `entries` occurs in its tab order.
proof fn lemma_in_order(entries: Seq<FocusableEntry>, k: int)
    requires
        0 <= k < entries.len(),
    ensures
        exists|i: int| 0 <= i < tab_order(entries).len() && tab_order(entries)[i] == entries[k],
{
    broadcast use group_to_multiset_ensures;
    lemma_tab_order_sorted(entries);
    assert(entries.to_multiset().contains(entries[k]));
    assert(tab_order(entries).to_multiset().contains(entries[k]));
}

/// When element ids are unique among the entries, they are unique in the tab order.
proof fn lemma_unique_ids_in_order(entries: Seq<FocusableEntry>)
    requires
        forall|i: int, j: int|
            0 <= i < entries.len() && 0 <= j < entries.len() && i != j
                ==> #[trigger] entries[i].element_id != #[trigger] entries[j].element_id,
    ensures
        forall|i: int, j: int|
            0 <= i < tab_order(entries).len() && 0 <= j < tab_order(entries).len() && i != j
                ==> #[trigger] tab_order(entries)[i].element_id != #[trigger] tab_order(entries)[j].element_id,
{
    broadcast use group_to_multiset_ensures;
    let order = tab_order(entries);
    lemma_tab_order_sorted(entries);
    assert forall|i: int, j: int| 0 <= i < entries.len() && 0 <= j < entries.len() && i != j implies entries[i] != entries[j] by {
        assert(entries[i].element_id != entries[j].element_id);
    }
    assert(entries.no_duplicates());
    entries.lemma_multiset_has_no_duplicates();
    assert forall|x: FocusableEntry| order.to_multiset().contains(x) implies order.to_multiset().count(x) == 1 by {
        assert(entries.to_multiset().contains(x));
    }
    order.lemma_multiset_has_no_duplicates_conv();
    assert forall|i: int, j: int|
        0 <= i < order.len() && 0 <= j < order.len() && i != j
            implies #[trigger] order[i].element_id != #[trigger] order[j].element_id by {
        if order[i].element_id == order[j].element_id {
            assert(order.to_multiset().contains(order[i]));
            assert(order.to_multiset().contains(order[j]));
            assert(entries.to_multiset().contains(order[i]));
            assert(entries.to_multiset().contains(order[j]));
            let a = choose|a: int| 0 <= a < entries.len() && entries[a] == order[i];
            let b = choose|b: int| 0 <= b < entries.len() && entries[b] == order[j];
            assert(a == b);
            assert(order[i] == order[j]);
        }
    }
}

/// With unique ids, the first position of the id at position `q` is `q`.
proof fn lemma_first_index_of_unique(order: Seq<FocusableEntry>, q: int)
    requires
        0 <= q < order.len(),
        forall|i: int, j: int|
            0 <= i < order.len() && 0 <= j < order.len() && i != j
                ==> #[trigger] order[i].element_id != #[trigger] order[j].element_id,
    ensures
        first_index_of(order, order[q].element_id) == q,
{
    let id = order[q].element_id;
    assert(order[q].element_id == id);
    let c = choose|c: int| 0 <= c < order.len() && order[c].element_id == id && forall|j: int| 0 <= j < c ==> order[j].element_id != id;
    if c != q {
        assert(order[c].element_id != order[q].element_id);
    }
}


/// A child element that is opened and closed again becomes the last pending
/// child of the element it was declared in, without children of its own, and
/// the open elements and open clipping elements are as before.
pub proof fn law_closed_child_joins_parent(t: LayoutTreeView, id: u32)
    requires
        tree_indices_valid(t),
        t.open_stack.len() >= 2,
        t.elements.len() < i32::MAX,
        t.elements[open_index(t)].children_length < u16::MAX,
    ensures
        ({
            let c = t.elements.len() as int;
            let pi = open_index(t);
            let r = spec_close(spec_open(t, id));
            &&& r.children_buffer == t.children_buffer.push(c as i32)
            &&& r.elements[pi].children_length == t.elements[pi].children_length + 1
            &&& r.elements[c].children_length == 0
            &&& r.elements[c].id == id
            &&& r.open_stack == t.open_stack
            &&& r.open_clip_stack == t.open_clip_stack
            &&& r.children == t.children
        }),
{
    let t1 = spec_open(t, id);
    let c = t.elements.len() as int;
    let m = t.open_stack.len() as int;
    assert(0 <= t.open_stack[m - 1] < t.elements.len());
    assert(open_index(t1) == c);
    assert(t1.open_stack.drop_last() =~= t.open_stack);
    assert(t1.children_buffer.subrange(0, t1.children_buffer.len() as int) =~= t1.children_buffer);
    assert(t1.open_clip_stack.subrange(0, t1.open_clip_stack.len() as int) =~= t1.open_clip_stack);
    assert(t1.children_buffer.subrange(t1.children_buffer.len() as int, t1.children_buffer.len() as int) =~= Seq::<i32>::empty());
    assert(t.children + Seq::<i32>::empty() =~= t.children);
    assert(t1.elements[c].element_configs.length == 0);
}

/// Every child closed inside an element, floating or not, advances the
/// position that the element's next anonymous child gets, so anonymous
/// siblings get distinct ids.
pub proof fn law_closed_child_advances_anonymous_position(t: LayoutTreeView, id: u32)
    requires
        tree_indices_valid(t),
        t.open_stack.len() >= 2,
        t.elements.len() < i32::MAX,
        ({
            let p = t.elements[open_index(t)];
            p.children_length < u16::MAX && p.floating_children_count < u16::MAX
        }),
    ensures
        ({
            let pi = open_index(t);
            let r = spec_close(spec_open(t, id));
            anonymous_offset(r.elements[pi]) == anonymous_offset(t.elements[pi]) + 1
        }),
{
    let t1 = spec_open(t, id);
    assert(t1.open_stack.drop_last() =~= t.open_stack);
}

/// A clipping element that is opened, configured and closed leaves the stack
/// of open clipping elements as it was, and its descendants declared in
/// between are clipped by it.
pub proof fn law_clip_scope_is_balanced(t: LayoutTreeView, id: u32, layout_config_index: usize, clip: ClipConfig, child_id: u32)
    requires
        tree_indices_valid(t),
        t.open_stack.len() >= 2,
        t.elements.len() + 1 < i32::MAX,
        t.element_configs.len() < usize::MAX,
    ensures
        ({
            let t1 = spec_attach_clip(spec_begin_configs(spec_open(t, id), layout_config_index), clip);
            let t2 = spec_open(t1, child_id);
            &&& t2.clip_element_ids.last() == id as i32
            &&& spec_close(t1).open_clip_stack == t.open_clip_stack
        }),
{
    let t0 = spec_open(t, id);
    let tb = spec_begin_configs(t0, layout_config_index);
    let t1 = spec_attach_clip(tb, clip);
    let c = t.elements.len() as int;
    assert(open_index(t0) == c);
    assert(open_index(tb) == c);
    let e = t1.elements[c];
    assert(e.element_configs.start == t.element_configs.len());
    assert(e.element_configs.length == 1);
    assert(t1.element_configs[t.element_configs.len() as int].config_type == ElementConfigType::Clip);
    assert(clip_pops(t1.element_configs, e.element_configs.start as int, e.element_configs.start + 1) == 1);
    assert(t1.open_clip_stack.subrange(0, t1.open_clip_stack.len() - 1) =~= t.open_clip_stack);
}

/// Children are recorded in the order they were declared: an element with
/// two children declared one after the other lists exactly those two, in
/// that order.
pub proof fn law_children_recorded_in_declaration_order(t: LayoutTreeView, parent_id: u32, first_id: u32, second_id: u32)
    requires
        tree_indices_valid(t),
        t.open_stack.len() >= 2,
        t.elements.len() + 3 < i32::MAX,
        t.children.len() < usize::MAX,
    ensures
        ({
            let p = t.elements.len() as int;
            let t1 = spec_open(t, parent_id);
            let t2 = spec_close(spec_open(t1, first_id));
            let t3 = spec_close(spec_open(t2, second_id));
            let r = spec_close(t3);
            let e = r.elements[p];
            &&& e.children_length == 2
            &&& r.children.subrange(e.children_start as int, e.children_start + 2) == seq![(p + 1) as i32, (p + 2) as i32]
        }),
{
    let p = t.elements.len() as int;
    let t1 = spec_open(t, parent_id);
    assert(t1.open_stack.len() >= 2);
    lemma_open_keeps_indices(t, parent_id);
    law_closed_child_joins_parent(t1, first_id);
    let t2 = spec_close(spec_open(t1, first_id));
    lemma_close_open_keeps_indices(t1, first_id);
    law_closed_child_joins_parent(t2, second_id);
    let t3 = spec_close(spec_open(t2, second_id));
    assert(t3.children_buffer == t.children_buffer.push((p + 1) as i32).push((p + 2) as i32));
    assert(t3.elements[p].children_length == 2);
    assert(open_index(t3) == p);
    let r = spec_close(t3);
    let b = t3.children_buffer.len() as int;
    assert(t3.children_buffer.subrange(b - 2, b) =~= seq![(p + 1) as i32, (p + 2) as i32]);
    assert(r.children.subrange(t3.children.len() as int, t3.children.len() as int + 2) =~= seq![(p + 1) as i32, (p + 2) as i32]);
}

/// Opening an element keeps the stored indexes valid.
proof fn lemma_open_keeps_indices(t: LayoutTreeView, id: u32)
    requires
        tree_indices_valid(t),
        t.elements.len() < i32::MAX,
    ensures
        tree_indices_valid(spec_open(t, id)),
{
    let r = spec_open(t, id);
    assert forall|i: int| 0 <= i < r.elements.len() implies {
        let s = #[trigger] r.elements[i].element_configs;
        s.length >= 0 && s.start + s.length <= r.element_configs.len()
    } by {
        if i < t.elements.len() {
            assert(r.elements[i] == t.elements[i]);
        }
    }
    assert forall|k: int| 0 <= k < r.open_stack.len() implies 0 <= #[trigger] r.open_stack[k] < r.elements.len() by {
        if k < t.open_stack.len() {
            assert(r.open_stack[k] == t.open_stack[k]);
        }
    }
}

/// Opening and closing a child of a non-outermost element keeps the stored
/// indexes valid.
proof fn lemma_close_open_keeps_indices(t: LayoutTreeView, id: u32)
    requires
        tree_indices_valid(t),
        t.open_stack.len() >= 2,
        t.elements.len() < i32::MAX,
        t.elements[open_index(t)].children_length < u16::MAX,
    ensures
        tree_indices_valid(spec_close(spec_open(t, id))),
        spec_close(spec_open(t, id)).elements.len() == t.elements.len() + 1,
        spec_close(spec_open(t, id)).open_stack == t.open_stack,
{
    lemma_open_keeps_indices(t, id);
    law_closed_child_joins_parent(t, id);
    let t1 = spec_open(t, id);
    let r = spec_close(t1);
    assert forall|i: int| 0 <= i < r.elements.len() implies {
        let s = #[trigger] r.elements[i].element_configs;
        s.length >= 0 && s.start + s.length <= r.element_configs.len()
    } by {
        assert(r.elements[i].element_configs == t1.elements[i].element_configs);
        let s1 = t1.elements[i].element_configs;
        assert(s1.length >= 0 && s1.start + s1.length <= t1.element_configs.len());
    }
    assert forall|k: int| 0 <= k < r.children_buffer.len() implies 0 <= #[trigger] r.children_buffer[k] < r.elements.len() by {
        if k < t.children_buffer.len() {
            assert(r.children_buffer[k] == t.children_buffer[k]);
        }
    }
    assert forall|k: int| 0 <= k < r.open_stack.len() implies 0 <= #[trigger] r.open_stack[k] < r.elements.len() by {
        assert(r.open_stack[k] == t.open_stack[k]);
    }
    assert forall|k: int| 0 <= k < r.children.len() implies 0 <= #[trigger] r.children[k] < r.elements.len() by {
        assert(r.children[k] == t.children[k]);
    }
}


/// The value of a text input read after it was set is the value set: what
/// setting guarantees of the stored state is what reading returns.
pub proof fn law_text_value_read_after_write(before: PlyContextView, after: PlyContextView, id: u32, value: Seq<char>)
    requires
        after.text_edit_states.contains_key(id),
        after.text_edit_states[id].text@ == value,
    ensures
        spec_text_value(after, id) == value,
{
}

/// Setting one text input's value leaves what every other text input reads.
pub proof fn law_text_value_write_is_local(before: PlyContextView, after: PlyContextView, id: u32, other: u32)
    requires
        other != id,
        after.text_edit_states.remove(id) == before.text_edit_states.remove(id),
    ensures
        spec_text_value(after, other) == spec_text_value(before, other),
{
    assert(after.text_edit_states.remove(id).contains_key(other) == after.text_edit_states.contains_key(other));
    assert(before.text_edit_states.remove(id).contains_key(other) == before.text_edit_states.contains_key(other));
    if after.text_edit_states.contains_key(other) {
        assert(after.text_edit_states.remove(id)[other] == after.text_edit_states[other]);
        assert(before.text_edit_states.remove(id)[other] == before.text_edit_states[other]);
    }
}

/// The words read back for a text just cached are the words it was cached
/// with, and the cache then knows the text.
pub proof fn law_cached_words_read_back<W, D>(
    before: MeasureTextCacheView<W, D>,
    after: MeasureTextCacheView<W, D>,
    id: u32,
    item: MeasureTextCacheItem<D>,
    words: Seq<MeasuredWordData<W>>,
)
    requires
        after.items == before.items.insert(id, item),
        after.texts == before.texts.insert(id, words),
    ensures
        after.items.contains_key(id),
        after.texts[id] == words,
{
}

/// A text measured or looked up in frame `generation` survives the
/// evictions that start the next two frames and is dropped by the third,
/// unless it is used again (frame numbers count modulo 2^32).
pub proof fn law_measurement_kept_two_frames<D>(items: Map<u32, MeasureTextCacheItem<D>>, id: u32, generation: u32)
    requires
        items.contains_key(id),
        items[id].generation == generation,
    ensures
        spec_keep_fresh(items, items, wrapping_add(generation, 1)).contains_key(id),
        spec_keep_fresh(items, items, wrapping_add(generation, 2)).contains_key(id),
        !spec_keep_fresh(items, items, wrapping_add(generation, 3)).contains_key(id),
{
    assert(wrapping_sub(wrapping_add(generation, 1), generation) == 1);
    assert(wrapping_sub(wrapping_add(generation, 2), generation) == 2);
    assert(wrapping_sub(wrapping_add(generation, 3), generation) == 3);
}


/// After a frame, the scroll containers kept are exactly those whose element
/// was declared in that frame, all ready to be declared again.
pub proof fn law_scroll_containers_kept_iff_declared<F>(s: Seq<ScrollContainer<F>>, id: u32)
    ensures
        has_container_in(retain_from(s, 0), 0, retain_from(s, 0).len() as int, id) <==> declared_in(s, 0, s.len() as int, id),
        forall|j: int| 0 <= j < retain_from(s, 0).len() ==> !(#[trigger] retain_from(s, 0)[j]).open_this_frame,
{
    lemma_retain_from(s, 0);
    assert(!has_container_in(s, 0, 0, id));
}

/// Declaring a scrolling element marks its container as declared this frame,
/// so that it is kept.
pub proof fn law_declared_scroll_container_is_kept<F>(s: Seq<ScrollContainer<F>>, id: u32, index: i32, fresh: F)
    ensures
        declared_in(spec_declare(s, id, index, fresh), 0, spec_declare(s, id, index, fresh).len() as int, id),
{
    lemma_first_container_of(s, id);
    let r = spec_declare(s, id, index, fresh);
    let p = first_container_of(s, id);
    if p >= 0 {
        assert(r[p].open_this_frame && r[p].element_id == id);
    } else {
        assert(r[s.len() as int].open_this_frame && r[s.len() as int].element_id == id);
    }
}


/// A layout root that captures the pointer hides everything below it: when
/// the pointer is over something under the topmost root and that root
/// captures, the hit test visits that root's elements only.
pub proof fn law_capturing_root_hides_lower_roots(v: PlyContextView, inside: Seq<bool>, captures: Seq<bool>)
    requires
        v.tree.tree_roots.len() > 0,
        ({
            let n = v.tree.tree_roots.len() as int;
            let top = hit_visit(v, v.tree.tree_roots[n - 1].layout_element_index as int);
            inside_only(top, inside).len() > 0 && flag_at(captures, n - 1)
        }),
    ensures
        hit_roots(v, inside, captures, v.tree.tree_roots.len() as int)
            == hit_visit(v, v.tree.tree_roots[v.tree.tree_roots.len() - 1].layout_element_index as int),
{
}


/// Attaching to the parent is the default: a floating configuration given no
/// attachment floats exactly as one attached to the parent does.
pub proof fn law_floating_attaches_to_parent_by_default(v: PlyContextView, config: FloatingConfig)
    requires
        config.attach_to == FloatingAttachToElement::Unattached,
    ensures
        spec_resolve_floating(v, config)
            == spec_resolve_floating(v, FloatingConfig { attach_to: FloatingAttachToElement::Parent, ..config }),
{
}

/// Once the tree roots are sorted by z-index, a frame draws them root after
/// root by ascending z-index: all the steps of a root come, unbroken, before
/// those of any root above it.
pub proof fn law_roots_drawn_in_z_order(
    declared: Seq<LayoutElementTreeRoot>,
    v: PlyContextView,
    facts: Seq<RenderFacts>,
    focus_ring: bool,
    i: int,
    j: int,
)
    requires
        is_stable_z_order(declared, v.tree.tree_roots),
        0 <= i < j < v.tree.tree_roots.len(),
    ensures
        v.tree.tree_roots[i].z_index <= v.tree.tree_roots[j].z_index,
        ({
            let steps = spec_render_steps(v, facts, focus_ring);
            let start = render_roots(v, facts, i).len() as int;
            let end = start + render_root(v, facts, i).len();
            &&& end <= render_roots(v, facts, j).len()
            &&& steps.subrange(start, end) == render_root(v, facts, i)
            &&& steps.subrange(render_roots(v, facts, j).len() as int, render_roots(v, facts, j + 1).len() as int)
                == render_root(v, facts, j)
        }),
{
    let n = v.tree.tree_roots.len() as int;
    let steps = spec_render_steps(v, facts, focus_ring);
    let perm = choose|perm: Seq<int>| #[trigger] is_rearrangement(declared, v.tree.tree_roots, perm) && forall|a: int, b: int|
        0 <= a < b < v.tree.tree_roots.len() ==> #[trigger] v.tree.tree_roots[a].z_index < #[trigger] v.tree.tree_roots[b].z_index
            || (v.tree.tree_roots[a].z_index == v.tree.tree_roots[b].z_index && perm[a] < perm[b]);
    assert(v.tree.tree_roots[i].z_index < v.tree.tree_roots[j].z_index
        || v.tree.tree_roots[i].z_index == v.tree.tree_roots[j].z_index);
    lemma_roots_prefix(v, facts, i + 1, j);
    lemma_roots_prefix(v, facts, i + 1, n);
    lemma_roots_prefix(v, facts, j + 1, n);
    let all = render_roots(v, facts, n);
    assert(steps.subrange(0, all.len() as int) =~= all);
    let pi = render_roots(v, facts, i);
    let bi = render_root(v, facts, i);
    assert(render_roots(v, facts, i + 1) == pi + bi);
    assert(steps.subrange(pi.len() as int, (pi.len() + bi.len()) as int) =~= bi) by {
        assert(all.subrange(0, (pi + bi).len() as int) == pi + bi);
        assert forall|x: int| 0 <= x < bi.len() implies steps.subrange(pi.len() as int, (pi.len() + bi.len()) as int)[x] == bi[x] by {
            assert(steps[pi.len() + x] == all[pi.len() + x]);
            assert(all.subrange(0, (pi + bi).len() as int)[pi.len() + x] == (pi + bi)[pi.len() + x]);
        }
    }
    let pj = render_roots(v, facts, j);
    let bj = render_root(v, facts, j);
    assert(render_roots(v, facts, j + 1) == pj + bj);
    assert(steps.subrange(pj.len() as int, (pj.len() + bj.len()) as int) =~= bj) by {
        assert(all.subrange(0, (pj + bj).len() as int) == pj + bj);
        assert forall|x: int| 0 <= x < bj.len() implies steps.subrange(pj.len() as int, (pj.len() + bj.len()) as int)[x] == bj[x] by {
            assert(steps[pj.len() + x] == all[pj.len() + x]);
            assert(all.subrange(0, (pj + bj).len() as int)[pj.len() + x] == (pj + bj)[pj.len() + x]);
        }
    }
}

/// Pressing an element's collapse button twice in the debug view leaves it
/// as it was.
pub proof fn law_toggle_collapsed_twice_restores(v: PlyContextView, id: u32)
    ensures
        spec_toggle_collapsed(spec_toggle_collapsed(v, id), id) == v,
{
    if v.element_map.contains_key(id) {
        let once = spec_toggle_collapsed(v, id);
        assert(once.element_map[id] == LayoutElementHashMapItem { collapsed: !v.element_map[id].collapsed, ..v.element_map[id] });
        assert(spec_toggle_collapsed(once, id).element_map =~= v.element_map);
    }
}

/// An arrow key moves focus to the focused element's neighbour named by the
/// key (Up to `focus_up`, Down to `focus_down`, Left to `focus_left`, Right to
/// `focus_right`), and keeps focus where it is when that neighbour is unset.
pub proof fn law_arrow_key_follows_named_neighbour(v: PlyContextView)
    requires
        v.focused_element_id != 0,
        v.focus_neighbors.contains_key(v.focused_element_id),
    ensures
        ({
            let f = v.focused_element_id;
            let n = v.focus_neighbors[f];
            &&& spec_arrow_focus(v, ArrowDirection::Up).1 == FocusChange {
                previous: f,
                current: match n.focus_up { Some(t) => t, None => f },
            }
            &&& spec_arrow_focus(v, ArrowDirection::Down).1 == FocusChange {
                previous: f,
                current: match n.focus_down { Some(t) => t, None => f },
            }
            &&& spec_arrow_focus(v, ArrowDirection::Left).1 == FocusChange {
                previous: f,
                current: match n.focus_left { Some(t) => t, None => f },
            }
            &&& spec_arrow_focus(v, ArrowDirection::Right).1 == FocusChange {
                previous: f,
                current: match n.focus_right { Some(t) => t, None => f },
            }
            &&& spec_arrow_focus(v, ArrowDirection::Down).0.focused_element_id
                == match n.focus_down { Some(t) => t, None => f }
            &&& spec_arrow_focus(v, ArrowDirection::Up).0.focused_element_id
                == match n.focus_up { Some(t) => t, None => f }
        }),
{
}

/// Between two elements that name each other as neighbours below and
/// above, Down moves focus from the first to the second and Up brings it
/// back; likewise Right and Left between neighbours side by side.
pub proof fn law_arrow_keys_round_trip(v: PlyContextView, a: u32, b: u32)
    requires
        v.focused_element_id == a,
        a != 0,
        b != 0,
        v.focus_neighbors.contains_key(a),
        v.focus_neighbors.contains_key(b),
    ensures
        v.focus_neighbors[a].focus_down == Some(b) && v.focus_neighbors[b].focus_up == Some(a) ==> {
            let down = spec_arrow_focus(v, ArrowDirection::Down).0;
            &&& down.focused_element_id == b
            &&& spec_arrow_focus(down, ArrowDirection::Up).0.focused_element_id == a
        },
        v.focus_neighbors[a].focus_right == Some(b) && v.focus_neighbors[b].focus_left == Some(a) ==> {
            let right = spec_arrow_focus(v, ArrowDirection::Right).0;
            &&& right.focused_element_id == b
            &&& spec_arrow_focus(right, ArrowDirection::Left).0.focused_element_id == a
        },
{
}

/// A press that does not land on a text input keeps focus where it is when
/// any element under the pointer, at any depth, keeps focus when pressed
/// (such as the text inside a toolbar button that keeps focus).
pub proof fn law_press_on_focus_keeping_element_keeps_focus(o: PlyContextView, over: Seq<Id>, i: int)
    requires
        0 <= i < over.len(),
        o.element_map.contains_key(over[i].id),
        o.element_map[over[i].id].preserve_focus,
        spec_next_pointer_state(o.pointer_state, true) == PointerDataInteractionState::PressedThisFrame,
        !spec_press_hits_text_input(o.element_map, over),
    ensures
        spec_pointer_update(o, over, true).0.focused_element_id == o.focused_element_id,
        spec_pointer_update(o, over, true).1.focus == (FocusChange {
            previous: o.focused_element_id,
            current: o.focused_element_id,
        }),
{
}

/// A press that does not land on a text input, with no element under the
/// pointer that keeps focus, clears focus.
pub proof fn law_press_elsewhere_clears_focus(o: PlyContextView, over: Seq<Id>)
    requires
        forall|i: int| 0 <= i < over.len() && o.element_map.contains_key(#[trigger] over[i].id) ==> !o.element_map[over[i].id].preserve_focus,
        spec_next_pointer_state(o.pointer_state, true) == PointerDataInteractionState::PressedThisFrame,
        !spec_press_hits_text_input(o.element_map, over),
    ensures
        spec_pointer_update(o, over, true).0.focused_element_id == 0,
        spec_pointer_update(o, over, true).1.focus == (FocusChange { previous: o.focused_element_id, current: 0 }),
{
}

/// A floating element attached to its parent (the default) and clipped by
/// it is clipped by the same element that clips a plain child declared at
/// the same place: the innermost open clipping element, if any.
pub proof fn law_floating_child_clipped_like_plain_child(v: PlyContextView, config: FloatingConfig, child_id: u32)
    requires
        v.tree.open_stack.len() >= 2,
        config.attach_to == FloatingAttachToElement::Parent || config.attach_to == FloatingAttachToElement::Unattached,
        config.clip_to != FloatingClipToElement::Unclipped,
    ensures
        spec_resolve_floating(v, config) == Some((
            v.tree.elements[v.tree.open_stack[v.tree.open_stack.len() - 2] as int].id,
            spec_open(v.tree, child_id).clip_element_ids.last() as u32,
        )),
        v.tree.open_clip_stack.len() > 0 ==> spec_resolve_floating(v, config) == Some((
            v.tree.elements[v.tree.open_stack[v.tree.open_stack.len() - 2] as int].id,
            v.tree.open_clip_stack.last() as u32,
        )),
{
}

/// A floating element declared directly inside an element that clips its
/// content (such as a scroll container) is attached to that element and
/// clipped by it.
pub proof fn law_floating_inside_clip_is_clipped_by_it(
    v: PlyContextView,
    id: u32,
    layout_config_index: usize,
    clip: ClipConfig,
    child_id: u32,
    config: FloatingConfig,
)
    requires
        tree_indices_valid(v.tree),
        v.tree.open_stack.len() >= 2,
        v.tree.elements.len() + 1 < i32::MAX,
        config.attach_to == FloatingAttachToElement::Parent || config.attach_to == FloatingAttachToElement::Unattached,
        config.clip_to != FloatingClipToElement::Unclipped,
    ensures
        ({
            let t1 = spec_attach_clip(spec_begin_configs(spec_open(v.tree, id), layout_config_index), clip);
            let v2 = PlyContextView { tree: spec_open(t1, child_id), ..v };
            spec_resolve_floating(v2, config) == Some((id, id))
        }),
{
    let t0 = spec_open(v.tree, id);
    let tb = spec_begin_configs(t0, layout_config_index);
    let t1 = spec_attach_clip(tb, clip);
    let t2 = spec_open(t1, child_id);
    let c = v.tree.elements.len() as int;
    assert(open_index(t0) == c);
    assert(open_index(tb) == c);
    assert(t1.elements[c].id == id);
    assert(t2.open_stack[t2.open_stack.len() - 2] == c);
    assert(t1.open_clip_stack.last() == id as i32);
    assert((id as i32) as u32 == id) by (bit_vector);
}

} // verus!
