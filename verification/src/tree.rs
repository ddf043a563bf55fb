//! The element tree of a frame. Elements are declared depth first: opening
//! an element pushes it on the open stack, closing it pops it and hands its
//! children, collected in declaration order, to a contiguous run of the
//! children list. While an element is open, the children it has so far wait
//! at the end of the children buffer. Sizes are computed by the caller from
//! the structure recorded here.
use vstd::prelude::*;
use crate::engine::{ClipConfig, ElementConfig, ElementConfigType, element_has_config, first_config_pos, find_element_config_index, lemma_first_config_pos};

verus! {

/// The configurations of an element: `length` entries of the configuration
/// list, starting at `start`.
#[derive(Debug, Clone, Copy, PartialEq, Eq, Structural)]
pub struct ElementConfigSlice {
    pub start: usize,
    pub length: i32,
}

/// The structural part of a layout element: where its children and
/// configurations are, which layout configuration and text it uses, and its id.
#[derive(Debug, Clone, Copy, PartialEq, Eq, Structural)]
pub struct LayoutElement {
    pub children_start: usize,
    pub children_length: u16,
    /// Index of the element's text data, or -1 for an element without text.
    pub text_data_index: i32,
    pub layout_config_index: usize,
    pub element_configs: ElementConfigSlice,
    pub id: u32,
    pub floating_children_count: u16,
}

/// The root of a separately laid out subtree: the layout root itself, or a
/// floating element with the element it is attached to, the element that
/// clips it (0 for none) and its stacking order.
#[derive(Debug, Clone, Copy, PartialEq, Eq, Structural)]
pub struct LayoutElementTreeRoot {
    pub layout_element_index: i32,
    pub parent_id: u32,
    pub clip_element_id: u32,
    pub z_index: i16,
}

/// What closing an element settled: the element, its children (a run of the
/// children list), whether it clips its content on each axis, and whether it
/// floats (and so is not a child of its parent).
#[derive(Debug, Clone, Copy, PartialEq, Eq, Structural)]
pub struct ClosedElement {
    pub element_index: usize,
    pub children_start: usize,
    pub children_length: u16,
    pub clip_horizontal: bool,
    pub clip_vertical: bool,
    pub is_floating: bool,
}

/// The abstract state of the element tree.
pub struct LayoutTreeView {
    pub elements: Seq<LayoutElement>,
    /// Indexes of the open elements, innermost last.
    pub open_stack: Seq<i32>,
    /// The children of the open elements that are not yet closed.
    pub children_buffer: Seq<i32>,
    /// The children of closed elements, each element's children in one run.
    pub children: Seq<i32>,
    pub element_configs: Seq<ElementConfig>,
    pub clip_configs: Seq<ClipConfig>,
    /// For each element, the id of the element that clips it (0 for none).
    pub clip_element_ids: Seq<i32>,
    /// The ids of the clipping elements that are open, innermost last.
    pub open_clip_stack: Seq<i32>,
    pub tree_roots: Seq<LayoutElementTreeRoot>,
}

pub struct LayoutTree {
    elements: Vec<LayoutElement>,
    open_stack: Vec<i32>,
    children_buffer: Vec<i32>,
    children: Vec<i32>,
    element_configs: Vec<ElementConfig>,
    clip_configs: Vec<ClipConfig>,
    clip_element_ids: Vec<i32>,
    open_clip_stack: Vec<i32>,
    tree_roots: Vec<LayoutElementTreeRoot>,
}

impl View for LayoutTree {
    type V = LayoutTreeView;

    closed spec fn view(&self) -> LayoutTreeView {
        LayoutTreeView {
            elements: self.elements@,
            open_stack: self.open_stack@,
            children_buffer: self.children_buffer@,
            children: self.children@,
            element_configs: self.element_configs@,
            clip_configs: self.clip_configs@,
            clip_element_ids: self.clip_element_ids@,
            open_clip_stack: self.open_clip_stack@,
            tree_roots: self.tree_roots@,
        }
    }
}

/// The tree holds nothing.
pub open spec fn is_empty_tree(t: LayoutTreeView) -> bool {
    &&& t.elements.len() == 0
    &&& t.open_stack.len() == 0
    &&& t.children_buffer.len() == 0
    &&& t.children.len() == 0
    &&& t.element_configs.len() == 0
    &&& t.clip_configs.len() == 0
    &&& t.clip_element_ids.len() == 0
    &&& t.open_clip_stack.len() == 0
    &&& t.tree_roots.len() == 0
}

/// The sum of a sequence of counts.
pub open spec fn count_sum(s: Seq<nat>) -> nat
    decreases s.len(),
{
    if s.len() == 0 {
        0
    } else {
        count_sum(s.drop_last()) + s.last()
    }
}

/// A new element with id `id`: no children, no text, no configurations.
pub open spec fn spec_new_element(id: u32) -> LayoutElement {
    LayoutElement {
        children_start: 0,
        children_length: 0,
        text_data_index: -1i32,
        layout_config_index: 0,
        element_configs: ElementConfigSlice { start: 0, length: 0 },
        id,
        floating_children_count: 0,
    }
}

/// The id of the innermost open clipping element, or 0.
pub open spec fn current_clip(t: LayoutTreeView) -> i32 {
    if t.open_clip_stack.len() > 0 { t.open_clip_stack.last() } else { 0 }
}

/// The tree after opening a new element with id `id` inside the open ones.
pub open spec fn spec_open(t: LayoutTreeView, id: u32) -> LayoutTreeView {
    LayoutTreeView {
        elements: t.elements.push(spec_new_element(id)),
        open_stack: t.open_stack.push(t.elements.len() as i32),
        clip_element_ids: t.clip_element_ids.push(current_clip(t)),
        ..t
    }
}

/// The facts about the tree that hold between operations: every stored index
/// points at an element, every element's configurations lie in the
/// configuration list, and every clip configuration reference is valid.
pub open spec fn tree_indices_valid(t: LayoutTreeView) -> bool {
    &&& t.elements.len() <= i32::MAX
    &&& t.clip_element_ids.len() == t.elements.len()
    &&& forall|k: int| 0 <= k < t.open_stack.len() ==> 0 <= #[trigger] t.open_stack[k] < t.elements.len()
    &&& forall|k: int| 0 <= k < t.children_buffer.len() ==> 0 <= #[trigger] t.children_buffer[k] < t.elements.len()
    &&& forall|k: int| 0 <= k < t.children.len() ==> 0 <= #[trigger] t.children[k] < t.elements.len()
    &&& forall|i: int| 0 <= i < t.elements.len() ==> {
        let s = #[trigger] t.elements[i].element_configs;
        s.length >= 0 && s.start + s.length <= t.element_configs.len()
    }
    &&& forall|c: int| 0 <= c < t.element_configs.len() && (#[trigger] t.element_configs[c]).config_type == ElementConfigType::Clip
        ==> t.element_configs[c].config_index < t.clip_configs.len()
}


/// The tree with element `i` replaced by `e`.
pub open spec fn with_element(t: LayoutTreeView, i: int, e: LayoutElement) -> LayoutTreeView {
    LayoutTreeView { elements: t.elements.update(i, e), ..t }
}

/// The index of the innermost open element.
pub open spec fn open_index(t: LayoutTreeView) -> int {
    t.open_stack.last() as int
}

/// The tree after starting the configuration of the innermost open element:
/// it uses layout configuration `layout_config_index`, and its configurations
/// start at the end of the configuration list.
pub open spec fn spec_begin_configs(t: LayoutTreeView, layout_config_index: usize) -> LayoutTreeView {
    let i = open_index(t);
    let e = t.elements[i];
    with_element(t, i, LayoutElement {
        layout_config_index,
        element_configs: ElementConfigSlice { start: t.element_configs.len() as usize, length: e.element_configs.length },
        ..e
    })
}

/// The tree after attaching a configuration of kind `config_type`, stored at
/// `config_index`, to the innermost open element.
pub open spec fn spec_attach(t: LayoutTreeView, config_type: ElementConfigType, config_index: usize) -> LayoutTreeView {
    let i = open_index(t);
    let e = t.elements[i];
    LayoutTreeView {
        elements: t.elements.update(i, LayoutElement {
            element_configs: ElementConfigSlice {
                start: e.element_configs.start,
                length: (e.element_configs.length + 1) as i32,
            },
            ..e
        }),
        element_configs: t.element_configs.push(ElementConfig { config_type, config_index }),
        ..t
    }
}


/// The tree after making the innermost open element clip its content with
/// `clip`: the clip configuration is stored and attached, and the element
/// becomes the innermost open clipping element.
pub open spec fn spec_attach_clip(t: LayoutTreeView, clip: ClipConfig) -> LayoutTreeView {
    let t1 = LayoutTreeView { clip_configs: t.clip_configs.push(clip), ..t };
    let t2 = spec_attach(t1, ElementConfigType::Clip, t.clip_configs.len() as usize);
    LayoutTreeView {
        open_clip_stack: t2.open_clip_stack.push(t.elements[open_index(t)].id as i32),
        ..t2
    }
}

/// The tree after making the innermost open element float: it is clipped by
/// `clip_element_id` (0 for none), which also becomes the innermost open
/// clipping element, it starts a new tree root attached to `parent_id`, and
/// its floating configuration (stored at `config_index`) is attached.
pub open spec fn spec_attach_floating(
    t: LayoutTreeView,
    parent_id: u32,
    clip_element_id: u32,
    z_index: i16,
    config_index: usize,
) -> LayoutTreeView {
    let i = open_index(t);
    let t1 = LayoutTreeView {
        clip_element_ids: t.clip_element_ids.update(i, clip_element_id as i32),
        open_clip_stack: t.open_clip_stack.push(clip_element_id as i32),
        tree_roots: t.tree_roots.push(LayoutElementTreeRoot {
            layout_element_index: i as i32,
            parent_id,
            clip_element_id,
            z_index,
        }),
        ..t
    };
    spec_attach(t1, ElementConfigType::Floating, config_index)
}

/// The tree after declaring a text element with id `id` as the next child of
/// the innermost open element: the element holds text data
/// `text_data_index`, uses layout configuration `layout_config_index`, and
/// has one configuration, its text configuration `text_config_index`.
pub open spec fn spec_open_text(
    t: LayoutTreeView,
    id: u32,
    text_data_index: i32,
    text_config_index: usize,
    layout_config_index: usize,
) -> LayoutTreeView {
    let pi = open_index(t);
    let p = t.elements[pi];
    let text_index = t.elements.len();
    LayoutTreeView {
        elements: t.elements.update(pi, LayoutElement { children_length: (p.children_length + 1) as u16, ..p }).push(
            LayoutElement {
                children_start: 0,
                children_length: 0,
                text_data_index,
                layout_config_index,
                element_configs: ElementConfigSlice { start: t.element_configs.len() as usize, length: 1 },
                id,
                floating_children_count: 0,
            },
        ),
        children_buffer: t.children_buffer.push(text_index as i32),
        element_configs: t.element_configs.push(ElementConfig { config_type: ElementConfigType::Text, config_index: text_config_index }),
        clip_element_ids: t.clip_element_ids.push(current_clip(t)),
        ..t
    }
}

/// The tree at the start of a frame: only the root element, with id
/// `root_id` and layout configuration 0, open (twice: as the outermost
/// element and as the parent of the top-level elements), and the root as the
/// only tree root.
pub open spec fn spec_root_tree(root_id: u32) -> LayoutTreeView {
    LayoutTreeView {
        elements: seq![spec_new_element(root_id)],
        open_stack: seq![0i32, 0i32],
        children_buffer: Seq::empty(),
        children: Seq::empty(),
        element_configs: Seq::empty(),
        clip_configs: Seq::empty(),
        clip_element_ids: seq![0i32],
        open_clip_stack: Seq::empty(),
        tree_roots: seq![LayoutElementTreeRoot { layout_element_index: 0, parent_id: 0, clip_element_id: 0, z_index: 0 }],
    }
}


/// How many entries closing an element pops off the open clipping stack,
/// scanning its configurations `configs[i..end]` in order: one for each
/// floating configuration, up to and including the first clip configuration.
pub open spec fn clip_pops(configs: Seq<ElementConfig>, i: int, end: int) -> nat
    decreases end - i,
{
    if i >= end {
        0
    } else if configs[i].config_type == ElementConfigType::Clip {
        1
    } else if configs[i].config_type == ElementConfigType::Floating {
        1 + clip_pops(configs, i + 1, end)
    } else {
        clip_pops(configs, i + 1, end)
    }
}

/// Whether element `e` has a configuration of kind `kind`.
pub open spec fn has_config(t: LayoutTreeView, e: LayoutElement, kind: ElementConfigType) -> bool {
    first_config_pos(t.element_configs, e.element_configs.start as int, e.element_configs.length as int, kind) >= 0
}

/// The clip configuration of element `e`: that of its first clip configuration.
pub open spec fn clip_of(t: LayoutTreeView, e: LayoutElement) -> Option<ClipConfig> {
    let c = first_config_pos(t.element_configs, e.element_configs.start as int, e.element_configs.length as int, ElementConfigType::Clip);
    if c >= 0 { Some(t.clip_configs[t.element_configs[c].config_index as int]) } else { None }
}

/// The open element that the innermost open element is declared in, when
/// that is not the outermost one.
pub open spec fn closing_parent(t: LayoutTreeView) -> Option<int> {
    if t.open_stack.len() > 2 { Some(t.open_stack[t.open_stack.len() - 2] as int) } else { None }
}

/// An element is open, and its pending children are in the children buffer:
/// either it is inside another open element, or it is the only open element
/// and has no children.
pub open spec fn can_close(t: LayoutTreeView) -> bool {
    ||| t.open_stack.len() >= 2
    ||| t.open_stack.len() == 1 && t.elements[open_index(t)].children_length == 0
}

/// Closing the innermost open element does not overflow its parent's count
/// of children (or of floating children, for a floating element).
pub open spec fn close_fits(t: LayoutTreeView) -> bool {
    let e = t.elements[open_index(t)];
    match closing_parent(t) {
        Some(pi) => if has_config(t, e, ElementConfigType::Floating) {
            t.elements[pi].floating_children_count < u16::MAX
        } else {
            t.elements[pi].children_length < u16::MAX
        },
        None => true,
    }
}

/// What closing the innermost open element reports.
pub open spec fn spec_closed_info(t: LayoutTreeView) -> ClosedElement {
    let i = open_index(t);
    let e = t.elements[i];
    let clip = clip_of(t, e);
    ClosedElement {
        element_index: i as usize,
        children_start: t.children.len() as usize,
        children_length: e.children_length,
        clip_horizontal: match clip { Some(c) => c.horizontal, None => false },
        clip_vertical: match clip { Some(c) => c.vertical, None => false },
        is_floating: has_config(t, e, ElementConfigType::Floating),
    }
}

/// The tree after closing the innermost open element: its pending children
/// (the last `children_length` entries of the children buffer) move, in
/// order, to the end of the children list, where it records them; the
/// clipping elements it opened are closed; and, unless its parent is the
/// outermost element, it becomes a pending child of its parent (or, if it
/// floats, is counted among the parent's floating children).
pub open spec fn spec_close(t: LayoutTreeView) -> LayoutTreeView {
    let i = open_index(t);
    let e = t.elements[i];
    let n = e.children_length as int;
    let b = t.children_buffer.len() as int;
    let s = e.element_configs;
    let pops = clip_pops(t.element_configs, s.start as int, s.start + s.length);
    let clip_len = t.open_clip_stack.len() as int;
    let elements1 = t.elements.update(i, LayoutElement { children_start: t.children.len() as usize, ..e });
    let buffer1 = t.children_buffer.subrange(0, b - n);
    let base = LayoutTreeView {
        elements: elements1,
        open_stack: t.open_stack.drop_last(),
        children_buffer: buffer1,
        children: t.children + t.children_buffer.subrange(b - n, b),
        open_clip_stack: t.open_clip_stack.subrange(0, if pops <= clip_len { clip_len - pops } else { 0 }),
        ..t
    };
    match closing_parent(t) {
        Some(pi) => {
            let p = elements1[pi];
            if has_config(t, e, ElementConfigType::Floating) {
                with_element(base, pi, LayoutElement { floating_children_count: (p.floating_children_count + 1) as u16, ..p })
            } else {
                LayoutTreeView {
                    elements: elements1.update(pi, LayoutElement { children_length: (p.children_length + 1) as u16, ..p }),
                    children_buffer: buffer1.push(i as i32),
                    ..base
                }
            }
        },
        None => base,
    }
}


/// The invariant of the tree with `p` counting the pending children of each
/// open stack position.
spec fn tree_wf(t: LayoutTreeView, p: Seq<nat>) -> bool {
    &&& tree_indices_valid(t)
    &&& p.len() == t.open_stack.len()
    &&& count_sum(p) == t.children_buffer.len()
    &&& (p.len() > 0 ==> p[0] == 0)
    &&& forall|k: int| 1 <= k < p.len() ==> #[trigger] p[k] == t.elements[t.open_stack[k] as int].children_length
    &&& forall|a: int, b: int| 1 <= a < b < t.open_stack.len() ==> #[trigger] t.open_stack[a] < #[trigger] t.open_stack[b]
}

/// How many entries of the children buffer belong to each open stack
/// position: none to the outermost, and to each other the children its
/// element has so far.
pub open spec fn pending_counts(t: LayoutTreeView) -> Seq<nat> {
    Seq::new(t.open_stack.len(), |k: int| if k == 0 { 0nat } else { t.elements[t.open_stack[k] as int].children_length as nat })
}

/// The invariant of the tree: the stored indexes are valid, and the children
/// buffer holds exactly the pending children of the open elements.
pub closed spec fn tree_view_wf(t: LayoutTreeView) -> bool {
    tree_wf(t, pending_counts(t))
}

/// Counts that satisfy the invariant are the pending counts.
proof fn lemma_wf_from(t: LayoutTreeView, p: Seq<nat>)
    requires
        tree_wf(t, p),
    ensures
        tree_view_wf(t),
{
    assert(p =~= pending_counts(t));
}

/// Children indexes stay valid while the children list is unchanged and
/// elements are only added.
proof fn lemma_children_valid(o: LayoutTreeView, t: LayoutTreeView)
    requires
        tree_indices_valid(o),
        t.children == o.children,
        o.elements.len() <= t.elements.len(),
    ensures
        forall|k: int| 0 <= k < t.children.len() ==> 0 <= #[trigger] t.children[k] < t.elements.len(),
{
    assert forall|k: int| 0 <= k < t.children.len() implies 0 <= #[trigger] t.children[k] < t.elements.len() by {
        assert(t.children[k] == o.children[k]);
    }
}

/// The pending-children counts after closing the innermost open element.
spec fn spec_close_pending(t: LayoutTreeView, p: Seq<nat>) -> Seq<nat> {
    let p1 = p.drop_last();
    match closing_parent(t) {
        Some(pi) => if has_config(t, t.elements[open_index(t)], ElementConfigType::Floating) {
            p1
        } else {
            p1.update(p1.len() - 1, p1.last() + 1)
        },
        None => p1,
    }
}

/// Closing keeps the invariant.
#[verifier::rlimit(80)]
proof fn lemma_close_keeps_wf(t: LayoutTreeView, p: Seq<nat>)
    requires
        tree_wf(t, p),
        can_close(t),
        close_fits(t),
    ensures
        tree_wf(spec_close(t), spec_close_pending(t, p)),
{
    let m = t.open_stack.len() as int;
    let i = open_index(t);
    let e = t.elements[i];
    let n = e.children_length as int;
    let b = t.children_buffer.len() as int;
    let r = spec_close(t);
    let q = spec_close_pending(t, p);
    assert(0 <= t.open_stack[m - 1] < t.elements.len());
    assert(p[m - 1] == e.children_length);
    assert(count_sum(p) == count_sum(p.drop_last()) + p[m - 1]);
    let p1 = p.drop_last();
    if m > 2 {
        assert(t.open_stack[m - 2] < t.open_stack[m - 1]);
        let l = p1.len() - 1;
        let p2 = p1.update(l, p1.last() + 1);
        assert(p2.drop_last() =~= p1.drop_last());
        assert(count_sum(p1) == count_sum(p1.drop_last()) + p1.last());
    }
    assert forall|k: int| 1 <= k < q.len() implies #[trigger] q[k] == r.elements[r.open_stack[k] as int].children_length by {
        assert(p[k] == t.elements[t.open_stack[k] as int].children_length);
        assert(t.open_stack[k] < t.open_stack[m - 1]);
        if k < m - 2 {
            assert(t.open_stack[k] < t.open_stack[m - 2]);
        }
    }
    assert forall|k: int| 0 <= k < r.children.len() implies 0 <= #[trigger] r.children[k] < r.elements.len() by {
        if k < t.children.len() {
            assert(r.children[k] == t.children[k]);
        } else {
            assert(r.children[k] == t.children_buffer[b - n + (k - t.children.len())]);
        }
    }
    assert forall|k: int| 0 <= k < r.children_buffer.len() implies 0 <= #[trigger] r.children_buffer[k] < r.elements.len() by {
        if k < b - n {
            assert(r.children_buffer[k] == t.children_buffer[k]);
        }
    }
    assert forall|k: int| 0 <= k < r.open_stack.len() implies 0 <= #[trigger] r.open_stack[k] < r.elements.len() by {
        assert(r.open_stack[k] == t.open_stack[k]);
    }
    assert forall|x: int| 0 <= x < r.elements.len() implies {
        let sl = #[trigger] r.elements[x].element_configs;
        sl.length >= 0 && sl.start + sl.length <= r.element_configs.len()
    } by {
        let s0 = t.elements[x].element_configs;
        assert(s0.length >= 0 && s0.start + s0.length <= t.element_configs.len());
    }
    assert forall|a: int, c: int| 1 <= a < c < r.open_stack.len() implies #[trigger] r.open_stack[a] < #[trigger] r.open_stack[c] by {
        assert(t.open_stack[a] < t.open_stack[c]);
    }
    assert forall|c: int| 0 <= c < r.element_configs.len() && (#[trigger] r.element_configs[c]).config_type
        == ElementConfigType::Clip implies r.element_configs[c].config_index < r.clip_configs.len() by {
        assert(t.element_configs[c] == r.element_configs[c]);
    }
}

/// How many entries closing an element with configurations `configs[start..end]`
/// pops off the open clipping stack.
fn clip_pop_count(configs: &Vec<ElementConfig>, start: usize, end: usize) -> (r: usize)
    requires
        start <= end <= configs@.len(),
    ensures
        r == clip_pops(configs@, start as int, end as int),
{
    let mut k = start;
    let mut count: usize = 0;
    while k < end
        invariant
            start <= k <= end,
            end <= configs@.len(),
            count <= k - start,
            clip_pops(configs@, start as int, end as int) == count + clip_pops(configs@, k as int, end as int),
        decreases end - k,
    {
        let t = configs[k].config_type;
        if t == ElementConfigType::Clip {
            return count + 1;
        } else if t == ElementConfigType::Floating {
            count = count + 1;
        }
        k = k + 1;
    }
    count
}

/// Pops `count` entries off `stack` (fewer when it holds fewer).
fn pop_entries(stack: &mut Vec<i32>, count: usize)
    ensures
        final(stack)@ == old(stack)@.subrange(0, if count <= old(stack)@.len() { old(stack)@.len() - count } else { 0 }),
{
    let ghost o = old(stack)@;
    let mut j: usize = 0;
    while j < count
        invariant
            0 <= j <= count,
            stack@ == o.subrange(0, if j <= o.len() { o.len() - j } else { 0 }),
        decreases count - j,
    {
        stack.pop();
        proof {
            if j < o.len() {
                assert(stack@ =~= o.subrange(0, o.len() - j - 1));
            } else {
                assert(stack@ =~= o.subrange(0, 0));
            }
        }
        j = j + 1;
    }
}

/// Appends the last `n` entries of `buffer` to `children`.
fn move_children(children: &mut Vec<i32>, buffer: &Vec<i32>, n: usize)
    requires
        n <= buffer@.len(),
    ensures
        final(children)@ == old(children)@ + buffer@.subrange(buffer@.len() - n, buffer@.len() as int),
{
    let b = buffer.len();
    let mut j: usize = 0;
    while j < n
        invariant
            n <= b,
            b == buffer@.len(),
            0 <= j <= n,
            children@ == old(children)@ + buffer@.subrange(b - n, b - n + j),
        decreases n - j,
    {
        let c = buffer[b - n + j];
        children.push(c);
        proof {
            assert(buffer@.subrange(b - n, b - n + j + 1) =~= buffer@.subrange(b - n, b - n + j).push(c));
        }
        j = j + 1;
    }
    assert(buffer@.subrange(b - n, b - n + n) =~= buffer@.subrange(b - n, b as int));
}


/// `r` holds the entries of `s` rearranged by `perm`: entry `i` of `r` is
/// entry `perm[i]` of `s`, and `perm` is a permutation.
pub open spec fn is_rearrangement<T>(s: Seq<T>, r: Seq<T>, perm: Seq<int>) -> bool {
    &&& r.len() == s.len()
    &&& perm.len() == s.len()
    &&& forall|i: int| 0 <= i < perm.len() ==> 0 <= #[trigger] perm[i] < s.len()
    &&& forall|i: int, j: int| 0 <= i < j < perm.len() ==> #[trigger] perm[i] != #[trigger] perm[j]
    &&& forall|i: int| 0 <= i < r.len() ==> #[trigger] r[i] == s[perm[i]]
}

/// `r` is `s` sorted by ascending z-index, with roots of equal z-index kept
/// in their order in `s`.
pub open spec fn is_stable_z_order(s: Seq<LayoutElementTreeRoot>, r: Seq<LayoutElementTreeRoot>) -> bool {
    exists|perm: Seq<int>| #[trigger] is_rearrangement(s, r, perm) && forall|i: int, j: int|
        0 <= i < j < r.len() ==> #[trigger] r[i].z_index < #[trigger] r[j].z_index
            || (r[i].z_index == r[j].z_index && perm[i] < perm[j])
}

/// Sorts the tree roots by ascending z-index, keeping the declaration order
/// of roots with equal z-index (a bubble sort).
fn sort_roots_by_z_index(roots: &mut Vec<LayoutElementTreeRoot>)
    ensures
        is_stable_z_order(old(roots)@, final(roots)@),
{
    let ghost s = old(roots)@;
    let n = roots.len();
    let ghost mut perm: Seq<int> = Seq::new(n as nat, |i: int| i);
    let mut sort_max: usize = if n > 0 { n - 1 } else { 0 };
    assert(is_rearrangement(s, roots@, perm));
    while sort_max > 0
        invariant
            n == roots@.len(),
            sort_max < n || sort_max == 0,
            is_rearrangement(s, roots@, perm),
            forall|a: int, b: int| 0 <= a < b < n && roots@[a].z_index == roots@[b].z_index ==> perm[a] < perm[b],
            forall|a: int, b: int| 0 <= a < b < n && b > sort_max ==> roots@[a].z_index <= roots@[b].z_index,
        decreases sort_max,
    {
        let mut i: usize = 0;
        while i < sort_max
            invariant
                n == roots@.len(),
                0 < sort_max < n,
                0 <= i <= sort_max,
                is_rearrangement(s, roots@, perm),
                forall|a: int, b: int| 0 <= a < b < n && roots@[a].z_index == roots@[b].z_index ==> perm[a] < perm[b],
                forall|a: int, b: int| 0 <= a < b < n && b > sort_max ==> roots@[a].z_index <= roots@[b].z_index,
                forall|a: int| 0 <= a <= i ==> roots@[a].z_index <= roots@[i as int].z_index,
            decreases sort_max - i,
        {
            let x = roots[i];
            let y = roots[i + 1];
            if y.z_index < x.z_index {
                let ghost r0 = roots@;
                let ghost p0 = perm;
                roots.set(i, y);
                roots.set(i + 1, x);
                proof {
                    perm = p0.update(i as int, p0[i + 1]).update(i + 1, p0[i as int]);
                    let r1 = roots@;
                    assert forall|a: int, b: int| 0 <= a < b < n && r1[a].z_index == r1[b].z_index implies perm[a] < perm[b] by {
                        let oa = if a == i { i + 1 } else if a == i + 1 { i as int } else { a };
                        let ob = if b == i { i + 1 } else if b == i + 1 { i as int } else { b };
                        assert(r1[a] == r0[oa] && r1[b] == r0[ob]);
                        assert(perm[a] == p0[oa] && perm[b] == p0[ob]);
                        if oa < ob {
                            assert(p0[oa] < p0[ob]);
                        } else {
                            assert(p0[ob] < p0[oa]);
                        }
                    }
                    assert forall|a: int, b: int| 0 <= a < b < n && b > sort_max implies r1[a].z_index <= r1[b].z_index by {
                        let oa = if a == i { i + 1 } else if a == i + 1 { i as int } else { a };
                        assert(r1[a] == r0[oa] && r1[b] == r0[b]);
                    }
                    assert forall|a: int| 0 <= a <= i + 1 implies #[trigger] r1[a].z_index <= r1[i + 1].z_index by {
                        if a < i {
                            assert(r1[a] == r0[a]);
                        }
                    }
                    assert forall|j: int| 0 <= j < perm.len() implies 0 <= #[trigger] perm[j] < s.len() by {
                        let oj = if j == i { i + 1 } else if j == i + 1 { i as int } else { j };
                        assert(perm[j] == p0[oj]);
                    }
                    assert forall|a: int, b: int| 0 <= a < b < perm.len() implies #[trigger] perm[a] != #[trigger] perm[b] by {
                        let oa = if a == i { i + 1 } else if a == i + 1 { i as int } else { a };
                        let ob = if b == i { i + 1 } else if b == i + 1 { i as int } else { b };
                        assert(perm[a] == p0[oa] && perm[b] == p0[ob]);
                        if oa < ob {
                            assert(p0[oa] != p0[ob]);
                        } else {
                            assert(p0[ob] != p0[oa]);
                        }
                    }
                    assert forall|j: int| 0 <= j < r1.len() implies #[trigger] r1[j] == s[perm[j]] by {
                        let oj = if j == i { i + 1 } else if j == i + 1 { i as int } else { j };
                        assert(r1[j] == r0[oj] && perm[j] == p0[oj]);
                    }
                }
            }
            i = i + 1;
        }
        sort_max = sort_max - 1;
    }
    proof {
        let r = roots@;
        assert forall|i: int, j: int| 0 <= i < j < r.len() implies #[trigger] r[i].z_index < #[trigger] r[j].z_index
            || (r[i].z_index == r[j].z_index && perm[i] < perm[j]) by {
            assert(r[i].z_index <= r[j].z_index);
        }
        assert(is_rearrangement(s, r, perm));
    }
}

impl LayoutTree {
    /// Well-formedness: the stored indexes are valid, and the children buffer
    /// holds exactly the pending children of the open elements, those of each
    /// open element (past the outermost) counted by its `children_length`.
    pub open spec fn wf(&self) -> bool {
        tree_view_wf(self@)
    }

    /// The stored indexes of a well-formed tree are valid.
    pub proof fn lemma_indices_valid(&self)
        requires
            self.wf(),
        ensures
            tree_indices_valid(self@),
    {
    }

    /// An empty tree.
    pub fn new() -> (r: LayoutTree)
        ensures
            r.wf(),
            is_empty_tree(r@),
    {
        let r = LayoutTree {
            elements: Vec::new(),
            open_stack: Vec::new(),
            children_buffer: Vec::new(),
            children: Vec::new(),
            element_configs: Vec::new(),
            clip_configs: Vec::new(),
            clip_element_ids: Vec::new(),
            open_clip_stack: Vec::new(),
            tree_roots: Vec::new(),
        };
        proof {
            lemma_wf_from(r@, Seq::empty());
        }
        r
    }

    /// Forgets the previous frame's tree.
    pub fn clear(&mut self)
        ensures
            final(self).wf(),
            is_empty_tree(final(self)@),
    {
        self.elements.clear();
        self.open_stack.clear();
        self.children_buffer.clear();
        self.children.clear();
        self.element_configs.clear();
        self.clip_configs.clear();
        self.clip_element_ids.clear();
        self.open_clip_stack.clear();
        self.tree_roots.clear();
        proof {
            lemma_wf_from(self@, Seq::empty());
        }
    }

    /// Opens a new element with id `id` inside the open ones; it inherits the
    /// innermost open clipping element. Returns its index.
    pub fn open_element_with_id(&mut self, id: u32) -> (idx: usize)
        requires
            old(self).wf(),
            old(self)@.elements.len() < i32::MAX,
        ensures
            final(self).wf(),
            final(self)@ == spec_open(old(self)@, id),
            idx == old(self)@.elements.len(),
    {
        let idx = self.elements.len();
        self.elements.push(LayoutElement {
            children_start: 0,
            children_length: 0,
            text_data_index: -1,
            layout_config_index: 0,
            element_configs: ElementConfigSlice { start: 0, length: 0 },
            id,
            floating_children_count: 0,
        });
        self.open_stack.push(idx as i32);
        let clip: i32 = if self.open_clip_stack.len() > 0 {
            self.open_clip_stack[self.open_clip_stack.len() - 1]
        } else {
            0
        };
        self.clip_element_ids.push(clip);
        proof {
            let p0 = pending_counts(old(self)@);
            let p1 = p0.push(0);
            assert(p1.drop_last() =~= p0);
            lemma_children_valid(old(self)@, self@);
            lemma_wf_from(self@, p1);
        }
        assert(self@ == spec_open(old(self)@, id));
        idx
    }

    /// Starts configuring the innermost open element: records its layout
    /// configuration and that its configurations follow from here on.
    pub fn begin_configs(&mut self, layout_config_index: usize)
        requires
            old(self).wf(),
            old(self)@.open_stack.len() > 0,
            old(self)@.elements[open_index(old(self)@)].element_configs.length == 0,
        ensures
            final(self).wf(),
            final(self)@ == spec_begin_configs(old(self)@, layout_config_index),
    {
        let i = self.open_stack[self.open_stack.len() - 1] as usize;
        let mut e = self.elements[i];
        e.layout_config_index = layout_config_index;
        e.element_configs.start = self.element_configs.len();
        self.elements.set(i, e);
        proof {
            let t = self@;
            assert forall|j: int| 0 <= j < t.elements.len() implies {
                let s = #[trigger] t.elements[j].element_configs;
                s.length >= 0 && s.start + s.length <= t.element_configs.len()
            } by {
                if j != i {
                    assert(t.elements[j] == old(self)@.elements[j]);
                }
            }
            assert forall|k: int| 1 <= k < pending_counts(old(self)@).len() implies #[trigger] pending_counts(old(self)@)[k]
                == t.elements[t.open_stack[k] as int].children_length by {
                assert(pending_counts(old(self)@)[k] == old(self)@.elements[old(self)@.open_stack[k] as int].children_length);
            }
            lemma_children_valid(old(self)@, self@);
            lemma_wf_from(self@, pending_counts(old(self)@));
        }
        assert(self@ == spec_begin_configs(old(self)@, layout_config_index));
    }

    /// Attaches a configuration of kind `config_type`, stored at
    /// `config_index` in the store of its kind, to the innermost open element.
    pub fn attach_element_config(&mut self, config_type: ElementConfigType, config_index: usize)
        requires
            old(self).wf(),
            old(self)@.open_stack.len() > 0,
            old(self)@.elements[open_index(old(self)@)].element_configs.length < i32::MAX,
            config_type == ElementConfigType::Clip ==> config_index < old(self)@.clip_configs.len(),
        ensures
            final(self).wf(),
            final(self)@ == spec_attach(old(self)@, config_type, config_index),
    {
        let i = self.open_stack[self.open_stack.len() - 1] as usize;
        let mut e = self.elements[i];
        e.element_configs.length = e.element_configs.length + 1;
        self.elements.set(i, e);
        self.element_configs.push(ElementConfig { config_type, config_index });
        proof {
            let t = self@;
            let o = old(self)@;
            assert forall|j: int| 0 <= j < t.elements.len() implies {
                let s = #[trigger] t.elements[j].element_configs;
                s.length >= 0 && s.start + s.length <= t.element_configs.len()
            } by {
                if j != i {
                    assert(t.elements[j] == o.elements[j]);
                    let s0 = o.elements[j].element_configs;
                    assert(s0.length >= 0 && s0.start + s0.length <= o.element_configs.len());
                } else {
                    let s0 = o.elements[j].element_configs;
                    assert(s0.length >= 0 && s0.start + s0.length <= o.element_configs.len());
                }
            }
            assert forall|c: int| 0 <= c < t.element_configs.len() && (#[trigger] t.element_configs[c]).config_type
                == ElementConfigType::Clip implies t.element_configs[c].config_index < t.clip_configs.len() by {
                if c < o.element_configs.len() {
                    assert(t.element_configs[c] == o.element_configs[c]);
                }
            }
            assert forall|k: int| 1 <= k < pending_counts(old(self)@).len() implies #[trigger] pending_counts(old(self)@)[k]
                == t.elements[t.open_stack[k] as int].children_length by {
                assert(pending_counts(old(self)@)[k] == o.elements[o.open_stack[k] as int].children_length);
            }
            lemma_children_valid(old(self)@, self@);
            lemma_wf_from(self@, pending_counts(old(self)@));
        }
        assert(self@ == spec_attach(old(self)@, config_type, config_index));
    }

    /// Makes the innermost open element clip its content with `clip`.
    pub fn attach_clip(&mut self, clip: ClipConfig)
        requires
            old(self).wf(),
            old(self)@.open_stack.len() > 0,
            old(self)@.elements[open_index(old(self)@)].element_configs.length < i32::MAX,
        ensures
            final(self).wf(),
            final(self)@ == spec_attach_clip(old(self)@, clip),
    {
        let index = self.clip_configs.len();
        self.clip_configs.push(clip);
        proof {
            let t = self@;
            assert forall|c: int| 0 <= c < t.element_configs.len() && (#[trigger] t.element_configs[c]).config_type
                == ElementConfigType::Clip implies t.element_configs[c].config_index < t.clip_configs.len() by {
                assert(old(self)@.element_configs[c] == t.element_configs[c]);
            }
            assert forall|k: int| 1 <= k < pending_counts(old(self)@).len() implies #[trigger] pending_counts(old(self)@)[k]
                == t.elements[t.open_stack[k] as int].children_length by {
                assert(pending_counts(old(self)@)[k] == old(self)@.elements[old(self)@.open_stack[k] as int].children_length);
            }
            assert forall|k: int| 0 <= k < t.children.len() implies 0 <= #[trigger] t.children[k] < t.elements.len() by {
                assert(t.children[k] == old(self)@.children[k]);
            }
            lemma_children_valid(old(self)@, self@);
            lemma_wf_from(self@, pending_counts(old(self)@));
        }
        self.attach_element_config(ElementConfigType::Clip, index);
        let i = self.open_stack[self.open_stack.len() - 1] as usize;
        let id = self.elements[i].id;
        self.open_clip_stack.push(#[verifier::truncate] (id as i32));
        assert(self@ == spec_attach_clip(old(self)@, clip));
    }

    /// Makes the innermost open element float, attached to `parent_id` and
    /// clipped by `clip_element_id` (0 for none), with stacking order
    /// `z_index`; its floating configuration is stored at `config_index`.
    pub fn attach_floating(&mut self, parent_id: u32, clip_element_id: u32, z_index: i16, config_index: usize)
        requires
            old(self).wf(),
            old(self)@.open_stack.len() > 0,
            old(self)@.elements[open_index(old(self)@)].element_configs.length < i32::MAX,
        ensures
            final(self).wf(),
            final(self)@ == spec_attach_floating(old(self)@, parent_id, clip_element_id, z_index, config_index),
    {
        let i = self.open_stack[self.open_stack.len() - 1] as usize;
        let clip: i32 = #[verifier::truncate] (clip_element_id as i32);
        self.clip_element_ids.set(i, clip);
        self.open_clip_stack.push(clip);
        self.tree_roots.push(LayoutElementTreeRoot {
            layout_element_index: i as i32,
            parent_id,
            clip_element_id,
            z_index,
        });
        proof {
            let t = self@;
            assert forall|k: int| 1 <= k < pending_counts(old(self)@).len() implies #[trigger] pending_counts(old(self)@)[k]
                == t.elements[t.open_stack[k] as int].children_length by {
                assert(pending_counts(old(self)@)[k] == old(self)@.elements[old(self)@.open_stack[k] as int].children_length);
            }
            assert forall|k: int| 0 <= k < t.children.len() implies 0 <= #[trigger] t.children[k] < t.elements.len() by {
                assert(t.children[k] == old(self)@.children[k]);
            }
            lemma_children_valid(old(self)@, self@);
            lemma_wf_from(self@, pending_counts(old(self)@));
        }
        self.attach_element_config(ElementConfigType::Floating, config_index);
        assert(self@ == spec_attach_floating(old(self)@, parent_id, clip_element_id, z_index, config_index));
    }

    /// Declares a text element with id `id` as the next child of the
    /// innermost open element (which is not the outermost one). Returns its index.
    pub fn open_text_element(
        &mut self,
        id: u32,
        text_data_index: i32,
        text_config_index: usize,
        layout_config_index: usize,
    ) -> (idx: usize)
        requires
            old(self).wf(),
            old(self)@.open_stack.len() >= 2,
            old(self)@.elements.len() < i32::MAX,
            old(self)@.elements[open_index(old(self)@)].children_length < u16::MAX,
        ensures
            final(self).wf(),
            final(self)@ == spec_open_text(old(self)@, id, text_data_index, text_config_index, layout_config_index),
            idx == old(self)@.elements.len(),
    {
        let pi = self.open_stack[self.open_stack.len() - 1] as usize;
        let mut parent = self.elements[pi];
        parent.children_length = parent.children_length + 1;
        self.elements.set(pi, parent);
        let idx = self.elements.len();
        let start = self.element_configs.len();
        self.elements.push(LayoutElement {
            children_start: 0,
            children_length: 0,
            text_data_index,
            layout_config_index,
            element_configs: ElementConfigSlice { start, length: 1 },
            id,
            floating_children_count: 0,
        });
        self.children_buffer.push(idx as i32);
        self.element_configs.push(ElementConfig { config_type: ElementConfigType::Text, config_index: text_config_index });
        let clip: i32 = if self.open_clip_stack.len() > 0 {
            self.open_clip_stack[self.open_clip_stack.len() - 1]
        } else {
            0
        };
        self.clip_element_ids.push(clip);
        proof {
            let o = old(self)@;
            let t = self@;
            let p0 = pending_counts(o);
            let m = p0.len() - 1;
            let p1 = p0.update(m, p0[m] + 1);
            assert(p1.drop_last() =~= p0.drop_last());
            assert(count_sum(p1) == count_sum(p0) + 1);
            assert forall|k: int| 1 <= k < p1.len() implies #[trigger] p1[k]
                == t.elements[t.open_stack[k] as int].children_length by {
                if k != m {
                    assert(o.open_stack[k] < o.open_stack[m]);
                    assert(p0[k] == o.elements[o.open_stack[k] as int].children_length);
                }
            }
            assert forall|j: int| 0 <= j < t.elements.len() implies {
                let s = #[trigger] t.elements[j].element_configs;
                s.length >= 0 && s.start + s.length <= t.element_configs.len()
            } by {
                if j < o.elements.len() {
                    let s0 = o.elements[j].element_configs;
                    assert(s0.length >= 0 && s0.start + s0.length <= o.element_configs.len());
                }
            }
            assert forall|c: int| 0 <= c < t.element_configs.len() && (#[trigger] t.element_configs[c]).config_type
                == ElementConfigType::Clip implies t.element_configs[c].config_index < t.clip_configs.len() by {
                if c < o.element_configs.len() {
                    assert(t.element_configs[c] == o.element_configs[c]);
                }
            }
            assert forall|k: int| 0 <= k < t.children_buffer.len() implies 0 <= #[trigger] t.children_buffer[k] < t.elements.len() by {
                if k < o.children_buffer.len() {
                    assert(t.children_buffer[k] == o.children_buffer[k]);
                }
            }
            lemma_children_valid(o, t);
            lemma_wf_from(t, p1);
        }
        assert(self@ == spec_open_text(old(self)@, id, text_data_index, text_config_index, layout_config_index));
        idx
    }

    /// Starts a frame's tree: forgets the previous one and opens the root
    /// element with id `root_id`.
    pub fn begin_root(&mut self, root_id: u32)
        ensures
            final(self).wf(),
            final(self)@ == spec_root_tree(root_id),
    {
        self.clear();
        self.open_element_with_id(root_id);
        self.begin_configs(0);
        let ghost p0 = pending_counts(self@);
        self.open_stack.push(0);
        self.tree_roots.push(LayoutElementTreeRoot { layout_element_index: 0, parent_id: 0, clip_element_id: 0, z_index: 0 });
        proof {
            let p1 = p0.push(0);
            assert(p1.drop_last() =~= p0);
            assert(p1 =~= seq![0nat, 0nat]);
            assert(self@.children.len() == 0);
            lemma_wf_from(self@, p1);
        }
        assert(self@.elements =~= seq![spec_new_element(root_id)]);
        assert(self@.open_stack =~= seq![0i32, 0i32]);
        assert(self@.clip_element_ids =~= seq![0i32]);
        assert(self@.tree_roots =~= seq![LayoutElementTreeRoot { layout_element_index: 0, parent_id: 0, clip_element_id: 0, z_index: 0 }]);
        assert(self@.children_buffer =~= Seq::empty());
        assert(self@.children =~= Seq::empty());
        assert(self@.element_configs =~= Seq::empty());
        assert(self@.clip_configs =~= Seq::empty());
        assert(self@.open_clip_stack =~= Seq::empty());
    }

    /// Closes the innermost open element and reports its children and
    /// clipping, so that the caller can size it.
    #[verifier::rlimit(80)]
    pub fn close_element(&mut self) -> (closed: ClosedElement)
        requires
            old(self).wf(),
            can_close(old(self)@),
            close_fits(old(self)@),
        ensures
            final(self).wf(),
            final(self)@ == spec_close(old(self)@),
            closed == spec_closed_info(old(self)@),
    {
        let ghost o = self@;
        let ghost p0 = pending_counts(o);
        proof {
            lemma_close_keeps_wf(o, p0);
        }
        let m = self.open_stack.len();
        let i = self.open_stack[m - 1] as usize;
        let e = self.elements[i];
        let start = e.element_configs.start;
        let length = e.element_configs.length;
        let config_count = self.element_configs.len();
        proof {
            let sl = o.elements[i as int].element_configs;
            assert(sl.length >= 0 && sl.start + sl.length <= o.element_configs.len());
            assert(p0[m - 1] == e.children_length);
            assert(count_sum(p0) == count_sum(p0.drop_last()) + p0[m - 1]);
        }
        let end = start + length as usize;
        let pops = clip_pop_count(&self.element_configs, start, end);
        pop_entries(&mut self.open_clip_stack, pops);
        let (clip_horizontal, clip_vertical) = match find_element_config_index(
            &self.element_configs, start, length, ElementConfigType::Clip) {
            Some(ci) => {
                proof {
                    lemma_first_config_pos(o.element_configs, start as int, length as int, ElementConfigType::Clip);
                    let c = first_config_pos(o.element_configs, start as int, length as int, ElementConfigType::Clip);
                    assert(o.element_configs[c].config_type == ElementConfigType::Clip);
                }
                let clip = self.clip_configs[ci];
                (clip.horizontal, clip.vertical)
            },
            None => (false, false),
        };
        let is_floating = element_has_config(&self.element_configs, start, length, ElementConfigType::Floating);
        let n = e.children_length as usize;
        let b = self.children_buffer.len();
        let children_start = self.children.len();
        move_children(&mut self.children, &self.children_buffer, n);
        self.children_buffer.truncate(b - n);
        let mut closed_element = e;
        closed_element.children_start = children_start;
        self.elements.set(i, closed_element);
        self.open_stack.pop();
        if self.open_stack.len() > 1 {
            let pi = self.open_stack[self.open_stack.len() - 1] as usize;
            proof {
                assert(o.open_stack[m - 2] < o.open_stack[m - 1]);
            }
            let mut parent = self.elements[pi];
            if is_floating {
                parent.floating_children_count = parent.floating_children_count + 1;
                self.elements.set(pi, parent);
            } else {
                parent.children_length = parent.children_length + 1;
                self.elements.set(pi, parent);
                self.children_buffer.push(i as i32);
            }
        }
        proof {
            let r = spec_close(o);
            assert(self@.elements =~= r.elements);
            assert(self@.open_stack =~= r.open_stack);
            assert(self@.children_buffer =~= r.children_buffer);
            assert(self@.children =~= r.children);
            assert(self@.open_clip_stack =~= r.open_clip_stack);
            lemma_wf_from(self@, spec_close_pending(o, p0));
        }
        ClosedElement {
            element_index: i,
            children_start,
            children_length: e.children_length,
            clip_horizontal,
            clip_vertical,
            is_floating,
        }
    }

    /// Sorts the tree roots by ascending z-index, keeping the declaration
    /// order of roots with equal z-index.
    pub fn sort_tree_roots_by_z_index(&mut self)
        requires
            old(self).wf(),
        ensures
            final(self).wf(),
            final(self)@ == (LayoutTreeView { tree_roots: final(self)@.tree_roots, ..old(self)@ }),
            is_stable_z_order(old(self)@.tree_roots, final(self)@.tree_roots),
    {
        sort_roots_by_z_index(&mut self.tree_roots);
    }

    /// The number of elements declared this frame.
    pub fn element_count(&self) -> (r: usize)
        ensures
            r == self@.elements.len(),
    {
        self.elements.len()
    }

    /// The element at `index`.
    pub fn element(&self, index: usize) -> (r: LayoutElement)
        requires
            index < self@.elements.len(),
        ensures
            r == self@.elements[index as int],
    {
        self.elements[index]
    }

    /// How many elements are open.
    pub fn open_depth(&self) -> (r: usize)
        ensures
            r == self@.open_stack.len(),
    {
        self.open_stack.len()
    }

    /// The index of the innermost open element.
    pub fn open_element_index(&self) -> (r: usize)
        requires
            self.wf(),
            self@.open_stack.len() > 0,
        ensures
            r == open_index(self@),
            r < self@.elements.len(),
    {
        self.open_stack[self.open_stack.len() - 1] as usize
    }

    /// The index of the element the innermost open element is declared in.
    pub fn parent_element_index(&self) -> (r: usize)
        requires
            self.wf(),
            self@.open_stack.len() >= 2,
        ensures
            r == self@.open_stack[self@.open_stack.len() - 2],
            r < self@.elements.len(),
    {
        self.open_stack[self.open_stack.len() - 2] as usize
    }

    /// The children list: each closed element's children form the run
    /// starting at its `children_start`.
    pub fn children(&self) -> (r: &Vec<i32>)
        ensures
            r@ == self@.children,
    {
        &self.children
    }

    /// The configurations of all elements.
    pub fn element_configs(&self) -> (r: &Vec<ElementConfig>)
        ensures
            r@ == self@.element_configs,
    {
        &self.element_configs
    }

    /// The roots of the separately laid out subtrees.
    pub fn tree_roots(&self) -> (r: &Vec<LayoutElementTreeRoot>)
        ensures
            r@ == self@.tree_roots,
    {
        &self.tree_roots
    }

    /// The id of the element that clips element `index` (0 for none).
    pub fn clip_element_id(&self, index: usize) -> (r: i32)
        requires
            self.wf(),
            index < self@.elements.len(),
        ensures
            r == self@.clip_element_ids[index as int],
    {
        self.clip_element_ids[index]
    }

    /// The store index of the first configuration of kind `config_type` of
    /// element `element_index`.
    pub fn find_element_config_index(&self, element_index: usize, config_type: ElementConfigType) -> (r: Option<usize>)
        requires
            self.wf(),
            element_index < self@.elements.len(),
        ensures
            ({
                let sl = self@.elements[element_index as int].element_configs;
                let p = first_config_pos(self@.element_configs, sl.start as int, sl.length as int, config_type);
                r == (if p >= 0 { Some(self@.element_configs[p].config_index) } else { None })
            }),
    {
        let e = self.elements[element_index];
        find_element_config_index(&self.element_configs, e.element_configs.start, e.element_configs.length, config_type)
    }

    /// Whether element `element_index` has a configuration of kind `config_type`.
    pub fn element_has_config(&self, element_index: usize, config_type: ElementConfigType) -> (r: bool)
        requires
            self.wf(),
            element_index < self@.elements.len(),
        ensures
            r == has_config(self@, self@.elements[element_index as int], config_type),
    {
        let e = self.elements[element_index];
        element_has_config(&self.element_configs, e.element_configs.start, e.element_configs.length, config_type)
    }

    /// The id of the innermost open clipping element, or 0.
    pub fn current_clip_id(&self) -> (r: u32)
        ensures
            r == current_clip(self@) as u32,
    {
        if self.open_clip_stack.len() > 0 {
            #[verifier::truncate] (self.open_clip_stack[self.open_clip_stack.len() - 1] as u32)
        } else {
            0
        }
    }
}

} // verus!
