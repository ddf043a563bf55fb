//! What a frame draws and in what order. Each tree root is drawn in turn,
//! its elements depth first: on the way down an element opens its shader
//! groups, starts its clipping, draws its image, text lines, custom content,
//! text input and background; on the way back up it draws its border and the
//! dividers between its children, ends its clipping and closes its groups.
//! Geometry, colours and offscreen tests are the caller's: it hands in, for
//! each element, the facts this order depends on.
use vstd::prelude::*;
use crate::engine::{first_config_pos, lemma_first_config_pos, ElementConfigType, PlyContext, PlyContextView};
use crate::tree::{has_config, tree_indices_valid, LayoutTree, LayoutTreeView};

verus! {

/// One draw step of a frame. Elements are named by their index in the
/// frame's element list, tree roots by their position in the root list.
#[derive(Debug, Clone, Copy, PartialEq, Eq, Structural)]
pub enum RenderStep {
    /// Start clipping to the element's box.
    ScissorStart(usize),
    /// End the clipping the element started.
    ScissorEnd(usize),
    /// Start clipping a floating root to the box of the element that clips it.
    RootScissorStart(usize),
    /// End the clipping of a floating root.
    RootScissorEnd(usize),
    /// Open one shader group (or the visual rotation group) of the element.
    GroupBegin(usize),
    /// Close one group of the element.
    GroupEnd(usize),
    /// The element's background.
    Rectangle(usize),
    Image(usize),
    /// The `line`-th of the element's wrapped text lines that hold characters.
    Text { element: usize, line: usize },
    Custom(usize),
    /// A text input, drawn with its own clipping, selection, text and caret.
    TextInput(usize),
    Border(usize),
    /// The divider drawn before child `child` of the element.
    Divider { element: usize, child: usize },
    /// The keyboard focus ring around the element with this id.
    FocusRing(u32),
}

/// What the caller measured of an element for drawing it.
#[derive(Debug, Clone, Copy, PartialEq, Eq, Structural)]
pub struct RenderFacts {
    /// Its box lies outside the viewport (and culling is on).
    pub offscreen: bool,
    /// How many groups wrap it: one per shader, or one for a visual rotation
    /// alone, or none.
    pub groups: u32,
    /// How many of its wrapped text lines hold characters.
    pub text_lines: usize,
    /// Its background colour is visible.
    pub background: bool,
    /// Its border draws dividers between its children (a visible colour and
    /// a width between children).
    pub dividers: bool,
}

/// `n` copies of `s`.
pub open spec fn repeat_step(n: nat, s: RenderStep) -> Seq<RenderStep> {
    Seq::new(n, |i: int| s)
}

/// The steps of the configurations of element `e`, from its `i`-th
/// configuration on: nothing for an element off screen; for an on-screen one,
/// a clip starts clipping, an image, custom content and a text input are
/// drawn, and a text configuration of an element with text draws its lines.
pub open spec fn config_steps(t: LayoutTreeView, facts: Seq<RenderFacts>, e: int, i: int) -> Seq<RenderStep>
    decreases t.elements[e].element_configs.length - i,
{
    let el = t.elements[e];
    let sl = el.element_configs;
    if i < 0 || i >= sl.length {
        Seq::empty()
    } else {
        let f = facts[e];
        let c = t.element_configs[sl.start + i];
        let here = if f.offscreen {
            Seq::empty()
        } else {
            match c.config_type {
                ElementConfigType::Clip => seq![RenderStep::ScissorStart(e as usize)],
                ElementConfigType::Image => seq![RenderStep::Image(e as usize)],
                ElementConfigType::Text => if el.text_data_index >= 0 {
                    Seq::new(f.text_lines as nat, |k: int| RenderStep::Text { element: e as usize, line: k as usize })
                } else {
                    Seq::empty()
                },
                ElementConfigType::Custom => seq![RenderStep::Custom(e as usize)],
                ElementConfigType::TextInput => seq![RenderStep::TextInput(e as usize)],
                _ => Seq::empty(),
            }
        };
        here + config_steps(t, facts, e, i + 1)
    }
}

/// An image, custom content or a text input takes the place of the
/// element's background rectangle.
pub open spec fn background_replaced(t: LayoutTreeView, e: int) -> bool {
    let el = t.elements[e];
    has_config(t, el, ElementConfigType::Image) || has_config(t, el, ElementConfigType::Custom)
        || has_config(t, el, ElementConfigType::TextInput)
}

/// The steps on the way down into element `e`: its groups open, its
/// configurations, then its background.
pub open spec fn element_open_steps(t: LayoutTreeView, facts: Seq<RenderFacts>, e: int) -> Seq<RenderStep> {
    let f = facts[e];
    repeat_step(f.groups as nat, RenderStep::GroupBegin(e as usize)) + config_steps(t, facts, e, 0) + if f.background
        && !background_replaced(t, e) {
        seq![RenderStep::Rectangle(e as usize)]
    } else {
        Seq::empty()
    }
}

/// The dividers of element `e`: one before each child but the first.
pub open spec fn divider_steps(t: LayoutTreeView, e: int) -> Seq<RenderStep> {
    let n = t.elements[e].children_length as int;
    Seq::new(if n > 0 { (n - 1) as nat } else { 0 }, |k: int| RenderStep::Divider { element: e as usize, child: (k + 1) as usize })
}

/// The steps on the way back up from element `e`: its border (for an
/// on-screen element known to the element map) with its dividers, the end of
/// its clipping, and its groups closed.
pub open spec fn element_close_steps(v: PlyContextView, facts: Seq<RenderFacts>, e: int) -> Seq<RenderStep> {
    let t = v.tree;
    let el = t.elements[e];
    let f = facts[e];
    let border = if has_config(t, el, ElementConfigType::Border) && v.element_map.contains_key(el.id) && !f.offscreen {
        seq![RenderStep::Border(e as usize)] + if f.dividers { divider_steps(t, e) } else { Seq::empty() }
    } else {
        Seq::empty()
    };
    let scissor = if has_config(t, el, ElementConfigType::Clip) {
        seq![RenderStep::ScissorEnd(e as usize)]
    } else {
        Seq::empty()
    };
    border + scissor + repeat_step(f.groups as nat, RenderStep::GroupEnd(e as usize))
}

/// The steps that draw element `e` and what lies below it: its own steps on
/// the way down, those of its children in order (a text element has none),
/// and its steps on the way back up. The children of an element come after
/// it, so the walk ends.
pub open spec fn render_visit(v: PlyContextView, facts: Seq<RenderFacts>, e: int) -> Seq<RenderStep>
    decreases v.tree.elements.len() - e, (if 0 <= e < v.tree.elements.len() { v.tree.elements[e].children_length as int + 1 } else { 0 }),
{
    let t = v.tree;
    if e < 0 || e >= t.elements.len() {
        Seq::empty()
    } else {
        let below = if has_config(t, t.elements[e], ElementConfigType::Text) {
            Seq::empty()
        } else {
            render_children(v, facts, e, 0)
        };
        element_open_steps(t, facts, e) + below + element_close_steps(v, facts, e)
    }
}

/// The steps that draw the children of element `e`, from its `k`-th child on.
pub open spec fn render_children(v: PlyContextView, facts: Seq<RenderFacts>, e: int, k: int) -> Seq<RenderStep>
    decreases v.tree.elements.len() - e, (if 0 <= e < v.tree.elements.len() { v.tree.elements[e].children_length - k } else { 0 }),
{
    let t = v.tree;
    if e < 0 || e >= t.elements.len() || k < 0 || k >= t.elements[e].children_length {
        Seq::empty()
    } else {
        let j = t.elements[e].children_start + k;
        let c = if 0 <= j < t.children.len() { t.children[j] as int } else { -1 };
        let rest = render_children(v, facts, e, k + 1);
        if e < c < t.elements.len() { render_visit(v, facts, c) + rest } else { rest }
    }
}

/// The steps of tree root `r`: the clipping of a clipped root (started when
/// the clipping element is known to the element map), then its elements.
pub open spec fn render_root(v: PlyContextView, facts: Seq<RenderFacts>, r: int) -> Seq<RenderStep> {
    let root = v.tree.tree_roots[r];
    let clipped = root.clip_element_id != 0;
    (if clipped && v.element_map.contains_key(root.clip_element_id) {
        seq![RenderStep::RootScissorStart(r as usize)]
    } else {
        Seq::empty()
    }) + render_visit(v, facts, root.layout_element_index as int) + if clipped {
        seq![RenderStep::RootScissorEnd(r as usize)]
    } else {
        Seq::empty()
    }
}

/// The steps of the first `j` tree roots, one root after another.
pub open spec fn render_roots(v: PlyContextView, facts: Seq<RenderFacts>, j: int) -> Seq<RenderStep>
    decreases j,
{
    if j <= 0 {
        Seq::empty()
    } else {
        render_roots(v, facts, j - 1) + render_root(v, facts, j - 1)
    }
}

/// The focus ring, drawn last: around the focused element when focus came
/// from the keyboard, the element is known to the element map, and the
/// caller shows a ring for it (`focus_ring`: its settings ask for one and its
/// box is on screen).
pub open spec fn focus_ring_steps(v: PlyContextView, focus_ring: bool) -> Seq<RenderStep> {
    let id = v.focused_element_id;
    if id != 0 && v.focus_from_keyboard && focus_ring && v.element_map.contains_key(id) {
        seq![RenderStep::FocusRing(id)]
    } else {
        Seq::empty()
    }
}

/// Every draw step of the frame, in order.
pub open spec fn spec_render_steps(v: PlyContextView, facts: Seq<RenderFacts>, focus_ring: bool) -> Seq<RenderStep> {
    render_roots(v, facts, v.tree.tree_roots.len() as int) + focus_ring_steps(v, focus_ring)
}

/// How a step changes the nesting depth of clipping (`scissor`) or of
/// groups (`!scissor`): a start opens one level, an end closes one.
pub open spec fn step_delta(s: RenderStep, scissor: bool) -> int {
    if scissor {
        match s {
            RenderStep::ScissorStart(_) | RenderStep::RootScissorStart(_) => 1,
            RenderStep::ScissorEnd(_) | RenderStep::RootScissorEnd(_) => -1,
            _ => 0,
        }
    } else {
        match s {
            RenderStep::GroupBegin(_) => 1,
            RenderStep::GroupEnd(_) => -1,
            _ => 0,
        }
    }
}

/// The nesting depth of clipping or of groups after the steps `s`.
pub open spec fn nesting_depth(s: Seq<RenderStep>, scissor: bool) -> int
    decreases s.len(),
{
    if s.len() == 0 {
        0
    } else {
        nesting_depth(s.drop_last(), scissor) + step_delta(s.last(), scissor)
    }
}

/// The depth after every prefix of `s` is at least `m`.
pub open spec fn prefix_depth_at_least(s: Seq<RenderStep>, scissor: bool, m: int) -> bool {
    forall|i: int| 0 <= i <= s.len() ==> #[trigger] nesting_depth(s.take(i), scissor) >= m
}

/// The starts and ends in `s` pair up: no prefix ends more than it started,
/// and the whole ends all it started.
pub open spec fn is_balanced(s: Seq<RenderStep>, scissor: bool) -> bool {
    nesting_depth(s, scissor) == 0 && prefix_depth_at_least(s, scissor, 0)
}

/// Element `e` has at most one clip configuration.
pub open spec fn single_clip(t: LayoutTreeView, e: int) -> bool {
    let sl = t.elements[e].element_configs;
    forall|i: int, j: int|
        sl.start <= i < sl.start + sl.length && sl.start <= j < sl.start + sl.length
            && (#[trigger] t.element_configs[i]).config_type == ElementConfigType::Clip
            && (#[trigger] t.element_configs[j]).config_type == ElementConfigType::Clip ==> i == j
}

/// Below element `e` (itself included), every element the frame draws that
/// clips has one clip configuration and is on screen, so that its clipping
/// starts once and ends once.
pub open spec fn clips_paired(v: PlyContextView, facts: Seq<RenderFacts>, e: int) -> bool
    decreases v.tree.elements.len() - e, (if 0 <= e < v.tree.elements.len() { v.tree.elements[e].children_length as int + 1 } else { 0 }),
{
    let t = v.tree;
    if e < 0 || e >= t.elements.len() {
        true
    } else {
        &&& (has_config(t, t.elements[e], ElementConfigType::Clip) ==> !facts[e].offscreen && single_clip(t, e))
        &&& (!has_config(t, t.elements[e], ElementConfigType::Text) ==> clips_paired_children(v, facts, e, 0))
    }
}

/// `clips_paired` holds below each child of element `e` from its `k`-th on.
pub open spec fn clips_paired_children(v: PlyContextView, facts: Seq<RenderFacts>, e: int, k: int) -> bool
    decreases v.tree.elements.len() - e, (if 0 <= e < v.tree.elements.len() { v.tree.elements[e].children_length - k } else { 0 }),
{
    let t = v.tree;
    if e < 0 || e >= t.elements.len() || k < 0 || k >= t.elements[e].children_length {
        true
    } else {
        let j = t.elements[e].children_start + k;
        let c = if 0 <= j < t.children.len() { t.children[j] as int } else { -1 };
        (e < c < t.elements.len() ==> clips_paired(v, facts, c)) && clips_paired_children(v, facts, e, k + 1)
    }
}

/// Every clipping of the frame starts once and ends once: each clipped tree
/// root's clipping element is known to the element map, and `clips_paired`
/// holds below each root.
pub open spec fn frame_clips_paired(v: PlyContextView, facts: Seq<RenderFacts>) -> bool {
    forall|r: int| 0 <= r < v.tree.tree_roots.len() ==> {
        let root = #[trigger] v.tree.tree_roots[r];
        &&& (root.clip_element_id != 0 ==> v.element_map.contains_key(root.clip_element_id))
        &&& clips_paired(v, facts, root.layout_element_index as int)
    }
}

/// No step of `s` closes a level.
pub open spec fn deltas_nonneg(s: Seq<RenderStep>, scissor: bool) -> bool {
    forall|j: int| 0 <= j < s.len() ==> step_delta(#[trigger] s[j], scissor) >= 0
}

/// No step of `s` opens a level.
pub open spec fn deltas_nonpos(s: Seq<RenderStep>, scissor: bool) -> bool {
    forall|j: int| 0 <= j < s.len() ==> step_delta(#[trigger] s[j], scissor) <= 0
}

/// No step of `s` opens or closes a level.
pub open spec fn deltas_zero(s: Seq<RenderStep>, scissor: bool) -> bool {
    forall|j: int| 0 <= j < s.len() ==> step_delta(#[trigger] s[j], scissor) == 0
}

proof fn lemma_depth_append(a: Seq<RenderStep>, b: Seq<RenderStep>, k: bool)
    ensures
        nesting_depth(a + b, k) == nesting_depth(a, k) + nesting_depth(b, k),
    decreases b.len(),
{
    if b.len() == 0 {
        assert(a + b =~= a);
    } else {
        lemma_depth_append(a, b.drop_last(), k);
        assert((a + b).drop_last() =~= a + b.drop_last());
        assert((a + b).last() == b.last());
    }
}

proof fn lemma_depth_nonneg(s: Seq<RenderStep>, k: bool)
    requires
        deltas_nonneg(s, k),
    ensures
        prefix_depth_at_least(s, k, 0),
        nesting_depth(s, k) >= 0,
    decreases s.len(),
{
    if s.len() > 0 {
        let d = s.drop_last();
        assert(deltas_nonneg(d, k)) by {
            assert forall|j: int| 0 <= j < d.len() implies step_delta(#[trigger] d[j], k) >= 0 by {
                assert(d[j] == s[j]);
            }
        }
        lemma_depth_nonneg(d, k);
        assert(step_delta(s[s.len() - 1], k) >= 0);
        assert forall|i: int| 0 <= i <= s.len() implies #[trigger] nesting_depth(s.take(i), k) >= 0 by {
            if i < s.len() {
                assert(s.take(i) =~= d.take(i));
            } else {
                assert(s.take(i) =~= s);
            }
        }
    } else {
        assert forall|i: int| 0 <= i <= s.len() implies #[trigger] nesting_depth(s.take(i), k) >= 0 by {
            assert(s.take(i).len() == 0);
        }
    }
}

proof fn lemma_depth_nonpos(s: Seq<RenderStep>, k: bool)
    requires
        deltas_nonpos(s, k),
    ensures
        prefix_depth_at_least(s, k, nesting_depth(s, k)),
        nesting_depth(s, k) <= 0,
    decreases s.len(),
{
    if s.len() > 0 {
        let d = s.drop_last();
        assert(deltas_nonpos(d, k)) by {
            assert forall|j: int| 0 <= j < d.len() implies step_delta(#[trigger] d[j], k) <= 0 by {
                assert(d[j] == s[j]);
            }
        }
        lemma_depth_nonpos(d, k);
        assert(step_delta(s[s.len() - 1], k) <= 0);
        assert forall|i: int| 0 <= i <= s.len() implies #[trigger] nesting_depth(s.take(i), k) >= nesting_depth(s, k) by {
            if i < s.len() {
                assert(s.take(i) =~= d.take(i));
            } else {
                assert(s.take(i) =~= s);
            }
        }
    } else {
        assert forall|i: int| 0 <= i <= s.len() implies #[trigger] nesting_depth(s.take(i), k) >= nesting_depth(s, k) by {
            assert(s.take(i).len() == 0);
        }
    }
}

proof fn lemma_depth_zero(s: Seq<RenderStep>, k: bool)
    requires
        deltas_zero(s, k),
    ensures
        nesting_depth(s, k) == 0,
        deltas_nonneg(s, k),
        deltas_nonpos(s, k),
    decreases s.len(),
{
    if s.len() > 0 {
        let d = s.drop_last();
        assert(deltas_zero(d, k)) by {
            assert forall|j: int| 0 <= j < d.len() implies step_delta(#[trigger] d[j], k) == 0 by {
                assert(d[j] == s[j]);
            }
        }
        lemma_depth_zero(d, k);
        assert(step_delta(s[s.len() - 1], k) == 0);
    }
}

proof fn lemma_prefix_append(a: Seq<RenderStep>, b: Seq<RenderStep>, k: bool, m: int)
    requires
        prefix_depth_at_least(a, k, m),
        prefix_depth_at_least(b, k, m - nesting_depth(a, k)),
    ensures
        prefix_depth_at_least(a + b, k, m),
{
    assert forall|i: int| 0 <= i <= (a + b).len() implies #[trigger] nesting_depth((a + b).take(i), k) >= m by {
        if i <= a.len() {
            assert((a + b).take(i) =~= a.take(i));
        } else {
            assert((a + b).take(i) =~= a + b.take(i - a.len()));
            lemma_depth_append(a, b.take(i - a.len()), k);
            assert(nesting_depth(b.take(i - a.len()), k) >= m - nesting_depth(a, k));
        }
    }
}

proof fn lemma_balanced_append(a: Seq<RenderStep>, b: Seq<RenderStep>, k: bool)
    requires
        is_balanced(a, k),
        is_balanced(b, k),
    ensures
        is_balanced(a + b, k),
{
    lemma_depth_append(a, b, k);
    lemma_prefix_append(a, b, k, 0);
}

/// Steps that only open, balanced steps, then steps that only close as many
/// levels as the first opened, are balanced.
proof fn lemma_balanced_wrap(a: Seq<RenderStep>, m: Seq<RenderStep>, c: Seq<RenderStep>, k: bool)
    requires
        deltas_nonneg(a, k),
        is_balanced(m, k),
        deltas_nonpos(c, k),
        nesting_depth(a, k) + nesting_depth(c, k) == 0,
    ensures
        is_balanced(a + m + c, k),
{
    lemma_depth_nonneg(a, k);
    lemma_depth_nonpos(c, k);
    lemma_depth_append(a, m, k);
    lemma_depth_append(a + m, c, k);
    let d = nesting_depth(a, k);
    assert(prefix_depth_at_least(m, k, 0 - d));
    lemma_prefix_append(a, m, k, 0);
    lemma_prefix_append(a + m, c, k, 0);
}

proof fn lemma_deltas_append(a: Seq<RenderStep>, b: Seq<RenderStep>, k: bool)
    ensures
        deltas_nonneg(a, k) && deltas_nonneg(b, k) ==> deltas_nonneg(a + b, k),
        deltas_nonpos(a, k) && deltas_nonpos(b, k) ==> deltas_nonpos(a + b, k),
        deltas_zero(a, k) && deltas_zero(b, k) ==> deltas_zero(a + b, k),
{
    assert forall|j: int| 0 <= j < (a + b).len() implies (#[trigger] (a + b)[j]) == if j < a.len() { a[j] } else { b[j - a.len()] } by {}
}

proof fn lemma_repeat_depth(n: nat, st: RenderStep, k: bool)
    ensures
        nesting_depth(repeat_step(n, st), k) == n * step_delta(st, k),
    decreases n,
{
    if n > 0 {
        lemma_repeat_depth((n - 1) as nat, st, k);
        assert(repeat_step(n, st).drop_last() =~= repeat_step((n - 1) as nat, st));
        assert(n * step_delta(st, k) == (n - 1) * step_delta(st, k) + step_delta(st, k)) by (nonlinear_arith);
    }
}

proof fn lemma_zero_balanced(s: Seq<RenderStep>, k: bool)
    requires
        deltas_zero(s, k),
    ensures
        is_balanced(s, k),
        deltas_nonneg(s, k),
        deltas_nonpos(s, k),
{
    lemma_depth_zero(s, k);
    lemma_depth_nonneg(s, k);
}

proof fn lemma_single_depth(st: RenderStep, k: bool)
    ensures
        nesting_depth(seq![st], k) == step_delta(st, k),
        deltas_nonneg(seq![st], k) <==> step_delta(st, k) >= 0,
        deltas_nonpos(seq![st], k) <==> step_delta(st, k) <= 0,
        deltas_zero(seq![st], k) <==> step_delta(st, k) == 0,
{
    let one = seq![st];
    assert(one.drop_last() =~= Seq::<RenderStep>::empty());
    assert(one[0] == st);
    assert(one.last() == st);
    assert(nesting_depth(Seq::<RenderStep>::empty(), k) == 0);
    assert(nesting_depth(one, k) == nesting_depth(one.drop_last(), k) + step_delta(one.last(), k));
}

/// The configuration steps of element `e` from its `i`-th configuration on
/// open no group and close nothing; on screen, with a single clip
/// configuration, they start clipping once when that configuration is among
/// them.
proof fn lemma_config_steps(t: LayoutTreeView, facts: Seq<RenderFacts>, e: int, i: int, k: bool)
    requires
        0 <= e < t.elements.len(),
        0 <= i,
    ensures
        deltas_nonneg(config_steps(t, facts, e, i), k),
        !k ==> deltas_zero(config_steps(t, facts, e, i), k),
        k && single_clip(t, e) ==> nesting_depth(config_steps(t, facts, e, i), k) == {
            let sl = t.elements[e].element_configs;
            let p = first_config_pos(t.element_configs, sl.start as int, sl.length as int, ElementConfigType::Clip);
            if !facts[e].offscreen && p >= sl.start + i { 1int } else { 0int }
        },
    decreases t.elements[e].element_configs.length - i,
{
    let el = t.elements[e];
    let sl = el.element_configs;
    let cs = config_steps(t, facts, e, i);
    lemma_first_config_pos(t.element_configs, sl.start as int, sl.length as int, ElementConfigType::Clip);
    let p = first_config_pos(t.element_configs, sl.start as int, sl.length as int, ElementConfigType::Clip);
    if i >= sl.length {
        assert(cs =~= Seq::<RenderStep>::empty());
        lemma_zero_balanced(cs, k);
        if p >= 0 {
            assert(p < sl.start + i);
        }
    } else {
        let f = facts[e];
        let c = t.element_configs[sl.start + i];
        let here = if f.offscreen {
            Seq::empty()
        } else {
            match c.config_type {
                ElementConfigType::Clip => seq![RenderStep::ScissorStart(e as usize)],
                ElementConfigType::Image => seq![RenderStep::Image(e as usize)],
                ElementConfigType::Text => if el.text_data_index >= 0 {
                    Seq::new(f.text_lines as nat, |m: int| RenderStep::Text { element: e as usize, line: m as usize })
                } else {
                    Seq::empty()
                },
                ElementConfigType::Custom => seq![RenderStep::Custom(e as usize)],
                ElementConfigType::TextInput => seq![RenderStep::TextInput(e as usize)],
                _ => Seq::empty(),
            }
        };
        let rest = config_steps(t, facts, e, i + 1);
        assert(cs == here + rest);
        lemma_config_steps(t, facts, e, i + 1, k);
        let is_start = !f.offscreen && c.config_type == ElementConfigType::Clip;
        if is_start {
            lemma_single_depth(RenderStep::ScissorStart(e as usize), k);
        } else {
            assert(deltas_zero(here, k));
            lemma_depth_zero(here, k);
        }
        lemma_deltas_append(here, rest, k);
        lemma_depth_append(here, rest, k);
        if k && single_clip(t, e) {
            if c.config_type == ElementConfigType::Clip {
                assert(p >= 0);
                assert(t.element_configs[p].config_type == ElementConfigType::Clip);
                assert(p == sl.start + i);
            } else {
                assert(p != sl.start + i);
            }
        }
    }
}

proof fn lemma_repeat_deltas(n: nat, st: RenderStep, k: bool)
    ensures
        step_delta(st, k) >= 0 ==> deltas_nonneg(repeat_step(n, st), k),
        step_delta(st, k) <= 0 ==> deltas_nonpos(repeat_step(n, st), k),
        nesting_depth(repeat_step(n, st), k) == n * step_delta(st, k),
{
    lemma_repeat_depth(n, st, k);
    assert forall|j: int| 0 <= j < n implies #[trigger] repeat_step(n, st)[j] == st by {}
}

/// What element `e` opens on the way down it closes on the way back up.
proof fn lemma_open_close(v: PlyContextView, facts: Seq<RenderFacts>, e: int, k: bool)
    requires
        0 <= e < v.tree.elements.len(),
        facts.len() == v.tree.elements.len(),
        k ==> (has_config(v.tree, v.tree.elements[e], ElementConfigType::Clip) ==> !facts[e].offscreen && single_clip(v.tree, e)),
    ensures
        deltas_nonneg(element_open_steps(v.tree, facts, e), k),
        deltas_nonpos(element_close_steps(v, facts, e), k),
        nesting_depth(element_open_steps(v.tree, facts, e), k) + nesting_depth(element_close_steps(v, facts, e), k) == 0,
{
    let t = v.tree;
    let el = t.elements[e];
    let f = facts[e];
    let sl = el.element_configs;
    // on the way down
    let groups = repeat_step(f.groups as nat, RenderStep::GroupBegin(e as usize));
    let cs = config_steps(t, facts, e, 0);
    let rect = if f.background && !background_replaced(t, e) {
        seq![RenderStep::Rectangle(e as usize)]
    } else {
        Seq::empty()
    };
    lemma_repeat_deltas(f.groups as nat, RenderStep::GroupBegin(e as usize), k);
    lemma_first_config_pos(t.element_configs, sl.start as int, sl.length as int, ElementConfigType::Clip);
    lemma_config_steps(t, facts, e, 0, k);
    if f.background && !background_replaced(t, e) {
        lemma_single_depth(RenderStep::Rectangle(e as usize), k);
    }
    lemma_zero_balanced(rect, k);
    lemma_depth_zero(rect, k);
    lemma_deltas_append(groups, cs, k);
    lemma_deltas_append(groups + cs, rect, k);
    lemma_depth_append(groups, cs, k);
    lemma_depth_append(groups + cs, rect, k);
    assert(element_open_steps(t, facts, e) == groups + cs + rect);
    // on the way back up
    let border = if has_config(t, el, ElementConfigType::Border) && v.element_map.contains_key(el.id) && !f.offscreen {
        seq![RenderStep::Border(e as usize)] + if f.dividers { divider_steps(t, e) } else { Seq::empty() }
    } else {
        Seq::empty()
    };
    let scissor = if has_config(t, el, ElementConfigType::Clip) {
        seq![RenderStep::ScissorEnd(e as usize)]
    } else {
        Seq::empty()
    };
    let ends = repeat_step(f.groups as nat, RenderStep::GroupEnd(e as usize));
    assert(deltas_zero(border, k)) by {
        assert forall|j: int| 0 <= j < border.len() implies step_delta(#[trigger] border[j], k) == 0 by {
            if j > 0 {
                assert(border[j] == divider_steps(t, e)[j - 1]);
            }
        }
    }
    lemma_depth_zero(border, k);
    if has_config(t, el, ElementConfigType::Clip) {
        lemma_single_depth(RenderStep::ScissorEnd(e as usize), k);
    } else {
        lemma_zero_balanced(scissor, k);
    }
    lemma_repeat_deltas(f.groups as nat, RenderStep::GroupEnd(e as usize), k);
    lemma_deltas_append(border, scissor, k);
    lemma_deltas_append(border + scissor, ends, k);
    lemma_depth_append(border, scissor, k);
    lemma_depth_append(border + scissor, ends, k);
    assert(element_close_steps(v, facts, e) == border + scissor + ends);
    let g = f.groups as nat;
    if k {
        assert(step_delta(RenderStep::GroupBegin(e as usize), k) == 0);
        assert(step_delta(RenderStep::GroupEnd(e as usize), k) == 0);
        assert(g * 0 == 0) by (nonlinear_arith);
        let p = first_config_pos(t.element_configs, sl.start as int, sl.length as int, ElementConfigType::Clip);
        if !has_config(t, el, ElementConfigType::Clip) {
            assert(single_clip(t, e));
            assert(nesting_depth(cs, k) == 0);
        } else {
            assert(p >= sl.start);
            assert(nesting_depth(cs, k) == 1);
            assert(nesting_depth(scissor, k) == -1);
        }
    } else {
        assert(step_delta(RenderStep::GroupBegin(e as usize), k) == 1);
        assert(step_delta(RenderStep::GroupEnd(e as usize), k) == -1);
        assert(g * 1 == g && g * (-1) == -g) by (nonlinear_arith);
        assert(nesting_depth(cs, k) == 0) by {
            lemma_depth_zero(cs, k);
        }
        if has_config(t, el, ElementConfigType::Clip) {
            assert(nesting_depth(scissor, k) == 0);
        }
    }
}

/// The steps below an element are balanced.
proof fn lemma_visit_balanced(v: PlyContextView, facts: Seq<RenderFacts>, e: int, k: bool)
    requires
        facts.len() == v.tree.elements.len(),
        k ==> clips_paired(v, facts, e),
    ensures
        is_balanced(render_visit(v, facts, e), k),
    decreases v.tree.elements.len() - e, (if 0 <= e < v.tree.elements.len() { v.tree.elements[e].children_length as int + 1 } else { 0 }),
{
    let t = v.tree;
    if e < 0 || e >= t.elements.len() {
        lemma_zero_balanced(render_visit(v, facts, e), k);
    } else {
        let below = if has_config(t, t.elements[e], ElementConfigType::Text) {
            Seq::empty()
        } else {
            render_children(v, facts, e, 0)
        };
        if has_config(t, t.elements[e], ElementConfigType::Text) {
            lemma_zero_balanced(below, k);
        } else {
            lemma_children_balanced(v, facts, e, 0, k);
        }
        lemma_open_close(v, facts, e, k);
        lemma_balanced_wrap(element_open_steps(t, facts, e), below, element_close_steps(v, facts, e), k);
    }
}

/// The steps below the children of an element are balanced.
proof fn lemma_children_balanced(v: PlyContextView, facts: Seq<RenderFacts>, e: int, i: int, k: bool)
    requires
        facts.len() == v.tree.elements.len(),
        k ==> clips_paired_children(v, facts, e, i),
    ensures
        is_balanced(render_children(v, facts, e, i), k),
    decreases v.tree.elements.len() - e, (if 0 <= e < v.tree.elements.len() { v.tree.elements[e].children_length - i } else { 0 }),
{
    let t = v.tree;
    if e < 0 || e >= t.elements.len() || i < 0 || i >= t.elements[e].children_length {
        lemma_zero_balanced(render_children(v, facts, e, i), k);
    } else {
        let j = t.elements[e].children_start + i;
        let c = if 0 <= j < t.children.len() { t.children[j] as int } else { -1 };
        lemma_children_balanced(v, facts, e, i + 1, k);
        if e < c < t.elements.len() {
            lemma_visit_balanced(v, facts, c, k);
            lemma_balanced_append(render_visit(v, facts, c), render_children(v, facts, e, i + 1), k);
        }
    }
}

/// The steps of the first `j` tree roots are balanced.
proof fn lemma_roots_balanced(v: PlyContextView, facts: Seq<RenderFacts>, j: int, k: bool)
    requires
        facts.len() == v.tree.elements.len(),
        j <= v.tree.tree_roots.len(),
        k ==> frame_clips_paired(v, facts),
    ensures
        is_balanced(render_roots(v, facts, j), k),
    decreases j,
{
    if j <= 0 {
        lemma_zero_balanced(render_roots(v, facts, j), k);
    } else {
        lemma_roots_balanced(v, facts, j - 1, k);
        let r = j - 1;
        let root = v.tree.tree_roots[r];
        let clipped = root.clip_element_id != 0;
        let pre = if clipped && v.element_map.contains_key(root.clip_element_id) {
            seq![RenderStep::RootScissorStart(r as usize)]
        } else {
            Seq::empty()
        };
        let post = if clipped { seq![RenderStep::RootScissorEnd(r as usize)] } else { Seq::empty() };
        let mid = render_visit(v, facts, root.layout_element_index as int);
        lemma_visit_balanced(v, facts, root.layout_element_index as int, k);
        if clipped && v.element_map.contains_key(root.clip_element_id) {
            lemma_single_depth(RenderStep::RootScissorStart(r as usize), k);
        } else {
            lemma_zero_balanced(pre, k);
        }
        if clipped {
            lemma_single_depth(RenderStep::RootScissorEnd(r as usize), k);
        } else {
            lemma_zero_balanced(post, k);
        }
        lemma_balanced_wrap(pre, mid, post, k);
        assert(render_root(v, facts, r) == pre + mid + post);
        lemma_balanced_append(render_roots(v, facts, j - 1), render_root(v, facts, r), k);
    }
}

/// The draw steps of a frame open and close groups in pairs; when every
/// clipping is started once (`frame_clips_paired`), they start and end
/// clipping in pairs too.
pub proof fn law_render_steps_balanced(v: PlyContextView, facts: Seq<RenderFacts>, focus_ring: bool)
    requires
        facts.len() == v.tree.elements.len(),
    ensures
        is_balanced(spec_render_steps(v, facts, focus_ring), false),
        frame_clips_paired(v, facts) ==> is_balanced(spec_render_steps(v, facts, focus_ring), true),
{
    let ring = focus_ring_steps(v, focus_ring);
    let n = v.tree.tree_roots.len() as int;
    if v.focused_element_id != 0 && v.focus_from_keyboard && focus_ring && v.element_map.contains_key(v.focused_element_id) {
        lemma_single_depth(RenderStep::FocusRing(v.focused_element_id), false);
        lemma_single_depth(RenderStep::FocusRing(v.focused_element_id), true);
    }
    lemma_zero_balanced(ring, false);
    lemma_zero_balanced(ring, true);
    lemma_roots_balanced(v, facts, n, false);
    lemma_balanced_append(render_roots(v, facts, n), ring, false);
    if frame_clips_paired(v, facts) {
        lemma_roots_balanced(v, facts, n, true);
        lemma_balanced_append(render_roots(v, facts, n), ring, true);
    }
}

/// The steps of the first `i` roots begin the steps of the first `j`.
pub proof fn lemma_roots_prefix(v: PlyContextView, facts: Seq<RenderFacts>, i: int, j: int)
    requires
        0 <= i <= j,
    ensures
        render_roots(v, facts, i).len() <= render_roots(v, facts, j).len(),
        render_roots(v, facts, j).subrange(0, render_roots(v, facts, i).len() as int) == render_roots(v, facts, i),
    decreases j - i,
{
    if i < j {
        lemma_roots_prefix(v, facts, i, j - 1);
        let a = render_roots(v, facts, j - 1);
        let b = render_roots(v, facts, i);
        assert((a + render_root(v, facts, j - 1)).subrange(0, b.len() as int) =~= a.subrange(0, b.len() as int));
    } else {
        assert(render_roots(v, facts, j).subrange(0, render_roots(v, facts, i).len() as int) =~= render_roots(v, facts, i));
    }
}

/// How many steps of `s` are dividers of element `e`.
pub open spec fn divider_count(s: Seq<RenderStep>, e: int) -> nat
    decreases s.len(),
{
    if s.len() == 0 {
        0
    } else {
        divider_count(s.drop_last(), e) + match s.last() {
            RenderStep::Divider { element, child } => if element == e { 1nat } else { 0nat },
            _ => 0nat,
        }
    }
}

/// Every divider among `s` belongs to an element at index `b` or later.
pub open spec fn dividers_from(s: Seq<RenderStep>, b: int) -> bool {
    forall|j: int| 0 <= j < s.len() ==> match #[trigger] s[j] {
        RenderStep::Divider { element, child } => element >= b,
        _ => true,
    }
}

proof fn lemma_divider_count_append(a: Seq<RenderStep>, b: Seq<RenderStep>, e: int)
    ensures
        divider_count(a + b, e) == divider_count(a, e) + divider_count(b, e),
    decreases b.len(),
{
    if b.len() == 0 {
        assert(a + b =~= a);
    } else {
        lemma_divider_count_append(a, b.drop_last(), e);
        assert((a + b).drop_last() =~= a + b.drop_last());
        assert((a + b).last() == b.last());
    }
}

proof fn lemma_dividers_from_append(a: Seq<RenderStep>, b: Seq<RenderStep>, m: int)
    requires
        dividers_from(a, m),
        dividers_from(b, m),
    ensures
        dividers_from(a + b, m),
{
    assert forall|j: int| 0 <= j < (a + b).len() implies match #[trigger] (a + b)[j] {
        RenderStep::Divider { element, child } => element >= m,
        _ => true,
    } by {
        if j < a.len() {
            assert((a + b)[j] == a[j]);
        } else {
            assert((a + b)[j] == b[j - a.len()]);
        }
    }
}

proof fn lemma_no_divider_of(s: Seq<RenderStep>, b: int, e: int)
    requires
        dividers_from(s, b),
        e < b,
    ensures
        divider_count(s, e) == 0,
    decreases s.len(),
{
    if s.len() > 0 {
        let d = s.drop_last();
        assert(dividers_from(d, b)) by {
            assert forall|j: int| 0 <= j < d.len() implies match #[trigger] d[j] {
                RenderStep::Divider { element, child } => element >= b,
                _ => true,
            } by {
                assert(d[j] == s[j]);
            }
        }
        lemma_no_divider_of(d, b, e);
        assert(s.last() == s[s.len() - 1]);
    }
}

proof fn lemma_divider_run(e: int, m: nat)
    requires
        0 <= e <= usize::MAX,
    ensures
        divider_count(Seq::new(m, |k: int| RenderStep::Divider { element: e as usize, child: (k + 1) as usize }), e) == m,
        dividers_from(Seq::new(m, |k: int| RenderStep::Divider { element: e as usize, child: (k + 1) as usize }), e),
    decreases m,
{
    let s = Seq::new(m, |k: int| RenderStep::Divider { element: e as usize, child: (k + 1) as usize });
    if m > 0 {
        lemma_divider_run(e, (m - 1) as nat);
        assert(s.drop_last() =~= Seq::new((m - 1) as nat, |k: int| RenderStep::Divider { element: e as usize, child: (k + 1) as usize }));
        assert(s.last() == RenderStep::Divider { element: e as usize, child: m as usize });
        let d = s.drop_last();
        assert forall|j: int| 0 <= j < s.len() implies match #[trigger] s[j] {
            RenderStep::Divider { element, child } => element >= e,
            _ => true,
        } by {
            if j < s.len() - 1 {
                assert(s[j] == d[j]);
            }
        }
    } else {
        assert(s =~= Seq::<RenderStep>::empty());
    }
}

proof fn lemma_config_steps_no_dividers(t: LayoutTreeView, facts: Seq<RenderFacts>, e: int, i: int)
    requires
        t.elements.len() <= usize::MAX,
        0 <= e < t.elements.len(),
        0 <= i,
    ensures
        dividers_from(config_steps(t, facts, e, i), e + 1),
    decreases t.elements[e].element_configs.length - i,
{
    let el = t.elements[e];
    let sl = el.element_configs;
    let cs = config_steps(t, facts, e, i);
    if i < sl.length {
        let f = facts[e];
        let c = t.element_configs[sl.start + i];
        let here = if f.offscreen {
            Seq::empty()
        } else {
            match c.config_type {
                ElementConfigType::Clip => seq![RenderStep::ScissorStart(e as usize)],
                ElementConfigType::Image => seq![RenderStep::Image(e as usize)],
                ElementConfigType::Text => if el.text_data_index >= 0 {
                    Seq::new(f.text_lines as nat, |m: int| RenderStep::Text { element: e as usize, line: m as usize })
                } else {
                    Seq::empty()
                },
                ElementConfigType::Custom => seq![RenderStep::Custom(e as usize)],
                ElementConfigType::TextInput => seq![RenderStep::TextInput(e as usize)],
                _ => Seq::empty(),
            }
        };
        assert(cs == here + config_steps(t, facts, e, i + 1));
        assert(dividers_from(here, e + 1));
        lemma_config_steps_no_dividers(t, facts, e, i + 1);
        lemma_dividers_from_append(here, config_steps(t, facts, e, i + 1), e + 1);
    } else {
        assert(cs =~= Seq::<RenderStep>::empty());
    }
}

/// The dividers below element `e` belong to `e` and the elements after it,
/// and those on its way down belong to none.
proof fn lemma_visit_dividers_from(v: PlyContextView, facts: Seq<RenderFacts>, e: int)
    requires
        v.tree.elements.len() <= usize::MAX,
        0 <= e,
    ensures
        dividers_from(render_visit(v, facts, e), e),
    decreases v.tree.elements.len() - e, (if 0 <= e < v.tree.elements.len() { v.tree.elements[e].children_length as int + 1 } else { 0 }),
{
    let t = v.tree;
    if e < t.elements.len() {
        lemma_open_no_dividers(v, facts, e);
        lemma_close_dividers(v, facts, e);
        let below = if has_config(t, t.elements[e], ElementConfigType::Text) {
            Seq::empty()
        } else {
            render_children(v, facts, e, 0)
        };
        if !has_config(t, t.elements[e], ElementConfigType::Text) {
            lemma_children_dividers_from(v, facts, e, 0);
        }
        assert(dividers_from(below, e));
        let open = element_open_steps(t, facts, e);
        assert(dividers_from(open, e)) by {
            assert forall|j: int| 0 <= j < open.len() implies match #[trigger] open[j] {
                RenderStep::Divider { element, child } => element >= e,
                _ => true,
            } by {}
        }
        lemma_dividers_from_append(open, below, e);
        lemma_dividers_from_append(open + below, element_close_steps(v, facts, e), e);
    } else {
        assert(render_visit(v, facts, e) =~= Seq::<RenderStep>::empty());
    }
}

proof fn lemma_children_dividers_from(v: PlyContextView, facts: Seq<RenderFacts>, e: int, i: int)
    requires
        v.tree.elements.len() <= usize::MAX,
        0 <= e,
    ensures
        dividers_from(render_children(v, facts, e, i), e + 1),
    decreases v.tree.elements.len() - e, (if 0 <= e < v.tree.elements.len() { v.tree.elements[e].children_length - i } else { 0 }),
{
    let t = v.tree;
    if e < 0 || e >= t.elements.len() || i < 0 || i >= t.elements[e].children_length {
        assert(render_children(v, facts, e, i) =~= Seq::<RenderStep>::empty());
    } else {
        let j = t.elements[e].children_start + i;
        let c = if 0 <= j < t.children.len() { t.children[j] as int } else { -1 };
        lemma_children_dividers_from(v, facts, e, i + 1);
        if e < c < t.elements.len() {
            lemma_visit_dividers_from(v, facts, c);
            let s = render_visit(v, facts, c);
            assert(dividers_from(s, e + 1)) by {
                assert forall|x: int| 0 <= x < s.len() implies match #[trigger] s[x] {
                    RenderStep::Divider { element, child } => element >= e + 1,
                    _ => true,
                } by {
                    assert(match s[x] {
                        RenderStep::Divider { element, child } => element >= c,
                        _ => true,
                    });
                }
            }
            lemma_dividers_from_append(s, render_children(v, facts, e, i + 1), e + 1);
        }
    }
}

proof fn lemma_open_no_dividers(v: PlyContextView, facts: Seq<RenderFacts>, e: int)
    requires
        v.tree.elements.len() <= usize::MAX,
        0 <= e < v.tree.elements.len(),
    ensures
        dividers_from(element_open_steps(v.tree, facts, e), e + 1),
{
    let t = v.tree;
    let f = facts[e];
    let groups = repeat_step(f.groups as nat, RenderStep::GroupBegin(e as usize));
    let rect = if f.background && !background_replaced(t, e) {
        seq![RenderStep::Rectangle(e as usize)]
    } else {
        Seq::empty()
    };
    assert(dividers_from(groups, e + 1));
    assert(dividers_from(rect, e + 1));
    lemma_config_steps_no_dividers(t, facts, e, 0);
    lemma_dividers_from_append(groups, config_steps(t, facts, e, 0), e + 1);
    lemma_dividers_from_append(groups + config_steps(t, facts, e, 0), rect, e + 1);
    assert(element_open_steps(t, facts, e) == groups + config_steps(t, facts, e, 0) + rect);
}

/// The steps `s` draw the divider of element `e` before its child `k`.
pub open spec fn draws_divider(s: Seq<RenderStep>, e: int, k: int) -> bool {
    s.contains(RenderStep::Divider { element: e as usize, child: k as usize })
}

/// Whether element `e` draws its border: it has one, is known to the
/// element map and is on screen.
pub open spec fn border_shown(v: PlyContextView, facts: Seq<RenderFacts>, e: int) -> bool {
    let el = v.tree.elements[e];
    has_config(v.tree, el, ElementConfigType::Border) && v.element_map.contains_key(el.id) && !facts[e].offscreen
}

proof fn lemma_close_dividers(v: PlyContextView, facts: Seq<RenderFacts>, e: int)
    requires
        v.tree.elements.len() <= usize::MAX,
        0 <= e < v.tree.elements.len(),
    ensures
        dividers_from(element_close_steps(v, facts, e), e),
        divider_count(element_close_steps(v, facts, e), e) == ({
            let n = v.tree.elements[e].children_length as int;
            if border_shown(v, facts, e) && facts[e].dividers && n > 0 { (n - 1) as nat } else { 0nat }
        }),
{
    let t = v.tree;
    let el = t.elements[e];
    let f = facts[e];
    let n = el.children_length as int;
    let m: nat = if n > 0 { (n - 1) as nat } else { 0 };
    let divs = if f.dividers { divider_steps(t, e) } else { Seq::empty() };
    lemma_divider_run(e, m);
    assert(divider_steps(t, e) == Seq::new(m, |k: int| RenderStep::Divider { element: e as usize, child: (k + 1) as usize }));
    let head = seq![RenderStep::Border(e as usize)];
    assert(divider_count(head, e) == 0) by {
        assert(head.drop_last() =~= Seq::<RenderStep>::empty());
        assert(head.last() == RenderStep::Border(e as usize));
        assert(divider_count(Seq::<RenderStep>::empty(), e) == 0);
    }
    assert(dividers_from(head, e));
    assert(divider_count(Seq::<RenderStep>::empty(), e) == 0);
    assert(dividers_from(Seq::<RenderStep>::empty(), e));
    lemma_divider_count_append(head, divs, e);
    lemma_dividers_from_append(head, divs, e);
    let border = if border_shown(v, facts, e) { head + divs } else { Seq::empty() };
    let scissor = if has_config(t, el, ElementConfigType::Clip) {
        seq![RenderStep::ScissorEnd(e as usize)]
    } else {
        Seq::empty()
    };
    let ends = repeat_step(f.groups as nat, RenderStep::GroupEnd(e as usize));
    assert(dividers_from(scissor, e + 1));
    assert(dividers_from(ends, e + 1));
    lemma_no_divider_of(scissor, e + 1, e);
    lemma_no_divider_of(ends, e + 1, e);
    assert(dividers_from(scissor, e));
    assert(dividers_from(ends, e));
    lemma_divider_count_append(border, scissor, e);
    lemma_divider_count_append(border + scissor, ends, e);
    lemma_dividers_from_append(border, scissor, e);
    lemma_dividers_from_append(border + scissor, ends, e);
    assert(element_close_steps(v, facts, e) == border + scissor + ends);
}

/// An element whose border draws dividers between its children, drawn on
/// screen, draws exactly one divider before each child but the first
/// (before children `1 .. n - 1` of its `n`), after everything below it;
/// without a shown border or dividers it draws none.
pub proof fn law_dividers_between_adjacent_children(v: PlyContextView, facts: Seq<RenderFacts>, e: int)
    requires
        tree_indices_valid(v.tree),
        0 <= e < v.tree.elements.len(),
        facts.len() == v.tree.elements.len(),
    ensures
        ({
            let s = render_visit(v, facts, e);
            let n = v.tree.elements[e].children_length as int;
            let shown = border_shown(v, facts, e) && facts[e].dividers;
            &&& divider_count(s, e) == if shown && n > 0 { n - 1 } else { 0 }
            &&& shown ==> forall|k: int| 1 <= k < n ==> #[trigger] draws_divider(s, e, k)
        }),
{
    let t = v.tree;
    let open = element_open_steps(t, facts, e);
    let below = if has_config(t, t.elements[e], ElementConfigType::Text) {
        Seq::empty()
    } else {
        render_children(v, facts, e, 0)
    };
    let close = element_close_steps(v, facts, e);
    let s = render_visit(v, facts, e);
    assert(s == open + below + close);
    lemma_open_no_dividers(v, facts, e);
    lemma_no_divider_of(open, e + 1, e);
    if !has_config(t, t.elements[e], ElementConfigType::Text) {
        lemma_children_dividers_from(v, facts, e, 0);
    }
    assert(dividers_from(below, e + 1));
    lemma_no_divider_of(below, e + 1, e);
    lemma_close_dividers(v, facts, e);
    lemma_divider_count_append(open, below, e);
    lemma_divider_count_append(open + below, close, e);
    let n = t.elements[e].children_length as int;
    if border_shown(v, facts, e) && facts[e].dividers {
        assert forall|k: int| 1 <= k < n implies #[trigger] draws_divider(s, e, k) by {
            let idx = open.len() + below.len() + 1 + (k - 1);
            assert(close[1 + (k - 1)] == divider_steps(t, e)[k - 1]);
            assert(s[idx] == close[1 + (k - 1)]);
            assert(s[idx] == RenderStep::Divider { element: e as usize, child: k as usize });
            assert(s.contains(RenderStep::Divider { element: e as usize, child: k as usize }));
        }
    }
}

/// Appends `n` copies of `s` to `out`.
fn push_repeated(out: &mut Vec<RenderStep>, n: u32, s: RenderStep)
    ensures
        final(out)@ == old(out)@ + repeat_step(n as nat, s),
{
    let ghost start = old(out)@;
    let mut k: u32 = 0;
    while k < n
        invariant
            0 <= k <= n,
            out@ == start + repeat_step(k as nat, s),
        decreases n - k,
    {
        out.push(s);
        assert(start + repeat_step((k + 1) as nat, s) =~= start + repeat_step(k as nat, s) + seq![s]);
        k = k + 1;
    }
}

impl PlyContext {
    /// Appends the steps of the configurations of element `e` to `out`.
    fn push_config_steps(&self, facts: &Vec<RenderFacts>, e: usize, out: &mut Vec<RenderStep>)
        requires
            self.wf(),
            facts@.len() == self@.tree.elements.len(),
            e < self@.tree.elements.len(),
        ensures
            final(out)@ == old(out)@ + config_steps(self@.tree, facts@, e as int, 0),
    {
        let tree: &LayoutTree = self.layout_tree();
        proof {
            tree.lemma_indices_valid();
        }
        let el = tree.element(e);
        let f = facts[e];
        let configs = tree.element_configs();
        let ghost t = self@.tree;
        let ghost start = old(out)@;
        let n: i32 = el.element_configs.length;
        let mut i: i32 = 0;
        assert(el.element_configs.length >= 0 && el.element_configs.start + el.element_configs.length <= t.element_configs.len());
        while i < n
            invariant
                0 <= i <= n,
                t == self@.tree,
                e < t.elements.len(),
                facts@.len() == t.elements.len(),
                el == t.elements[e as int],
                f == facts@[e as int],
                n == el.element_configs.length,
                configs@ == t.element_configs,
                el.element_configs.start + n <= configs@.len(),
                start + config_steps(t, facts@, e as int, 0) == out@ + config_steps(t, facts@, e as int, i as int),
            decreases n - i,
        {
            let ghost cur = out@;
            let clen = configs.len();
            assert(el.element_configs.start + (i as usize) < clen);
            let c = configs[el.element_configs.start + i as usize];
            if !f.offscreen {
                match c.config_type {
                    ElementConfigType::Clip => out.push(RenderStep::ScissorStart(e)),
                    ElementConfigType::Image => out.push(RenderStep::Image(e)),
                    ElementConfigType::Text => {
                        if el.text_data_index >= 0 {
                            let mut k: usize = 0;
                            while k < f.text_lines
                                invariant
                                    0 <= k <= f.text_lines,
                                    out@ == cur + Seq::new(k as nat, |m: int| RenderStep::Text { element: e, line: m as usize }),
                                decreases f.text_lines - k,
                            {
                                out.push(RenderStep::Text { element: e, line: k });
                                assert(cur + Seq::new((k + 1) as nat, |m: int| RenderStep::Text { element: e, line: m as usize })
                                    =~= cur + Seq::new(k as nat, |m: int| RenderStep::Text { element: e, line: m as usize })
                                        + seq![RenderStep::Text { element: e, line: k }]);
                                k = k + 1;
                            }
                        }
                    },
                    ElementConfigType::Custom => out.push(RenderStep::Custom(e)),
                    ElementConfigType::TextInput => out.push(RenderStep::TextInput(e)),
                    _ => {},
                }
            }
            assert(config_steps(t, facts@, e as int, i as int) == {
                let here = if f.offscreen {
                    Seq::<RenderStep>::empty()
                } else {
                    match c.config_type {
                        ElementConfigType::Clip => seq![RenderStep::ScissorStart(e)],
                        ElementConfigType::Image => seq![RenderStep::Image(e)],
                        ElementConfigType::Text => if el.text_data_index >= 0 {
                            Seq::new(f.text_lines as nat, |k: int| RenderStep::Text { element: e, line: k as usize })
                        } else {
                            Seq::empty()
                        },
                        ElementConfigType::Custom => seq![RenderStep::Custom(e)],
                        ElementConfigType::TextInput => seq![RenderStep::TextInput(e)],
                        _ => Seq::empty(),
                    }
                };
                here + config_steps(t, facts@, e as int, i + 1)
            });
            assert(cur + config_steps(t, facts@, e as int, i as int) =~= out@ + config_steps(t, facts@, e as int, i + 1));
            i = i + 1;
        }
        assert(config_steps(t, facts@, e as int, n as int) =~= Seq::<RenderStep>::empty());
        assert(out@ + config_steps(t, facts@, e as int, n as int) =~= out@);
    }

    /// Appends to `out` the steps that draw element `e` and what lies below it.
    fn push_visit(&self, facts: &Vec<RenderFacts>, e: usize, out: &mut Vec<RenderStep>)
        requires
            self.wf(),
            facts@.len() == self@.tree.elements.len(),
        ensures
            final(out)@ == old(out)@ + render_visit(self@, facts@, e as int),
        decreases self@.tree.elements.len() - e, (if e < self@.tree.elements.len() { self@.tree.elements[e as int].children_length as int + 1 } else { 0 }),
    {
        let tree: &LayoutTree = self.layout_tree();
        proof {
            tree.lemma_indices_valid();
        }
        if e >= tree.element_count() {
            return;
        }
        let ghost start = old(out)@;
        self.push_open_steps(facts, e, out);
        let ghost mid = out@;
        if !tree.element_has_config(e, ElementConfigType::Text) {
            self.push_children(facts, e, out);
        } else {
            assert(out@ =~= mid + Seq::<RenderStep>::empty());
        }
        self.push_close_steps(facts, e, out);
        assert(out@ =~= start + render_visit(self@, facts@, e as int));
    }

    /// Appends to `out` the steps on the way down into element `e`.
    fn push_open_steps(&self, facts: &Vec<RenderFacts>, e: usize, out: &mut Vec<RenderStep>)
        requires
            self.wf(),
            facts@.len() == self@.tree.elements.len(),
            e < self@.tree.elements.len(),
        ensures
            final(out)@ == old(out)@ + element_open_steps(self@.tree, facts@, e as int),
    {
        let tree: &LayoutTree = self.layout_tree();
        let ghost t = self@.tree;
        let ghost start = old(out)@;
        let f = facts[e];
        push_repeated(out, f.groups, RenderStep::GroupBegin(e));
        self.push_config_steps(facts, e, out);
        let replaced = tree.element_has_config(e, ElementConfigType::Image) || tree.element_has_config(e, ElementConfigType::Custom)
            || tree.element_has_config(e, ElementConfigType::TextInput);
        if f.background && !replaced {
            out.push(RenderStep::Rectangle(e));
        }
        assert(out@ =~= start + element_open_steps(t, facts@, e as int));
    }

    /// Appends to `out` the steps on the way back up from element `e`.
    fn push_close_steps(&self, facts: &Vec<RenderFacts>, e: usize, out: &mut Vec<RenderStep>)
        requires
            self.wf(),
            facts@.len() == self@.tree.elements.len(),
            e < self@.tree.elements.len(),
        ensures
            final(out)@ == old(out)@ + element_close_steps(self@, facts@, e as int),
    {
        let tree: &LayoutTree = self.layout_tree();
        let ghost t = self@.tree;
        let el = tree.element(e);
        let f = facts[e];
        let ghost before_close = out@;
        let known = self.get_element_item(el.id).is_some();
        if tree.element_has_config(e, ElementConfigType::Border) && known && !f.offscreen {
            out.push(RenderStep::Border(e));
            if f.dividers {
                let n: u16 = el.children_length;
                let ghost cur = out@;
                let mut k: u16 = 1;
                while k < n
                    invariant
                        1 <= k,
                        k <= n || (n == 0 && k == 1),
                        e < t.elements.len(),
                        n == t.elements[e as int].children_length,
                        out@ == cur + divider_steps(t, e as int).take(k - 1),
                    decreases n - k,
                {
                    out.push(RenderStep::Divider { element: e, child: k as usize });
                    assert(divider_steps(t, e as int).take(k as int) =~= divider_steps(t, e as int).take(k - 1).push(
                        RenderStep::Divider { element: e, child: k as usize },
                    ));
                    k = k + 1;
                }
                assert(k - 1 == if n > 0 { n - 1 } else { 0 });
                assert(divider_steps(t, e as int).take(k - 1) =~= divider_steps(t, e as int));
                assert(out@ == cur + divider_steps(t, e as int));
            }
        }
        let ghost border = if has_config(t, el, ElementConfigType::Border) && self@.element_map.contains_key(el.id) && !f.offscreen {
            seq![RenderStep::Border(e)] + if f.dividers { divider_steps(t, e as int) } else { Seq::empty() }
        } else {
            Seq::empty()
        };
        assert(out@ =~= before_close + border);
        let ghost after_border = out@;
        let clip = tree.element_has_config(e, ElementConfigType::Clip);
        if clip {
            out.push(RenderStep::ScissorEnd(e));
        }
        let ghost scissor = if clip { seq![RenderStep::ScissorEnd(e)] } else { Seq::empty() };
        assert(out@ =~= after_border + scissor);
        let ghost after_scissor = out@;
        push_repeated(out, f.groups, RenderStep::GroupEnd(e));
        assert(out@ =~= before_close + (border + scissor + repeat_step(f.groups as nat, RenderStep::GroupEnd(e))));
    }

    /// Appends to `out` the steps that draw the children of element `e`.
    fn push_children(&self, facts: &Vec<RenderFacts>, e: usize, out: &mut Vec<RenderStep>)
        requires
            self.wf(),
            facts@.len() == self@.tree.elements.len(),
            e < self@.tree.elements.len(),
        ensures
            final(out)@ == old(out)@ + render_children(self@, facts@, e as int, 0),
        decreases self@.tree.elements.len() - e, self@.tree.elements[e as int].children_length as int,
    {
        let tree: &LayoutTree = self.layout_tree();
        let element = tree.element(e);
        let n = element.children_length;
        let count = tree.element_count();
        let children = tree.children();
        let children_count = children.len();
        let ghost start = old(out)@;
        let mut k: u16 = 0;
        while k < n
            invariant
                self.wf(),
                facts@.len() == self@.tree.elements.len(),
                0 <= k <= n,
                e < self@.tree.elements.len(),
                element == self@.tree.elements[e as int],
                n == element.children_length,
                count == self@.tree.elements.len(),
                children@ == self@.tree.children,
                children_count == children@.len(),
                start + render_children(self@, facts@, e as int, 0) == out@ + render_children(self@, facts@, e as int, k as int),
            decreases n - k,
        {
            let ghost cur = out@;
            let mut handled = false;
            if let Some(j) = element.children_start.checked_add(k as usize) {
                if j < children_count {
                    let c = children[j];
                    if c >= 0 && e < c as usize && (c as usize) < count {
                        self.push_visit(facts, c as usize, out);
                        assert(cur + render_children(self@, facts@, e as int, k as int)
                            =~= cur + render_visit(self@, facts@, c as int) + render_children(self@, facts@, e as int, k + 1));
                        handled = true;
                    }
                }
            }
            if !handled {
                assert(render_children(self@, facts@, e as int, k as int) == render_children(self@, facts@, e as int, k + 1));
            }
            k = k + 1;
        }
        assert(render_children(self@, facts@, e as int, n as int) =~= Seq::<RenderStep>::empty());
        assert(start + render_children(self@, facts@, e as int, 0) =~= out@);
    }

    /// Every draw step of the frame, in order: the tree roots one after
    /// another as the root list holds them (sorted by z-index once the frame
    /// is laid out), each root's elements depth first, and last the focus
    /// ring. `facts` holds what the caller measured of each element;
    /// `focus_ring` says whether the focused element's settings ask for a
    /// ring and its box is on screen.
    pub fn render_steps(&self, facts: &Vec<RenderFacts>, focus_ring: bool) -> (r: Vec<RenderStep>)
        requires
            self.wf(),
            facts@.len() == self@.tree.elements.len(),
        ensures
            r@ == spec_render_steps(self@, facts@, focus_ring),
            is_balanced(r@, false),
            frame_clips_paired(self@, facts@) ==> is_balanced(r@, true),
    {
        proof {
            law_render_steps_balanced(self@, facts@, focus_ring);
        }
        let tree: &LayoutTree = self.layout_tree();
        let roots = tree.tree_roots();
        let mut out: Vec<RenderStep> = Vec::new();
        let mut j: usize = 0;
        while j < roots.len()
            invariant
                self.wf(),
                facts@.len() == self@.tree.elements.len(),
                roots@ == self@.tree.tree_roots,
                0 <= j <= roots@.len(),
                out@ == render_roots(self@, facts@, j as int),
            decreases roots@.len() - j,
        {
            let root = roots[j];
            let ghost before = out@;
            let clipped = root.clip_element_id != 0;
            if clipped && self.get_element_item(root.clip_element_id).is_some() {
                out.push(RenderStep::RootScissorStart(j));
            }
            if root.layout_element_index >= 0 {
                self.push_visit(facts, root.layout_element_index as usize, &mut out);
            } else {
                assert(render_visit(self@, facts@, root.layout_element_index as int) =~= Seq::<RenderStep>::empty());
                assert(out@ =~= out@ + render_visit(self@, facts@, root.layout_element_index as int));
            }
            if clipped {
                out.push(RenderStep::RootScissorEnd(j));
            }
            assert(out@ =~= before + render_root(self@, facts@, j as int));
            j = j + 1;
        }
        let ghost all = out@;
        let id = self.focused_element_id();
        if id != 0 && self.focus_from_keyboard() && focus_ring && self.get_element_item(id).is_some() {
            out.push(RenderStep::FocusRing(id));
        }
        assert(out@ =~= all + focus_ring_steps(self@, focus_ring));
        out
    }
}

} // verus!
