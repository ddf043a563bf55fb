//! The debug view's element list: one row per element, root by root, each
//! root's elements depth first, with what the row shows of the element. The
//! children of a text element or of a collapsed element are not listed.
use vstd::prelude::*;
use crate::engine::{ElementConfig, ElementConfigType, PlyContext, PlyContextView, PointerDataInteractionState};
use crate::tree::{has_config, LayoutTree};

verus! {

/// One row of the debug view's element list.
#[derive(Debug, Clone, Copy, PartialEq, Eq, Structural)]
pub struct DebugRow {
    /// The position of the element's tree root in the root list.
    pub root: usize,
    pub element_index: usize,
    pub id: u32,
    /// How deep the element lies below its root (the root itself is at 0).
    pub depth: usize,
    /// It shows a button that collapses and expands its children.
    pub has_children: bool,
    pub is_text: bool,
    pub collapsed: bool,
    /// It is the element selected in the debug view.
    pub selected: bool,
    /// Its box lies outside the viewport.
    pub offscreen: bool,
}

/// The element with id `id` is collapsed in the debug view.
pub open spec fn element_collapsed(v: PlyContextView, id: u32) -> bool {
    v.element_map.contains_key(id) && v.element_map[id].collapsed
}

/// The row of element `e`, at depth `depth` below root `r`.
pub open spec fn debug_row_of(v: PlyContextView, offscreen: Seq<bool>, r: int, e: int, depth: int) -> DebugRow {
    let t = v.tree;
    let el = t.elements[e];
    let is_text = has_config(t, el, ElementConfigType::Text);
    DebugRow {
        root: r as usize,
        element_index: e as usize,
        id: el.id,
        depth: depth as usize,
        has_children: !is_text && el.children_length > 0,
        is_text,
        collapsed: element_collapsed(v, el.id),
        selected: v.debug_selected_element_id == el.id,
        offscreen: offscreen[e],
    }
}

/// The rows of element `e` and of the elements listed below it: its own
/// row, then (unless it is a text element or collapsed) the rows of each of
/// its children, one level deeper. The children of an element come after it,
/// so the walk ends.
pub open spec fn debug_visit(v: PlyContextView, offscreen: Seq<bool>, r: int, e: int, depth: int) -> Seq<DebugRow>
    decreases v.tree.elements.len() - e, (if 0 <= e < v.tree.elements.len() { v.tree.elements[e].children_length as int + 1 } else { 0 }),
{
    let t = v.tree;
    if e < 0 || e >= t.elements.len() {
        Seq::empty()
    } else {
        let el = t.elements[e];
        let below = if has_config(t, el, ElementConfigType::Text) || element_collapsed(v, el.id) {
            Seq::empty()
        } else {
            debug_children(v, offscreen, r, e, 0, depth + 1)
        };
        seq![debug_row_of(v, offscreen, r, e, depth)] + below
    }
}

/// The rows of the children of element `e` from its `k`-th child on, each
/// at depth `depth`.
pub open spec fn debug_children(v: PlyContextView, offscreen: Seq<bool>, r: int, e: int, k: int, depth: int) -> Seq<DebugRow>
    decreases v.tree.elements.len() - e, (if 0 <= e < v.tree.elements.len() { v.tree.elements[e].children_length - k } else { 0 }),
{
    let t = v.tree;
    if e < 0 || e >= t.elements.len() || k < 0 || k >= t.elements[e].children_length {
        Seq::empty()
    } else {
        let j = t.elements[e].children_start + k;
        let c = if 0 <= j < t.children.len() { t.children[j] as int } else { -1 };
        let rest = debug_children(v, offscreen, r, e, k + 1, depth);
        if e < c < t.elements.len() { debug_visit(v, offscreen, r, c, depth) + rest } else { rest }
    }
}

/// The rows of the first `j` tree roots.
pub open spec fn debug_roots(v: PlyContextView, offscreen: Seq<bool>, j: int) -> Seq<DebugRow>
    decreases j,
{
    if j <= 0 {
        Seq::empty()
    } else {
        debug_roots(v, offscreen, j - 1) + debug_visit(
            v,
            offscreen,
            j - 1,
            v.tree.tree_roots[j - 1].layout_element_index as int,
            0,
        )
    }
}

/// Every row of the debug view's element list.
pub open spec fn spec_debug_rows(v: PlyContextView, offscreen: Seq<bool>) -> Seq<DebugRow> {
    debug_roots(v, offscreen, v.tree.tree_roots.len() as int)
}

/// How many of the first `i` rows are text elements, each of which takes a
/// second list row for its content.
pub open spec fn text_rows_before(rows: Seq<DebugRow>, i: int) -> int
    decreases i,
{
    if i <= 0 {
        0
    } else {
        text_rows_before(rows, i - 1) + if rows[i - 1].is_text { 1int } else { 0int }
    }
}

/// The list row of entry `i` of `rows`: the entries before it, the content
/// rows of the text elements before it, and the separator before each root
/// after the first.
pub open spec fn list_row(rows: Seq<DebugRow>, i: int) -> int {
    i + text_rows_before(rows, i) + rows[i].root
}

/// The first entry of `rows` shown on list row `row`, if any.
pub open spec fn spec_debug_row_at(rows: Seq<DebugRow>, row: int) -> Option<int> {
    if exists|i: int| 0 <= i < rows.len() && list_row(rows, i) == row {
        Some(choose|i: int| 0 <= i < rows.len() && list_row(rows, i) == row && forall|j: int| 0 <= j < i ==> list_row(rows, j) != row)
    } else {
        None
    }
}

/// The entry of `rows` on list row `row` (the first, should several share
/// it), or `None`.
pub fn debug_row_at(rows: &Vec<DebugRow>, row: i32) -> (r: Option<usize>)
    ensures
        match r {
            Some(i) => i < rows@.len() && list_row(rows@, i as int) == row
                && forall|j: int| 0 <= j < i ==> list_row(rows@, j) != row,
            None => forall|j: int| 0 <= j < rows@.len() ==> list_row(rows@, j) != row,
        },
{
    let mut i: usize = 0;
    let mut texts: usize = 0;
    while i < rows.len()
        invariant
            0 <= i <= rows@.len(),
            texts == text_rows_before(rows@, i as int),
            texts <= i,
            forall|j: int| 0 <= j < i ==> list_row(rows@, j) != row,
        decreases rows@.len() - i,
    {
        let at = (i as u128) + (texts as u128) + (rows[i].root as u128);
        if row >= 0 && at == row as u128 {
            return Some(i);
        }
        if rows[i].is_text {
            texts = texts + 1;
        }
        i = i + 1;
    }
    None
}

impl PlyContext {
    /// Appends to `out` the rows of element `e` and below, at depth `depth`.
    fn push_debug_visit(&self, offscreen: &Vec<bool>, r: usize, e: usize, depth: usize, out: &mut Vec<DebugRow>)
        requires
            self.wf(),
            offscreen@.len() == self@.tree.elements.len(),
            depth <= e,
        ensures
            final(out)@ == old(out)@ + debug_visit(self@, offscreen@, r as int, e as int, depth as int),
        decreases self@.tree.elements.len() - e, (if e < self@.tree.elements.len() { self@.tree.elements[e as int].children_length as int + 1 } else { 0 }),
    {
        let tree: &LayoutTree = self.layout_tree();
        proof {
            tree.lemma_indices_valid();
        }
        if e >= tree.element_count() {
            return;
        }
        let ghost start = old(out)@;
        let el = tree.element(e);
        let is_text = tree.element_has_config(e, ElementConfigType::Text);
        let collapsed = match self.get_element_item(el.id) {
            Some(item) => item.collapsed,
            None => false,
        };
        out.push(DebugRow {
            root: r,
            element_index: e,
            id: el.id,
            depth,
            has_children: !is_text && el.children_length > 0,
            is_text,
            collapsed,
            selected: self.debug_selected_element_id() == el.id,
            offscreen: offscreen[e],
        });
        let ghost mid = out@;
        if !is_text && !collapsed {
            self.push_debug_children(offscreen, r, e, depth + 1, out);
        } else {
            assert(out@ =~= mid + Seq::<DebugRow>::empty());
        }
        assert(out@ =~= start + debug_visit(self@, offscreen@, r as int, e as int, depth as int));
    }

    /// Appends to `out` the rows below the children of element `e`, each
    /// child at depth `depth`.
    fn push_debug_children(&self, offscreen: &Vec<bool>, r: usize, e: usize, depth: usize, out: &mut Vec<DebugRow>)
        requires
            self.wf(),
            offscreen@.len() == self@.tree.elements.len(),
            e < self@.tree.elements.len(),
            depth <= e + 1,
        ensures
            final(out)@ == old(out)@ + debug_children(self@, offscreen@, r as int, e as int, 0, depth as int),
        decreases self@.tree.elements.len() - e, self@.tree.elements[e as int].children_length as int,
    {
        let tree: &LayoutTree = self.layout_tree();
        let element = tree.element(e);
        let n = element.children_length;
        let count = tree.element_count();
        let children = tree.children();
        let children_count = children.len();
        let ghost start = old(out)@;
        let mut k: u16 = 0;
        while k < n
            invariant
                self.wf(),
                offscreen@.len() == self@.tree.elements.len(),
                0 <= k <= n,
                e < self@.tree.elements.len(),
                depth <= e + 1,
                element == self@.tree.elements[e as int],
                n == element.children_length,
                count == self@.tree.elements.len(),
                children@ == self@.tree.children,
                children_count == children@.len(),
                start + debug_children(self@, offscreen@, r as int, e as int, 0, depth as int)
                    == out@ + debug_children(self@, offscreen@, r as int, e as int, k as int, depth as int),
            decreases n - k,
        {
            let ghost cur = out@;
            let mut handled = false;
            if let Some(j) = element.children_start.checked_add(k as usize) {
                if j < children_count {
                    let c = children[j];
                    if c >= 0 && e < c as usize && (c as usize) < count {
                        self.push_debug_visit(offscreen, r, c as usize, depth, out);
                        assert(cur + debug_children(self@, offscreen@, r as int, e as int, k as int, depth as int)
                            =~= cur + debug_visit(self@, offscreen@, r as int, c as int, depth as int)
                                + debug_children(self@, offscreen@, r as int, e as int, k + 1, depth as int));
                        handled = true;
                    }
                }
            }
            if !handled {
                assert(debug_children(self@, offscreen@, r as int, e as int, k as int, depth as int)
                    == debug_children(self@, offscreen@, r as int, e as int, k + 1, depth as int));
            }
            k = k + 1;
        }
        assert(debug_children(self@, offscreen@, r as int, e as int, n as int, depth as int) =~= Seq::<DebugRow>::empty());
        assert(start + debug_children(self@, offscreen@, r as int, e as int, 0, depth as int) =~= out@);
    }

    /// The rows of the debug view's element list: root by root, each root's
    /// elements depth first, the children of text and collapsed elements
    /// left out. `offscreen` says, for each element, whether its box lies
    /// outside the viewport.
    pub fn debug_rows(&self, offscreen: &Vec<bool>) -> (r: Vec<DebugRow>)
        requires
            self.wf(),
            offscreen@.len() == self@.tree.elements.len(),
        ensures
            r@ == spec_debug_rows(self@, offscreen@),
    {
        let tree: &LayoutTree = self.layout_tree();
        let roots = tree.tree_roots();
        let mut out: Vec<DebugRow> = Vec::new();
        let mut j: usize = 0;
        while j < roots.len()
            invariant
                self.wf(),
                offscreen@.len() == self@.tree.elements.len(),
                roots@ == self@.tree.tree_roots,
                0 <= j <= roots@.len(),
                out@ == debug_roots(self@, offscreen@, j as int),
            decreases roots@.len() - j,
        {
            let root = roots[j];
            if root.layout_element_index >= 0 {
                self.push_debug_visit(offscreen, j, root.layout_element_index as usize, 0, &mut out);
            } else {
                assert(debug_visit(self@, offscreen@, j as int, root.layout_element_index as int, 0) =~= Seq::<DebugRow>::empty());
                assert(out@ =~= out@ + debug_visit(self@, offscreen@, j as int, root.layout_element_index as int, 0));
            }
            j = j + 1;
        }
        out
    }

    /// The configurations of element `element_index`, in the order they were
    /// attached, as the debug view's panel for a selected element lists them.
    pub fn debug_config_rows(&self, element_index: usize) -> (r: Vec<ElementConfig>)
        requires
            self.wf(),
            element_index < self@.tree.elements.len(),
        ensures
            ({
                let sl = self@.tree.elements[element_index as int].element_configs;
                r@ == self@.tree.element_configs.subrange(sl.start as int, sl.start + sl.length)
            }),
    {
        let tree: &LayoutTree = self.layout_tree();
        proof {
            tree.lemma_indices_valid();
        }
        let el = tree.element(element_index);
        let configs = tree.element_configs();
        let ghost sl = el.element_configs;
        let n: i32 = el.element_configs.length;
        let clen = configs.len();
        let mut out: Vec<ElementConfig> = Vec::new();
        let mut i: i32 = 0;
        while i < n
            invariant
                0 <= i <= n,
                n == sl.length,
                sl.start + n <= configs@.len(),
                clen == configs@.len(),
                configs@ == self@.tree.element_configs,
                sl == el.element_configs,
                out@ == configs@.subrange(sl.start as int, sl.start + i),
            decreases n - i,
        {
            assert(el.element_configs.start + (i as usize) < clen);
            out.push(configs[el.element_configs.start + i as usize]);
            assert(configs@.subrange(sl.start as int, sl.start + i + 1) =~= configs@.subrange(sl.start as int, sl.start + i).push(
                configs@[sl.start + i],
            ));
            i = i + 1;
        }
        out
    }

    /// The element on list row `row` of the debug view (`rows` as
    /// `debug_rows` gave them), which the pointer highlights; a press on it
    /// selects it, or deselects it when it was selected.
    pub fn debug_row_click(&mut self, rows: &Vec<DebugRow>, row: i32) -> (r: Option<u32>)
        ensures
            r == (match spec_debug_row_at(rows@, row as int) {
                Some(i) => Some(rows@[i].id),
                None => None,
            }),
            final(self)@ == (match r {
                Some(id) => if old(self)@.pointer_state == PointerDataInteractionState::PressedThisFrame {
                    PlyContextView {
                        debug_selected_element_id: if old(self)@.debug_selected_element_id == id { 0 } else { id },
                        ..old(self)@
                    }
                } else {
                    old(self)@
                },
                None => old(self)@,
            }),
    {
        match debug_row_at(rows, row) {
            Some(i) => {
                proof {
                    let k = choose|k: int| 0 <= k < rows@.len() && list_row(rows@, k) == row
                        && forall|j: int| 0 <= j < k ==> list_row(rows@, j) != row;
                    assert(k == i as int) by {
                        if k < i {
                            assert(list_row(rows@, k) != row);
                        }
                        if k > i {
                            assert(list_row(rows@, i as int) != row);
                        }
                    }
                }
                let id = rows[i].id;
                if self.pointer_state() == PointerDataInteractionState::PressedThisFrame {
                    self.toggle_debug_selection(id);
                }
                Some(id)
            },
            None => None,
        }
    }
}

} // verus!
