//! Keyboard focus order: focusable elements are visited in tab order, that is
//! elements with an explicit tab index first (ascending), then the rest in the
//! order they were declared.
use vstd::prelude::*;
use vstd::relations::{sorted_by, total_ordering};
use vstd::seq_lib::{lemma_sorted_unique, to_multiset_build, to_multiset_insert};

verus! {

/// An element that takes part in keyboard focus navigation this frame.
#[derive(Debug, Clone, Copy, PartialEq, Eq, Structural)]
pub struct FocusableEntry {
    pub element_id: u32,
    pub tab_index: Option<i32>,
    pub insertion_order: u32,
}

/// 0 for entries with an explicit tab index, 1 for the rest.
pub open spec fn tab_group(e: FocusableEntry) -> int {
    if e.tab_index is Some { 0 } else { 1 }
}

/// The explicit tab index, or 0 when there is none.
pub open spec fn tab_value(e: FocusableEntry) -> int {
    match e.tab_index {
        Some(t) => t as int,
        None => 0,
    }
}

/// `a` comes no later than `b` in tab order: explicit tab indexes first in
/// ascending order, then declaration order; the element id only separates
/// entries that agree on everything else.
pub open spec fn tab_leq(a: FocusableEntry, b: FocusableEntry) -> bool {
    ||| tab_group(a) < tab_group(b)
    ||| tab_group(a) == tab_group(b) && tab_value(a) < tab_value(b)
    ||| tab_group(a) == tab_group(b) && tab_value(a) == tab_value(b)
        && a.insertion_order < b.insertion_order
    ||| tab_group(a) == tab_group(b) && tab_value(a) == tab_value(b)
        && a.insertion_order == b.insertion_order && a.element_id <= b.element_id
}

/// The tab-order relation as a value.
pub open spec fn tab_leq_fn() -> spec_fn(FocusableEntry, FocusableEntry) -> bool {
    |a: FocusableEntry, b: FocusableEntry| tab_leq(a, b)
}

/// The focusable entries arranged in tab order.
pub open spec fn tab_order(entries: Seq<FocusableEntry>) -> Seq<FocusableEntry> {
    entries.sort_by(tab_leq_fn())
}

/// The first position in `order` whose entry has element id `id`, or -1.
pub open spec fn first_index_of(order: Seq<FocusableEntry>, id: u32) -> int {
    if exists|i: int| 0 <= i < order.len() && order[i].element_id == id {
        choose|i: int|
            0 <= i < order.len() && order[i].element_id == id && forall|j: int|
                0 <= j < i ==> order[j].element_id != id
    } else {
        -1
    }
}

/// The position focus moves to when Tab (or Shift+Tab when `reverse`) is
/// pressed in a tab order of `len` entries, from position `current` (-1 when
/// the focused element is not in the order): the next entry, wrapping around
/// at the end, or the previous one, wrapping around at the start.
pub open spec fn cycle_index(len: int, current: int, reverse: bool) -> int {
    if current < 0 {
        if reverse { len - 1 } else { 0 }
    } else if reverse {
        if current == 0 { len - 1 } else { current - 1 }
    } else {
        if current + 1 >= len { 0 } else { current + 1 }
    }
}

/// The element that Tab (or Shift+Tab) moves focus to from `focused`.
pub open spec fn spec_cycle_target(entries: Seq<FocusableEntry>, focused: u32, reverse: bool) -> u32
    recommends
        entries.len() > 0,
{
    let order = tab_order(entries);
    order[cycle_index(order.len() as int, first_index_of(order, focused), reverse)].element_id
}

/// The tab-order relation is a total order on entries.
pub proof fn lemma_tab_leq_total()
    ensures
        total_ordering(tab_leq_fn()),
{
}

/// The tab order holds the same entries, sorted.
pub proof fn lemma_tab_order_sorted(entries: Seq<FocusableEntry>)
    ensures
        sorted_by(tab_order(entries), tab_leq_fn()),
        tab_order(entries).to_multiset() == entries.to_multiset(),
        tab_order(entries).len() == entries.len(),
{
    lemma_tab_leq_total();
    entries.lemma_sort_by_ensures(tab_leq_fn());
    vstd::seq_lib::to_multiset_len(entries);
    vstd::seq_lib::to_multiset_len(tab_order(entries));
}

/// Whether `a` comes strictly before `b` in tab order.
pub fn tab_before(a: &FocusableEntry, b: &FocusableEntry) -> (r: bool)
    ensures
        r == !tab_leq(*b, *a),
{
    let ga: u8 = if a.tab_index.is_some() { 0 } else { 1 };
    let gb: u8 = if b.tab_index.is_some() { 0 } else { 1 };
    let va: i32 = match a.tab_index {
        Some(t) => t,
        None => 0,
    };
    let vb: i32 = match b.tab_index {
        Some(t) => t,
        None => 0,
    };
    if ga != gb {
        ga < gb
    } else if va != vb {
        va < vb
    } else if a.insertion_order != b.insertion_order {
        a.insertion_order < b.insertion_order
    } else {
        a.element_id < b.element_id
    }
}

/// Arranges the focusable entries in tab order (a stable insertion sort).
pub fn sort_tab_order(entries: &Vec<FocusableEntry>) -> (r: Vec<FocusableEntry>)
    ensures
        r@ == tab_order(entries@),
{
    proof {
        lemma_tab_leq_total();
    }
    let ghost leq = tab_leq_fn();
    let mut out: Vec<FocusableEntry> = Vec::new();
    let n = entries.len();
    let mut k: usize = 0;
    assert(out@ =~= entries@.take(0));
    while k < n
        invariant
            n == entries@.len(),
            0 <= k <= n,
            leq == tab_leq_fn(),
            total_ordering(leq),
            sorted_by(out@, leq),
            out@.to_multiset() == entries@.take(k as int).to_multiset(),
        decreases n - k,
    {
        let x = entries[k];
        let mut j = out.len();
        while j > 0 && tab_before(&x, &out[j - 1])
            invariant
                0 <= j <= out@.len(),
                leq == tab_leq_fn(),
                total_ordering(leq),
                sorted_by(out@, leq),
                forall|i: int| j <= i < out@.len() ==> #[trigger] leq(x, out@[i]),
            decreases j,
        {
            j = j - 1;
        }
        proof {
            if j > 0 {
                assert(leq(out@[j - 1], x));
            }
            assert forall|i: int| 0 <= i < j implies #[trigger] leq(out@[i], x) by {
                if i < j - 1 {
                    assert(leq(out@[i], out@[j - 1]));
                }
            }
        }
        let ghost old_out = out@;
        out.insert(j, x);
        proof {
            assert forall|a: int, b: int| 0 <= a < b < out@.len() implies #[trigger] leq(out@[a], out@[b]) by {
                if b < j {
                    assert(out@[a] == old_out[a] && out@[b] == old_out[b]);
                } else if b == j {
                    assert(out@[a] == old_out[a]);
                } else if a == j {
                    assert(out@[b] == old_out[b - 1]);
                } else if a < j {
                    assert(out@[a] == old_out[a] && out@[b] == old_out[b - 1]);
                    assert(leq(old_out[a], x));
                    assert(leq(x, old_out[b - 1]));
                } else {
                    assert(out@[a] == old_out[a - 1] && out@[b] == old_out[b - 1]);
                }
            }
            to_multiset_insert(old_out, j as int, x);
            assert(entries@.take(k as int + 1) =~= entries@.take(k as int).push(x));
            to_multiset_build(entries@.take(k as int), x);
        }
        k = k + 1;
    }
    proof {
        assert(entries@.take(n as int) =~= entries@);
        lemma_tab_order_sorted(entries@);
        lemma_sorted_unique(out@, tab_order(entries@), leq);
    }
    out
}

/// The first position of element `id` in `order`, or -1 when it is not there.
pub fn find_first_index(order: &Vec<FocusableEntry>, id: u32) -> (r: i64)
    requires
        order@.len() < i64::MAX,
    ensures
        r == first_index_of(order@, id),
        -1 <= r < order@.len(),
{
    let mut i: usize = 0;
    while i < order.len()
        invariant
            0 <= i <= order@.len(),
            order@.len() < i64::MAX,
            forall|j: int| 0 <= j < i ==> order@[j].element_id != id,
        decreases order.len() - i,
    {
        if order[i].element_id == id {
            proof {
                let c = choose|c: int|
                    0 <= c < order@.len() && order@[c].element_id == id && forall|j: int|
                        0 <= j < c ==> order@[j].element_id != id;
                assert(order@[i as int].element_id == id);
                if c < i {
                    assert(order@[c].element_id != id);
                }
                if c > i {
                    assert(order@[i as int].element_id != id);
                }
            }
            return i as i64;
        }
        i = i + 1;
    }
    -1
}

/// The position Tab (or Shift+Tab) moves to from `current` in an order of `len` entries.
pub fn next_cycle_index(len: usize, current: i64, reverse: bool) -> (r: usize)
    requires
        len > 0,
        -1 <= current < len,
    ensures
        r == cycle_index(len as int, current as int, reverse),
        r < len,
{
    if current < 0 {
        if reverse { len - 1 } else { 0 }
    } else if reverse {
        if current == 0 { len - 1 } else { (current - 1) as usize }
    } else {
        if current as usize + 1 >= len { 0 } else { current as usize + 1 }
    }
}

} // verus!
