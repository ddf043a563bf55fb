//! The scroll containers the engine knows of: which element each belongs
//! to, whether it was declared this frame, and whether a pointer drag is
//! scrolling it. Positions, sizes and momentum are the caller's data `F`,
//! carried along with each container.
use vstd::prelude::*;

verus! {

/// A scroll container: its element's id and layout index, whether the
/// element was declared this frame, whether a pointer drag scrolls it, and
/// the caller's data.
#[derive(Debug, Clone, Copy)]
pub struct ScrollContainer<F> {
    pub element_id: u32,
    pub layout_element_index: i32,
    pub open_this_frame: bool,
    pub pointer_scroll_active: bool,
    pub data: F,
}

/// The position of the first container of element `element_id`, or -1.
pub open spec fn first_container_of<F>(s: Seq<ScrollContainer<F>>, element_id: u32) -> int
    decreases s.len(),
{
    if s.len() == 0 {
        -1
    } else {
        let rest = first_container_of(s.drop_last(), element_id);
        if rest >= 0 {
            rest
        } else if s.last().element_id == element_id {
            s.len() - 1
        } else {
            -1
        }
    }
}

/// The containers after a frame declared a scrolling element `element_id` at
/// layout index `index`: its container is marked as declared (with the new
/// index), or a new container with data `fresh` is added at the end.
pub open spec fn spec_declare<F>(s: Seq<ScrollContainer<F>>, element_id: u32, index: i32, fresh: F) -> Seq<ScrollContainer<F>> {
    let p = first_container_of(s, element_id);
    if p >= 0 {
        s.update(p, ScrollContainer { layout_element_index: index, open_this_frame: true, ..s[p] })
    } else {
        s.push(ScrollContainer {
            element_id,
            layout_element_index: index,
            open_this_frame: true,
            pointer_scroll_active: false,
            data: fresh,
        })
    }
}

/// The containers after dropping, from position `i` on, those not declared
/// this frame, each dropped one replaced by the last container, and clearing
/// the declared flag of those kept.
pub open spec fn retain_from<F>(s: Seq<ScrollContainer<F>>, i: int) -> Seq<ScrollContainer<F>>
    decreases s.len() - i,
{
    if i < 0 || i >= s.len() {
        s
    } else if !s[i].open_this_frame {
        retain_from(s.update(i, s.last()).drop_last(), i)
    } else {
        retain_from(s.update(i, ScrollContainer { open_this_frame: false, ..s[i] }), i + 1)
    }
}

/// The position of the last container for which `inside` holds, or -1.
pub open spec fn last_inside(inside: Seq<bool>, n: int) -> int
    decreases n,
{
    if n <= 0 {
        -1
    } else if inside[n - 1] {
        n - 1
    } else {
        last_inside(inside, n - 1)
    }
}

/// A found position holds a container of the element, and none comes before it.
pub proof fn lemma_first_container_of<F>(s: Seq<ScrollContainer<F>>, element_id: u32)
    ensures
        ({
            let p = first_container_of(s, element_id);
            &&& p >= 0 ==> p < s.len() && s[p].element_id == element_id
                && forall|j: int| 0 <= j < p ==> s[j].element_id != element_id
            &&& p < 0 ==> p == -1 && forall|j: int| 0 <= j < s.len() ==> s[j].element_id != element_id
        }),
    decreases s.len(),
{
    if s.len() > 0 {
        lemma_first_container_of(s.drop_last(), element_id);
        let p = first_container_of(s, element_id);
        if p < 0 {
            assert forall|j: int| 0 <= j < s.len() implies s[j].element_id != element_id by {
                if j < s.len() - 1 {
                    assert(s.drop_last()[j] == s[j]);
                }
            }
        } else {
            assert forall|j: int| 0 <= j < p implies s[j].element_id != element_id by {
                assert(s.drop_last()[j] == s[j]);
            }
        }
    }
}

/// Some container in `s[lo..hi]` belongs to element `id`.
pub open spec fn has_container_in<F>(s: Seq<ScrollContainer<F>>, lo: int, hi: int, id: u32) -> bool {
    exists|j: int| lo <= j < hi && #[trigger] s[j].element_id == id
}

/// Some container in `s[lo..hi]` belongs to element `id` and was declared this frame.
pub open spec fn declared_in<F>(s: Seq<ScrollContainer<F>>, lo: int, hi: int, id: u32) -> bool {
    exists|j: int| lo <= j < hi && s[j].open_this_frame && #[trigger] s[j].element_id == id
}

/// Keeping only the containers declared this frame keeps exactly the
/// elements that were declared, and clears every declared flag.
pub proof fn lemma_retain_from<F>(s: Seq<ScrollContainer<F>>, i: int)
    requires
        0 <= i <= s.len(),
        forall|j: int| 0 <= j < i ==> !(#[trigger] s[j]).open_this_frame,
    ensures
        ({
            let r = retain_from(s, i);
            &&& forall|j: int| 0 <= j < r.len() ==> !(#[trigger] r[j]).open_this_frame
            &&& forall|id: u32| #[trigger] has_container_in(r, 0, r.len() as int, id)
                <==> (has_container_in(s, 0, i, id) || declared_in(s, i, s.len() as int, id))
        }),
    decreases s.len() - i,
{
    if i == s.len() {
        assert(retain_from(s, i) == s);
        assert forall|id: u32| #[trigger] has_container_in(s, 0, s.len() as int, id)
            <==> (has_container_in(s, 0, i, id) || declared_in(s, i, s.len() as int, id)) by {
        }
    } else {
        if !s[i].open_this_frame {
            let s1 = s.update(i, s.last()).drop_last();
            assert(retain_from(s, i) == retain_from(s1, i));
            assert forall|j: int| 0 <= j < i implies !(#[trigger] s1[j]).open_this_frame by {
                assert(s1[j] == s[j]);
            }
            lemma_retain_from(s1, i);
            assert forall|id: u32|
                (has_container_in(s1, 0, i, id) || declared_in(s1, i, s1.len() as int, id))
                <==> (has_container_in(s, 0, i, id) || declared_in(s, i, s.len() as int, id)) by {
                if has_container_in(s1, 0, i, id) {
                    let j = choose|j: int| 0 <= j < i && #[trigger] s1[j].element_id == id;
                    assert(s[j].element_id == id);
                }
                if declared_in(s1, i, s1.len() as int, id) {
                    let j = choose|j: int| i <= j < s1.len() && s1[j].open_this_frame && #[trigger] s1[j].element_id == id;
                    if j == i {
                        assert(s[s.len() - 1].element_id == id && s[s.len() - 1].open_this_frame);
                    } else {
                        assert(s[j].element_id == id);
                    }
                }
                if has_container_in(s, 0, i, id) {
                    let j = choose|j: int| 0 <= j < i && #[trigger] s[j].element_id == id;
                    assert(s1[j].element_id == id);
                }
                if declared_in(s, i, s.len() as int, id) {
                    let j = choose|j: int| i <= j < s.len() && s[j].open_this_frame && #[trigger] s[j].element_id == id;
                    if j == s.len() - 1 {
                        assert(s1[i].element_id == id && s1[i].open_this_frame);
                    } else {
                        assert(j != i);
                        assert(s1[j].element_id == id);
                    }
                }
            }
        } else {
            let s1 = s.update(i, ScrollContainer { open_this_frame: false, ..s[i] });
            assert(retain_from(s, i) == retain_from(s1, i + 1));
            assert forall|j: int| 0 <= j < i + 1 implies !(#[trigger] s1[j]).open_this_frame by {
                if j < i {
                    assert(s1[j] == s[j]);
                }
            }
            lemma_retain_from(s1, i + 1);
            assert forall|id: u32|
                (has_container_in(s1, 0, i + 1, id) || declared_in(s1, i + 1, s1.len() as int, id))
                <==> (has_container_in(s, 0, i, id) || declared_in(s, i, s.len() as int, id)) by {
                if has_container_in(s1, 0, i + 1, id) {
                    let j = choose|j: int| 0 <= j < i + 1 && #[trigger] s1[j].element_id == id;
                    assert(s[j].element_id == id);
                }
                if declared_in(s1, i + 1, s1.len() as int, id) {
                    let j = choose|j: int| i + 1 <= j < s1.len() && s1[j].open_this_frame && #[trigger] s1[j].element_id == id;
                    assert(s[j].element_id == id);
                }
                if has_container_in(s, 0, i, id) {
                    let j = choose|j: int| 0 <= j < i && #[trigger] s[j].element_id == id;
                    assert(s1[j].element_id == id);
                }
                if declared_in(s, i, s.len() as int, id) {
                    let j = choose|j: int| i <= j < s.len() && s[j].open_this_frame && #[trigger] s[j].element_id == id;
                    assert(s1[j].element_id == id);
                }
            }
        }
    }
}

/// The scroll containers, in the order they were first declared (as far as
/// dropping containers, which moves the last one into the gap, keeps it).
pub struct ScrollContainers<F> {
    items: Vec<ScrollContainer<F>>,
}

impl<F> View for ScrollContainers<F> {
    type V = Seq<ScrollContainer<F>>;

    closed spec fn view(&self) -> Seq<ScrollContainer<F>> {
        self.items@
    }
}

impl<F: Copy> ScrollContainers<F> {
    /// No scroll containers.
    pub fn new() -> (r: Self)
        ensures
            r@ == Seq::<ScrollContainer<F>>::empty(),
    {
        ScrollContainers { items: Vec::new() }
    }

    /// How many containers there are.
    pub fn len(&self) -> (r: usize)
        ensures
            r == self@.len(),
    {
        self.items.len()
    }

    /// The container at position `i`.
    pub fn get(&self, i: usize) -> (r: ScrollContainer<F>)
        requires
            i < self@.len(),
        ensures
            r == self@[i as int],
    {
        self.items[i]
    }

    /// Replaces the caller's data of the container at position `i`.
    pub fn set_data(&mut self, i: usize, data: F)
        requires
            i < old(self)@.len(),
        ensures
            final(self)@ == old(self)@.update(i as int, ScrollContainer { data, ..old(self)@[i as int] }),
    {
        let mut c = self.items[i];
        c.data = data;
        self.items.set(i, c);
    }

    /// The position of the container of element `element_id`.
    pub fn find(&self, element_id: u32) -> (r: Option<usize>)
        ensures
            ({
                let p = first_container_of(self@, element_id);
                r == (if p >= 0 { Some(p as usize) } else { None })
            }),
    {
        proof {
            lemma_first_container_of(self@, element_id);
        }
        let mut i: usize = 0;
        while i < self.items.len()
            invariant
                0 <= i <= self@.len(),
                forall|j: int| 0 <= j < i ==> self@[j].element_id != element_id,
            decreases self@.len() - i,
        {
            if self.items[i].element_id == element_id {
                proof {
                    lemma_first_container_of(self@, element_id);
                    let p = first_container_of(self@, element_id);
                    if p < 0 || p > i {
                        assert(self@[i as int].element_id == element_id);
                    }
                    if 0 <= p < i {
                        assert(self@[p].element_id != element_id);
                    }
                }
                return Some(i);
            }
            i = i + 1;
        }
        proof {
            lemma_first_container_of(self@, element_id);
            let p = first_container_of(self@, element_id);
            if p >= 0 {
                assert(self@[p].element_id != element_id);
            }
        }
        None
    }

    /// Records that element `element_id`, at layout index `index`, scrolls
    /// this frame: its container is marked as declared, or a new one with
    /// data `fresh` is added.
    pub fn declare(&mut self, element_id: u32, index: i32, fresh: F)
        ensures
            final(self)@ == spec_declare(old(self)@, element_id, index, fresh),
    {
        proof {
            lemma_first_container_of(self@, element_id);
            assert(self.items.len() == self@.len());
        }
        match self.find(element_id) {
            Some(p) => {
                let mut c = self.items[p];
                c.layout_element_index = index;
                c.open_this_frame = true;
                self.items.set(p, c);
                assert(self@ =~= spec_declare(old(self)@, element_id, index, fresh));
            },
            None => {
                self.items.push(ScrollContainer {
                    element_id,
                    layout_element_index: index,
                    open_this_frame: true,
                    pointer_scroll_active: false,
                    data: fresh,
                });
                assert(self@ =~= spec_declare(old(self)@, element_id, index, fresh));
            },
        }
    }

    /// Drops the containers whose element was not declared this frame (each
    /// replaced by the last container) and clears the declared flag of the
    /// others, ready for the next frame.
    pub fn retain_declared(&mut self)
        ensures
            final(self)@ == retain_from(old(self)@, 0),
    {
        let mut i: usize = 0;
        while i < self.items.len()
            invariant
                0 <= i <= self@.len(),
                retain_from(self@, i as int) == retain_from(old(self)@, 0),
            decreases self@.len() - i,
        {
            if !self.items[i].open_this_frame {
                let ghost s = self@;
                self.items.swap_remove(i);
                assert(self@ =~= s.update(i as int, s.last()).drop_last());
            } else {
                let mut c = self.items[i];
                c.open_this_frame = false;
                self.items.set(i, c);
                i = i + 1;
            }
        }
    }

    /// Marks the container at position `i` as scrolled by a pointer drag.
    pub fn begin_drag(&mut self, i: usize)
        requires
            i < old(self)@.len(),
        ensures
            final(self)@ == old(self)@.update(i as int, ScrollContainer { pointer_scroll_active: true, ..old(self)@[i as int] }),
    {
        let mut c = self.items[i];
        c.pointer_scroll_active = true;
        self.items.set(i, c);
    }

    /// Ends every pointer drag.
    pub fn end_drags(&mut self)
        ensures
            final(self)@.len() == old(self)@.len(),
            forall|j: int| 0 <= j < old(self)@.len() ==> #[trigger] final(self)@[j]
                == (ScrollContainer { pointer_scroll_active: false, ..old(self)@[j] }),
    {
        let mut i: usize = 0;
        while i < self.items.len()
            invariant
                0 <= i <= self@.len(),
                self@.len() == old(self)@.len(),
                forall|j: int| 0 <= j < i ==> #[trigger] self@[j]
                    == (ScrollContainer { pointer_scroll_active: false, ..old(self)@[j] }),
                forall|j: int| i <= j < self@.len() ==> #[trigger] self@[j] == old(self)@[j],
            decreases self@.len() - i,
        {
            let mut c = self.items[i];
            c.pointer_scroll_active = false;
            self.items.set(i, c);
            i = i + 1;
        }
    }
}

/// The innermost container under the pointer: the last one for which
/// `inside` (the caller's hit test, one flag per container) holds.
pub fn deepest_under_pointer(inside: &Vec<bool>) -> (r: Option<usize>)
    ensures
        ({
            let p = last_inside(inside@, inside@.len() as int);
            r == (if p >= 0 { Some(p as usize) } else { None })
        }),
{
    let mut best: Option<usize> = None;
    let mut i: usize = 0;
    while i < inside.len()
        invariant
            0 <= i <= inside@.len(),
            best == (if last_inside(inside@, i as int) >= 0 { Some(last_inside(inside@, i as int) as usize) } else { None }),
        decreases inside@.len() - i,
    {
        if inside[i] {
            best = Some(i);
        }
        i = i + 1;
    }
    best
}

} // verus!
