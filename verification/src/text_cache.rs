//! The text measurement cache: measured texts keyed by the hash of their
//! content and font settings, each with the list of its measured words. The
//! words of all cached texts share one slot arena; a slot freed by eviction
//! goes on a free list and is reused (last freed first) before the arena grows.
use vstd::prelude::*;
use vstd::wrapping::u32_specs::wrapping_sub;
use rustc_hash::FxHashMap;
use crate::fxmap::{map_contains, map_get, map_insert, map_new, map_remove};

verus! {

/// A measured word as the caller supplies it: its byte range and its width.
#[derive(Debug, Clone, Copy, PartialEq, Eq, Structural)]
pub struct MeasuredWordData<W> {
    pub start_offset: i32,
    pub length: i32,
    pub width: W,
}

/// A slot of the word arena: a measured word and the slot of the next word
/// of the same text (-1 after the last).
#[derive(Debug, Clone, Copy)]
pub struct MeasuredWord<W> {
    pub start_offset: i32,
    pub length: i32,
    pub width: W,
    pub next: i32,
}

/// A cached measurement: the caller's measurement of the whole text, the
/// slot of its first word (-1 when it has none), whether it contains line
/// breaks, its key, and the frame it was last used in.
#[derive(Debug, Clone, Copy)]
pub struct MeasureTextCacheItem<D> {
    pub measurement: D,
    pub measured_words_start_index: i32,
    pub contains_newlines: bool,
    pub id: u32,
    pub generation: u32,
}

/// The abstract contents of the cache: the cached items, the words of each
/// cached text (in order), the arena slots that hold them, the free slots
/// (reused from the end), and how many slots the arena has.
pub struct MeasureTextCacheView<W, D> {
    pub items: Map<u32, MeasureTextCacheItem<D>>,
    pub texts: Map<u32, Seq<MeasuredWordData<W>>>,
    pub slots: Map<u32, Seq<int>>,
    pub free_list: Seq<i32>,
    pub slot_count: nat,
}

pub struct MeasureTextCache<W, D> {
    items: FxHashMap<u32, MeasureTextCacheItem<D>>,
    keys: Vec<u32>,
    words: Vec<MeasuredWord<W>>,
    free_list: Vec<i32>,
    chains: Ghost<Map<u32, Seq<int>>>,
}

/// The caller-supplied part of an arena slot.
pub open spec fn word_data<W>(w: MeasuredWord<W>) -> MeasuredWordData<W> {
    MeasuredWordData { start_offset: w.start_offset, length: w.length, width: w.width }
}

/// Whether a cache entry used in frame `item_generation` is still kept in
/// frame `generation`: it was used within the last two frames (counting
/// modulo 2^32).
pub open spec fn spec_is_fresh(generation: u32, item_generation: u32) -> bool {
    wrapping_sub(generation, item_generation) <= 2
}

/// The slot sequence `chain` is a well-linked list in `words`.
pub open spec fn chain_linked<W>(words: Seq<MeasuredWord<W>>, chain: Seq<int>) -> bool {
    &&& forall|i: int| 0 <= i < chain.len() ==> 0 <= #[trigger] chain[i] < words.len()
    &&& forall|i: int| 0 <= i < chain.len() - 1 ==> words[#[trigger] chain[i]].next == chain[i + 1]
    &&& chain.len() > 0 ==> words[chain.last()].next == -1
    &&& chain.no_duplicates()
}

/// The first slot of a chain, or -1.
pub open spec fn chain_start(chain: Seq<int>) -> int {
    if chain.len() == 0 { -1 } else { chain[0] }
}

/// The slots the `i`-th of `n` new words goes into: freed slots first, last
/// freed first, then new slots at the end of an arena of `count` slots.
pub open spec fn alloc_slot(free: Seq<i32>, count: nat, i: int) -> int {
    if i < free.len() { free[free.len() - 1 - i] as int } else { count + i - free.len() }
}

/// The slots `n` new words go into.
pub open spec fn alloc_slots(free: Seq<i32>, count: nat, n: nat) -> Seq<int> {
    Seq::new(n, |i: int| alloc_slot(free, count, i))
}

/// `a - b`, or 0 when `b` is larger.
pub open spec fn sub_floor(a: int, b: int) -> int {
    if a > b { a - b } else { 0 }
}

/// Whether `slot` holds a word of a text that eviction in frame `generation` drops.
pub open spec fn spec_stale_slot<D>(
    items: Map<u32, MeasureTextCacheItem<D>>,
    slots: Map<u32, Seq<int>>,
    generation: u32,
    slot: int,
) -> bool {
    exists|key: u32|
        items.contains_key(key) && !spec_is_fresh(generation, items[key].generation)
            && #[trigger] slots[key].contains(slot)
}

/// A map restricted to the texts still fresh in frame `generation`.
pub open spec fn spec_keep_fresh<D, V>(
    items: Map<u32, MeasureTextCacheItem<D>>,
    m: Map<u32, V>,
    generation: u32,
) -> Map<u32, V> {
    m.restrict(items.dom().filter(|k: u32| spec_is_fresh(generation, items[k].generation)))
}

impl<W, D> View for MeasureTextCache<W, D> {
    type V = MeasureTextCacheView<W, D>;

    closed spec fn view(&self) -> MeasureTextCacheView<W, D> {
        MeasureTextCacheView {
            items: self.items@,
            texts: Map::new(
                |k: u32| self.chains@.contains_key(k),
                |k: u32| self.chains@[k].map_values(|s: int| word_data(self.words@[s])),
            ),
            slots: self.chains@,
            free_list: self.free_list@,
            slot_count: self.words@.len(),
        }
    }
}

impl<W: Copy, D: Copy> MeasureTextCache<W, D> {
    /// The internal invariant: the keys list names each item once; every
    /// item's words form a well-linked list starting at its start slot; lists
    /// of different texts and free slots never share a slot.
    pub closed spec fn wf(&self) -> bool {
        &&& self.words@.len() <= i32::MAX
        &&& self.keys@.no_duplicates()
        &&& forall|k: u32| #[trigger] self.items@.contains_key(k) <==> self.keys@.contains(k)
        &&& forall|k: u32| #[trigger] self.items@.contains_key(k) <==> self.chains@.contains_key(k)
        &&& forall|k: u32| #[trigger] self.items@.contains_key(k) ==> {
            &&& chain_linked(self.words@, self.chains@[k])
            &&& self.items@[k].measured_words_start_index == chain_start(self.chains@[k])
        }
        &&& forall|k1: u32, k2: u32, i: int, j: int|
            k1 != k2 && self.chains@.contains_key(k1) && self.chains@.contains_key(k2)
                && 0 <= i < self.chains@[k1].len() && 0 <= j < self.chains@[k2].len()
                ==> #[trigger] self.chains@[k1][i] != #[trigger] self.chains@[k2][j]
        &&& self.free_list@.no_duplicates()
        &&& forall|i: int| 0 <= i < self.free_list@.len() ==> 0 <= #[trigger] self.free_list@[i] < self.words@.len()
        &&& forall|k: u32, i: int, j: int|
            self.chains@.contains_key(k) && 0 <= i < self.chains@[k].len() && 0 <= j < self.free_list@.len()
                ==> #[trigger] self.chains@[k][i] != #[trigger] self.free_list@[j] as int
    }

    /// An empty cache.
    pub fn new() -> (r: Self)
        ensures
            r.wf(),
            r@.items.is_empty(),
            r@.texts.is_empty(),
            r@.free_list.len() == 0,
            r@.slot_count == 0,
    {
        let r = MeasureTextCache {
            items: map_new(),
            keys: Vec::new(),
            words: Vec::new(),
            free_list: Vec::new(),
            chains: Ghost(Map::empty()),
        };
        proof {
            assert(r@.texts =~= Map::empty());
        }
        r
    }

    /// Whether a measurement is cached under `id`.
    pub fn contains(&self, id: u32) -> (r: bool)
        ensures
            r == self@.items.contains_key(id),
    {
        map_contains(&self.items, id)
    }

    /// How many word slots the arena has.
    pub fn slot_count(&self) -> (r: usize)
        ensures
            r == self@.slot_count,
    {
        self.words.len()
    }

    /// Caches the measurement of a text under `id` in frame `generation`,
    /// storing its words in arena slots (freed slots first, last freed first)
    /// linked in order, and returns the slot of the first word (-1 when there
    /// is none).
    pub fn insert(
        &mut self,
        id: u32,
        generation: u32,
        measurement: D,
        contains_newlines: bool,
        words: &Vec<MeasuredWordData<W>>,
    ) -> (start: i32)
        requires
            old(self).wf(),
            !old(self)@.items.contains_key(id),
            old(self)@.slot_count + words@.len() <= i32::MAX,
        ensures
            final(self).wf(),
            ({
                let o = old(self)@;
                let f = o.free_list.len() as int;
                let n = words@.len() as int;
                let chain = alloc_slots(o.free_list, o.slot_count, n as nat);
                &&& start == chain_start(chain)
                &&& final(self)@.items == o.items.insert(id, MeasureTextCacheItem {
                    measurement: measurement,
                    measured_words_start_index: start,
                    contains_newlines: contains_newlines,
                    id: id,
                    generation: generation,
                })
                &&& final(self)@.texts == o.texts.insert(id, words@)
                &&& final(self)@.slots == o.slots.insert(id, chain)
                &&& final(self)@.free_list == o.free_list.take(f - (if n < f { n } else { f }))
                &&& final(self)@.slot_count == o.slot_count + sub_floor(n, f)
            }),
    {
        let ghost o = old(self)@;
        let ghost old_words = self.words@;
        let ghost f = self.free_list@.len() as int;
        let ghost count = self.words@.len();
        let ghost old_free = self.free_list@;
        let n = words.len();
        let mut k: usize = 0;
        let mut prev: i32 = -1;
        let mut first: i32 = -1;
        let ghost mut chain: Seq<int> = Seq::empty();
        while k < n
            invariant
                n == words@.len(),
                0 <= k <= n,
                o == old(self)@,
                old(self).wf(),
                !old(self)@.items.contains_key(id),
                count == old_words.len(),
                old_words == old(self).words@,
                old_free == old(self).free_list@,
                count + n <= i32::MAX,
                f == old_free.len(),
                self.items@ == old(self).items@,
                self.keys@ == old(self).keys@,
                self.chains@ == old(self).chains@,
                self.words@.len() == count + sub_floor(k as int, f),
                self.free_list@ == old_free.take(f - (if (k as int) < f { k as int } else { f })),
                chain == alloc_slots(old_free, count, k as nat),
                k == 0 ==> prev == -1,
                k > 0 ==> prev == chain[k - 1],
                k > 0 ==> first == chain[0],
                forall|i: int| 0 <= i < k ==> 0 <= #[trigger] chain[i] < self.words@.len(),
                chain.no_duplicates(),
                forall|i: int| 0 <= i < k ==> word_data(self.words@[#[trigger] chain[i]]) == words@[i],
                forall|i: int| 0 <= i < k - 1 ==> self.words@[#[trigger] chain[i]].next == chain[i + 1],
                k > 0 ==> self.words@[chain[k - 1]].next == -1,
                forall|s: int| 0 <= s < count && !chain.contains(s) ==> #[trigger] self.words@[s] == old_words[s],
            decreases n - k,
        {
            let d = words[k];
            let word = MeasuredWord { start_offset: d.start_offset, length: d.length, width: d.width, next: -1 };
            let ghost before = self.words@;
            let slot: i32;
            if self.free_list.len() > 0 {
                proof {
                    assert(k < f);
                    assert(self.free_list@.last() == old_free[f - 1 - k]);
                    assert(0 <= old_free[f - 1 - k] < count);
                }
                let s = self.free_list.pop().unwrap();
                self.words.set(s as usize, word);
                slot = s;
            } else {
                proof {
                    assert(k >= f);
                }
                self.words.push(word);
                slot = (self.words.len() - 1) as i32;
            }
            proof {
                assert(slot as int == alloc_slot(old_free, count, k as int));
                assert forall|i: int| 0 <= i < k implies #[trigger] chain[i] != slot as int by {
                    if (k as int) < f {
                        if i < f {
                            assert(chain[i] == old_free[f - 1 - i]);
                            assert(old_free[f - 1 - i] != old_free[f - 1 - k]);
                        } else {
                            assert(false);
                        }
                    } else {
                        assert(chain[i] < before.len());
                    }
                }
            }
            if prev >= 0 {
                let pw = self.words[prev as usize];
                self.words.set(prev as usize, MeasuredWord { next: slot, ..pw });
            }
            proof {
                let old_chain = chain;
                chain = chain.push(slot as int);
                assert forall|a: int, b: int| 0 <= a < chain.len() && 0 <= b < chain.len() && a != b implies chain[a] != chain[b] by {
                    if a < k && b < k {
                        assert(old_chain[a] != old_chain[b]);
                    }
                }
                assert(chain =~= alloc_slots(old_free, count, (k + 1) as nat));
                assert forall|s: int| 0 <= s < count && !chain.contains(s) implies #[trigger] self.words@[s] == old_words[s] by {
                    assert(chain[k as int] == slot as int);
                    assert(s != slot as int);
                    if old_chain.contains(s) {
                        let t = choose|t: int| 0 <= t < old_chain.len() && old_chain[t] == s;
                        assert(chain[t] == s);
                    }
                    if k > 0 {
                        assert(chain[k - 1] == prev as int);
                        assert(s != prev as int);
                    }
                }
            }
            if k == 0 {
                first = slot;
            }
            prev = slot;
            k = k + 1;
        }
        proof {
            let c = chain;
            let wds = self.words@;
            let nn = n as int;
            assert(c == alloc_slots(old_free, count, nn as nat));
            // New slots never belong to an existing text.
            assert forall|key: u32, i: int, j: int|
                old(self).chains@.contains_key(key) && 0 <= i < c.len() && 0 <= j < old(self).chains@[key].len()
                implies #[trigger] c[i] != #[trigger] old(self).chains@[key][j] by {
                assert(old(self).items@.contains_key(key));
                assert(chain_linked(old_words, old(self).chains@[key]));
                assert(old(self).chains@[key][j] < count);
                if i < f {
                    assert(c[i] == old_free[f - 1 - i] as int);
                    assert(old(self).chains@[key][j] != old_free[f - 1 - i] as int);
                }
            }
            // Existing texts keep their words.
            assert forall|key: u32, j: int|
                old(self).chains@.contains_key(key) && 0 <= j < old(self).chains@[key].len()
                implies wds[#[trigger] old(self).chains@[key][j]] == old_words[old(self).chains@[key][j]] by {
                assert(old(self).items@.contains_key(key));
                assert(chain_linked(old_words, old(self).chains@[key]));
                let sl = old(self).chains@[key][j];
                if c.contains(sl) {
                    let i = choose|i: int| 0 <= i < c.len() && c[i] == sl;
                    assert(c[i] != old(self).chains@[key][j]);
                }
            }
        }
        let start: i32 = if n == 0 { -1 } else { first };
        let item = MeasureTextCacheItem {
            measurement,
            measured_words_start_index: start,
            contains_newlines,
            id,
            generation,
        };
        map_insert(&mut self.items, id, item);
        self.keys.push(id);
        proof {
            self.chains@ = self.chains@.insert(id, chain);
        }

        proof {
            let c = chain;
            let oc = old(self).chains@;
            assert(self.chains@ == oc.insert(id, c));
            assert(!oc.contains_key(id));
            assert(!old(self).keys@.contains(id));
            assert forall|a: int, b: int| 0 <= a < self.keys@.len() && 0 <= b < self.keys@.len() && a != b
                implies self.keys@[a] != self.keys@[b] by {
                if a < old(self).keys@.len() && b < old(self).keys@.len() {
                    assert(old(self).keys@[a] != old(self).keys@[b]);
                } else if a < old(self).keys@.len() {
                    assert(old(self).keys@.contains(old(self).keys@[a]));
                } else if b < old(self).keys@.len() {
                    assert(old(self).keys@.contains(old(self).keys@[b]));
                }
            }
            assert forall|key: u32| #[trigger] self.items@.contains_key(key) <==> self.keys@.contains(key) by {
                if self.keys@.contains(key) && key != id {
                    let t = choose|t: int| 0 <= t < self.keys@.len() && self.keys@[t] == key;
                    assert(old(self).keys@[t] == key);
                }
                if old(self).keys@.contains(key) {
                    let t = choose|t: int| 0 <= t < old(self).keys@.len() && old(self).keys@[t] == key;
                    assert(self.keys@[t] == key);
                }
                assert(self.keys@[self.keys@.len() - 1] == id);
            }
            assert forall|key: u32| #[trigger] self.items@.contains_key(key) implies {
                &&& chain_linked(self.words@, self.chains@[key])
                &&& self.items@[key].measured_words_start_index == chain_start(self.chains@[key])
            } by {
                if key != id {
                    let ck = oc[key];
                    assert(old(self).items@.contains_key(key));
                    assert(chain_linked(old_words, ck));
                    assert forall|j: int| 0 <= j < ck.len() implies self.words@[#[trigger] ck[j]] == old_words[ck[j]] by {
                    }
                    assert forall|i: int| 0 <= i < ck.len() - 1 implies self.words@[#[trigger] ck[i]].next == ck[i + 1] by {
                        assert(self.words@[ck[i]] == old_words[ck[i]]);
                    }
                    if ck.len() > 0 {
                        assert(self.words@[ck[ck.len() - 1]] == old_words[ck[ck.len() - 1]]);
                    }
                }
            }
            let nfree = self.free_list@;
            assert forall|key: u32, i: int, j: int|
                self.chains@.contains_key(key) && 0 <= i < self.chains@[key].len() && 0 <= j < nfree.len()
                implies #[trigger] self.chains@[key][i] != #[trigger] nfree[j] as int by {
                assert(nfree[j] == old_free[j]);
                if key == id {
                    if i < f {
                        assert(c[i] == old_free[f - 1 - i] as int);
                        assert(j < f - 1 - i);
                        assert(old_free[j] != old_free[f - 1 - i]);
                    }
                } else {
                    assert(old(self).chains@.contains_key(key));
                }
            }
            assert forall|k1: u32, k2: u32, i: int, j: int|
                k1 != k2 && self.chains@.contains_key(k1) && self.chains@.contains_key(k2)
                    && 0 <= i < self.chains@[k1].len() && 0 <= j < self.chains@[k2].len()
                    implies #[trigger] self.chains@[k1][i] != #[trigger] self.chains@[k2][j] by {
                if k1 != id && k2 != id {
                    assert(oc.contains_key(k1) && oc.contains_key(k2));
                }
            }
            assert(self@.texts =~= old(self)@.texts.insert(id, words@)) by {
                assert forall|key: u32| #[trigger] self@.texts.contains_key(key) implies
                    self@.texts[key] == old(self)@.texts.insert(id, words@)[key] by {
                    if key == id {
                        assert(c.map_values(|s: int| word_data(self.words@[s])) =~= words@);
                    } else {
                        let ck = oc[key];
                        assert(old(self).items@.contains_key(key));
                        assert(ck.map_values(|s: int| word_data(self.words@[s]))
                            =~= ck.map_values(|s: int| word_data(old_words[s])));
                    }
                }
            }
            assert(self@.items =~= old(self)@.items.insert(id, item));
        }
        start
    }

    /// The words of the text cached under `id`, in order.
    pub fn words_of(&self, id: u32) -> (r: Vec<MeasuredWordData<W>>)
        requires
            self.wf(),
            self@.items.contains_key(id),
        ensures
            r@ == self@.texts[id],
    {
        let item = match map_get(&self.items, id) {
            Some(it) => *it,
            None => {
                proof {
                    assert(false);
                }
                return Vec::new();
            },
        };
        let ghost c = self.chains@[id];
        proof {
            assert(self.items@.contains_key(id));
        }
        let mut out: Vec<MeasuredWordData<W>> = Vec::new();
        let mut idx: i32 = item.measured_words_start_index;
        let ghost mut j: int = 0;
        while idx != -1
            invariant
                self.wf(),
                self.items@.contains_key(id),
                c == self.chains@[id],
                chain_linked(self.words@, c),
                0 <= j <= c.len(),
                idx == (if j < c.len() { c[j] } else { -1 }),
                out@ == c.take(j).map_values(|s: int| word_data(self.words@[s])),
            decreases c.len() - j,
        {
            let w = self.words[idx as usize];
            out.push(MeasuredWordData { start_offset: w.start_offset, length: w.length, width: w.width });
            proof {
                assert(c.take(j + 1) =~= c.take(j).push(c[j]));
                if j + 1 < c.len() {
                    assert(self.words@[c[j]].next == c[j + 1]);
                } else {
                    assert(self.words@[c[c.len() - 1]].next == -1);
                }
                j = j + 1;
            }
            idx = w.next;
        }
        proof {
            if j < c.len() {
                assert(c[j] >= 0);
            }
            assert(c.take(j) =~= c);
        }
        out
    }

    /// Drops every cached text not used in the last two frames (frame numbers
    /// count modulo 2^32), putting the slots of its words on the free list.
    pub fn evict_stale(&mut self, generation: u32)
        requires
            old(self).wf(),
        ensures
            final(self).wf(),
            ({
                let o = old(self)@;
                let nf = final(self)@.free_list;
                &&& final(self)@.items == spec_keep_fresh(o.items, o.items, generation)
                &&& final(self)@.texts == spec_keep_fresh(o.items, o.texts, generation)
                &&& final(self)@.slots == spec_keep_fresh(o.items, o.slots, generation)
                &&& final(self)@.slot_count == o.slot_count
                &&& nf.take(o.free_list.len() as int) == o.free_list
                &&& forall|j: int| o.free_list.len() <= j < nf.len()
                    ==> spec_stale_slot(o.items, o.slots, generation, #[trigger] nf[j] as int)
                &&& forall|s: int| spec_stale_slot(o.items, o.slots, generation, s)
                    ==> exists|j: int| o.free_list.len() <= j < nf.len() && #[trigger] nf[j] as int == s
            }),
    {
        let ghost ow = self.words@;
        let ghost oc = self.chains@;
        let ghost oi = self.items@;
        let ghost ok = self.keys@;
        let ghost ofree = self.free_list@;
        let ghost ofl = ofree.len() as int;
        let mut new_keys: Vec<u32> = Vec::new();
        let nk = self.keys.len();
        let mut t: usize = 0;
        while t < nk
            invariant
                old(self).wf(),
                ow == old(self).words@,
                oc == old(self).chains@,
                oi == old(self).items@,
                ok == old(self).keys@,
                ofree == old(self).free_list@,
                ofl == ofree.len(),
                nk == ok.len(),
                0 <= t <= nk,
                self.keys@ == ok,
                self.words@ == ow,
                forall|key: u32| #[trigger] self.items@.contains_key(key) <==> (oi.contains_key(key)
                    && (!ok.take(t as int).contains(key) || spec_is_fresh(generation, oi[key].generation))),
                forall|key: u32| #[trigger] self.items@.contains_key(key) ==> self.items@[key] == oi[key],
                forall|key: u32| #[trigger] self.chains@.contains_key(key) <==> self.items@.contains_key(key),
                forall|key: u32| #[trigger] self.chains@.contains_key(key) ==> self.chains@[key] == oc[key],
                forall|key: u32| #[trigger] new_keys@.contains(key) <==> (ok.take(t as int).contains(key)
                    && spec_is_fresh(generation, oi[key].generation)),
                new_keys@.no_duplicates(),
                self.free_list@.len() >= ofl,
                self.free_list@.take(ofl) == ofree,
                self.free_list@.no_duplicates(),
                forall|i: int| 0 <= i < self.free_list@.len() ==> 0 <= #[trigger] self.free_list@[i] < ow.len(),
                forall|key: u32, i: int, j: int|
                    self.chains@.contains_key(key) && 0 <= i < self.chains@[key].len() && 0 <= j < self.free_list@.len()
                        ==> #[trigger] self.chains@[key][i] != #[trigger] self.free_list@[j] as int,
                forall|j: int| ofl <= j < self.free_list@.len()
                    ==> spec_stale_slot(oi, oc, generation, #[trigger] self.free_list@[j] as int),
                forall|key: u32, i: int|
                    ok.take(t as int).contains(key) && oi.contains_key(key) && !spec_is_fresh(generation, oi[key].generation)
                        && 0 <= i < oc[key].len()
                        ==> exists|j: int| ofl <= j < self.free_list@.len() && #[trigger] self.free_list@[j] as int == #[trigger] oc[key][i],
            decreases nk - t,
        {
            let key = self.keys[t];
            proof {
                assert(ok.contains(key));
                assert(oi.contains_key(key));
                assert(!ok.take(t as int).contains(key)) by {
                    if ok.take(t as int).contains(key) {
                        let q = choose|q: int| 0 <= q < t && ok[q] == key;
                        assert(ok[q] == ok[t as int]);
                    }
                }
                assert(ok.take(t as int + 1) =~= ok.take(t as int).push(key));
                assert forall|k2: u32| #[trigger] ok.take(t as int + 1).contains(k2)
                    <==> (ok.take(t as int).contains(k2) || k2 == key) by {
                    if ok.take(t as int + 1).contains(k2) {
                        let tk = ok.take(t as int + 1);
                        let q = choose|q: int| 0 <= q < tk.len() && #[trigger] tk[q] == k2;
                        if q < t {
                            assert(ok.take(t as int)[q] == k2);
                        }
                    }
                    if ok.take(t as int).contains(k2) {
                        let tk0 = ok.take(t as int);
                        let q = choose|q: int| 0 <= q < tk0.len() && #[trigger] tk0[q] == k2;
                        assert(ok.take(t as int + 1)[q] == k2);
                    }
                    if k2 == key {
                        assert(ok.take(t as int + 1)[t as int] == k2);
                    }
                }
            }
            let item = match map_get(&self.items, key) {
                Some(it) => *it,
                None => {
                    proof {
                        assert(false);
                    }
                    return;
                },
            };
            if generation.wrapping_sub(item.generation) <= 2 {
                let ghost prev_nk = new_keys@;
                new_keys.push(key);
                proof {
                    assert forall|k2: u32| #[trigger] new_keys@.contains(k2) <==> (prev_nk.contains(k2) || k2 == key) by {
                        if new_keys@.contains(k2) {
                            let q = choose|q: int| 0 <= q < new_keys@.len() && #[trigger] new_keys@[q] == k2;
                            if q < prev_nk.len() {
                                assert(prev_nk[q] == k2);
                            }
                        }
                        if prev_nk.contains(k2) {
                            let q = choose|q: int| 0 <= q < prev_nk.len() && #[trigger] prev_nk[q] == k2;
                            assert(new_keys@[q] == k2);
                        }
                        if k2 == key {
                            assert(new_keys@[prev_nk.len() as int] == k2);
                        }
                    }
                    assert forall|a: int, b: int| 0 <= a < new_keys@.len() && 0 <= b < new_keys@.len() && a != b
                        implies new_keys@[a] != new_keys@[b] by {
                        let last = new_keys@.len() - 1;
                        if a < last && b < last {
                            assert(prev_nk[a] != prev_nk[b]);
                        } else if a < last {
                            assert(prev_nk.contains(prev_nk[a]));
                            assert(new_keys@[a] == prev_nk[a]);
                        } else {
                            assert(prev_nk.contains(prev_nk[b]));
                            assert(new_keys@[b] == prev_nk[b]);
                        }
                    }
                }
            } else {
                proof {
                    assert(!new_keys@.contains(key));
                }
                let ghost c = oc[key];
                let ghost before = self.free_list@;
                let ghost cb = self.chains@;
                let ghost ib = self.items@;
                proof {
                    assert(chain_linked(ow, c));
                }
                let mut idx: i32 = item.measured_words_start_index;
                let ghost mut j: int = 0;
                while idx != -1
                    invariant
                        self.words@ == ow,
                        self.chains@ == cb,
                        self.items@ == ib,
                        self.keys@ == ok,
                        chain_linked(ow, c),
                        0 <= j <= c.len(),
                        idx == (if j < c.len() { c[j] } else { -1 }),
                        self.free_list@ == before + c.take(j).map_values(|x: int| x as i32),
                    decreases c.len() - j,
                {
                    let w = self.words[idx as usize];
                    self.free_list.push(idx);
                    proof {
                        assert(c.take(j + 1).map_values(|x: int| x as i32)
                            =~= c.take(j).map_values(|x: int| x as i32).push(idx));
                        if j + 1 < c.len() {
                            assert(ow[c[j]].next == c[j + 1]);
                        }
                        j = j + 1;
                    }
                    idx = w.next;
                }
                proof {
                    if j < c.len() {
                        assert(c[j] >= 0);
                    }
                    assert(c.take(j) =~= c);
                }
                map_remove(&mut self.items, key);
                proof {
                    self.chains@ = self.chains@.remove(key);
                    let nf = self.free_list@;
                    let added = c.map_values(|x: int| x as i32);
                    assert(nf =~= before + added);
                    assert(nf.take(ofl) =~= ofree) by {
                        assert(before.take(ofl) == ofree);
                    }
                    assert forall|a: int, b: int| 0 <= a < nf.len() && 0 <= b < nf.len() && a != b
                        implies nf[a] != nf[b] by {
                        if a < before.len() && b < before.len() {
                        } else if a >= before.len() && b >= before.len() {
                            assert(c[a - before.len()] != c[b - before.len()]);
                        } else if a < before.len() {
                            assert(cb.contains_key(key));
                            assert(cb[key] == c);
                            assert(cb[key][b - before.len()] != before[a] as int);
                        } else {
                            assert(cb.contains_key(key));
                            assert(cb[key] == c);
                            assert(cb[key][a - before.len()] != before[b] as int);
                        }
                    }
                    assert forall|i: int| 0 <= i < nf.len() implies 0 <= #[trigger] nf[i] < ow.len() by {
                        if i >= before.len() {
                            assert(0 <= c[i - before.len()] < ow.len());
                        }
                    }
                    assert forall|k2: u32, i: int, j2: int|
                        self.chains@.contains_key(k2) && 0 <= i < self.chains@[k2].len() && 0 <= j2 < nf.len()
                            implies #[trigger] self.chains@[k2][i] != #[trigger] nf[j2] as int by {
                        if j2 >= before.len() {
                            assert(k2 != key);
                            assert(cb.contains_key(k2));
                            assert(cb[k2] == oc[k2]);
                            assert(oc.contains_key(k2) && oc.contains_key(key));
                            assert(0 <= j2 - before.len() < c.len());
                            assert(oc[k2][i] != oc[key][j2 - before.len()]);
                        }
                    }
                    assert forall|j2: int| ofl <= j2 < nf.len()
                        implies spec_stale_slot(oi, oc, generation, #[trigger] nf[j2] as int) by {
                        if j2 >= before.len() {
                            assert(oc[key].contains(nf[j2] as int)) by {
                                assert(oc[key][j2 - before.len()] == nf[j2] as int);
                            }
                        }
                    }
                    assert forall|k2: u32, i: int|
                        ok.take(t as int + 1).contains(k2) && oi.contains_key(k2) && !spec_is_fresh(generation, oi[k2].generation)
                            && 0 <= i < oc[k2].len()
                            implies exists|j2: int| ofl <= j2 < nf.len() && #[trigger] nf[j2] as int == #[trigger] oc[k2][i] by {
                        if k2 == key {
                            assert(nf[before.len() + i] as int == oc[k2][i]);
                        } else {
                            assert(ok.take(t as int).contains(k2));
                            let j3 = choose|j3: int| ofl <= j3 < before.len() && #[trigger] before[j3] as int == oc[k2][i];
                            assert(nf[j3] == before[j3]);
                        }
                    }
                }
            }
            t = t + 1;
        }
        self.keys = new_keys;
        proof {
            assert(ok.take(nk as int) =~= ok);
            assert(self.items@ =~= spec_keep_fresh(oi, oi, generation));
            assert(self.chains@ =~= spec_keep_fresh(oi, oc, generation));
            assert(self@.texts =~= spec_keep_fresh(oi, old(self)@.texts, generation));
        }
    }

    /// Looks up the measurement cached under `id`; a hit marks it as used in
    /// frame `generation`.
    pub fn lookup(&mut self, id: u32, generation: u32) -> (r: Option<MeasureTextCacheItem<D>>)
        requires
            old(self).wf(),
        ensures
            final(self).wf(),
            old(self)@.items.contains_key(id) ==> {
                &&& r == Some(MeasureTextCacheItem { generation: generation, ..old(self)@.items[id] })
                &&& final(self)@ == (MeasureTextCacheView {
                    items: old(self)@.items.insert(id, r->0),
                    ..old(self)@
                })
            },
            !old(self)@.items.contains_key(id) ==> r is None && final(self)@ == old(self)@,
    {
        match map_remove(&mut self.items, id) {
            Some(item) => {
                let updated = MeasureTextCacheItem { generation, ..item };
                map_insert(&mut self.items, id, updated);
                proof {
                    assert(self.items@ =~= old(self)@.items.insert(id, updated));
                    assert(self@.texts =~= old(self)@.texts);
                }
                Some(updated)
            },
            None => {
                proof {
                    assert(self.items@ =~= old(self)@.items);
                    assert(self@.texts =~= old(self)@.texts);
                }
                None
            },
        }
    }
}

} // verus!
