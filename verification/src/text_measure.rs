//! How a text is cut into the words that text measurement measures and that
//! line wrapping later places: each word runs up to a space (which it
//! includes) or a line break (which ends it and starts a new line); what
//! follows the last separator is a trailing word.
use vstd::prelude::*;

verus! {

/// What ends a measured word.
#[derive(Debug, Clone, Copy, PartialEq, Eq, Structural)]
pub enum WordKind {
    /// A word followed by a space; its length counts the space, and its
    /// measured width is the word's plus one space's.
    SpaceTerminated,
    /// A non-empty word directly followed by a line break.
    NewlineTerminated,
    /// The line break itself: an empty word that starts right after it.
    LineBreak,
    /// The last word of the text, with no separator after it.
    Trailing,
}

/// A measured word: where it starts in the text (in bytes), how many bytes it
/// spans, and what ended it.
#[derive(Debug, Clone, Copy, PartialEq, Eq, Structural)]
pub struct WordSpan {
    pub start_offset: usize,
    pub length: usize,
    pub kind: WordKind,
}

/// Whether the byte separates words.
pub open spec fn is_separator(b: u8) -> bool {
    b == 32u8 || b == 10u8
}

/// The words of `text[start..]`, where the current word began at `start` and
/// the scan has reached `pos` without meeting a separator.
pub open spec fn words_from(text: Seq<u8>, start: int, pos: int) -> Seq<WordSpan>
    decreases text.len() - pos,
{
    if pos >= text.len() || pos < 0 || start < 0 {
        if pos - start > 0 {
            seq![WordSpan { start_offset: start as usize, length: (pos - start) as usize, kind: WordKind::Trailing }]
        } else {
            Seq::empty()
        }
    } else if text[pos] == 32u8 {
        seq![WordSpan { start_offset: start as usize, length: (pos - start + 1) as usize, kind: WordKind::SpaceTerminated }]
            + words_from(text, pos + 1, pos + 1)
    } else if text[pos] == 10u8 {
        (if pos - start > 0 {
            seq![WordSpan { start_offset: start as usize, length: (pos - start) as usize, kind: WordKind::NewlineTerminated }]
        } else {
            Seq::empty()
        }) + seq![WordSpan { start_offset: (pos + 1) as usize, length: 0, kind: WordKind::LineBreak }]
            + words_from(text, pos + 1, pos + 1)
    } else {
        words_from(text, start, pos + 1)
    }
}

/// The words of a text.
pub open spec fn spec_words(text: Seq<u8>) -> Seq<WordSpan> {
    words_from(text, 0, 0)
}

/// The bytes a list of words accounts for: each word's length, plus one
/// for the line break that each line-break word stands for.
pub open spec fn covered_bytes(words: Seq<WordSpan>) -> int
    decreases words.len(),
{
    if words.len() == 0 {
        0
    } else {
        covered_bytes(words.drop_last()) + words.last().length + if words.last().kind == WordKind::LineBreak { 1int } else { 0int }
    }
}

proof fn lemma_covered_bytes_append(a: Seq<WordSpan>, b: Seq<WordSpan>)
    ensures
        covered_bytes(a + b) == covered_bytes(a) + covered_bytes(b),
    decreases b.len(),
{
    if b.len() == 0 {
        assert(a + b =~= a);
    } else {
        assert((a + b).drop_last() =~= a + b.drop_last());
        lemma_covered_bytes_append(a, b.drop_last());
    }
}

proof fn lemma_covered_words_from(text: Seq<u8>, start: int, pos: int)
    requires
        0 <= start <= pos <= text.len(),
        text.len() < usize::MAX,
    ensures
        covered_bytes(words_from(text, start, pos)) == text.len() - start,
    decreases text.len() - pos,
{
    if pos >= text.len() {
        if pos - start > 0 {
            let w = seq![WordSpan { start_offset: start as usize, length: (pos - start) as usize, kind: WordKind::Trailing }];
            assert(w.drop_last() =~= Seq::<WordSpan>::empty());
            assert(covered_bytes(w.drop_last()) == 0);
        }
    } else if text[pos] == 32u8 {
        let w = seq![WordSpan { start_offset: start as usize, length: (pos - start + 1) as usize, kind: WordKind::SpaceTerminated }];
        assert(w.drop_last() =~= Seq::<WordSpan>::empty());
            assert(covered_bytes(w.drop_last()) == 0);
        lemma_covered_words_from(text, pos + 1, pos + 1);
        lemma_covered_bytes_append(w, words_from(text, pos + 1, pos + 1));
    } else if text[pos] == 10u8 {
        let first: Seq<WordSpan> = if pos - start > 0 {
            seq![WordSpan { start_offset: start as usize, length: (pos - start) as usize, kind: WordKind::NewlineTerminated }]
        } else {
            Seq::empty()
        };
        assert(covered_bytes(Seq::<WordSpan>::empty()) == 0);
        let lb = seq![WordSpan { start_offset: (pos + 1) as usize, length: 0, kind: WordKind::LineBreak }];
        assert(lb.drop_last() =~= Seq::<WordSpan>::empty());
        assert(covered_bytes(lb.drop_last()) == 0);
        if pos - start > 0 {
            assert(first.drop_last() =~= Seq::<WordSpan>::empty());
            assert(covered_bytes(first.drop_last()) == 0);
        }
        lemma_covered_words_from(text, pos + 1, pos + 1);
        lemma_covered_bytes_append(first, lb);
        lemma_covered_bytes_append(first + lb, words_from(text, pos + 1, pos + 1));
    } else {
        lemma_covered_words_from(text, start, pos + 1);
    }
}

/// Law: the words of a text account for every byte of it exactly once.
pub proof fn law_words_cover_text(text: Seq<u8>)
    requires
        text.len() < usize::MAX,
    ensures
        covered_bytes(spec_words(text)) == text.len(),
{
    lemma_covered_words_from(text, 0, 0);
}

proof fn lemma_words_from_skip(text: Seq<u8>, start: int, pos: int)
    requires
        0 <= start <= pos < text.len(),
        !is_separator(text[pos]),
    ensures
        words_from(text, start, pos) == words_from(text, start, pos + 1),
{
}

/// No byte of `text[a..b]` separates words.
pub open spec fn no_separator_in(text: Seq<u8>, a: int, b: int) -> bool {
    forall|i: int| a <= i < b ==> !is_separator(#[trigger] text[i])
}

/// Word `w` lies in `text` as its kind says: a space-terminated word is a
/// run of other bytes ending in the space it counts; a newline-terminated
/// word is a non-empty run of other bytes followed by a line break; a
/// line-break word is empty and starts right after a line break; a trailing
/// word is a non-empty run of other bytes that ends the text.
pub open spec fn word_fits(text: Seq<u8>, w: WordSpan) -> bool {
    let s = w.start_offset as int;
    let l = w.length as int;
    match w.kind {
        WordKind::SpaceTerminated => l >= 1 && s + l <= text.len() && text[s + l - 1] == 32u8 && no_separator_in(text, s, s + l - 1),
        WordKind::NewlineTerminated => l >= 1 && s + l < text.len() && text[s + l] == 10u8 && no_separator_in(text, s, s + l),
        WordKind::LineBreak => l == 0 && 1 <= s <= text.len() && text[s - 1] == 10u8,
        WordKind::Trailing => l >= 1 && s + l == text.len() && no_separator_in(text, s, s + l),
    }
}

/// Every word of `words` lies in `text` as its kind says.
pub open spec fn words_fit(text: Seq<u8>, words: Seq<WordSpan>) -> bool {
    forall|i: int| 0 <= i < words.len() ==> word_fits(text, #[trigger] words[i])
}

proof fn lemma_words_fit_append(text: Seq<u8>, a: Seq<WordSpan>, b: Seq<WordSpan>)
    requires
        words_fit(text, a),
        words_fit(text, b),
    ensures
        words_fit(text, a + b),
{
    assert forall|i: int| 0 <= i < (a + b).len() implies word_fits(text, #[trigger] (a + b)[i]) by {
        if i < a.len() {
            assert((a + b)[i] == a[i]);
        } else {
            assert((a + b)[i] == b[i - a.len()]);
        }
    }
}

proof fn lemma_words_from_fit(text: Seq<u8>, start: int, pos: int)
    requires
        0 <= start <= pos <= text.len(),
        text.len() < usize::MAX,
        no_separator_in(text, start, pos),
    ensures
        words_fit(text, words_from(text, start, pos)),
    decreases text.len() - pos,
{
    if pos >= text.len() {
        if pos - start > 0 {
            let w = WordSpan { start_offset: start as usize, length: (pos - start) as usize, kind: WordKind::Trailing };
            assert(word_fits(text, w));
            assert(words_fit(text, seq![w]));
        } else {
            assert(words_fit(text, Seq::<WordSpan>::empty()));
        }
    } else if text[pos] == 32u8 {
        let w = WordSpan { start_offset: start as usize, length: (pos - start + 1) as usize, kind: WordKind::SpaceTerminated };
        assert(word_fits(text, w));
        assert(words_fit(text, seq![w]));
        lemma_words_from_fit(text, pos + 1, pos + 1);
        lemma_words_fit_append(text, seq![w], words_from(text, pos + 1, pos + 1));
    } else if text[pos] == 10u8 {
        let first: Seq<WordSpan> = if pos - start > 0 {
            seq![WordSpan { start_offset: start as usize, length: (pos - start) as usize, kind: WordKind::NewlineTerminated }]
        } else {
            Seq::empty()
        };
        if pos - start > 0 {
            assert(word_fits(text, first[0]));
        }
        assert(words_fit(text, first));
        let lb = WordSpan { start_offset: (pos + 1) as usize, length: 0, kind: WordKind::LineBreak };
        assert(word_fits(text, lb));
        assert(words_fit(text, seq![lb]));
        lemma_words_from_fit(text, pos + 1, pos + 1);
        lemma_words_fit_append(text, first, seq![lb]);
        lemma_words_fit_append(text, first + seq![lb], words_from(text, pos + 1, pos + 1));
    } else {
        assert(no_separator_in(text, start, pos + 1)) by {
            assert forall|i: int| start <= i < pos + 1 implies !is_separator(#[trigger] text[i]) by {
                if i < pos {
                    assert(!is_separator(text[i]));
                }
            }
        }
        lemma_words_from_fit(text, start, pos + 1);
    }
}

/// Law: each word of a text lies in it as its kind says. In particular a
/// word counts as space-terminated only when the space is its last byte,
/// and what follows the last separator is a trailing word reaching the end
/// of the text.
pub proof fn law_words_fit_text(text: Seq<u8>)
    requires
        text.len() < usize::MAX,
    ensures
        words_fit(text, spec_words(text)),
{
    lemma_words_from_fit(text, 0, 0);
}

/// Cuts `text` into the words that text measurement measures.
pub fn split_measured_words(text: &[u8]) -> (r: Vec<WordSpan>)
    requires
        text@.len() < usize::MAX,
    ensures
        r@ == spec_words(text@),
{
    let n = text.len();
    let mut out: Vec<WordSpan> = Vec::new();
    let mut start: usize = 0;
    let mut end: usize = 0;
    while end < n
        invariant
            n == text@.len(),
            n < usize::MAX,
            0 <= start <= end <= n,
            out@ + words_from(text@, start as int, end as int) == spec_words(text@),
        decreases n - end,
    {
        let current = text[end];
        if current == 32u8 {
            let w = WordSpan { start_offset: start, length: end - start + 1, kind: WordKind::SpaceTerminated };
            proof {
                assert(out@.push(w) + words_from(text@, end as int + 1, end as int + 1)
                    =~= out@ + words_from(text@, start as int, end as int));
            }
            out.push(w);
            start = end + 1;
        } else if current == 10u8 {
            let ghost before = out@;
            if end - start > 0 {
                out.push(WordSpan { start_offset: start, length: end - start, kind: WordKind::NewlineTerminated });
            }
            let lb = WordSpan { start_offset: end + 1, length: 0, kind: WordKind::LineBreak };
            out.push(lb);
            proof {
                let first: Seq<WordSpan> = if end - start > 0 {
                    seq![WordSpan { start_offset: start, length: (end - start) as usize, kind: WordKind::NewlineTerminated }]
                } else {
                    Seq::empty()
                };
                assert(out@ =~= before + first + seq![lb]);
                assert(out@ + words_from(text@, end as int + 1, end as int + 1)
                    =~= before + words_from(text@, start as int, end as int));
            }
            start = end + 1;
        } else {
            proof {
                lemma_words_from_skip(text@, start as int, end as int);
            }
        }
        end = end + 1;
    }
    if end - start > 0 {
        let w = WordSpan { start_offset: start, length: end - start, kind: WordKind::Trailing };
        proof {
            assert(out@.push(w) =~= out@ + words_from(text@, start as int, end as int));
        }
        out.push(w);
    } else {
        proof {
            assert(out@ =~= out@ + words_from(text@, start as int, end as int));
        }
    }
    out
}

} // verus!
