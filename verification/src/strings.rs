//! Character-level helpers shared by the debug view and text rendering.
use vstd::prelude::*;
use crate::renderer::spec_visible_scan;

verus! {

/// std's `String::push`: appends one character.
#[verifier::external_body]
pub(crate) fn push_char(s: &mut String, c: char)
    ensures
        final(s)@ == old(s)@.push(c),
{
    s.push(c)
}

/// The characters of `s`, in order.
pub fn chars_of(s: &str) -> (r: Vec<char>)
    ensures
        r@ == s@,
{
    let mut out: Vec<char> = Vec::new();
    for c in it: s.chars()
        invariant
            out@ == it.seq().take(it.index() as int),
    {
        out.push(c);
    }
    out
}

/// Whether the character has a meaning in text-styling markup.
pub open spec fn is_markup_char(c: char) -> bool {
    c == '{' || c == '}' || c == '|' || c == '\\'
}

/// `s` with a backslash put before every markup character, so that it is
/// shown literally by styled text.
pub open spec fn spec_escape_markup(s: Seq<char>) -> Seq<char>
    decreases s.len(),
{
    if s.len() == 0 {
        Seq::empty()
    } else {
        let rest = spec_escape_markup(s.drop_last());
        if is_markup_char(s.last()) { rest.push('\\').push(s.last()) } else { rest.push(s.last()) }
    }
}

/// Escapes text-styling markup characters (`{`, `}`, `|`, `\`) so that a
/// string is rendered literally.
pub fn debug_escape_str(s: &str) -> (r: String)
    ensures
        r@ == spec_escape_markup(s@),
{
    let chars = chars_of(s);
    let mut result = String::new();
    let mut i: usize = 0;
    while i < chars.len()
        invariant
            chars@ == s@,
            0 <= i <= chars@.len(),
            result@ == spec_escape_markup(chars@.take(i as int)),
        decreases chars.len() - i,
    {
        let c = chars[i];
        proof {
            assert(chars@.take(i as int + 1).drop_last() =~= chars@.take(i as int));
        }
        if c == '{' || c == '}' || c == '|' || c == '\\' {
            push_char(&mut result, '\\');
            push_char(&mut result, c);
        } else {
            push_char(&mut result, c);
        }
        i = i + 1;
    }
    proof {
        assert(chars@.take(chars@.len() as int) =~= chars@);
    }
    result
}

/// Law: escaped text shows every character of the unescaped text: counting
/// the visible characters of `debug_escape_str(s)` gives the length of `s`.
pub proof fn law_escaped_text_is_shown_literally(s: Seq<char>)
    ensures
        spec_visible_scan(spec_escape_markup(s)).count == s.len(),
        !spec_visible_scan(spec_escape_markup(s)).in_style_def,
        !spec_visible_scan(spec_escape_markup(s)).escaped,
    decreases s.len(),
{
    if s.len() > 0 {
        let rest = spec_escape_markup(s.drop_last());
        law_escaped_text_is_shown_literally(s.drop_last());
        let c = s.last();
        assert(spec_escape_markup(s) == if is_markup_char(c) { rest.push('\\').push(c) } else { rest.push(c) });
        if is_markup_char(c) {
            let r1 = rest.push('\\');
            assert(r1.drop_last() =~= rest);
            assert(r1.last() == '\\');
            let st1 = spec_visible_scan(r1);
            assert(st1.escaped && !st1.in_style_def && st1.count == s.len() - 1);
            let r2 = r1.push(c);
            assert(r2.drop_last() =~= r1);
            assert(r2.last() == c);
        } else {
            let r1 = rest.push(c);
            assert(r1.drop_last() =~= rest);
            assert(r1.last() == c);
        }
    }
}

} // verus!
