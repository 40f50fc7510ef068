//! Cleaning up the HTML that a handler returns.
//!
//! A handler may return its page with indentation and line breaks. Before the
//! page is sent, the white space around it is trimmed away and every line feed
//! and carriage return inside it is removed, so that the body is one line.

use vstd::prelude::*;
use crate::text::{push_char, to_chars};

verus! {

/// A page, as a handler returns it.
pub type HTML = String;

/// The characters with the Unicode property `White_Space`.
pub open spec fn is_white_space(c: char) -> bool {
    ||| '\u{9}' <= c <= '\u{D}'
    ||| c == ' '
    ||| c == '\u{85}'
    ||| c == '\u{A0}'
    ||| c == '\u{1680}'
    ||| '\u{2000}' <= c <= '\u{200A}'
    ||| c == '\u{2028}'
    ||| c == '\u{2029}'
    ||| c == '\u{202F}'
    ||| c == '\u{205F}'
    ||| c == '\u{3000}'
}

/// Line feed and carriage return.
pub open spec fn is_line_break(c: char) -> bool {
    c == '\n' || c == '\r'
}

/// `s` without the white space at its start.
pub open spec fn trim_start(s: Seq<char>) -> Seq<char>
    decreases s.len(),
{
    if s.len() > 0 && is_white_space(s.first()) {
        trim_start(s.drop_first())
    } else {
        s
    }
}

/// `s` without the white space at its end.
pub open spec fn trim_end(s: Seq<char>) -> Seq<char>
    decreases s.len(),
{
    if s.len() > 0 && is_white_space(s.last()) {
        trim_end(s.drop_last())
    } else {
        s
    }
}

/// `s` without the white space at either end.
pub open spec fn trim(s: Seq<char>) -> Seq<char> {
    trim_end(trim_start(s))
}

/// `s` without its line feeds and carriage returns.
pub open spec fn strip_line_breaks(s: Seq<char>) -> Seq<char> {
    s.filter(|c: char| !is_line_break(c))
}

/// The body that is sent for the page `html`: trimmed, then stripped of line
/// breaks.
pub open spec fn normalized(html: Seq<char>) -> Seq<char> {
    strip_line_breaks(trim(html))
}

/// Whether `c` has the Unicode property `White_Space`.
pub fn is_whitespace(c: char) -> (r: bool)
    ensures
        r == is_white_space(c),
{
    ('\u{9}' <= c && c <= '\u{D}') || c == ' ' || c == '\u{85}' || c == '\u{A0}' || c == '\u{1680}'
        || ('\u{2000}' <= c && c <= '\u{200A}') || c == '\u{2028}' || c == '\u{2029}' || c
        == '\u{202F}' || c == '\u{205F}' || c == '\u{3000}'
}

/// `trim_start` drops a run of white space from the start and stops at the
/// first character that is none. The result is how many characters it drops.
pub proof fn lemma_trim_start(s: Seq<char>) -> (dropped: int)
    ensures
        0 <= dropped <= s.len(),
        trim_start(s) == s.skip(dropped),
        forall|i: int| 0 <= i < dropped ==> is_white_space(#[trigger] s[i]),
        dropped < s.len() ==> !is_white_space(s[dropped]),
    decreases s.len(),
{
    if s.len() > 0 && is_white_space(s.first()) {
        let k = lemma_trim_start(s.drop_first());
        assert forall|i: int| 0 <= i < k + 1 implies is_white_space(#[trigger] s[i]) by {
            if i > 0 {
                assert(s[i] == s.drop_first()[i - 1]);
            }
        }
        k + 1
    } else {
        0
    }
}

/// `trim_end` drops a run of white space from the end and stops at the last
/// character that is none. The result is how many characters it keeps.
pub proof fn lemma_trim_end(s: Seq<char>) -> (kept: int)
    ensures
        0 <= kept <= s.len(),
        trim_end(s) == s.take(kept),
        forall|i: int| kept <= i < s.len() ==> is_white_space(#[trigger] s[i]),
        kept > 0 ==> !is_white_space(s[kept - 1]),
    decreases s.len(),
{
    if s.len() > 0 && is_white_space(s.last()) {
        let k = lemma_trim_end(s.drop_last());
        assert forall|i: int| k <= i < s.len() implies is_white_space(#[trigger] s[i]) by {
            if i < s.len() - 1 {
                assert(s[i] == s.drop_last()[i]);
            }
        }
        k
    } else {
        s.len() as int
    }
}

/// `trim` keeps one stretch of `s`, with nothing but white space before and
/// after it, and with a character that is no white space at each of its ends
/// unless it is empty. The result is where the stretch starts and ends.
pub proof fn lemma_trim(s: Seq<char>) -> (kept: (int, int))
    ensures
        0 <= kept.0 <= kept.1 <= s.len(),
        trim(s) == s.subrange(kept.0, kept.1),
        forall|i: int| 0 <= i < kept.0 ==> is_white_space(#[trigger] s[i]),
        forall|i: int| kept.1 <= i < s.len() ==> is_white_space(#[trigger] s[i]),
        kept.0 < kept.1 ==> !is_white_space(s[kept.0]) && !is_white_space(s[kept.1 - 1]),
{
    let start = lemma_trim_start(s);
    let rest = s.skip(start);
    let length = lemma_trim_end(rest);
    assert forall|i: int| start + length <= i < s.len() implies is_white_space(#[trigger] s[i]) by {
        assert(s[i] == rest[i - start]);
    }
    (start, start + length)
}

/// A sequence without line breaks is stripped of nothing.
pub proof fn lemma_strip_nothing(s: Seq<char>)
    requires
        forall|i: int| 0 <= i < s.len() ==> !is_line_break(#[trigger] s[i]),
    ensures
        strip_line_breaks(s) == s,
    decreases s.len(),
{
    reveal(Seq::filter);
    if s.len() > 0 {
        lemma_strip_nothing(s.drop_last());
    }
}

/// Stripping the line breaks keeps the first and the last character of a
/// sequence where they are no line breaks.
proof fn lemma_strip_keeps_ends(s: Seq<char>)
    requires
        s.len() > 0,
        !is_line_break(s.first()),
        !is_line_break(s.last()),
    ensures
        strip_line_breaks(s).len() > 0,
        strip_line_breaks(s).first() == s.first(),
        strip_line_breaks(s).last() == s.last(),
{
    let keep = |c: char| !is_line_break(c);
    let head = seq![s.first()];
    assert(head + s.drop_first() =~= s);
    Seq::filter_distributes_over_add(head, s.drop_first(), keep);
    reveal_with_fuel(Seq::filter, 2);
}

/// The body that is sent is one line, has no white space at either end, and
/// is sent unchanged if it is cleaned up once more.
pub proof fn lemma_normalized_is_clean(html: Seq<char>)
    ensures
        forall|i: int|
            0 <= i < normalized(html).len() ==> !is_line_break(#[trigger] normalized(html)[i]),
        normalized(html).len() > 0 ==> !is_white_space(normalized(html).first())
            && !is_white_space(normalized(html).last()),
        normalized(normalized(html)) == normalized(html),
{
    let trimmed = trim(html);
    let body = normalized(html);
    let keep = |c: char| !is_line_break(c);
    lemma_trim(html);
    assert forall|i: int| 0 <= i < body.len() implies !is_line_break(#[trigger] body[i]) by {
        trimmed.lemma_filter_pred(keep, i);
    }
    if trimmed.len() > 0 {
        lemma_strip_keeps_ends(trimmed);
    } else {
        trimmed.lemma_filter_len(keep);
    }
    lemma_strip_nothing(body);
}

/// Trims the white space around `html` and removes the line breaks inside it.
pub fn html_cleanup(html: &str) -> (body: String)
    ensures
        body@ == normalized(html@),
{
    let chars = to_chars(html);
    let n = chars.len();
    let mut start: usize = 0;
    while start < n && is_whitespace(chars[start])
        invariant
            n == chars.len(),
            start <= n,
            forall|i: int| 0 <= i < start ==> is_white_space(#[trigger] chars@[i]),
        decreases n - start,
    {
        start += 1;
    }
    let mut end: usize = n;
    while end > start && is_whitespace(chars[end - 1])
        invariant
            n == chars.len(),
            start <= end <= n,
            forall|i: int| 0 <= i < start ==> is_white_space(#[trigger] chars@[i]),
            start < n ==> !is_white_space(chars@[start as int]),
            forall|i: int| end <= i < n ==> is_white_space(#[trigger] chars@[i]),
        decreases end,
    {
        end -= 1;
    }
    let ghost kept = chars@.subrange(start as int, end as int);
    proof {
        lemma_trim(chars@);
    }
    let mut body = String::new();
    let mut i: usize = start;
    while i < end
        invariant
            start <= i <= end <= chars.len(),
            kept == chars@.subrange(start as int, end as int),
            body@ == strip_line_breaks(kept.take(i - start)),
        decreases end - i,
    {
        let c = chars[i];
        proof {
            assert(kept.take(i + 1 - start).drop_last() =~= kept.take(i - start));
            reveal(Seq::filter);
        }
        if c != '\n' && c != '\r' {
            push_char(&mut body, c);
        }
        i += 1;
    }
    assert(kept.take(end - start) =~= kept);
    body
}

} // verus!
