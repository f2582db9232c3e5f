//! Anchor ids for headings.

use vstd::prelude::*;
use crate::text::{
    alphanumeric, chars_of, is_alphanumeric, is_space, is_white_space, lower_of, lowercase,
    push_char,
};

verus! {

/// A character survives into a slug when it is alphanumeric or white space.
pub open spec fn slug_keeps(c: char) -> bool {
    alphanumeric(c) || is_space(c)
}

/// The characters of `s` that a slug keeps, in order.
pub open spec fn kept(s: Seq<char>) -> Seq<char>
    decreases s.len(),
{
    if s.len() == 0 {
        s
    } else if slug_keeps(s.last()) {
        kept(s.drop_last()).push(s.last())
    } else {
        kept(s.drop_last())
    }
}

/// `s` without its leading white space.
pub open spec fn trim_start(s: Seq<char>) -> Seq<char>
    decreases s.len(),
{
    if s.len() > 0 && is_space(s[0]) {
        trim_start(s.drop_first())
    } else {
        s
    }
}

/// `s` without its trailing white space.
pub open spec fn trim_end(s: Seq<char>) -> Seq<char>
    decreases s.len(),
{
    if s.len() > 0 && is_space(s.last()) {
        trim_end(s.drop_last())
    } else {
        s
    }
}

/// `s` with white space removed at both ends.
pub open spec fn trim(s: Seq<char>) -> Seq<char> {
    trim_end(trim_start(s))
}

/// `s` with each run of white space replaced by a single hyphen.
pub open spec fn hyphenate(s: Seq<char>) -> Seq<char>
    decreases s.len(),
{
    if s.len() == 0 {
        s
    } else if !is_space(s.last()) {
        hyphenate(s.drop_last()).push(s.last())
    } else if s.len() >= 2 && is_space(s[s.len() - 2]) {
        hyphenate(s.drop_last())
    } else {
        hyphenate(s.drop_last()).push('-')
    }
}

/// The anchor id of a heading whose text is `text`: lower-cased, reduced to
/// alphanumeric and white-space characters, trimmed, and with each white-space
/// run turned into one hyphen.
pub open spec fn slug_of(text: Seq<char>) -> Seq<char> {
    hyphenate(trim(kept(lower_of(text))))
}

fn keep_slug_chars(s: &Vec<char>) -> (r: Vec<char>)
    ensures
        r@ == kept(s@),
{
    let mut out: Vec<char> = Vec::new();
    let mut i: usize = 0;
    while i < s.len()
        invariant
            i <= s.len(),
            out@ == kept(s@.take(i as int)),
        decreases s.len() - i,
    {
        let c = s[i];
        assert(s@.take(i + 1).drop_last() =~= s@.take(i as int));
        if is_alphanumeric(c) || is_white_space(c) {
            out.push(c);
        }
        i = i + 1;
    }
    assert(s@.take(s.len() as int) =~= s@);
    out
}

proof fn lemma_trim_start_skip(s: Seq<char>, i: int)
    requires
        0 <= i < s.len(),
        is_space(s[i]),
    ensures
        trim_start(s.subrange(i, s.len() as int)) == trim_start(s.subrange(i + 1, s.len() as int)),
{
    assert(s.subrange(i, s.len() as int).drop_first() =~= s.subrange(i + 1, s.len() as int));
}

proof fn lemma_trim_end_skip(s: Seq<char>, a: int, j: int)
    requires
        0 <= a < j <= s.len(),
        is_space(s[j - 1]),
    ensures
        trim_end(s.subrange(a, j)) == trim_end(s.subrange(a, j - 1)),
{
    assert(s.subrange(a, j).drop_last() =~= s.subrange(a, j - 1));
}

/// The index of the first character of `s` that is not white space.
pub fn trim_start_index(s: &Vec<char>) -> (r: usize)
    ensures
        r <= s.len(),
        r == s.len() || !is_space(s@[r as int]),
        s@.subrange(r as int, s.len() as int) == trim_start(s@),
{
    let mut a: usize = 0;
    assert(s@.subrange(0, s.len() as int) =~= s@);
    while a < s.len() && is_white_space(s[a])
        invariant
            a <= s.len(),
            trim_start(s@) == trim_start(s@.subrange(a as int, s.len() as int)),
        decreases s.len() - a,
    {
        proof {
            lemma_trim_start_skip(s@, a as int);
        }
        a = a + 1;
    }
    a
}

/// The bounds `(a, b)` such that `s[a..b]` is `s` trimmed.
fn trim_bounds(s: &Vec<char>) -> (r: (usize, usize))
    ensures
        r.0 <= r.1 <= s.len(),
        s@.subrange(r.0 as int, r.1 as int) == trim(s@),
{
    let a = trim_start_index(s);
    let ghost t = s@.subrange(a as int, s.len() as int);
    assert(trim_start(t) == t);
    let mut b: usize = s.len();
    while b > a && is_white_space(s[b - 1])
        invariant
            a <= b <= s.len(),
            t == s@.subrange(a as int, s.len() as int),
            trim_end(t) == trim_end(s@.subrange(a as int, b as int)),
        decreases b,
    {
        proof {
            lemma_trim_end_skip(s@, a as int, b as int);
        }
        b = b - 1;
    }
    (a, b)
}

/// Computes the anchor id of a heading from its text.
pub fn generate_slug(text: &str) -> (r: String)
    ensures
        r@ == slug_of(text@),
{
    let lower = lowercase(text);
    let chars = chars_of(lower.as_str());
    let kept_chars = keep_slug_chars(&chars);
    let (a, b) = trim_bounds(&kept_chars);
    let ghost t = kept_chars@.subrange(a as int, b as int);
    let mut out = String::new();
    let mut i: usize = a;
    while i < b
        invariant
            a <= i <= b <= kept_chars.len(),
            t == kept_chars@.subrange(a as int, b as int),
            out@ == hyphenate(t.take(i - a)),
        decreases b - i,
    {
        let c = kept_chars[i];
        let ghost k = (i - a) as int;
        assert(t.take(k + 1).drop_last() =~= t.take(k));
        assert(t.take(k + 1).last() == c);
        if !is_white_space(c) {
            push_char(&mut out, c);
        } else if i == a || !is_white_space(kept_chars[i - 1]) {
            assert(k >= 1 ==> t.take(k + 1)[k - 1] == kept_chars@[i - 1]);
            push_char(&mut out, '-');
        } else {
            assert(t.take(k + 1)[k - 1] == kept_chars@[i - 1]);
        }
        i = i + 1;
    }
    assert(t.take(b - a) =~= t);
    out
}

} // verus!
