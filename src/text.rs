//! Character-level helpers shared by the rest of the library.

use vstd::prelude::*;
use vstd::std_specs::iter::IteratorSpec;

verus! {

broadcast use vstd::string::group_string_axioms;

/// The Unicode `White_Space` property.
pub open spec fn is_space(c: char) -> bool {
    let u = c as u32;
    (9 <= u && u <= 13) || u == 32 || u == 0x85 || u == 0xA0 || u == 0x1680 || (0x2000 <= u
        && u <= 0x200A) || u == 0x2028 || u == 0x2029 || u == 0x202F || u == 0x205F || u
        == 0x3000
}

/// Whether `c` has the Unicode `White_Space` property.
pub fn is_white_space(c: char) -> (r: bool)
    ensures
        r == is_space(c),
{
    let u = c as u32;
    (9 <= u && u <= 13) || u == 32 || u == 0x85 || u == 0xA0 || u == 0x1680 || (0x2000 <= u
        && u <= 0x200A) || u == 0x2028 || u == 0x2029 || u == 0x202F || u == 0x205F || u
        == 0x3000
}

/// The characters of `s`, in order.
pub fn chars_of(s: &str) -> (r: Vec<char>)
    ensures
        r@ == s@,
{
    let mut out: Vec<char> = Vec::new();
    for c in it: s.chars()
        invariant
            it.seq() == s@,
            out@ == s@.take(it.index() as int),
    {
        out.push(c);
    }
    assert(out@ =~= s@);
    out
}

/// The characters `v[a..b]` as a string.
pub fn string_of_range(v: &Vec<char>, a: usize, b: usize) -> (r: String)
    requires
        a <= b <= v.len(),
    ensures
        r@ == v@.subrange(a as int, b as int),
{
    let mut out = String::new();
    let mut i: usize = a;
    while i < b
        invariant
            a <= i <= b <= v.len(),
            out@ == v@.subrange(a as int, i as int),
        decreases b - i,
    {
        push_char(&mut out, v[i]);
        assert(v@.subrange(a as int, i + 1) =~= v@.subrange(a as int, i as int).push(v@[i as int]));
        i = i + 1;
    }
    out
}

/// Whether `p` occurs in `s` starting at index `i`.
pub open spec fn occurs_at(s: Seq<char>, p: Seq<char>, i: int) -> bool {
    0 <= i && i + p.len() <= s.len() && s.subrange(i, i + p.len()) == p
}

/// The first index at or after `i` where `p` occurs in `s`.
pub open spec fn first_from(s: Seq<char>, p: Seq<char>, i: int) -> Option<int>
    decreases s.len() + 1 - i,
{
    if i < 0 || i + p.len() > s.len() {
        None
    } else if occurs_at(s, p, i) {
        Some(i)
    } else {
        first_from(s, p, i + 1)
    }
}

/// Whether `p` occurs anywhere in `s`.
pub open spec fn contains(s: Seq<char>, p: Seq<char>) -> bool {
    first_from(s, p, 0) is Some
}

/// A found index is an occurrence, and no occurrence comes between `i` and it.
pub proof fn lemma_first_from(s: Seq<char>, p: Seq<char>, i: int)
    requires
        0 <= i,
    ensures
        match first_from(s, p, i) {
            Some(k) => i <= k && occurs_at(s, p, k) && forall|j: int|
                i <= j < k ==> !occurs_at(s, p, j),
            None => forall|j: int| i <= j ==> !occurs_at(s, p, j),
        },
    decreases s.len() + 1 - i,
{
    if i + p.len() > s.len() {
    } else if occurs_at(s, p, i) {
    } else {
        lemma_first_from(s, p, i + 1);
        assert forall|j: int| i <= j && occurs_at(s, p, j) implies j != i by {};
    }
}

/// Whether `p` occurs in `s` at index `i`.
pub fn occurs_at_exec(s: &Vec<char>, p: &Vec<char>, i: usize) -> (r: bool)
    requires
        i + p.len() <= s.len(),
    ensures
        r == occurs_at(s@, p@, i as int),
{
    let mut j: usize = 0;
    while j < p.len()
        invariant
            i + p.len() <= s.len(),
            j <= p.len(),
            forall|k: int| 0 <= k < j ==> s@[i + k] == p@[k],
        decreases p.len() - j,
    {
        if s[i + j] != p[j] {
            assert(s@.subrange(i as int, i + p.len())[j as int] != p@[j as int]);
            return false;
        }
        j = j + 1;
    }
    assert(s@.subrange(i as int, i + p.len()) =~= p@);
    true
}

/// Finds the first occurrence of `p` in `s` at or after index `from`.
pub fn find_from(s: &Vec<char>, p: &Vec<char>, from: usize) -> (r: Option<usize>)
    ensures
        match r {
            Some(k) => first_from(s@, p@, from as int) == Some(k as int),
            None => first_from(s@, p@, from as int) is None,
        },
{
    if p.len() > s.len() {
        return None;
    }
    if p.len() == 0 {
        if from <= s.len() {
            assert(s@.subrange(from as int, from as int) =~= p@);
            return Some(from);
        }
        return None;
    }
    let last = s.len() - p.len();
    let mut i: usize = from;
    while i <= last
        invariant
            last + p.len() == s.len(),
            p.len() >= 1,
            from <= i,
            first_from(s@, p@, from as int) == first_from(s@, p@, i as int),
        decreases last + 1 - i,
    {
        if occurs_at_exec(s, p, i) {
            return Some(i);
        }
        i = i + 1;
    }
    None
}

/// The pieces of `s` between occurrences of `sep`; empty pieces are kept.
pub open spec fn split_on(s: Seq<char>, sep: char) -> Seq<Seq<char>>
    decreases s.len(),
{
    if s.len() == 0 {
        seq![Seq::empty()]
    } else {
        let w = split_on(s.drop_last(), sep);
        if s.last() == sep {
            w.push(Seq::empty())
        } else {
            w.update(w.len() - 1, w.last().push(s.last()))
        }
    }
}

/// There is always at least one piece.
pub proof fn lemma_split_on_len(s: Seq<char>, sep: char)
    ensures
        split_on(s, sep).len() >= 1,
    decreases s.len(),
{
    if s.len() > 0 {
        lemma_split_on_len(s.drop_last(), sep);
    }
}

/// The pieces joined with `sep` between each two.
pub open spec fn join_with(ws: Seq<Seq<char>>, sep: char) -> Seq<char>
    decreases ws.len(),
{
    if ws.len() == 0 {
        Seq::empty()
    } else if ws.len() == 1 {
        ws[0]
    } else {
        join_with(ws.drop_last(), sep) + seq![sep] + ws.last()
    }
}

/// Whether `s` starts with `p`.
pub open spec fn starts_with(s: Seq<char>, p: Seq<char>) -> bool {
    p.len() <= s.len() && s.take(p.len() as int) == p
}

/// Whether two strings hold the same characters.
pub fn same_text(a: &str, b: &str) -> (r: bool)
    ensures
        r == (a@ == b@),
{
    let x = chars_of(a);
    let y = chars_of(b);
    if x.len() != y.len() {
        return false;
    }
    let mut i: usize = 0;
    while i < x.len()
        invariant
            x.len() == y.len(),
            x@ == a@,
            y@ == b@,
            i <= x.len(),
            forall|k: int| 0 <= k < i ==> x@[k] == y@[k],
        decreases x.len() - i,
    {
        if x[i] != y[i] {
            assert(a@[i as int] != b@[i as int]);
            return false;
        }
        i = i + 1;
    }
    assert(x@ =~= y@);
    true
}

/// Relies on `String::push`: appends one character.
#[verifier::external_body]
pub fn push_char(s: &mut String, c: char)
    ensures
        final(s)@ == old(s)@.push(c),
{
    s.push(c)
}

/// What `str::to_lowercase` gives for a string.
pub uninterp spec fn lower_of(s: Seq<char>) -> Seq<char>;

/// Relies on `str::to_lowercase`: the result depends on the characters alone.
#[verifier::external_body]
pub fn lowercase(s: &str) -> (r: String)
    ensures
        r@ == lower_of(s@),
        s@.len() == 0 ==> r@.len() == 0,
{
    s.to_lowercase()
}

/// Whether `char::is_alphanumeric` holds of a character.
pub uninterp spec fn alphanumeric(c: char) -> bool;

/// Relies on `char::is_alphanumeric`: the Unicode `Alphabetic` or `Numeric` property.
#[verifier::external_body]
pub fn is_alphanumeric(c: char) -> (r: bool)
    ensures
        r == alphanumeric(c),
{
    c.is_alphanumeric()
}

} // verus!
