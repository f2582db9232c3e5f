//! Emoji inlining: code-point sequences in the HTML are replaced by the SVG
//! asset that draws them.

use vstd::prelude::*;
use vstd::string::StringExecFns;
use aho_corasick::{AhoCorasick, MatchKind};
use crate::error::StartError;
use crate::slug::{trim_start, trim_start_index};
use crate::text::{
    chars_of, join_with, lemma_split_on_len, occurs_at, occurs_at_exec, push_char, split_on,
    starts_with, string_of_range,
};

verus! {

/// A line without the carriage return that ended it.
pub open spec fn strip_cr(l: Seq<char>) -> Seq<char> {
    if l.len() > 0 && l.last() == '\r' {
        l.drop_last()
    } else {
        l
    }
}

/// The lines of a text, as `str::lines` gives them: split at `\n`, each
/// line so ended without a `\r` before it; a final empty line is not one.
pub open spec fn lines_of(s: Seq<char>) -> Seq<Seq<char>> {
    let ps = split_on(s, '\n');
    let init = ps.drop_last().map_values(|l: Seq<char>| strip_cr(l));
    if ps.last().len() == 0 {
        init
    } else {
        init.push(ps.last())
    }
}

/// A header line of an SVG file: an XML prolog or a comment.
pub open spec fn is_header_line(l: Seq<char>) -> bool {
    starts_with(trim_start(l), seq!['<', '?', 'x', 'm', 'l']) || starts_with(
        trim_start(l),
        seq!['<', '!', '-', '-'],
    )
}

/// The lines that are not header lines, in order.
pub open spec fn body_lines(ls: Seq<Seq<char>>) -> Seq<Seq<char>>
    decreases ls.len(),
{
    if ls.len() == 0 {
        ls
    } else if is_header_line(ls.last()) {
        body_lines(ls.drop_last())
    } else {
        body_lines(ls.drop_last()).push(ls.last())
    }
}

/// An SVG file without its header lines.
pub open spec fn svg_without_header(svg: Seq<char>) -> Seq<char> {
    join_with(body_lines(lines_of(svg)), '\n')
}

/// What an emoji tag holds after its own opening: the SVG without its header
/// and without the `<svg` that opens it.
pub open spec fn svg_rest(svg: Seq<char>) -> Seq<char> {
    let body = svg_without_header(svg);
    if body.len() >= 4 {
        body.subrange(4, body.len() as int)
    } else {
        Seq::empty()
    }
}

/// The inline markup for the emoji `pattern` drawn by the SVG file `svg`:
/// the SVG's element, given the emoji class, sizing, and the pattern as its
/// alternative text.
pub open spec fn emoji_tag(pattern: Seq<char>, svg: Seq<char>) -> Seq<char> {
    "<svg class=\"emoji\" draggable=\"false\" style=\"height: 1em; width: 1em; margin: 0 .05em 0 .1em; vertical-align: -0.1em;\" alt=\""@
        + pattern + seq!['"'] + svg_rest(svg)
}

fn is_header_line_exec(l: &Vec<char>) -> (r: bool)
    ensures
        r == is_header_line(l@),
{
    let a = trim_start_index(l);
    let xml = vec!['<', '?', 'x', 'm', 'l'];
    let comment = vec!['<', '!', '-', '-'];
    let ghost t = trim_start(l@);
    let x = xml.len() <= l.len() - a && occurs_at_exec(l, &xml, a);
    let c = comment.len() <= l.len() - a && occurs_at_exec(l, &comment, a);
    proof {
        if xml@.len() <= t.len() {
            assert(t.take(5) =~= l@.subrange(a as int, a + 5));
        }
        if comment@.len() <= t.len() {
            assert(t.take(4) =~= l@.subrange(a as int, a + 4));
        }
        assert(xml@ =~= seq!['<', '?', 'x', 'm', 'l']);
        assert(comment@ =~= seq!['<', '!', '-', '-']);
    }
    x || c
}

/// Adds one line to the body being joined, if it is not a header line.
fn add_line(out: &mut String, any: &mut bool, line: &Vec<char>, Ghost(ls): Ghost<Seq<Seq<char>>>)
    requires
        old(out)@ == join_with(body_lines(ls), '\n'),
        *old(any) == (body_lines(ls).len() > 0),
    ensures
        final(out)@ == join_with(body_lines(ls.push(line@)), '\n'),
        *final(any) == (body_lines(ls.push(line@)).len() > 0),
{
    assert(ls.push(line@).drop_last() =~= ls);
    if !is_header_line_exec(line) {
        let ghost b = body_lines(ls);
        assert(b.push(line@).drop_last() =~= b);
        if *any {
            push_char(out, '\n');
        }
        let s = string_of_range(line, 0, line.len());
        assert(line@.subrange(0, line.len() as int) =~= line@);
        out.append(s.as_str());
        *any = true;
    }
}

/// The SVG file without its header lines.
pub fn strip_svg_header(svg: &str) -> (r: String)
    ensures
        r@ == svg_without_header(svg@),
{
    let chars = chars_of(svg);
    let mut out = String::new();
    let mut any = false;
    let mut cur: Vec<char> = Vec::new();
    let mut i: usize = 0;
    assert(chars@.take(0) =~= Seq::<char>::empty());
    while i < chars.len()
        invariant
            i <= chars.len(),
            chars@ == svg@,
            split_on(chars@.take(i as int), '\n').len() >= 1,
            cur@ == split_on(chars@.take(i as int), '\n').last(),
            out@ == join_with(
                body_lines(
                    split_on(chars@.take(i as int), '\n').drop_last().map_values(
                        |l: Seq<char>| strip_cr(l),
                    ),
                ),
                '\n',
            ),
            any == (body_lines(
                split_on(chars@.take(i as int), '\n').drop_last().map_values(
                    |l: Seq<char>| strip_cr(l),
                ),
            ).len() > 0),
        decreases chars.len() - i,
    {
        let c = chars[i];
        let ghost ps = split_on(chars@.take(i as int), '\n');
        let ghost done = ps.drop_last().map_values(|l: Seq<char>| strip_cr(l));
        assert(chars@.take(i + 1).drop_last() =~= chars@.take(i as int));
        if c == '\n' {
            let mut line = cur;
            if line.len() > 0 && line[line.len() - 1] == '\r' {
                line.pop();
            }
            assert(line@ == strip_cr(ps.last()));
            add_line(&mut out, &mut any, &line, Ghost(done));
            cur = Vec::new();
            proof {
                let ps2 = ps.push(Seq::<char>::empty());
                assert(ps2.drop_last().map_values(|l: Seq<char>| strip_cr(l)) =~= done.push(
                    strip_cr(ps.last()),
                ));
            }
        } else {
            cur.push(c);
            proof {
                let ps2 = ps.update(ps.len() - 1, ps.last().push(c));
                assert(ps2.drop_last() =~= ps.drop_last());
            }
        }
        proof {
            lemma_split_on_len(chars@.take(i + 1), '\n');
        }
        i = i + 1;
    }
    assert(chars@.take(i as int) =~= svg@);
    let ghost ps = split_on(svg@, '\n');
    let ghost done = ps.drop_last().map_values(|l: Seq<char>| strip_cr(l));
    if cur.len() > 0 {
        add_line(&mut out, &mut any, &cur, Ghost(done));
    }
    out
}

/// Builds the inline markup for `pattern` from the SVG file's content.
pub fn svg_tag(pattern: &str, svg: &str) -> (r: String)
    ensures
        r@ == emoji_tag(pattern@, svg@),
{
    let body = strip_svg_header(svg);
    let body_chars = chars_of(body.as_str());
    let rest = if body_chars.len() >= 4 {
        string_of_range(&body_chars, 4, body_chars.len())
    } else {
        String::new()
    };
    let mut out = String::from_str(
        "<svg class=\"emoji\" draggable=\"false\" style=\"height: 1em; width: 1em; margin: 0 .05em 0 .1em; vertical-align: -0.1em;\" alt=\"",
    );
    out.append(pattern);
    push_char(&mut out, '"');
    out.append(rest.as_str());
    out
}

/// The value of a hexadecimal digit.
pub open spec fn hex_digit(c: char) -> Option<nat> {
    let u = c as u32;
    if 48 <= u && u <= 57 {
        Some((u - 48) as nat)
    } else if 97 <= u && u <= 102 {
        Some((u - 87) as nat)
    } else if 65 <= u && u <= 70 {
        Some((u - 55) as nat)
    } else {
        None
    }
}

/// The value of a non-empty run of hexadecimal digits.
pub open spec fn hex_value(s: Seq<char>) -> Option<nat>
    decreases s.len(),
{
    if s.len() == 0 {
        None
    } else if s.len() == 1 {
        hex_digit(s[0])
    } else {
        match (hex_value(s.drop_last()), hex_digit(s.last())) {
            (Some(v), Some(d)) => Some(v * 16 + d),
            _ => None,
        }
    }
}

/// A number in base 16 as `u32::from_str_radix` reads it: an optional `+`,
/// then at least one digit.
pub open spec fn radix16(s: Seq<char>) -> Option<nat> {
    if s.len() > 0 && s[0] == '+' {
        hex_value(s.drop_first())
    } else {
        hex_value(s)
    }
}

/// A Unicode scalar value: a code point that is not a surrogate.
pub open spec fn is_scalar(v: nat) -> bool {
    v <= 0x10FFFF && !(0xD800 <= v && v <= 0xDFFF)
}

/// The character that a piece of a file name spells in hexadecimal.
pub open spec fn code_point(part: Seq<char>) -> Option<char> {
    match radix16(part) {
        Some(v) => if is_scalar(v) {
            Some(v as char)
        } else {
            None
        },
        None => None,
    }
}

/// The characters spelled by the pieces that spell one; the others are skipped.
pub open spec fn code_points(parts: Seq<Seq<char>>) -> Seq<char>
    decreases parts.len(),
{
    if parts.len() == 0 {
        Seq::empty()
    } else {
        match code_point(parts.last()) {
            Some(c) => code_points(parts.drop_last()).push(c),
            None => code_points(parts.drop_last()),
        }
    }
}

/// The pattern that an asset's file name encodes: the name must end in
/// `.svg`; the hyphen-separated pieces before it are code points in hexadecimal.
pub open spec fn pattern_of_name(name: Seq<char>) -> Option<Seq<char>> {
    let n = name.len();
    if n >= 4 && name.subrange(n - 4, n as int) == seq!['.', 's', 'v', 'g'] {
        Some(code_points(split_on(name.take(n - 4), '-')))
    } else {
        None
    }
}

/// Relies on `char::from_u32`: `Some` exactly for Unicode scalar values.
#[verifier::external_body]
fn char_from_u32(v: u32) -> (r: Option<char>)
    ensures
        r == (if is_scalar(v as nat) {
            Some(v as char)
        } else {
            None::<char>
        }),
{
    char::from_u32(v)
}

fn hex_digit_exec(c: char) -> (r: Option<u32>)
    ensures
        match r {
            Some(d) => hex_digit(c) == Some(d as nat) && d < 16,
            None => hex_digit(c) is None,
        },
{
    let u = c as u32;
    if 48 <= u && u <= 57 {
        Some(u - 48)
    } else if 97 <= u && u <= 102 {
        Some(u - 87)
    } else if 65 <= u && u <= 70 {
        Some(u - 55)
    } else {
        None
    }
}

spec fn beyond_unicode(v: Option<nat>) -> bool {
    match v {
        Some(n) => n > 0x10FFFF,
        None => false,
    }
}

proof fn lemma_hex_value_grows(s: Seq<char>, i: int)
    requires
        1 <= i < s.len(),
        beyond_unicode(hex_value(s.take(i))),
    ensures
        hex_value(s.take(i + 1)) is Some ==> beyond_unicode(hex_value(s.take(i + 1))),
{
    assert(s.take(i + 1).drop_last() =~= s.take(i));
}

/// The character that `part` spells in hexadecimal, if any.
fn code_point_exec(part: &Vec<char>) -> (r: Option<char>)
    ensures
        r == code_point(part@),
{
    let start: usize = if part.len() > 0 && part[0] == '+' {
        1
    } else {
        0
    };
    let ghost digits = part@.subrange(start as int, part.len() as int);
    assert(radix16(part@) == hex_value(digits)) by {
        if start == 1 {
            assert(part@.drop_first() =~= digits);
        } else {
            assert(part@ =~= digits);
        }
    }
    if start == part.len() {
        return None;
    }
    let mut value: u32 = 0;
    let mut too_big = false;
    let mut i: usize = start;
    while i < part.len()
        invariant
            start < part.len(),
            start <= i <= part.len(),
            digits == part@.subrange(start as int, part.len() as int),
            radix16(part@) == hex_value(digits),
            too_big ==> i > start,
            i > start ==> hex_value(digits.take(i - start)) is Some,
            i > start && !too_big ==> hex_value(digits.take(i - start)) == Some(value as nat),
            i > start && too_big ==> beyond_unicode(hex_value(digits.take(i - start))),
            value <= 0x10FFFF,
        decreases part.len() - i,
    {
        let ghost k = (i - start) as int;
        match hex_digit_exec(part[i]) {
            None => {
                proof {
                    assert(digits.take(k + 1).last() == part@[i as int]);
                    if k > 0 {
                        assert(digits.take(k + 1).drop_last() =~= digits.take(k));
                    }
                    assert(digits.take(k + 1).len() == k + 1);
                    lemma_hex_none_extends(digits, k + 1);
                    assert(digits.take(digits.len() as int) =~= digits);
                }
                return None;
            },
            Some(d) => {
                proof {
                    assert(digits.take(k + 1).last() == part@[i as int]);
                    if k > 0 {
                        assert(digits.take(k + 1).drop_last() =~= digits.take(k));
                    }
                }
                if !too_big {
                    if i > start && value > 0x10FFF {
                        too_big = true;
                    } else if i == start {
                        value = d;
                    } else {
                        value = value * 16 + d;
                        if value > 0x10FFFF {
                            too_big = true;
                            value = 0;
                        }
                    }
                } else {
                    proof {
                        lemma_hex_value_grows(digits, k);
                    }
                }
            },
        }
        i = i + 1;
    }
    assert(digits.take(digits.len() as int) =~= digits);
    if too_big {
        None
    } else {
        char_from_u32(value)
    }
}

proof fn lemma_hex_none_extends(s: Seq<char>, i: int)
    requires
        1 <= i <= s.len(),
        hex_value(s.take(i)) is None,
    ensures
        hex_value(s) is None,
    decreases s.len() - i,
{
    if i < s.len() {
        assert(s.take(i + 1).drop_last() =~= s.take(i));
        lemma_hex_none_extends(s, i + 1);
    } else {
        assert(s.take(i) =~= s);
    }
}

/// The pattern encoded by an asset's file name, if it names an SVG file.
pub fn pattern_from_file_name(name: &str) -> (r: Option<String>)
    ensures
        match r {
            Some(p) => pattern_of_name(name@) == Some(p@),
            None => pattern_of_name(name@) is None,
        },
{
    let chars = chars_of(name);
    let n = chars.len();
    let svg = vec!['.', 's', 'v', 'g'];
    assert(svg@ =~= seq!['.', 's', 'v', 'g']);
    if n < 4 || !occurs_at_exec(&chars, &svg, n - 4) {
        return None;
    }
    let stem_len = n - 4;
    let ghost stem = chars@.take(stem_len as int);
    let mut out = String::new();
    let mut cur: Vec<char> = Vec::new();
    let mut i: usize = 0;
    assert(stem.take(0) =~= Seq::<char>::empty());
    while i < stem_len
        invariant
            stem_len + 4 == n == chars.len(),
            stem == chars@.take(stem_len as int),
            i <= stem_len,
            split_on(stem.take(i as int), '-').len() >= 1,
            cur@ == split_on(stem.take(i as int), '-').last(),
            out@ == code_points(split_on(stem.take(i as int), '-').drop_last()),
        decreases stem_len - i,
    {
        let c = chars[i];
        let ghost ps = split_on(stem.take(i as int), '-');
        assert(stem.take(i + 1).drop_last() =~= stem.take(i as int));
        assert(stem.take(i + 1).last() == c);
        if c == '-' {
            match code_point_exec(&cur) {
                Some(cp) => push_char(&mut out, cp),
                None => {},
            }
            cur = Vec::new();
            assert(ps.push(Seq::<char>::empty()).drop_last() =~= ps);
        } else {
            cur.push(c);
            assert(ps.update(ps.len() - 1, ps.last().push(c)).drop_last() =~= ps.drop_last());
        }
        proof {
            lemma_split_on_len(stem.take(i + 1), '-');
        }
        i = i + 1;
    }
    assert(stem.take(stem_len as int) =~= stem);
    match code_point_exec(&cur) {
        Some(cp) => push_char(&mut out, cp),
        None => {},
    }
    Some(out)
}

#[verifier::external_type_specification]
#[verifier::external_body]
pub struct ExAhoCorasick(AhoCorasick);

#[verifier::external_type_specification]
#[verifier::external_body]
pub struct ExBuildError(aho_corasick::BuildError);

/// The patterns an automaton was built from; a pattern's id is its index.
pub uninterp spec fn automaton_patterns(a: AhoCorasick) -> Seq<Seq<char>>;

/// Whether an automaton reports leftmost-longest matches.
pub uninterp spec fn leftmost_longest(a: AhoCorasick) -> bool;

/// A piece of a haystack cut at the matches of an automaton.
pub enum Piece {
    /// Text between two matches, or before the first or after the last.
    Literal(String),
    /// A match of the pattern with this id.
    Shorthand(usize),
}

/// The mathematical value of a [`Piece`].
pub enum PieceView {
    Literal(Seq<char>),
    Shorthand(int),
}

impl View for Piece {
    type V = PieceView;

    open spec fn view(&self) -> PieceView {
        match self {
            Piece::Literal(t) => PieceView::Literal(t@),
            Piece::Shorthand(i) => PieceView::Shorthand(*i as int),
        }
    }
}

/// The views of a sequence of pieces.
pub open spec fn pieces_view(s: Seq<Piece>) -> Seq<PieceView> {
    s.map_values(|p: Piece| p@)
}

/// The text a piece stands for, where a match of pattern `i` stands for `texts[i]`.
pub open spec fn piece_text(p: PieceView, texts: Seq<Seq<char>>) -> Seq<char> {
    match p {
        PieceView::Literal(t) => t,
        PieceView::Shorthand(i) => texts[i],
    }
}

/// The pieces put back together, each match standing for `texts` of its id.
pub open spec fn joined(ps: Seq<PieceView>, texts: Seq<Seq<char>>) -> Seq<char>
    decreases ps.len(),
{
    if ps.len() == 0 {
        Seq::empty()
    } else {
        joined(ps.drop_last(), texts) + piece_text(ps.last(), texts)
    }
}

/// Where piece `k` starts in the haystack.
pub open spec fn piece_start(ps: Seq<PieceView>, pats: Seq<Seq<char>>, k: int) -> int {
    joined(ps.take(k), pats).len() as int
}

/// No pattern occurs starting at any index in `a..b`.
pub open spec fn no_match_in(hay: Seq<char>, pats: Seq<Seq<char>>, a: int, b: int) -> bool {
    forall|j: int, q: int|
        a <= j < b && 0 <= q < pats.len() ==> !#[trigger] occurs_at(hay, pats[q], j)
}

/// Pattern `i` is as long as any pattern that occurs at index `j`.
pub open spec fn longest_at(hay: Seq<char>, pats: Seq<Seq<char>>, j: int, i: int) -> bool {
    forall|q: int|
        0 <= q < pats.len() && #[trigger] occurs_at(hay, pats[q], j) ==> pats[q].len()
            <= pats[i].len()
}

/// The pieces cut `hay` at its leftmost-longest, non-overlapping matches of
/// `pats`: put together they give `hay`; each match is of a pattern that
/// occurs there and is the longest that does; no match starts inside a
/// literal piece.
pub open spec fn leftmost_longest_split(
    hay: Seq<char>,
    pats: Seq<Seq<char>>,
    ps: Seq<PieceView>,
) -> bool {
    &&& joined(ps, pats) == hay
    &&& forall|k: int|
        0 <= k < ps.len() && (#[trigger] ps[k]) is Shorthand ==> {
            let i = ps[k]->Shorthand_0;
            &&& 0 <= i < pats.len()
            &&& longest_at(hay, pats, piece_start(ps, pats, k), i)
        }
    &&& forall|k: int|
        0 <= k < ps.len() && (#[trigger] ps[k]) is Literal ==> no_match_in(
            hay,
            pats,
            piece_start(ps, pats, k),
            piece_start(ps, pats, k) + ps[k]->Literal_0.len(),
        )
}

/// The pieces that a leftmost-longest automaton over `pats` cuts `hay` into.
pub uninterp spec fn match_pieces(pats: Seq<Seq<char>>, hay: Seq<char>) -> Seq<PieceView>;

/// The number of characters in all the patterns together.
pub open spec fn total_len(pats: Seq<Seq<char>>) -> nat
    decreases pats.len(),
{
    if pats.len() == 0 {
        0
    } else {
        total_len(pats.drop_last()) + pats.last().len()
    }
}

/// The pattern text below which an automaton is always built: at most
/// 1 MiB of UTF-8, far under the automaton's internal index limits.
pub open spec fn pattern_budget() -> nat {
    0x40000
}

/// Relies on `AhoCorasickBuilder::build` with `MatchKind::LeftmostLongest`:
/// on success, an automaton over exactly these patterns, reporting
/// leftmost-longest matches. It fails only when an internal index limit
/// (near `i32::MAX` states or pattern ids) is exceeded, which patterns
/// within the budget cannot reach.
#[verifier::external_body]
fn build_automaton(patterns: &Vec<String>) -> (r: Result<AhoCorasick, aho_corasick::BuildError>)
    ensures
        r matches Ok(a) ==> automaton_patterns(a) == patterns@.map_values(|p: String| p@)
            && leftmost_longest(a),
        total_len(patterns@.map_values(|p: String| p@)) <= pattern_budget() ==> r is Ok,
{
    AhoCorasick::builder().match_kind(MatchKind::LeftmostLongest).build(patterns)
}

/// Relies on `AhoCorasick::find_iter`: the non-overlapping matches in order,
/// with the text before, between and after them.
#[verifier::external_body]
fn split_at_matches(a: &AhoCorasick, haystack: &str) -> (r: Vec<Piece>)
    requires
        leftmost_longest(*a),
        forall|i: int| 0 <= i < automaton_patterns(*a).len() ==> automaton_patterns(*a)[i].len() > 0,
    ensures
        pieces_view(r@) == match_pieces(automaton_patterns(*a), haystack@),
        leftmost_longest_split(haystack@, automaton_patterns(*a), pieces_view(r@)),
{
    let mut pieces = Vec::new();
    let mut last: usize = 0;
    for m in a.find_iter(haystack) {
        pieces.push(Piece::Literal(haystack[last..m.start()].to_string()));
        pieces.push(Piece::Shorthand(m.pattern().as_usize()));
        last = m.end();
    }
    pieces.push(Piece::Literal(haystack[last..].to_string()));
    pieces
}

/// Puts pieces back together, each match replaced by `texts` of its id.
pub fn join_pieces(pieces: &Vec<Piece>, texts: &Vec<String>) -> (r: String)
    requires
        forall|k: int|
            0 <= k < pieces@.len() && (#[trigger] pieces@[k]) is Shorthand ==> pieces@[k]->Shorthand_0
                < texts@.len(),
    ensures
        r@ == joined(pieces_view(pieces@), texts@.map_values(|t: String| t@)),
{
    let ghost tv = texts@.map_values(|t: String| t@);
    let mut out = String::new();
    let mut k: usize = 0;
    while k < pieces.len()
        invariant
            k <= pieces.len(),
            tv == texts@.map_values(|t: String| t@),
            forall|m: int|
                0 <= m < pieces@.len() && (#[trigger] pieces@[m]) is Shorthand ==> pieces@[m]->Shorthand_0
                    < texts@.len(),
            out@ == joined(pieces_view(pieces@).take(k as int), tv),
        decreases pieces.len() - k,
    {
        let ghost pv = pieces_view(pieces@);
        assert(pv.take(k + 1).drop_last() =~= pv.take(k as int));
        match &pieces[k] {
            Piece::Literal(t) => {
                out.append(t.as_str());
            },
            Piece::Shorthand(i) => {
                out.append(texts[*i].as_str());
            },
        }
        k = k + 1;
    }
    assert(pieces_view(pieces@).take(k as int) =~= pieces_view(pieces@));
    out
}

/// `hay` with each leftmost-longest match of a pattern of `parser` replaced
/// by that pattern's markup.
pub open spec fn inlined(parser: EmojiParser, hay: Seq<char>) -> Seq<char> {
    joined(match_pieces(parser.pattern_seqs(), hay), parser.tag_seqs())
}

/// An SVG asset: its file name, which encodes the pattern it draws, and its content.
pub struct SvgAsset {
    pub file_name: String,
    pub svg: String,
}

/// The `(pattern, markup)` of each usable asset, in order: one whose file name
/// encodes a non-empty pattern.
pub open spec fn asset_entries(assets: Seq<SvgAsset>) -> Seq<(Seq<char>, Seq<char>)>
    decreases assets.len(),
{
    if assets.len() == 0 {
        Seq::empty()
    } else {
        let rest = asset_entries(assets.drop_last());
        match pattern_of_name(assets.last().file_name@) {
            Some(p) => if p.len() > 0 {
                rest.push((p, emoji_tag(p, assets.last().svg@)))
            } else {
                rest
            },
            None => rest,
        }
    }
}

/// Replaces emoji code-point sequences in text by inline SVG markup.
pub struct EmojiParser {
    aho_corasick: AhoCorasick,
    patterns: Vec<String>,
    tags: Vec<String>,
}

impl EmojiParser {
    /// The patterns, in the order of their ids.
    pub closed spec fn pattern_seqs(&self) -> Seq<Seq<char>> {
        self.patterns@.map_values(|p: String| p@)
    }

    /// The markup that replaces each pattern.
    pub closed spec fn tag_seqs(&self) -> Seq<Seq<char>> {
        self.tags@.map_values(|t: String| t@)
    }

    /// The automaton matches exactly the patterns, leftmost-longest; none is
    /// empty, and each has its markup.
    pub closed spec fn wf(&self) -> bool {
        &&& automaton_patterns(self.aho_corasick) == self.pattern_seqs()
        &&& leftmost_longest(self.aho_corasick)
        &&& self.tags@.len() == self.patterns@.len()
        &&& forall|i: int| 0 <= i < self.patterns@.len() ==> self.patterns@[i]@.len() > 0
    }

    /// Compiles the assets into one leftmost-longest automaton. Assets whose
    /// file name encodes no pattern are skipped. Succeeds whenever the
    /// patterns together stay within the budget; fails only where the
    /// automaton cannot be built.
    pub fn new(assets: Vec<SvgAsset>) -> (r: Result<EmojiParser, StartError>)
        ensures
            match r {
                Ok(p) => p.wf() && p.pattern_seqs() == asset_entries(assets@).map_values(
                    |e: (Seq<char>, Seq<char>)| e.0,
                ) && p.tag_seqs() == asset_entries(assets@).map_values(
                    |e: (Seq<char>, Seq<char>)| e.1,
                ),
                Err(e) => e is PatternError,
            },
            total_len(asset_entries(assets@).map_values(|e: (Seq<char>, Seq<char>)| e.0))
                <= pattern_budget() ==> r is Ok,
    {
        let mut patterns: Vec<String> = Vec::new();
        let mut tags: Vec<String> = Vec::new();
        let mut k: usize = 0;
        while k < assets.len()
            invariant
                k <= assets.len(),
                patterns@.map_values(|p: String| p@) == asset_entries(assets@.take(k as int)).map_values(
                    |e: (Seq<char>, Seq<char>)| e.0,
                ),
                tags@.map_values(|t: String| t@) == asset_entries(assets@.take(k as int)).map_values(
                    |e: (Seq<char>, Seq<char>)| e.1,
                ),
                tags@.len() == patterns@.len(),
                forall|i: int| 0 <= i < patterns@.len() ==> patterns@[i]@.len() > 0,
            decreases assets.len() - k,
        {
            let asset = &assets[k];
            let ghost prev = asset_entries(assets@.take(k as int));
            assert(assets@.take(k + 1).drop_last() =~= assets@.take(k as int));
            assert(assets@.take(k + 1).last() == assets@[k as int]);
            let ghost p0 = patterns@;
            let ghost t0 = tags@;
            match pattern_from_file_name(asset.file_name.as_str()) {
                Some(p) => {
                    if p.unicode_len() > 0 {
                        let tag = svg_tag(p.as_str(), asset.svg.as_str());
                        let ghost e = (p@, tag@);
                        patterns.push(p);
                        tags.push(tag);
                        assert(patterns@.map_values(|p: String| p@) =~= p0.map_values(|p: String| p@).push(e.0));
                        assert(tags@.map_values(|t: String| t@) =~= t0.map_values(|t: String| t@).push(e.1));
                        assert(prev.push(e).map_values(|e: (Seq<char>, Seq<char>)| e.0) =~= prev.map_values(|e: (Seq<char>, Seq<char>)| e.0).push(e.0));
                        assert(prev.push(e).map_values(|e: (Seq<char>, Seq<char>)| e.1) =~= prev.map_values(|e: (Seq<char>, Seq<char>)| e.1).push(e.1));
                    }
                },
                None => {},
            }
            k = k + 1;
        }
        assert(assets@.take(assets.len() as int) =~= assets@);
        match build_automaton(&patterns) {
            Ok(aho_corasick) => Ok(EmojiParser { aho_corasick, patterns, tags }),
            Err(_) => Err(StartError::PatternError),
        }
    }

    /// Replaces each leftmost-longest match of a pattern in `haystack` by the
    /// pattern's markup; the text between matches is kept.
    pub fn inline_from_directory(&self, haystack: &str) -> (r: String)
        requires
            self.wf(),
        ensures
            r@ == inlined(*self, haystack@),
            leftmost_longest_split(
                haystack@,
                self.pattern_seqs(),
                match_pieces(self.pattern_seqs(), haystack@),
            ),
    {
        let pieces = split_at_matches(&self.aho_corasick, haystack);
        let ghost ps = pieces_view(pieces@);
        assert forall|k: int|
            0 <= k < pieces@.len() && (#[trigger] pieces@[k]) is Shorthand implies pieces@[k]->Shorthand_0
                < self.tags@.len() by {
            assert(ps[k] == pieces@[k]@);
        }
        join_pieces(&pieces, &self.tags)
    }
}

} // verus!
