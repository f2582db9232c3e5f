//! Markdown documents: rendering to HTML, plain text for search, and the
//! title and url derived from a document's path.

use vstd::prelude::*;
use vstd::string::{StrSliceExecFns, StringExecFns};
use pulldown_cmark::{Event, Options, Parser, Tag, TagEnd};
use crate::events::{events_view, generate_heading_slugs, slugged, EventView, MdEvent};
use crate::text::{
    chars_of, find_from, first_from, lemma_first_from, lower_of, lowercase, occurs_at_exec,
    push_char, starts_with, string_of_range,
};

verus! {

/// The events that the markdown parser yields for a document, with tables,
/// strikethrough and heading attributes enabled.
pub uninterp spec fn parsed_events(text: Seq<char>) -> Seq<EventView>;

/// The HTML that the renderer writes for a stream of events.
pub uninterp spec fn html_of(events: Seq<EventView>) -> Seq<char>;

/// The plain text that `md_to_text` extracts from a markdown document.
pub uninterp spec fn plain_text_of(markdown: Seq<char>) -> Seq<char>;

/// What `char::to_uppercase` yields for a character.
pub uninterp spec fn upper_of(c: char) -> Seq<char>;

/// Relies on `pulldown_cmark::Parser::new_ext`: the events of `text`, each
/// moved into the matching variant of [`MdEvent`].
#[verifier::external_body]
fn parse_markdown(text: &str) -> (r: Vec<MdEvent>)
    ensures
        events_view(r@) == parsed_events(text@),
{
    let options = Options::ENABLE_TABLES | Options::ENABLE_STRIKETHROUGH
        | Options::ENABLE_HEADING_ATTRIBUTES;
    Parser::new_ext(text, options).map(|e| match e.into_static() {
        Event::Start(tag @ Tag::Heading { .. }) => MdEvent::HeadingStart { tag, id: None },
        end @ Event::End(TagEnd::Heading(_)) => MdEvent::HeadingEnd(end),
        Event::Text(t) => MdEvent::Text(t.to_string()),
        other => MdEvent::Other(other),
    }).collect()
}

/// Relies on `pulldown_cmark::html::push_html`: the HTML of the events, each
/// moved back into a parser event; a heading start with an id is given it.
#[verifier::external_body]
fn push_html(events: Vec<MdEvent>) -> (r: String)
    ensures
        r@ == html_of(events_view(events@)),
{
    let mut html = String::new();
    pulldown_cmark::html::push_html(&mut html, events.into_iter().map(|e| match e {
        MdEvent::HeadingStart { tag: Tag::Heading { level, classes, attrs, .. }, id: Some(id) } =>
            Event::Start(Tag::Heading { level, id: Some(id.into()), classes, attrs }),
        MdEvent::HeadingStart { tag, .. } => Event::Start(tag),
        MdEvent::Text(t) => Event::Text(t.into()),
        MdEvent::HeadingEnd(e) | MdEvent::Other(e) => e,
    }));
    html
}

/// Relies on `md_to_text::convert`: the plain text of a markdown document.
#[verifier::external_body]
fn markdown_to_text(markdown: &str) -> (r: String)
    ensures
        r@ == plain_text_of(markdown@),
{
    md_to_text::convert(markdown)
}

/// Relies on `char::to_uppercase`: the upper-case form of one character.
#[verifier::external_body]
fn uppercase_char(c: char) -> (r: String)
    ensures
        r@ == upper_of(c),
{
    c.to_uppercase().collect()
}

/// The HTML of a markdown document, with every heading anchored by its slug.
pub open spec fn rendered_markdown(text: Seq<char>) -> Seq<char> {
    html_of(slugged(parsed_events(text)))
}

/// Renders a markdown document to HTML; each heading gets the slug of its
/// text as id.
pub fn render_markdown(text: &str) -> (r: String)
    ensures
        r@ == rendered_markdown(text@),
{
    let events = parse_markdown(text);
    let anchored = generate_heading_slugs(events);
    push_html(anchored)
}

/// The plain text of a markdown document, used for search.
pub fn plain_text(markdown: &str) -> (r: String)
    ensures
        r@ == plain_text_of(markdown@),
{
    markdown_to_text(markdown)
}

/// The number of characters of plain text that an excerpt keeps.
pub const SHORT_LEN: usize = 50;

/// The excerpt of a plain text: its first characters, then an ellipsis.
pub open spec fn short_of(raw: Seq<char>) -> Seq<char> {
    let n: int = if raw.len() < SHORT_LEN { raw.len() as int } else { SHORT_LEN as int };
    raw.take(n) + seq!['.', '.', '.']
}

/// The first characters of `raw`, followed by `...`.
pub fn short_excerpt(raw: &str) -> (r: String)
    ensures
        r@ == short_of(raw@),
{
    let chars = chars_of(raw);
    let n = if chars.len() < SHORT_LEN {
        chars.len()
    } else {
        SHORT_LEN
    };
    let mut out = string_of_range(&chars, 0, n);
    push_char(&mut out, '.');
    push_char(&mut out, '.');
    push_char(&mut out, '.');
    assert(out@ =~= short_of(raw@));
    out
}

/// A word of a file name ends at `-` or `_`.
pub open spec fn is_word_separator(c: char) -> bool {
    c == '-' || c == '_'
}

/// The words of `s` between separators; empty words are kept in place.
pub open spec fn words(s: Seq<char>) -> Seq<Seq<char>>
    decreases s.len(),
{
    if s.len() == 0 {
        seq![Seq::empty()]
    } else {
        let w = words(s.drop_last());
        if is_word_separator(s.last()) {
            w.push(Seq::empty())
        } else {
            w.update(w.len() - 1, w.last().push(s.last()))
        }
    }
}

/// A word with its first character upper-cased and the rest lower-cased.
pub open spec fn capitalized(w: Seq<char>) -> Seq<char> {
    if w.len() == 0 {
        w
    } else {
        upper_of(w[0]) + lower_of(w.drop_first())
    }
}

/// The words joined by single spaces.
pub open spec fn join_words(ws: Seq<Seq<char>>) -> Seq<char>
    decreases ws.len(),
{
    if ws.len() == 0 {
        Seq::empty()
    } else if ws.len() == 1 {
        ws[0]
    } else {
        join_words(ws.drop_last()) + seq![' '] + ws.last()
    }
}

/// The title of a document whose file stem is `stem`.
pub open spec fn title_of(stem: Seq<char>) -> Seq<char> {
    join_words(words(stem).map_values(|w: Seq<char>| capitalized(w)))
}

/// What a title holds before its last word: the earlier words, each
/// capitalized, and a space after them.
spec fn title_prefix(ws: Seq<Seq<char>>) -> Seq<char> {
    if ws.len() <= 1 {
        Seq::empty()
    } else {
        join_words(ws.drop_last().map_values(|w: Seq<char>| capitalized(w))) + seq![' ']
    }
}

proof fn lemma_title_split(ws: Seq<Seq<char>>)
    requires
        ws.len() >= 1,
    ensures
        join_words(ws.map_values(|w: Seq<char>| capitalized(w))) == title_prefix(ws)
            + capitalized(ws.last()),
{
    let cs = ws.map_values(|w: Seq<char>| capitalized(w));
    if ws.len() == 1 {
        assert(title_prefix(ws) + capitalized(ws.last()) =~= capitalized(ws.last()));
    } else {
        assert(cs.drop_last() =~= ws.drop_last().map_values(|w: Seq<char>| capitalized(w)));
    }
}

fn capitalize(word: &str) -> (r: String)
    ensures
        r@ == capitalized(word@),
{
    let n = word.unicode_len();
    if n == 0 {
        return String::new();
    }
    let first = word.get_char(0);
    let rest = word.substring_char(1, n);
    let mut out = uppercase_char(first);
    let lowered = lowercase(rest);
    out.append(lowered.as_str());
    assert(rest@ =~= word@.drop_first());
    out
}

/// Derives a title from a file stem: the words between `-` and `_`, each
/// capitalized, joined by spaces.
pub fn title_from_stem(stem: &str) -> (r: String)
    ensures
        r@ == title_of(stem@),
{
    let chars = chars_of(stem);
    let mut done = String::new();
    let mut word = String::new();
    let mut i: usize = 0;
    proof {
        assert(chars@.take(0) =~= Seq::<char>::empty());
    }
    while i < chars.len()
        invariant
            i <= chars.len(),
            chars@ == stem@,
            words(chars@.take(i as int)).len() >= 1,
            done@ == title_prefix(words(chars@.take(i as int))),
            word@ == words(chars@.take(i as int)).last(),
        decreases chars.len() - i,
    {
        let c = chars[i];
        let ghost ws = words(chars@.take(i as int));
        assert(chars@.take(i + 1).drop_last() =~= chars@.take(i as int));
        if c == '-' || c == '_' {
            proof {
                lemma_title_split(ws);
                let ws2 = ws.push(Seq::<char>::empty());
                assert(ws2.drop_last() =~= ws);
            }
            let cap = capitalize(word.as_str());
            done.append(cap.as_str());
            push_char(&mut done, ' ');
            word = String::new();
            assert(done@ =~= title_prefix(ws) + capitalized(ws.last()) + seq![' ']);
        } else {
            push_char(&mut word, c);
            proof {
                let ws2 = ws.update(ws.len() - 1, ws.last().push(c));
                assert(ws2.drop_last() =~= ws.drop_last());
            }
        }
        i = i + 1;
    }
    proof {
        assert(chars@.take(i as int) =~= stem@);
        lemma_title_split(words(stem@));
    }
    let cap = capitalize(word.as_str());
    done.append(cap.as_str());
    done
}

/// The last component of a path: what follows its last `/`.
pub open spec fn file_name(path: Seq<char>) -> Seq<char>
    decreases path.len(),
{
    if path.len() == 0 || path.last() == '/' {
        Seq::empty()
    } else {
        file_name(path.drop_last()).push(path.last())
    }
}

/// Whether `s` ends with `suffix`.
pub open spec fn ends_with(s: Seq<char>, suffix: Seq<char>) -> bool {
    suffix.len() <= s.len() && s.subrange(s.len() - suffix.len(), s.len() as int) == suffix
}

/// The extension of markdown documents, with its dot.
pub open spec fn md_suffix() -> Seq<char> {
    seq!['.', 'm', 'd']
}

/// A path names a markdown document when its file name is a non-empty stem
/// followed by `.md`.
pub open spec fn is_document(path: Seq<char>) -> bool {
    ends_with(file_name(path), md_suffix()) && file_name(path).len() > 3
}

/// The file name without a final `.md`.
pub open spec fn stem_of(path: Seq<char>) -> Seq<char> {
    let f = file_name(path);
    if ends_with(f, md_suffix()) {
        f.take(f.len() - 3)
    } else {
        f
    }
}

/// The url of a document: its path without `.md`; a document named `index`
/// inside a directory takes the directory's url.
pub open spec fn url_of(path: Seq<char>) -> Seq<char> {
    let base = path.take(path.len() - 3);
    if ends_with(base, seq!['/', 'i', 'n', 'd', 'e', 'x']) {
        base.take(base.len() - 6)
    } else {
        base
    }
}

/// A document `d.md` and a document `d/index.md` share the url `d`, unless
/// `d` itself names an index directory's document.
pub proof fn lemma_index_shares_url(d: Seq<char>)
    requires
        !ends_with(d, seq!['/', 'i', 'n', 'd', 'e', 'x']),
    ensures
        url_of(d + md_suffix()) == d,
        url_of(d + seq!['/', 'i', 'n', 'd', 'e', 'x'] + md_suffix()) == d,
{
    let index = seq!['/', 'i', 'n', 'd', 'e', 'x'];
    let a = d + md_suffix();
    assert(a.take(a.len() - 3) =~= d);
    let b = d + index + md_suffix();
    let base = b.take(b.len() - 3);
    assert(base =~= d + index);
    assert(base.subrange(base.len() - 6, base.len() as int) =~= index);
    assert(base.take(base.len() - 6) =~= d);
}

/// The index in `path` where its file name starts.
fn file_name_start(path: &Vec<char>) -> (r: usize)
    ensures
        r <= path.len(),
        path@.subrange(r as int, path.len() as int) == file_name(path@),
{
    let mut j: usize = path.len();
    assert(path@.subrange(j as int, j as int) =~= Seq::<char>::empty());
    assert(path@.take(j as int) =~= path@);
    while j > 0 && path[j - 1] != '/'
        invariant
            j <= path.len(),
            file_name(path@) == file_name(path@.take(j as int)) + path@.subrange(
                j as int,
                path.len() as int,
            ),
        decreases j,
    {
        let ghost t = path@.take(j as int);
        assert(t.drop_last() =~= path@.take(j - 1));
        assert(path@.subrange(j - 1, path.len() as int) =~= seq![path@[j - 1]] + path@.subrange(
            j as int,
            path.len() as int,
        ));
        j = j - 1;
    }
    assert(file_name(path@.take(j as int)) =~= Seq::<char>::empty());
    assert(file_name(path@) =~= path@.subrange(j as int, path.len() as int));
    j
}

fn ends_with_exec(s: &Vec<char>, len: usize, suffix: &Vec<char>) -> (r: bool)
    requires
        len <= s.len(),
    ensures
        r == ends_with(s@.take(len as int), suffix@),
{
    if suffix.len() > len {
        return false;
    }
    let start = len - suffix.len();
    let mut k: usize = 0;
    while k < suffix.len()
        invariant
            start + suffix.len() == len <= s.len(),
            k <= suffix.len(),
            forall|m: int| 0 <= m < k ==> s@[start + m] == suffix@[m],
        decreases suffix.len() - k,
    {
        if s[start + k] != suffix[k] {
            assert(s@.take(len as int).subrange(start as int, len as int)[k as int] != suffix@[k as int]);
            return false;
        }
        k = k + 1;
    }
    assert(s@.take(len as int).subrange(start as int, len as int) =~= suffix@);
    true
}

/// The characters of `.md`.
fn md_suffix_exec() -> (r: Vec<char>)
    ensures
        r@ == md_suffix(),
{
    let r = vec!['.', 'm', 'd'];
    assert(r@ =~= md_suffix());
    r
}

/// Whether `path` names a markdown document.
pub fn is_markdown_path(path: &str) -> (r: bool)
    ensures
        r == is_document(path@),
{
    let chars = chars_of(path);
    let start = file_name_start(&chars);
    let suffix = md_suffix_exec();
    let ends = ends_with_exec(&chars, chars.len(), &suffix);
    proof {
        let f = file_name(path@);
        assert(chars@.take(chars.len() as int) =~= chars@);
        if suffix@.len() <= f.len() {
            assert(f.subrange(f.len() - 3, f.len() as int) =~= chars@.subrange(
                chars.len() - 3,
                chars.len() as int,
            ));
        }
    }
    ends && chars.len() - start > 3
}

/// Derives the title of the document at `path` from its file stem.
pub fn generate_markdown_title(path: &str) -> (r: String)
    ensures
        r@ == title_of(stem_of(path@)),
{
    let chars = chars_of(path);
    let start = file_name_start(&chars);
    let suffix = md_suffix_exec();
    let ends = ends_with_exec(&chars, chars.len(), &suffix);
    let ghost f = file_name(path@);
    proof {
        assert(chars@.take(chars.len() as int) =~= chars@);
        if suffix@.len() <= f.len() {
            assert(f.subrange(f.len() - 3, f.len() as int) =~= chars@.subrange(
                chars.len() - 3,
                chars.len() as int,
            ));
        }
    }
    let end = if ends && chars.len() - start >= 3 {
        chars.len() - 3
    } else {
        chars.len()
    };
    let stem = string_of_range(&chars, start, end);
    assert(stem@ =~= stem_of(path@));
    title_from_stem(stem.as_str())
}

/// Derives the url of the document at `path`.
pub fn document_url(path: &str) -> (r: String)
    requires
        is_document(path@),
    ensures
        r@ == url_of(path@),
{
    let chars = chars_of(path);
    let start = file_name_start(&chars);
    proof {
        let f = file_name(path@);
        assert(chars@.take(chars.len() as int) =~= chars@);
    }
    let base_len = chars.len() - 3;
    let index = vec!['/', 'i', 'n', 'd', 'e', 'x'];
    let is_index = ends_with_exec(&chars, base_len, &index);
    assert(index@ =~= seq!['/', 'i', 'n', 'd', 'e', 'x']);
    let end = if is_index {
        base_len - 6
    } else {
        base_len
    };
    let url = string_of_range(&chars, 0, end);
    assert(url@ =~= url_of(path@));
    url
}

/// The line that opens a document's head block.
pub open spec fn head_open() -> Seq<char> {
    seq!['<', 'h', 'e', 'a', 'd', '>', '\n']
}

/// The lines that close a document's head block.
pub open spec fn head_close() -> Seq<char> {
    seq!['\n', '<', '/', 'h', 'e', 'a', 'd', '>', '\n']
}

/// A document that opens with `<head>` on a line of its own, and closes it
/// with `</head>` on a later one, split into what the block holds and what
/// follows it.
pub open spec fn head_split(markdown: Seq<char>) -> Option<(Seq<char>, Seq<char>)> {
    if !starts_with(markdown, head_open()) {
        None
    } else {
        match first_from(markdown, head_close(), 7) {
            Some(k) => Some((markdown.subrange(7, k), markdown.subrange(k + 9, markdown.len() as int))),
            None => None,
        }
    }
}

/// Splits a document that starts with a head block into the block's content
/// and the rest of the document.
pub fn parse_head(markdown: &str) -> (r: Option<(&str, &str)>)
    ensures
        match r {
            Some((head, rest)) => head_split(markdown@) == Some((head@, rest@)),
            None => head_split(markdown@) is None,
        },
{
    let chars = chars_of(markdown);
    let open = vec!['<', 'h', 'e', 'a', 'd', '>', '\n'];
    let close = vec!['\n', '<', '/', 'h', 'e', 'a', 'd', '>', '\n'];
    assert(open@ =~= head_open());
    assert(close@ =~= head_close());
    if chars.len() < 7 || !occurs_at_exec(&chars, &open, 0) {
        proof {
            if starts_with(markdown@, head_open()) {
                assert(markdown@.subrange(0, 7) =~= markdown@.take(7));
            }
        }
        return None;
    }
    assert(markdown@.subrange(0, 7) =~= markdown@.take(7));
    proof {
        lemma_first_from(markdown@, head_close(), 7);
    }
    match find_from(&chars, &close, 7) {
        Some(k) => {
            let head = markdown.substring_char(7, k);
            let rest = markdown.substring_char(k + 9, chars.len());
            Some((head, rest))
        },
        None => None,
    }
}

} // verus!
