//! Substring search over the page cache, with highlighted snippets.

use vstd::prelude::*;
use vstd::string::StringExecFns;
use crate::state::{MarkdownPage, PageView, ServerState};
use crate::text::{chars_of, contains, occurs_at, find_from, first_from, lemma_first_from, push_char, string_of_range};

verus! {

/// The HTML escape of one character.
pub open spec fn escape_char(c: char) -> Seq<char> {
    if c == '&' {
        "&amp;"@
    } else if c == '<' {
        "&lt;"@
    } else if c == '>' {
        "&gt;"@
    } else if c == '"' {
        "&quot;"@
    } else if c == '\'' {
        "&apos;"@
    } else {
        seq![c]
    }
}

/// `s` with each character HTML-escaped.
pub open spec fn escaped(s: Seq<char>) -> Seq<char>
    decreases s.len(),
{
    if s.len() == 0 {
        s
    } else {
        escaped(s.drop_last()) + escape_char(s.last())
    }
}

/// Escaped text holds no `<` or `>`, so the only markup in a snippet is the
/// one `<b>` and one `</b>` around the match.
pub proof fn lemma_escaped_has_no_markup(s: Seq<char>)
    ensures
        forall|i: int| 0 <= i < escaped(s).len() ==> #[trigger] escaped(s)[i] != '<' && escaped(s)[i] != '>',
    decreases s.len(),
{
    if s.len() > 0 {
        lemma_escaped_has_no_markup(s.drop_last());
        reveal_strlit("&amp;");
        reveal_strlit("&lt;");
        reveal_strlit("&gt;");
        reveal_strlit("&quot;");
        reveal_strlit("&apos;");
        let e = escape_char(s.last());
        let p = escaped(s.drop_last());
        assert forall|i: int| 0 <= i < e.len() implies e[i] != '<' && e[i] != '>' by {}
        assert forall|i: int| 0 <= i < escaped(s).len() implies #[trigger] escaped(s)[i] != '<'
            && escaped(s)[i] != '>' by {
            if i < p.len() {
                assert(escaped(s)[i] == p[i]);
            } else {
                assert(escaped(s)[i] == e[i - p.len()]);
            }
        }
    }
}

/// Escapes `&`, `<`, `>`, `"` and `'` for HTML.
pub fn escape_html(s: &str) -> (r: String)
    ensures
        r@ == escaped(s@),
{
    let chars = chars_of(s);
    let mut out = String::new();
    let mut i: usize = 0;
    while i < chars.len()
        invariant
            i <= chars.len(),
            chars@ == s@,
            out@ == escaped(s@.take(i as int)),
        decreases chars.len() - i,
    {
        let c = chars[i];
        assert(s@.take(i + 1).drop_last() =~= s@.take(i as int));
        if c == '&' {
            out.append("&amp;");
        } else if c == '<' {
            out.append("&lt;");
        } else if c == '>' {
            out.append("&gt;");
        } else if c == '"' {
            out.append("&quot;");
        } else if c == '\'' {
            out.append("&apos;");
        } else {
            push_char(&mut out, c);
        }
        i = i + 1;
    }
    assert(s@.take(i as int) =~= s@);
    out
}

/// The characters of context kept before a match.
pub const BEFORE: usize = 20;

/// The characters of context kept after a match.
pub const AFTER: usize = 30;

/// The snippet around the first occurrence of `query` in `content`: up to
/// 20 characters before it and 30 after, each part escaped, the match in bold.
pub open spec fn match_context(content: Seq<char>, query: Seq<char>) -> Seq<char> {
    let s = first_from(content, query, 0)->0;
    let e = s + query.len();
    let b = if s >= BEFORE { s - BEFORE } else { 0 };
    let a = if e + AFTER <= content.len() { e + AFTER } else { content.len() as int };
    escaped(content.subrange(b, s)) + "<b>"@ + escaped(content.subrange(s, e)) + "</b>"@ + escaped(
        content.subrange(e, a),
    )
}

/// The highlighted snippet around the first occurrence of `query` in `content`.
pub fn get_match_context(content: &str, query: &str) -> (r: String)
    requires
        contains(content@, query@),
    ensures
        r@ == match_context(content@, query@),
{
    let chars = chars_of(content);
    let q = chars_of(query);
    proof {
        lemma_first_from(content@, query@, 0);
    }
    let s = match find_from(&chars, &q, 0) {
        Some(s) => s,
        None => {
            return String::new();
        },
    };
    assert(occurs_at(content@, query@, s as int));
    assert(q@.len() == query@.len() && chars@.len() == content@.len());
    assert(s + q.len() <= chars.len());
    let e = s + q.len();
    let b = if s >= BEFORE {
        s - BEFORE
    } else {
        0
    };
    let a = if chars.len() - e >= AFTER {
        e + AFTER
    } else {
        chars.len()
    };
    let before = string_of_range(&chars, b, s);
    let matched = string_of_range(&chars, s, e);
    let after = string_of_range(&chars, e, a);
    let mut out = escape_html(before.as_str());
    out.append("<b>");
    let m = escape_html(matched.as_str());
    out.append(m.as_str());
    out.append("</b>");
    let t = escape_html(after.as_str());
    out.append(t.as_str());
    out
}

/// A search hit: the page's title and url, and the snippet where the query matched.
pub struct QueryMatch {
    pub title: String,
    pub path: String,
    pub matched: String,
}

/// The mathematical value of a [`QueryMatch`].
pub struct QueryMatchView {
    pub title: Seq<char>,
    pub path: Seq<char>,
    pub matched: Seq<char>,
}

impl View for QueryMatch {
    type V = QueryMatchView;

    open spec fn view(&self) -> QueryMatchView {
        QueryMatchView { title: self.title@, path: self.path@, matched: self.matched@ }
    }
}

/// Whether `query` occurs in the page's title, url or plain text.
pub open spec fn page_matches(page: PageView, query: Seq<char>) -> bool {
    contains(page.title, query) || contains(page.url, query) || contains(page.raw_text, query)
}

/// The hit for a page that matches: the snippet comes from the title if the
/// query occurs there, else from the url, else from the plain text.
pub open spec fn hit_of(page: PageView, query: Seq<char>) -> QueryMatchView {
    QueryMatchView {
        title: page.title,
        path: page.url,
        matched: if contains(page.title, query) {
            match_context(page.title, query)
        } else if contains(page.url, query) {
            match_context(page.url, query)
        } else {
            match_context(page.raw_text, query)
        },
    }
}

/// The hits for `query`, in the order of the pages.
pub open spec fn search_hits(pages: Seq<PageView>, query: Seq<char>) -> Seq<QueryMatchView>
    decreases pages.len(),
{
    if pages.len() == 0 {
        Seq::empty()
    } else if page_matches(pages.last(), query) {
        search_hits(pages.drop_last(), query).push(hit_of(pages.last(), query))
    } else {
        search_hits(pages.drop_last(), query)
    }
}

fn contains_exec(s: &str, q: &Vec<char>) -> (r: bool)
    ensures
        r == contains(s@, q@),
{
    let chars = chars_of(s);
    find_from(&chars, q, 0).is_some()
}

fn hit(page: &MarkdownPage, query: &str) -> (r: Option<QueryMatch>)
    ensures
        match r {
            Some(m) => page_matches(page@, query@) && m@ == hit_of(page@, query@),
            None => !page_matches(page@, query@),
        },
{
    let q = chars_of(query);
    let matched = if contains_exec(page.title.as_str(), &q) {
        get_match_context(page.title.as_str(), query)
    } else if contains_exec(page.url.as_str(), &q) {
        get_match_context(page.url.as_str(), query)
    } else if contains_exec(page.raw_text.as_str(), &q) {
        get_match_context(page.raw_text.as_str(), query)
    } else {
        return None;
    };
    Some(QueryMatch { title: page.title.clone(), path: page.url.clone(), matched })
}

/// Finds the pages whose title, url or plain text contains `query`, exactly
/// as written, in cache order. A query found nowhere gives no hits.
pub fn search(cache: &ServerState, query: &str) -> (r: Vec<QueryMatch>)
    ensures
        r@.map_values(|m: QueryMatch| m@) == search_hits(cache@, query@),
        (forall|i: int| 0 <= i < cache@.len() ==> !page_matches(#[trigger] cache@[i], query@))
            ==> r@.len() == 0,
{
    let pages = cache.pages();
    let ghost pv = pages@.map_values(|p: MarkdownPage| p@);
    let mut out: Vec<QueryMatch> = Vec::new();
    let mut k: usize = 0;
    while k < pages.len()
        invariant
            k <= pages@.len(),
            pv == pages@.map_values(|p: MarkdownPage| p@),
            out@.map_values(|m: QueryMatch| m@) == search_hits(pv.take(k as int), query@),
        decreases pages.len() - k,
    {
        assert(pv.take(k + 1).drop_last() =~= pv.take(k as int));
        assert(pv.take(k + 1).last() == pages@[k as int]@);
        let ghost o = out@;
        match hit(&pages[k], query) {
            Some(m) => {
                out.push(m);
                assert(out@.map_values(|m: QueryMatch| m@) =~= o.map_values(|m: QueryMatch| m@).push(
                    m@,
                ));
            },
            None => {},
        }
        k = k + 1;
    }
    assert(pv.take(k as int) =~= pv);
    proof {
        lemma_no_hits(pv, query@);
    }
    out
}

/// A query as the search endpoint receives it.
pub struct SearchQuery {
    pub q: String,
}

/// A page listed in answer to a query: its title, url and excerpt.
pub struct SearchResult {
    pub title: String,
    pub url: String,
    pub short: String,
}

/// The `(title, url, excerpt)` of each page whose title or plain text
/// contains `query`, in cache order.
pub open spec fn summary_hits(pages: Seq<PageView>, query: Seq<char>) -> Seq<
    (Seq<char>, Seq<char>, Seq<char>),
>
    decreases pages.len(),
{
    if pages.len() == 0 {
        Seq::empty()
    } else if contains(pages.last().title, query) || contains(pages.last().raw_text, query) {
        summary_hits(pages.drop_last(), query).push(
            (pages.last().title, pages.last().url, pages.last().short),
        )
    } else {
        summary_hits(pages.drop_last(), query)
    }
}

/// Lists the pages whose title or plain text contains the query, with their excerpts.
pub fn search_summaries(cache: &ServerState, query: &SearchQuery) -> (r: Vec<SearchResult>)
    ensures
        r@.map_values(|h: SearchResult| (h.title@, h.url@, h.short@)) == summary_hits(
            cache@,
            query.q@,
        ),
{
    let pages = cache.pages();
    let q = chars_of(query.q.as_str());
    let ghost pv = pages@.map_values(|p: MarkdownPage| p@);
    let mut out: Vec<SearchResult> = Vec::new();
    let mut k: usize = 0;
    while k < pages.len()
        invariant
            k <= pages@.len(),
            q@ == query.q@,
            pv == pages@.map_values(|p: MarkdownPage| p@),
            out@.map_values(|h: SearchResult| (h.title@, h.url@, h.short@)) == summary_hits(
                pv.take(k as int),
                query.q@,
            ),
        decreases pages.len() - k,
    {
        let page = &pages[k];
        assert(pv.take(k + 1).drop_last() =~= pv.take(k as int));
        assert(pv.take(k + 1).last() == page@);
        if contains_exec(page.title.as_str(), &q) || contains_exec(page.raw_text.as_str(), &q) {
            let h = SearchResult {
                title: page.title.clone(),
                url: page.url.clone(),
                short: page.short.clone(),
            };
            let ghost o = out@;
            out.push(h);
            assert(out@.map_values(|h: SearchResult| (h.title@, h.url@, h.short@)) =~= o.map_values(
                |h: SearchResult| (h.title@, h.url@, h.short@),
            ).push((page.title@, page.url@, page.short@)));
        }
        k = k + 1;
    }
    assert(pv.take(k as int) =~= pv);
    out
}

/// Pages that the query matches nowhere give no hits.
proof fn lemma_no_hits(pages: Seq<PageView>, query: Seq<char>)
    ensures
        (forall|i: int| 0 <= i < pages.len() ==> !page_matches(#[trigger] pages[i], query))
            ==> search_hits(pages, query).len() == 0,
    decreases pages.len(),
{
    if pages.len() > 0 {
        lemma_no_hits(pages.drop_last(), query);
        if forall|i: int| 0 <= i < pages.len() ==> !page_matches(#[trigger] pages[i], query) {
            assert forall|i: int| 0 <= i < pages.drop_last().len() implies !page_matches(
                #[trigger] pages.drop_last()[i],
                query,
            ) by {
                assert(pages.drop_last()[i] == pages[i]);
            }
            assert(!page_matches(pages[pages.len() - 1], query));
        }
    }
}

} // verus!
