//! The page cache: every document rendered once, then only read.

use vstd::prelude::*;
use crate::emojis::{inlined, EmojiParser};
use crate::error::StartError;
use crate::markdown::{
    document_url, generate_markdown_title, is_document, is_markdown_path, plain_text,
    plain_text_of, render_markdown, rendered_markdown, short_excerpt, short_of, stem_of,
    title_of, url_of,
};
use crate::text::same_text;
use crate::template::{fill_template, filled_template, has_placeholders, template_ok};

verus! {

/// A file found under the content root: its path relative to the root, with
/// `/` between components, and its content.
pub struct SourceFile {
    pub path: String,
    pub text: String,
}

/// A rendered document.
pub struct MarkdownPage {
    /// The title derived from the file name.
    pub title: String,
    /// The first characters of the plain text, then `...`.
    pub short: String,
    /// The markdown source.
    pub markdown: String,
    /// The plain text, searched by queries.
    pub raw_text: String,
    /// The key of the page in the cache.
    pub url: String,
    /// The finished page.
    pub html: String,
}

/// The mathematical value of a [`MarkdownPage`].
pub struct PageView {
    pub title: Seq<char>,
    pub short: Seq<char>,
    pub markdown: Seq<char>,
    pub raw_text: Seq<char>,
    pub url: Seq<char>,
    pub html: Seq<char>,
}

impl View for MarkdownPage {
    type V = PageView;

    open spec fn view(&self) -> PageView {
        PageView {
            title: self.title@,
            short: self.short@,
            markdown: self.markdown@,
            raw_text: self.raw_text@,
            url: self.url@,
            html: self.html@,
        }
    }
}

/// The files of `files` that are markdown documents, in order.
pub open spec fn documents(files: Seq<SourceFile>) -> Seq<SourceFile>
    decreases files.len(),
{
    if files.len() == 0 {
        files
    } else if is_document(files.last().path@) {
        documents(files.drop_last()).push(files.last())
    } else {
        documents(files.drop_last())
    }
}

/// No two documents derive the same url.
pub open spec fn urls_distinct(docs: Seq<SourceFile>) -> bool {
    forall|i: int, j: int|
        0 <= i < j < docs.len() ==> url_of(#[trigger] docs[i].path@) != url_of(
            #[trigger] docs[j].path@,
        )
}

/// `page` is what building the document `doc` gives, with `template` and the
/// emoji patterns and markup of `emojis`.
pub open spec fn page_built_from(
    page: PageView,
    doc: SourceFile,
    template: Seq<char>,
    emojis: EmojiParser,
) -> bool {
    &&& page.url == url_of(doc.path@)
    &&& page.title == title_of(stem_of(doc.path@))
    &&& page.markdown == doc.text@
    &&& page.raw_text == plain_text_of(doc.text@)
    &&& page.short == short_of(page.raw_text)
    &&& page.html == filled_template(
        template,
        inlined(emojis, rendered_markdown(doc.text@)),
        page.title,
    )
}

/// `pages` is what building `files` gives: one page for each markdown
/// document, in order.
pub open spec fn cache_built_from(
    pages: Seq<PageView>,
    files: Seq<SourceFile>,
    template: Seq<char>,
    emojis: EmojiParser,
) -> bool {
    &&& pages.len() == documents(files).len()
    &&& forall|i: int|
        0 <= i < pages.len() ==> page_built_from(
            #[trigger] pages[i],
            documents(files)[i],
            template,
            emojis,
        )
}

/// The urls of a built cache are exactly the urls of the markdown documents
/// among the files: no other key appears and none is missing.
pub proof fn lemma_cache_keys(
    files: Seq<SourceFile>,
    template: Seq<char>,
    emojis: EmojiParser,
    state: ServerState,
    url: Seq<char>,
)
    requires
        cache_built_from(state@, files, template, emojis),
    ensures
        (exists|i: int| 0 <= i < state@.len() && (#[trigger] state@[i]).url == url) <==> (exists|
            j: int,
        |
            0 <= j < documents(files).len() && url_of((#[trigger] documents(files)[j]).path@)
                == url),
{
    if exists|i: int| 0 <= i < state@.len() && (#[trigger] state@[i]).url == url {
        let i = choose|i: int| 0 <= i < state@.len() && (#[trigger] state@[i]).url == url;
        assert(page_built_from(state@[i], documents(files)[i], template, emojis));
    }
    if exists|j: int|
        0 <= j < documents(files).len() && url_of((#[trigger] documents(files)[j]).path@) == url {
        let j = choose|j: int|
            0 <= j < documents(files).len() && url_of((#[trigger] documents(files)[j]).path@)
                == url;
        assert(page_built_from(state@[j], documents(files)[j], template, emojis));
    }
}

/// Building the same files twice, with the same template and emoji assets,
/// gives the same pages, under the same urls, in the same order.
pub proof fn lemma_build_deterministic(
    files: Seq<SourceFile>,
    template: Seq<char>,
    emojis: EmojiParser,
    first: ServerState,
    second: ServerState,
)
    requires
        cache_built_from(first@, files, template, emojis),
        cache_built_from(second@, files, template, emojis),
    ensures
        first@ == second@,
{
    assert forall|i: int| 0 <= i < first@.len() implies first@[i] == second@[i] by {
        assert(page_built_from(first@[i], documents(files)[i], template, emojis));
        assert(page_built_from(second@[i], documents(files)[i], template, emojis));
    }
    assert(first@ =~= second@);
}

/// No two pages share a url.
pub open spec fn unique_urls(pages: Seq<PageView>) -> bool {
    forall|i: int, j: int| 0 <= i < j < pages.len() ==> (#[trigger] pages[i]).url != (
    #[trigger] pages[j]).url
}

/// The pages of a site, built once and then only read.
pub struct ServerState {
    searchable: Vec<MarkdownPage>,
}

impl View for ServerState {
    type V = Seq<PageView>;

    closed spec fn view(&self) -> Seq<PageView> {
        self.searchable@.map_values(|p: MarkdownPage| p@)
    }
}

fn build_page(doc: &SourceFile, template: &str, emojis: &EmojiParser) -> (r: MarkdownPage)
    requires
        emojis.wf(),
        is_document(doc.path@),
    ensures
        page_built_from(r@, *doc, template@, *emojis),
{
    let url = document_url(doc.path.as_str());
    let title = generate_markdown_title(doc.path.as_str());
    let raw_text = plain_text(doc.text.as_str());
    let short = short_excerpt(raw_text.as_str());
    let body = render_markdown(doc.text.as_str());
    let inlined = emojis.inline_from_directory(body.as_str());
    let html = fill_template(template, inlined.as_str(), title.as_str());
    let page = MarkdownPage { title, short, markdown: doc.text.clone(), raw_text, url, html };
    assert(page_built_from(page@, *doc, template@, *emojis));
    page
}

impl ServerState {
    /// Every page, in the order the documents came.
    pub fn pages(&self) -> (r: &Vec<MarkdownPage>)
        ensures
            r@.map_values(|p: MarkdownPage| p@) == self@,
    {
        &self.searchable
    }

    /// Builds every markdown document among `files`, in order, into a page:
    /// markdown rendered with heading anchors, emoji inlined, and the result
    /// and the title put into `template`. Fails if the template lacks a
    /// placeholder, or if two documents derive the same url.
    pub fn new(files: Vec<SourceFile>, template: &str, emojis: &EmojiParser) -> (r: Result<
        ServerState,
        StartError,
    >)
        requires
            emojis.wf(),
        ensures
            match r {
                Ok(state) => {
                    &&& template_ok(template@)
                    &&& urls_distinct(documents(files@))
                    &&& cache_built_from(state@, files@, template@, *emojis)
                    &&& unique_urls(state@)
                },
                Err(StartError::TemplateError) => !template_ok(template@),
                Err(StartError::DuplicateUrl(u)) => template_ok(template@) && !urls_distinct(
                    documents(files@),
                ) && exists|i: int, j: int|
                    0 <= i < j < documents(files@).len() && url_of(documents(files@)[i].path@)
                        == u@ && url_of(documents(files@)[j].path@) == u@,
                Err(_) => false,
            },
    {
        if !has_placeholders(template) {
            return Err(StartError::TemplateError);
        }
        let mut pages: Vec<MarkdownPage> = Vec::new();
        let mut k: usize = 0;
        while k < files.len()
            invariant
                k <= files.len(),
                emojis.wf(),
                template_ok(template@),
                pages@.len() == documents(files@.take(k as int)).len(),
                urls_distinct(documents(files@.take(k as int))),
                forall|i: int|
                    0 <= i < pages@.len() ==> page_built_from(
                        #[trigger] pages@[i]@,
                        documents(files@.take(k as int))[i],
                        template@,
                        *emojis,
                    ),
            decreases files.len() - k,
        {
            let file = &files[k];
            let ghost docs = documents(files@.take(k as int));
            assert(files@.take(k + 1).drop_last() =~= files@.take(k as int));
            assert(files@.take(k + 1).last() == files@[k as int]);
            if is_markdown_path(file.path.as_str()) {
                let url = document_url(file.path.as_str());
                let mut j: usize = 0;
                while j < pages.len()
                    invariant
                        k < files@.len(),
                        *file == files@[k as int],
                        is_document(file.path@),
                        docs == documents(files@.take(k as int)),
                        template_ok(template@),
                        emojis.wf(),
                        j <= pages@.len(),
                        pages@.len() == docs.len(),
                        url@ == url_of(file.path@),
                        forall|i: int|
                            0 <= i < pages@.len() ==> page_built_from(
                                #[trigger] pages@[i]@,
                                docs[i],
                                template@,
                                *emojis,
                            ),
                        forall|i: int| 0 <= i < j ==> url_of(#[trigger] docs[i].path@) != url@,
                    decreases pages.len() - j,
                {
                    assert(page_built_from(pages@[j as int]@, docs[j as int], template@, *emojis));
                    if pages[j].url == url {
                        let ghost all = documents(files@.take(k + 1));
                        assert(files@.take(k + 1).drop_last() =~= files@.take(k as int));
                        assert(files@.take(k + 1).last() == files@[k as int]);
                        assert(all == docs.push(files@[k as int]));
                        assert(all[j as int] == docs[j as int]);
                        assert(all[docs.len() as int] == files@[k as int]);
                        proof {
                            lemma_documents_prefix(files@, k + 1);
                        }
                        return Err(StartError::DuplicateUrl(url));
                    }
                    j = j + 1;
                }
                let page = build_page(file, template, emojis);
                pages.push(page);
                proof {
                    let all = docs.push(files@[k as int]);
                    assert(all.drop_last() =~= docs);
                    assert forall|i: int| 0 <= i < pages@.len() implies page_built_from(
                        #[trigger] pages@[i]@,
                        all[i],
                        template@,
                        *emojis,
                    ) by {
                        if i < docs.len() {
                            assert(all[i] == docs[i]);
                        }
                    }
                    assert forall|a: int, b: int| 0 <= a < b < all.len() implies url_of(
                        #[trigger] all[a].path@,
                    ) != url_of(#[trigger] all[b].path@) by {
                        if b < docs.len() {
                            assert(all[a] == docs[a] && all[b] == docs[b]);
                        } else {
                            assert(all[a] == docs[a]);
                        }
                    }
                }
            }
            k = k + 1;
        }
        assert(files@.take(files.len() as int) =~= files@);
        let state = ServerState { searchable: pages };
        proof {
            let ps = state@;
            assert forall|i: int| 0 <= i < ps.len() implies page_built_from(
                #[trigger] ps[i],
                documents(files@)[i],
                template@,
                *emojis,
            ) by {
                assert(ps[i] == pages@[i]@);
            }
            let docs = documents(files@);
            assert forall|i: int, j: int| 0 <= i < j < ps.len() implies (#[trigger] ps[i]).url != (
            #[trigger] ps[j]).url by {
                assert(page_built_from(ps[i], docs[i], template@, *emojis));
                assert(page_built_from(ps[j], docs[j], template@, *emojis));
                assert(url_of(docs[i].path@) != url_of(docs[j].path@));
            }
        }
        Ok(state)
    }

    /// The page with this url, if there is one.
    pub fn lookup(&self, url: &str) -> (r: Option<&MarkdownPage>)
        ensures
            match r {
                Some(page) => exists|i: int| 0 <= i < self@.len() && self@[i] == page@ && page@.url == url@,
                None => forall|i: int| 0 <= i < self@.len() ==> (#[trigger] self@[i]).url != url@,
            },
    {
        let mut j: usize = 0;
        while j < self.searchable.len()
            invariant
                j <= self.searchable@.len(),
                forall|i: int| 0 <= i < j ==> (#[trigger] self@[i]).url != url@,
            decreases self.searchable.len() - j,
        {
            let page = &self.searchable[j];
            assert(self@[j as int] == page@);
            if same_text(page.url.as_str(), url) {
                return Some(page);
            }
            j = j + 1;
        }
        None
    }
}

/// A prefix of the files has, as its documents, a prefix of the documents.
proof fn lemma_documents_prefix(files: Seq<SourceFile>, k: int)
    requires
        0 <= k <= files.len(),
    ensures
        documents(files.take(k)).len() <= documents(files).len(),
        forall|i: int|
            0 <= i < documents(files.take(k)).len() ==> #[trigger] documents(files.take(k))[i]
                == documents(files)[i],
    decreases files.len() - k,
{
    if k < files.len() {
        lemma_documents_prefix(files, k + 1);
        let t = files.take(k + 1);
        assert(t.drop_last() =~= files.take(k));
        assert(documents(t) == if is_document(t.last().path@) {
            documents(files.take(k)).push(t.last())
        } else {
            documents(files.take(k))
        });
        assert forall|i: int| 0 <= i < documents(files.take(k)).len() implies #[trigger] documents(
            files.take(k),
        )[i] == documents(files)[i] by {
            assert(documents(files.take(k))[i] == documents(t)[i]);
        }
    } else {
        assert(files.take(k) =~= files);
    }
}

} // verus!
