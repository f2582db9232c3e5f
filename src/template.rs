//! Filling the page template.

use vstd::prelude::*;
use vstd::string::StringExecFns;
use crate::error::StartError;
use crate::text::{chars_of, contains, find_from, first_from, lemma_first_from, string_of_range};

verus! {

/// `s` from index `i` on, with each occurrence of `p` (found left to right,
/// without overlap) replaced by `r`.
pub open spec fn replaced_from(s: Seq<char>, p: Seq<char>, r: Seq<char>, i: int) -> Seq<char>
    decreases s.len() + 1 - i,
{
    match first_from(s, p, i) {
        Some(k) => if p.len() > 0 && i <= k && k + p.len() <= s.len() {
            s.subrange(i, k) + r + replaced_from(s, p, r, k + p.len())
        } else {
            s.subrange(i, s.len() as int)
        },
        None => if 0 <= i <= s.len() {
            s.subrange(i, s.len() as int)
        } else {
            Seq::empty()
        },
    }
}

/// `s` with every occurrence of the non-empty `p` replaced by `r`.
pub open spec fn replace_all(s: Seq<char>, p: Seq<char>, r: Seq<char>) -> Seq<char> {
    replaced_from(s, p, r, 0)
}

/// Replaces every occurrence of `p` in `s` by `r`.
pub fn replace(s: &str, p: &Vec<char>, r: &str) -> (out: String)
    requires
        p.len() > 0,
    ensures
        out@ == replace_all(s@, p@, r@),
{
    let chars = chars_of(s);
    let mut out = String::new();
    let mut pos: usize = 0;
    loop
        invariant
            p.len() > 0,
            chars@ == s@,
            pos <= chars.len(),
            out@ + replaced_from(s@, p@, r@, pos as int) == replace_all(s@, p@, r@),
        decreases chars.len() + 1 - pos,
    {
        proof {
            lemma_first_from(s@, p@, pos as int);
        }
        match find_from(&chars, p, pos) {
            Some(k) => {
                let piece = string_of_range(&chars, pos, k);
                let ghost o = out@;
                out.append(piece.as_str());
                out.append(r);
                assert(out@ =~= o + s@.subrange(pos as int, k as int) + r@);
                pos = k + p.len();
            },
            None => {
                let piece = string_of_range(&chars, pos, chars.len());
                out.append(piece.as_str());
                return out;
            },
        }
    }
}

/// The placeholder for the rendered document.
pub open spec fn html_placeholder() -> Seq<char> {
    seq!['{', '{', 'h', 't', 'm', 'l', '}', '}']
}

/// The placeholder for the title.
pub open spec fn title_placeholder() -> Seq<char> {
    seq!['{', '{', 't', 'i', 't', 'l', 'e', '}', '}']
}

/// The page for a template: `{{html}}` is replaced first, then `{{title}}`.
pub open spec fn filled_template(template: Seq<char>, html: Seq<char>, title: Seq<char>) -> Seq<
    char,
> {
    replace_all(replace_all(template, html_placeholder(), html), title_placeholder(), title)
}

/// Whether a template holds both placeholders.
pub open spec fn template_ok(template: Seq<char>) -> bool {
    contains(template, html_placeholder()) && contains(template, title_placeholder())
}

/// Substitutes the rendered document, then the title, into the template.
pub fn fill_template(template: &str, html: &str, title: &str) -> (r: String)
    ensures
        r@ == filled_template(template@, html@, title@),
{
    let html_mark = vec!['{', '{', 'h', 't', 'm', 'l', '}', '}'];
    let title_mark = vec!['{', '{', 't', 'i', 't', 'l', 'e', '}', '}'];
    assert(html_mark@ =~= html_placeholder());
    assert(title_mark@ =~= title_placeholder());
    let with_html = replace(template, &html_mark, html);
    replace(with_html.as_str(), &title_mark, title)
}

/// Whether the template holds both `{{html}}` and `{{title}}`.
pub fn has_placeholders(template: &str) -> (r: bool)
    ensures
        r == template_ok(template@),
{
    let html_mark = vec!['{', '{', 'h', 't', 'm', 'l', '}', '}'];
    let title_mark = vec!['{', '{', 't', 'i', 't', 'l', 'e', '}', '}'];
    assert(html_mark@ =~= html_placeholder());
    assert(title_mark@ =~= title_placeholder());
    let chars = chars_of(template);
    find_from(&chars, &html_mark, 0).is_some() && find_from(&chars, &title_mark, 0).is_some()
}

/// Substitutes the rendered document and its title into the template. A
/// template without `{{html}}` or without `{{title}}` is refused; any other
/// placeholder is left as it is.
pub fn render_template(template: &str, html: &str, title: &str) -> (r: Result<String, StartError>)
    ensures
        match r {
            Ok(page) => template_ok(template@) && page@ == filled_template(template@, html@, title@),
            Err(e) => !template_ok(template@) && e is TemplateError,
        },
{
    if !has_placeholders(template) {
        return Err(StartError::TemplateError);
    }
    Ok(fill_template(template, html, title))
}

} // verus!
