//! Reading one fetched page: its record and the links it holds.

use crate::link::{absolute_url, make_absolute_url};
use crate::text::{join, join_with};
use scraper::{Html, Selector};
use vstd::prelude::*;

verus! {

/// What was read from one page.
#[derive(Debug, PartialEq, Eq)]
pub struct PageRecord {
    /// The text of the page's first top-level heading, or a placeholder.
    pub title: String,
    /// The absolute address the page was fetched from.
    pub url: String,
    /// The text of the page's paragraphs and code, one per line.
    pub content: String,
}

/// A [`PageRecord`] as plain text.
pub struct PageRecordView {
    pub title: Seq<char>,
    pub url: Seq<char>,
    pub content: Seq<char>,
}

impl View for PageRecord {
    type V = PageRecordView;

    open spec fn view(&self) -> PageRecordView {
        PageRecordView { title: self.title@, url: self.url@, content: self.content@ }
    }
}

impl Clone for PageRecord {
    fn clone(&self) -> (copy: PageRecord)
        ensures
            copy@ == self@,
    {
        PageRecord {
            title: self.title.clone(),
            url: self.url.clone(),
            content: self.content.clone(),
        }
    }
}

impl DeepView for PageRecord {
    type V = PageRecordView;

    open spec fn deep_view(&self) -> PageRecordView {
        self@
    }
}

/// The text pieces of each element of the page `body` that `selector`
/// matches, element by element in the order the page's tree yields them;
/// `None` where `selector` is no selector.
pub uninterp spec fn selected_text(body: Seq<char>, selector: Seq<char>) -> Option<
    Seq<Seq<Seq<char>>>,
>;

/// The value of the attribute `name` on each element of the page `body` that
/// `selector` matches, `None` for an element without it; `None` as a whole
/// where `selector` is no selector.
pub uninterp spec fn selected_attribute(
    body: Seq<char>,
    selector: Seq<char>,
    name: Seq<char>,
) -> Option<Seq<Option<Seq<char>>>>;

/// Selects through the `scraper` crate: `Selector::parse` on `selector`,
/// `Html::parse_document` on `body`, `Html::select`, and for each element
/// found the pieces that `ElementRef::text` yields. Nothing here is proved;
/// the contract claims only that the result is determined by the two texts.
#[verifier::external_body]
fn select_text(body: &str, selector: &str) -> (found: Option<Vec<Vec<String>>>)
    ensures
        found.deep_view() == selected_text(body@, selector@),
{
    match Selector::parse(selector) {
        Ok(parsed) => Some(
            Html::parse_document(body).select(&parsed).map(
                |element| element.text().map(String::from).collect(),
            ).collect(),
        ),
        Err(_) => None,
    }
}

/// Selects through the `scraper` crate: `Selector::parse` on `selector`,
/// `Html::parse_document` on `body`, `Html::select`, and for each element
/// found what `ElementRef::attr` gives for `name`. Nothing here is proved;
/// the contract claims only that the result is determined by the three
/// texts.
#[verifier::external_body]
fn select_attribute(body: &str, selector: &str, name: &str) -> (found: Option<
    Vec<Option<String>>,
>)
    ensures
        found.deep_view() == selected_attribute(body@, selector@, name@),
{
    match Selector::parse(selector) {
        Ok(parsed) => Some(
            Html::parse_document(body).select(&parsed).map(
                |element| element.attr(name).map(String::from),
            ).collect(),
        ),
        Err(_) => None,
    }
}

/// The title of a page, given the text pieces of its top-level headings: the
/// pieces of the first heading joined by single spaces, or the placeholder
/// where there is no heading.
pub open spec fn title_from(headings: Option<Seq<Seq<Seq<char>>>>) -> Seq<char> {
    match headings {
        Some(found) if found.len() > 0 => join(found[0], " "@),
        _ => "No title found"@,
    }
}

/// The text of each block: its pieces put together with nothing between.
pub open spec fn block_texts(blocks: Seq<Seq<Seq<char>>>) -> Seq<Seq<char>> {
    Seq::new(blocks.len(), |i: int| join(blocks[i], Seq::empty()))
}

/// The content of a page, given the text pieces of its paragraphs and code
/// elements: the text of each, joined by newlines.
pub open spec fn content_from(blocks: Option<Seq<Seq<Seq<char>>>>) -> Seq<char> {
    match blocks {
        Some(found) => join(block_texts(found), "\n"@),
        None => Seq::empty(),
    }
}

/// The record of the page with text `body` that was fetched from `url`.
pub open spec fn record_of(body: Seq<char>, url: Seq<char>) -> PageRecordView {
    PageRecordView {
        title: title_from(selected_text(body, "h1"@)),
        url,
        content: content_from(selected_text(body, "p, code"@)),
    }
}

/// Fallback: the record of a page without a top-level heading has the
/// placeholder as its title.
pub proof fn lemma_title_without_heading(body: Seq<char>, url: Seq<char>)
    requires
        selected_text(body, "h1"@) matches Some(found) ==> found.len() == 0,
    ensures
        record_of(body, url).title == "No title found"@,
{
}

/// Computes a page's title from the text pieces of its top-level headings.
pub fn title_of(headings: &Option<Vec<Vec<String>>>) -> (title: String)
    ensures
        title@ == title_from(headings.deep_view()),
{
    match headings {
        Some(found) => {
            if found.len() > 0 {
                assert(found.deep_view()[0] == found[0].deep_view());
                join_with(&found[0], " ")
            } else {
                "No title found".to_owned()
            }
        },
        None => "No title found".to_owned(),
    }
}

/// Computes a page's content from the text pieces of its paragraphs and code
/// elements.
pub fn content_of(blocks: &Option<Vec<Vec<String>>>) -> (content: String)
    ensures
        content@ == content_from(blocks.deep_view()),
{
    match blocks {
        Some(found) => {
            let mut texts: Vec<String> = Vec::new();
            let mut i: usize = 0;
            while i < found.len()
                invariant
                    i <= found.len(),
                    texts.deep_view() == block_texts(found.deep_view()).take(i as int),
                decreases found.len() - i,
            {
                proof {
                    reveal_strlit("");
                    assert(""@ =~= Seq::<char>::empty());
                    assert(found.deep_view()[i as int] == found[i as int].deep_view());
                }
                let text = join_with(&found[i], "");
                let ghost before = texts.deep_view();
                texts.push(text);
                proof {
                    assert(texts.deep_view() =~= before.push(text@));
                    assert(before.push(text@) =~= block_texts(found.deep_view()).take(
                        i as int + 1,
                    ));
                }
                i = i + 1;
            }
            assert(texts.deep_view() =~= block_texts(found.deep_view()));
            join_with(&texts, "\n")
        },
        None => String::new(),
    }
}

/// Reads the record of the page with text `body` that was fetched from
/// `url`. It never fails: a page without a heading gets the placeholder as
/// its title, one without paragraphs or code an empty content.
pub fn scrape_page_data(body: &str, url: &str) -> (record: PageRecord)
    ensures
        record@ == record_of(body@, url@),
{
    let headings = select_text(body, "h1");
    let blocks = select_text(body, "p, code");
    PageRecord { title: title_of(&headings), url: url.to_owned(), content: content_of(&blocks) }
}

/// The references in `hrefs` that resolve against `url`, each as the absolute
/// address it resolves to, in the order of `hrefs`.
pub open spec fn resolved_links(url: Seq<char>, hrefs: Seq<Option<Seq<char>>>) -> Seq<Seq<char>>
    decreases hrefs.len(),
{
    if hrefs.len() == 0 {
        Seq::empty()
    } else {
        let before = resolved_links(url, hrefs.drop_last());
        match hrefs.last() {
            Some(href) => match absolute_url(url, href) {
                Some(link) => before.push(link),
                None => before,
            },
            None => before,
        }
    }
}

/// The links of a page fetched from `url`, given the `href` of each of its
/// anchors.
pub open spec fn links_from(url: Seq<char>, hrefs: Option<Seq<Option<Seq<char>>>>) -> Seq<
    Seq<char>,
> {
    match hrefs {
        Some(found) => resolved_links(url, found),
        None => Seq::empty(),
    }
}

/// The links of the page with text `body` that was fetched from `url`: the
/// absolute address of each anchor whose reference resolves, in the order of
/// the anchors.
pub open spec fn links_of(body: Seq<char>, url: Seq<char>) -> Seq<Seq<char>> {
    links_from(url, selected_attribute(body, "a"@, "href"@))
}

/// Resolves the references of a page's anchors against the page's own
/// address `url`. An anchor without a reference, or with one that does not
/// resolve, is passed over.
pub fn resolve_links(url: &str, hrefs: &Option<Vec<Option<String>>>) -> (links: Vec<String>)
    ensures
        links.deep_view() == links_from(url@, hrefs.deep_view()),
{
    let mut links: Vec<String> = Vec::new();
    match hrefs {
        Some(found) => {
            let mut i: usize = 0;
            while i < found.len()
                invariant
                    i <= found.len(),
                    links.deep_view() == resolved_links(url@, found.deep_view().take(i as int)),
                decreases found.len() - i,
            {
                let ghost upto = found.deep_view().take(i as int + 1);
                proof {
                    assert(upto.drop_last() =~= found.deep_view().take(i as int));
                    assert(upto.last() == found[i as int].deep_view());
                }
                match &found[i] {
                    Some(href) => {
                        match make_absolute_url(url, href.as_str()) {
                            Some(link) => {
                                let ghost before = links.deep_view();
                                links.push(link);
                                assert(links.deep_view() =~= before.push(link@));
                            },
                            None => {},
                        }
                    },
                    None => {},
                }
                i = i + 1;
            }
            assert(found.deep_view().take(found.len() as int) =~= found.deep_view());
        },
        None => {},
    }
    links
}

/// Finds the links of the page with text `body` that was fetched from `url`.
pub fn page_links(body: &str, url: &str) -> (links: Vec<String>)
    ensures
        links.deep_view() == links_of(body@, url@),
{
    let hrefs = select_attribute(body, "a", "href");
    resolve_links(url, &hrefs)
}

} // verus!
