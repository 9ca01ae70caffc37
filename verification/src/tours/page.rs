//! Pages: what is read off an HTML document.

use crate::gather::views;
use crate::text::{
    is_white, join, joined, lemma_joined_tidy, lemma_words_clean, lemma_words_joined, opt_text,
    split_words, texts, words,
};
use vstd::prelude::*;

verus! {

/// An element of a document.
#[derive(Debug)]
pub struct Element {
    /// Its attribute `href`.
    pub href: Option<String>,
    /// Its attribute `rel`.
    pub rel: Option<String>,
    /// The pieces of text in it, in the order of the document.
    pub texts: Vec<String>,
}

/// An element in a contract.
pub struct ElementView {
    pub href: Option<Seq<char>>,
    pub rel: Option<Seq<char>>,
    pub texts: Seq<Seq<char>>,
}

impl View for Element {
    type V = ElementView;

    open spec fn view(&self) -> ElementView {
        ElementView {
            href: opt_text(self.href),
            rel: opt_text(self.rel),
            texts: texts(self.texts@),
        }
    }
}

/// What is read off a document.
#[derive(Debug)]
pub struct Page {
    /// The anchors that lead somewhere.
    pub links: Vec<Element>,
    /// The headings of the first level.
    pub headings: Vec<Element>,
    /// The titles.
    pub titles: Vec<Element>,
}

/// A page in a contract.
pub struct PageView {
    pub links: Seq<ElementView>,
    pub headings: Seq<ElementView>,
    pub titles: Seq<ElementView>,
}

impl View for Page {
    type V = PageView;

    open spec fn view(&self) -> PageView {
        PageView {
            links: views(self.links@),
            headings: views(self.headings@),
            titles: views(self.titles@),
        }
    }
}

/// The elements of a search, if it could be made.
pub open spec fn elements_view(found: Option<Vec<Element>>) -> Option<Seq<ElementView>> {
    match found {
        Some(elements) => Some(views(elements@)),
        None => None,
    }
}

/// The pieces of text that `scraper` reads below the root element of a document.
pub uninterp spec fn html_texts(html: Seq<char>) -> Seq<Seq<char>>;

/// The elements that `scraper` selects from a document; none where it does not accept the selector.
pub uninterp spec fn html_elements(html: Seq<char>, selector: Seq<char>) -> Option<
    Seq<ElementView>,
>;

/// Reads the text of a document: `scraper::Html::parse_document`, then `text` of its root element.
/// The claim: the pieces depend on the document alone, as the name `html_texts` says.
#[verifier::external_body]
pub(crate) fn read_texts(html: &str) -> (r: Vec<String>)
    ensures
        texts(r@) == html_texts(html@),
{
    let document = scraper::Html::parse_document(html);
    document.root_element().text().map(str::to_string).collect()
}

/// Selects elements of a document: `scraper::Html::parse_document` and `scraper::Selector::parse`,
/// then `select`, and of each element its attributes `href` and `rel` and its `text`. The claim: what
/// is selected depends on the document and the selector alone, as the name `html_elements` says.
#[verifier::external_body]
fn select_elements(html: &str, selector: &str) -> (r: Option<Vec<Element>>)
    ensures
        elements_view(r) == html_elements(html@, selector@),
{
    let document = scraper::Html::parse_document(html);
    let selector = scraper::Selector::parse(selector).ok()?;
    let found = document.select(&selector).map(|element| Element {
        href: element.value().attr("href").map(str::to_string),
        rel: element.value().attr("rel").map(str::to_string),
        texts: element.text().map(str::to_string).collect(),
    });
    Some(found.collect())
}

/// The elements that a selector finds in a document. A selector that is not accepted finds nothing.
pub open spec fn found_elements(html: Seq<char>, selector: Seq<char>) -> Seq<ElementView> {
    match html_elements(html, selector) {
        Some(elements) => elements,
        None => Seq::empty(),
    }
}

/// What is read off a document.
pub open spec fn page_of(html: Seq<char>) -> PageView {
    PageView {
        links: found_elements(html, "a[href]"@),
        headings: found_elements(html, "h1"@),
        titles: found_elements(html, "title"@),
    }
}

/// The elements that a selector finds in a document.
fn find_elements(html: &str, selector: &str) -> (r: Vec<Element>)
    ensures
        views(r@) == found_elements(html@, selector@),
{
    match select_elements(html, selector) {
        Some(elements) => elements,
        None => {
            let none: Vec<Element> = Vec::new();
            assert(views(none@) =~= Seq::<ElementView>::empty());
            none
        },
    }
}

/// Reads a page.
pub fn read_page(html: &str) -> (r: Page)
    ensures
        r@ == page_of(html@),
{
    let links = find_elements(html, "a[href]");
    let headings = find_elements(html, "h1");
    let titles = find_elements(html, "title");
    Page { links, headings, titles }
}

/// The words of the pieces of text, with single blanks between them.
pub open spec fn normalized(pieces: Seq<Seq<char>>) -> Seq<char> {
    joined(words(joined(pieces, " "@)), " "@)
}

/// The words of the pieces of text, with single blanks between them.
pub fn normalized_text(text: &Vec<String>) -> (r: String)
    ensures
        r@ == normalized(texts(text@)),
{
    let whole = join(text, " ");
    let parts = split_words(whole.as_str());
    join(&parts, " ")
}

/// The text of the first of the elements, if there is any.
pub open spec fn first_text(elements: Seq<ElementView>) -> Option<Seq<char>> {
    if elements.len() > 0 && normalized(elements[0].texts).len() > 0 {
        Some(normalized(elements[0].texts))
    } else {
        None
    }
}

/// The title of a page: the text of its first heading, or else of its first title.
pub open spec fn title_of(page: PageView) -> Option<Seq<char>> {
    match first_text(page.headings) {
        Some(title) => Some(title),
        None => first_text(page.titles),
    }
}

/// The text of the first of the elements, if there is any.
fn find_text(elements: &Vec<Element>) -> (r: Option<String>)
    ensures
        opt_text(r) == first_text(views(elements@)),
{
    if elements.len() > 0 {
        let title = normalized_text(&elements[0].texts);
        if !title.as_str().is_empty() {
            return Some(title);
        }
    }
    None
}

/// The title of a page.
pub fn extract_title(document: &Page) -> (r: Option<String>)
    ensures
        opt_text(r) == title_of(document@),
{
    match find_text(&document.headings) {
        Some(title) => Some(title),
        None => find_text(&document.titles),
    }
}

/// Normalizing keeps the words of the pieces, in their order, and leaves single blanks between them
/// and no other white space.
pub proof fn law_normalized(all: Seq<Seq<char>>)
    ensures
        words(normalized(all)) == words(joined(all, seq![' '])),
        normalized(all).len() > 0 ==> !is_white(normalized(all)[0]) && !is_white(
            normalized(all).last(),
        ),
        forall|i: int|
            0 <= i < normalized(all).len() && is_white(#[trigger] normalized(all)[i])
                ==> normalized(all)[i] == ' ' && i + 1 < normalized(all).len() && !is_white(
                normalized(all)[i + 1],
            ),
{
    reveal_strlit(" ");
    assert(" "@ =~= seq![' ']);
    let parts = words(joined(all, " "@));
    lemma_words_clean(joined(all, " "@));
    lemma_words_joined(parts);
    lemma_joined_tidy(parts);
}

/// The title of a page is the text of its first heading, and where that is empty or there is none,
/// that of its first title; where that is empty too, the page has none.
pub proof fn law_title(page: PageView)
    ensures
        ({
            let heading = page.headings.len() > 0 && normalized(page.headings[0].texts).len() > 0;
            let title = page.titles.len() > 0 && normalized(page.titles[0].texts).len() > 0;
            &&& heading ==> title_of(page) == Some(normalized(page.headings[0].texts))
            &&& !heading && title ==> title_of(page) == Some(normalized(page.titles[0].texts))
            &&& title_of(page) is None <==> !heading && !title
        }),
{
}

/// A page has the anchors with a reference, the headings of the first level and the titles that its
/// document has.
pub proof fn law_page(html: Seq<char>, links: Seq<ElementView>, headings: Seq<ElementView>, titles:
    Seq<ElementView>)
    requires
        html_elements(html, "a[href]"@) == Some(links),
        html_elements(html, "h1"@) == Some(headings),
        html_elements(html, "title"@) == Some(titles),
    ensures
        page_of(html).links == links,
        page_of(html).headings == headings,
        page_of(html).titles == titles,
{
}

/// Contracts speak of all that an element and a page hold.
pub proof fn law_page_in_contracts(element: Element, page: Page)
    ensures
        element@.href == opt_text(element.href),
        element@.rel == opt_text(element.rel),
        element@.texts == texts(element.texts@),
        page@.links == views(page.links@),
        page@.headings == views(page.headings@),
        page@.titles == views(page.titles@),
{
}

} // verus!
