//! Reading parsed HTML documents: which elements a CSS selector picks, with
//! the parts of each element that the result parsers look at.
use vstd::prelude::*;

verus! {

/// An element of an HTML document as the parsers see it: the value of its
/// `href` attribute, if it has one, and the text nodes below it in document
/// order.
pub struct HtmlElement {
    pub href: Option<String>,
    pub texts: Vec<String>,
}

/// The plain value of an [`HtmlElement`]: its `href` and its text nodes.
pub type ElementView = (Option<Seq<char>>, Seq<Seq<char>>);

impl DeepView for HtmlElement {
    type V = ElementView;

    open spec fn deep_view(&self) -> ElementView {
        (self.href.deep_view(), self.texts.deep_view())
    }
}

/// The elements of the document `html` that `selector` picks, in document
/// order, as `scraper::Html::select` gives them.
pub uninterp spec fn selected(html: Seq<char>, selector: Seq<char>) -> Seq<ElementView>;

/// For each element of the document `html` that `outer` picks, the elements
/// below it that `inner` picks, as `scraper::ElementRef::select` gives them.
pub uninterp spec fn selected_within(html: Seq<char>, outer: Seq<char>, inner: Seq<char>) -> Seq<
    Seq<ElementView>,
>;

/// `scraper::Html::select` on the document parsed from `html` (by
/// `Html::parse_document`) with the selector parsed from `selector` (by
/// `Selector::parse`; a selector that does not parse picks nothing). Each
/// element is read into an [`HtmlElement`]: its `href` attribute and its text
/// nodes. The contract claims only that the result is [`selected`] of the two
/// strings, a function of them alone.
#[verifier::external_body]
pub(crate) fn select_elements(html: &str, selector: &str) -> (r: Vec<HtmlElement>)
    ensures
        r.deep_view() == selected(html@, selector@),
{
    let doc = scraper::Html::parse_document(html);
    match scraper::Selector::parse(selector) {
        Ok(sel) => doc.select(&sel).map(|e| HtmlElement {
            href: e.value().attr("href").map(|h| h.to_string()),
            texts: e.text().map(|t| t.to_string()).collect(),
        }).collect(),
        Err(_) => Vec::new(),
    }
}

/// `scraper::ElementRef::select` with the selector parsed from `inner`, on
/// each element that `outer` picks in the document parsed from `html` (a
/// selector that does not parse picks nothing). The contract claims that the
/// result is [`selected_within`] of the three strings, and that it has one
/// entry for each element that `outer` picks, as the outer selection is the
/// same one [`select_elements`] makes.
#[verifier::external_body]
pub(crate) fn select_within(html: &str, outer: &str, inner: &str) -> (r: Vec<Vec<HtmlElement>>)
    ensures
        r.deep_view() == selected_within(html@, outer@, inner@),
        r@.len() == selected(html@, outer@).len(),
{
    let doc = scraper::Html::parse_document(html);
    match (scraper::Selector::parse(outer), scraper::Selector::parse(inner)) {
        (Ok(o), Ok(i)) => doc.select(&o).map(|e| e.select(&i).map(|x| HtmlElement {
            href: x.value().attr("href").map(|h| h.to_string()),
            texts: x.text().map(|t| t.to_string()).collect(),
        }).collect()).collect(),
        (Ok(o), Err(_)) => doc.select(&o).map(|_| Vec::new()).collect(),
        _ => Vec::new(),
    }
}

} // verus!

verus! {

/// All the text below an element, as `text().collect::<String>()` gives it.
pub open spec fn element_text(e: ElementView) -> Seq<char> {
    crate::split::concat_all(e.1)
}

/// All the text below `e`.
pub fn text_of(e: &HtmlElement) -> (r: Vec<char>)
    ensures
        r@ == element_text(e.deep_view()),
{
    let parts = crate::split::chars_of_all(&e.texts);
    let empty: Vec<char> = Vec::new();
    assert(empty@ =~= Seq::<char>::empty());
    crate::split::join_chars(&parts, &empty)
}

/// The `href` of `e`, as characters.
pub fn href_of(e: &HtmlElement) -> (r: Option<Vec<char>>)
    ensures
        r matches Some(h) ==> e.deep_view().0 == Some(h@),
        r is None ==> e.deep_view().0 is None,
{
    match &e.href {
        Some(h) => Some(crate::text::chars_of(h.as_str())),
        None => None,
    }
}

} // verus!
