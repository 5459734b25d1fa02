//! What the HTML parser and CSS selector engine of `scraper` report about a
//! page: the elements that a selector matches, as plain text pieces.
use vstd::prelude::*;

verus! {

/// The elements of the document that `scraper::Html::parse_document` builds
/// from `html` which the selector group `css` matches (`scraper::Html::select`),
/// in the order in which the parsed tree holds its nodes (the order of
/// their creation while parsing), each given as its descendant text nodes in
/// tree order, each text node with the tag name of its parent element (`None`
/// where the parent is not an element); `None` where
/// `scraper::Selector::parse` refuses `css`.
pub uninterp spec fn selected_text_nodes(html: Seq<char>, css: Seq<char>) -> Option<
    Seq<Seq<(Option<Seq<char>>, Seq<char>)>>,
>;

/// The elements of the document parsed from `html` that `css` matches, as
/// in `selected_text_nodes`, each given as its descendant text nodes
/// (`scraper::ElementRef::text`) and the value of its attribute named
/// `attr` (`scraper::ElementRef::attr`), `None` where it has no such
/// attribute.
pub uninterp spec fn selected_texts_with_attr(
    html: Seq<char>,
    css: Seq<char>,
    attr: Seq<char>,
) -> Option<Seq<(Seq<Seq<char>>, Option<Seq<char>>)>>;

/// Parses `css` with `scraper::Selector::parse`, parses `html` with
/// `scraper::Html::parse_document`, and lists for each element that
/// `scraper::Html::select` yields its descendant text nodes with the name of
/// the parent element of each. The contract claims only that the result is
/// `selected_text_nodes` of the two arguments: parsing and selection are
/// deterministic functions of the two strings.
#[verifier::external_body]
pub(crate) fn select_text_nodes(html: &str, css: &str) -> (found: Option<
    Vec<Vec<(Option<String>, String)>>,
>)
    ensures
        found.deep_view() == selected_text_nodes(html@, css@),
{
    let selector = scraper::Selector::parse(css).ok()?;
    let document = scraper::Html::parse_document(html);
    let mut found = Vec::new();
    for element in document.select(&selector) {
        let mut nodes = Vec::new();
        for node in element.descendants() {
            if let scraper::Node::Text(text) = node.value() {
                let parent = node.parent().and_then(|p| p.value().as_element().map(|e| e.name().to_string()));
                nodes.push((parent, text.to_string()));
            }
        }
        found.push(nodes);
    }
    Some(found)
}

/// Parses `css` and `html` as `select_text_nodes` does, and lists for each
/// element selected its descendant text nodes (`scraper::ElementRef::text`)
/// and the value of its attribute `attr` (`scraper::ElementRef::attr`).
/// The contract claims only that the result is `selected_texts_with_attr`
/// of the three arguments.
#[verifier::external_body]
pub(crate) fn select_texts_with_attr(html: &str, css: &str, attr: &str) -> (found: Option<
    Vec<(Vec<String>, Option<String>)>,
>)
    ensures
        found.deep_view() == selected_texts_with_attr(html@, css@, attr@),
{
    let selector = scraper::Selector::parse(css).ok()?;
    let document = scraper::Html::parse_document(html);
    let mut found = Vec::new();
    for element in document.select(&selector) {
        found.push((element.text().map(String::from).collect(), element.attr(attr).map(String::from)));
    }
    Some(found)
}

/// The URL that `url::Url::parse` makes of `base`, joined with the
/// reference `href` by `url::Url::join` (RFC 3986 reference resolution, with
/// the normalisations of the WHATWG URL standard), as its serialisation;
/// `None` where either step fails.
pub uninterp spec fn joined_url(base: Seq<char>, href: Seq<char>) -> Option<Seq<char>>;

/// Resolves `href` against `base` with `reqwest::Url` (the `url` crate's
/// `Url::parse` and `Url::join`). The contract claims only that the result
/// is `joined_url` of the two arguments: both steps are deterministic
/// functions of the two strings.
#[verifier::external_body]
pub(crate) fn join_url(base: &str, href: &str) -> (url: Option<String>)
    ensures
        url.deep_view() == joined_url(base@, href@),
{
    reqwest::Url::parse(base).and_then(|b| b.join(href)).ok().map(String::from)
}

} // verus!
