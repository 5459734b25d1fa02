//! Reading a page: its text, its links, its metadata and the text of the
//! elements that a CSS selector picks out.
use vstd::prelude::*;
use vstd::string::StringExecFns;
use crate::dom::{
    joined_url, join_url,
    selected_text_nodes, selected_texts_with_attr, select_text_nodes, select_texts_with_attr,
};
use crate::text::{
    collapse_whitespace, concat, is_space, join, trim, collapse_whitespace_str, join_strings,
    trim_str, is_collapsed, words, lemma_collapse_keeps_words, lemma_words_of_join,
    lemma_concat_is_flatten, words_of_each,
    lemma_trim_ends,
};

verus! {

/// How many links a page yields at most.
pub const MAX_LINKS: usize = 100;

/// How many matched elements a selector query reads at most.
pub const MAX_QUERY_ELEMENTS: usize = 50;

/// `s` cut to its first `n` items when it is longer.
pub open spec fn at_most<A>(s: Seq<A>, n: nat) -> Seq<A> {
    if s.len() <= n {
        s
    } else {
        s.take(n as int)
    }
}

/// A text node: the tag name of its parent element, if it has one, and its
/// text.
pub type TextNode = (Option<Seq<char>>, Seq<char>);

/// The texts of `nodes`, in order.
pub open spec fn node_texts(nodes: Seq<TextNode>) -> Seq<Seq<char>>
    decreases nodes.len(),
{
    if nodes.len() == 0 {
        seq![]
    } else {
        node_texts(nodes.drop_last()).push(nodes.last().1)
    }
}

/// Whether text under a parent element of this name is text a reader of the
/// page sees: it is not the code of a `script` or `style` element.
pub open spec fn is_readable_parent(parent: Option<Seq<char>>) -> bool {
    parent != Some(seq!['s', 'c', 'r', 'i', 'p', 't']) && parent != Some(
        seq!['s', 't', 'y', 'l', 'e'],
    )
}

/// The texts of the readable nodes among `nodes`, in order.
pub open spec fn readable_texts(nodes: Seq<TextNode>) -> Seq<Seq<char>>
    decreases nodes.len(),
{
    if nodes.len() == 0 {
        seq![]
    } else if is_readable_parent(nodes.last().0) {
        readable_texts(nodes.drop_last()).push(nodes.last().1)
    } else {
        readable_texts(nodes.drop_last())
    }
}

/// The texts of `nodes`, in order.
pub fn texts_of_nodes(nodes: &Vec<(Option<String>, String)>) -> (texts: Vec<String>)
    ensures
        texts.deep_view() == node_texts(nodes.deep_view()),
{
    let ghost all = nodes.deep_view();
    let mut texts: Vec<String> = Vec::new();
    let mut i: usize = 0;
    while i < nodes.len()
        invariant
            i <= nodes.len(),
            all == nodes.deep_view(),
            texts.deep_view() == node_texts(all.take(i as int)),
        decreases nodes.len() - i,
    {
        assert(all.take(i + 1).drop_last() =~= all.take(i as int));
        assert(all.take(i + 1).last() == nodes[i as int].deep_view());
        let ghost before = texts.deep_view();
        texts.push(nodes[i].1.clone());
        assert(texts.deep_view() =~= before.push(nodes[i as int].1@));
        i += 1;
    }
    assert(all.take(nodes.len() as int) =~= all);
    texts
}

/// Whether the parent element named `parent` holds readable text.
fn readable_parent(parent: &Option<String>) -> (b: bool)
    ensures
        b == is_readable_parent(parent.deep_view()),
{
    match parent {
        None => true,
        Some(name) => {
            let script = String::from_str("script");
            let style = String::from_str("style");
            proof {
                reveal_strlit("script");
                reveal_strlit("style");
                assert("script"@ =~= seq!['s', 'c', 'r', 'i', 'p', 't']);
                assert("style"@ =~= seq!['s', 't', 'y', 'l', 'e']);
            }
            !(*name == script) && !(*name == style)
        },
    }
}

/// The texts of the readable nodes among `nodes`, in order.
pub fn readable_texts_of(nodes: &Vec<(Option<String>, String)>) -> (texts: Vec<String>)
    ensures
        texts.deep_view() == readable_texts(nodes.deep_view()),
{
    let ghost all = nodes.deep_view();
    let mut texts: Vec<String> = Vec::new();
    let mut i: usize = 0;
    while i < nodes.len()
        invariant
            i <= nodes.len(),
            all == nodes.deep_view(),
            texts.deep_view() == readable_texts(all.take(i as int)),
        decreases nodes.len() - i,
    {
        assert(all.take(i + 1).drop_last() =~= all.take(i as int));
        assert(all.take(i + 1).last() == nodes[i as int].deep_view());
        if readable_parent(&nodes[i].0) {
            let ghost before = texts.deep_view();
            texts.push(nodes[i].1.clone());
            assert(texts.deep_view() =~= before.push(nodes[i as int].1@));
        }
        i += 1;
    }
    assert(all.take(nodes.len() as int) =~= all);
    texts
}

/// The readable text of the `body` elements found: the readable text nodes
/// of the first, joined by spaces, with whitespace collapsed; empty when
/// there is none.
pub open spec fn bodies_text(bodies: Option<Seq<Seq<TextNode>>>) -> Seq<char> {
    match bodies {
        Some(bodies) => if bodies.len() > 0 {
            collapse_whitespace(join(readable_texts(bodies[0]), seq![' ']))
        } else {
            seq![]
        },
        None => seq![],
    }
}

/// The readable text of a page: that of its `body` elements.
pub open spec fn page_text(html: Seq<char>) -> Seq<char> {
    bodies_text(selected_text_nodes(html, "body"@))
}

/// The readable text of the `body` elements found, given as their text
/// nodes.
pub fn text_of_bodies(bodies: &Option<Vec<Vec<(Option<String>, String)>>>) -> (text: String)
    ensures
        text@ == bodies_text(bodies.deep_view()),
{
    match bodies {
        Some(bodies) => {
            if bodies.len() > 0 {
                assert(bodies.deep_view()[0] == bodies[0].deep_view());
                let texts = readable_texts_of(&bodies[0]);
                let joined = join_strings(&texts, " ");
                proof {
                    reveal_strlit(" ");
                    assert(" "@ =~= seq![' ']);
                }
                collapse_whitespace_str(joined.as_str())
            } else {
                String::new()
            }
        },
        None => String::new(),
    }
}

/// Converts HTML to clean readable text: the words of the page body, with
/// the code of its scripts and styles left out, each separated from the next
/// by one space.
pub fn html_to_text(html: &str) -> (text: String)
    ensures
        text@ == page_text(html@),
{
    let bodies = select_text_nodes(html, "body");
    text_of_bodies(&bodies)
}

/// A link found on a page.
pub struct Link {
    /// Where it points, resolved against the page address.
    pub href: String,
    /// Its text, trimmed.
    pub text: String,
}

/// The model of a `Link`.
pub struct LinkView {
    pub href: Seq<char>,
    pub text: Seq<char>,
}

impl View for Link {
    type V = LinkView;

    open spec fn view(&self) -> LinkView {
        LinkView { href: self.href@, text: self.text@ }
    }
}

/// An `href` made absolute: resolved as a reference against the page
/// address; kept as it is when the page address is not an absolute URL or
/// the reference cannot be resolved against it.
pub open spec fn resolve_href(href: Seq<char>, base_url: Seq<char>) -> Seq<char> {
    match joined_url(base_url, href) {
        Some(url) => url,
        None => href,
    }
}

/// The link that a matched anchor gives, if it has an `href`.
pub open spec fn link_of(
    element: (Seq<Seq<char>>, Option<Seq<char>>),
    base_url: Seq<char>,
) -> Option<LinkView> {
    match element.1 {
        Some(href) => Some(
            LinkView { href: resolve_href(href, base_url), text: trim(concat(element.0)) },
        ),
        None => None,
    }
}

/// The links that `elements` give, in order.
pub open spec fn links_of(
    elements: Seq<(Seq<Seq<char>>, Option<Seq<char>>)>,
    base_url: Seq<char>,
) -> Seq<LinkView>
    decreases elements.len(),
{
    if elements.len() == 0 {
        seq![]
    } else {
        let before = links_of(elements.drop_last(), base_url);
        match link_of(elements.last(), base_url) {
            Some(link) => before.push(link),
            None => before,
        }
    }
}

/// The links that the anchors found give, at most `MAX_LINKS`.
pub open spec fn anchor_links(
    anchors: Option<Seq<(Seq<Seq<char>>, Option<Seq<char>>)>>,
    base_url: Seq<char>,
) -> Seq<LinkView> {
    match anchors {
        Some(anchors) => at_most(links_of(anchors, base_url), MAX_LINKS as nat),
        None => seq![],
    }
}

/// The links of a page: those of its `a[href]` elements, at most `MAX_LINKS`.
pub open spec fn page_links(html: Seq<char>, base_url: Seq<char>) -> Seq<LinkView> {
    anchor_links(selected_texts_with_attr(html, "a[href]"@, "href"@), base_url)
}

proof fn lemma_links_of_prefix(
    elements: Seq<(Seq<Seq<char>>, Option<Seq<char>>)>,
    base_url: Seq<char>,
    k: int,
)
    requires
        0 <= k <= elements.len(),
    ensures
        links_of(elements.take(k), base_url).len() <= links_of(elements, base_url).len(),
        links_of(elements, base_url).take(links_of(elements.take(k), base_url).len() as int)
            == links_of(elements.take(k), base_url),
    decreases elements.len(),
{
    if k == elements.len() {
        assert(elements.take(k) =~= elements);
        assert(links_of(elements, base_url).take(links_of(elements, base_url).len() as int)
            =~= links_of(elements, base_url));
    } else {
        let init = elements.drop_last();
        assert(init.take(k) =~= elements.take(k));
        lemma_links_of_prefix(init, base_url, k);
        let p = links_of(elements.take(k), base_url);
        let whole = links_of(elements, base_url);
        let before = links_of(init, base_url);
        assert(whole.take(p.len() as int) =~= before.take(p.len() as int));
    }
}

/// `href` made absolute against `base_url` (see `resolve_href`).
pub fn resolve_link(href: &str, base_url: &str) -> (url: String)
    ensures
        url@ == resolve_href(href@, base_url@),
{
    match join_url(base_url, href) {
        Some(url) => url,
        None => String::from_str(href),
    }
}

/// The links that the anchors found give, each given as its text nodes and
/// its `href`: in order, for each anchor that has an `href`, that `href`
/// resolved against `base_url` and the trimmed text; at most `MAX_LINKS`.
pub fn links_of_anchors(
    anchors: &Option<Vec<(Vec<String>, Option<String>)>>,
    base_url: &str,
) -> (links: Vec<Link>)
    ensures
        links@.map_values(|l: Link| l@) == anchor_links(anchors.deep_view(), base_url@),
{
    let mut links: Vec<Link> = Vec::new();
    match anchors {
        None => {
            assert(links@.map_values(|l: Link| l@) =~= Seq::<LinkView>::empty());
            links
        },
        Some(anchors) => {
            let ghost all = anchors.deep_view();
            let n = anchors.len();
            let mut i: usize = 0;
            while i < n && links.len() < MAX_LINKS
                invariant
                    i <= n == anchors.len(),
                    all == anchors.deep_view(),
                    all.len() == n,
                    links.len() <= MAX_LINKS,
                    links@.map_values(|l: Link| l@) == links_of(all.take(i as int), base_url@),
                decreases n - i,
            {
                let ghost before = links@.map_values(|l: Link| l@);
                assert(all.take(i + 1).drop_last() =~= all.take(i as int));
                assert(all.take(i + 1).last() == all[i as int]);
                assert(all[i as int] == anchors[i as int].deep_view());
                match &anchors[i].1 {
                    Some(href) => {
                        let joined = join_strings(&anchors[i].0, "");
                        proof {
                            reveal_strlit("");
                            assert(""@ =~= Seq::<char>::empty());
                        }
                        let text = trim_str(joined.as_str());
                        let full = resolve_link(href.as_str(), base_url);
                        links.push(Link { href: full, text });
                        assert(links@.map_values(|l: Link| l@) =~= before.push(
                            LinkView { href: full@, text: text@ },
                        ));
                    },
                    None => {},
                }
                i += 1;
            }
            proof {
                lemma_links_of_prefix(all, base_url@, i as int);
                if i == n {
                    assert(all.take(n as int) =~= all);
                }
            }
            links
        },
    }
}

/// Extracts the links of a page: for each `a[href]` element, in the order
/// in which the parsed tree holds its nodes, its `href` resolved against the
/// page address and its trimmed text; at most `MAX_LINKS`.
pub fn extract_links(html: &str, base_url: &str) -> (links: Vec<Link>)
    ensures
        links@.map_values(|l: Link| l@) == page_links(html@, base_url@),
{
    let anchors = select_texts_with_attr(html, "a[href]", "href");
    links_of_anchors(&anchors, base_url)
}

/// The metadata of a page.
pub struct PageMetadata {
    /// The text of the first `title` element.
    pub title: Option<String>,
    /// The `content` of the first `meta[name=description]` element.
    pub description: Option<String>,
    /// The `content` of the first `meta[property='og:title']` element.
    pub og_title: Option<String>,
    /// The `content` of the first `meta[property='og:image']` element.
    pub og_image: Option<String>,
    /// The `href` of the first `link[rel=canonical]` element.
    pub canonical: Option<String>,
}

/// The run-together text of the first element selected, if any.
pub open spec fn first_text(selected: Option<Seq<Seq<TextNode>>>) -> Option<Seq<char>> {
    match selected {
        Some(elements) => if elements.len() > 0 {
            Some(concat(node_texts(elements[0])))
        } else {
            None
        },
        None => None,
    }
}

/// The attribute value of the first element selected, if it has one.
pub open spec fn first_attr(selected: Option<Seq<(Seq<Seq<char>>, Option<Seq<char>>)>>) -> Option<
    Seq<char>,
> {
    match selected {
        Some(elements) => if elements.len() > 0 {
            elements[0].1
        } else {
            None
        },
        None => None,
    }
}

/// The run-together text of the first of the elements found, each given as
/// its text nodes.
pub fn first_text_of(found: &Option<Vec<Vec<(Option<String>, String)>>>) -> (text: Option<String>)
    ensures
        text.deep_view() == first_text(found.deep_view()),
{
    match found {
        Some(elements) => {
            if elements.len() > 0 {
                assert(elements.deep_view()[0] == elements[0].deep_view());
                let texts = texts_of_nodes(&elements[0]);
                let text = join_strings(&texts, "");
                proof {
                    reveal_strlit("");
                    assert(""@ =~= Seq::<char>::empty());
                }
                Some(text)
            } else {
                None
            }
        },
        None => None,
    }
}

/// The attribute value of the first of the elements found, each given as
/// its text nodes and the value of the attribute.
pub fn first_attr_of(found: &Option<Vec<(Vec<String>, Option<String>)>>) -> (value: Option<
    String,
>)
    ensures
        value.deep_view() == first_attr(found.deep_view()),
{
    match found {
        Some(elements) => {
            if elements.len() > 0 {
                assert(elements.deep_view()[0] == elements[0].deep_view());
                let first = &elements[0];
                match &first.1 {
                    Some(v) => Some(v.clone()),
                    None => None,
                }
            } else {
                None
            }
        },
        None => None,
    }
}

/// Extracts the metadata of a page: its title, meta description, Open Graph
/// title and image, and canonical address.
pub fn extract_metadata(html: &str) -> (meta: PageMetadata)
    ensures
        meta.title.deep_view() == first_text(selected_text_nodes(html@, "title"@)),
        meta.description.deep_view() == first_attr(
            selected_texts_with_attr(html@, "meta[name=description]"@, "content"@),
        ),
        meta.og_title.deep_view() == first_attr(
            selected_texts_with_attr(html@, "meta[property='og:title']"@, "content"@),
        ),
        meta.og_image.deep_view() == first_attr(
            selected_texts_with_attr(html@, "meta[property='og:image']"@, "content"@),
        ),
        meta.canonical.deep_view() == first_attr(
            selected_texts_with_attr(html@, "link[rel=canonical]"@, "href"@),
        ),
{
    let title = select_text_nodes(html, "title");
    let description = select_texts_with_attr(html, "meta[name=description]", "content");
    let og_title = select_texts_with_attr(html, "meta[property='og:title']", "content");
    let og_image = select_texts_with_attr(html, "meta[property='og:image']", "content");
    let canonical = select_texts_with_attr(html, "link[rel=canonical]", "href");
    PageMetadata {
        title: first_text_of(&title),
        description: first_attr_of(&description),
        og_title: first_attr_of(&og_title),
        og_image: first_attr_of(&og_image),
        canonical: first_attr_of(&canonical),
    }
}

/// The non-empty trimmed texts of `elements`, in order.
pub open spec fn nonempty_texts(elements: Seq<Seq<TextNode>>) -> Seq<Seq<char>>
    decreases elements.len(),
{
    if elements.len() == 0 {
        seq![]
    } else {
        let before = nonempty_texts(elements.drop_last());
        let t = trim(concat(node_texts(elements.last())));
        if t.len() > 0 {
            before.push(t)
        } else {
            before
        }
    }
}

/// The answer to a selector query: the non-empty trimmed texts of the first
/// `MAX_QUERY_ELEMENTS` matched elements, or a single message naming the
/// selector when it is not valid.
pub open spec fn selector_query(html: Seq<char>, css: Seq<char>) -> Seq<Seq<char>> {
    query_answer(selected_text_nodes(html, css), css)
}

/// The answer to a query with the selector `css` when the elements found
/// are `found` (`None` when `css` is not valid).
pub open spec fn query_answer(found: Option<Seq<Seq<TextNode>>>, css: Seq<char>) -> Seq<
    Seq<char>,
> {
    match found {
        Some(elements) => nonempty_texts(at_most(elements, MAX_QUERY_ELEMENTS as nat)),
        None => seq!["Invalid selector: "@ + css],
    }
}

/// Queries the elements of a page matching a CSS selector, giving their
/// text content.
pub fn query_selector(html: &str, selector: &str) -> (texts: Vec<String>)
    ensures
        texts.deep_view() == selector_query(html@, selector@),
{
    let found = select_text_nodes(html, selector);
    query_texts(&found, selector)
}

/// The answer to a query with `selector` when the elements found, each given
/// as its text nodes, are `found` (see `query_answer`).
pub fn query_texts(found: &Option<Vec<Vec<(Option<String>, String)>>>, selector: &str) -> (texts: Vec<String>)
    ensures
        texts.deep_view() == query_answer(found.deep_view(), selector@),
{
    match found {
        None => {
            let mut message = String::from_str("Invalid selector: ");
            message.append(selector);
            let texts = vec![message];
            assert(texts.deep_view() =~= query_answer(found.deep_view(), selector@));
            texts
        },
        Some(elements) => {
            let ghost all = elements.deep_view();
            let limit = if elements.len() < MAX_QUERY_ELEMENTS {
                elements.len()
            } else {
                MAX_QUERY_ELEMENTS
            };
            let ghost read = at_most(all, MAX_QUERY_ELEMENTS as nat);
            assert(read =~= all.take(limit as int));
            let mut texts: Vec<String> = Vec::new();
            let mut i: usize = 0;
            while i < limit
                invariant
                    i <= limit <= elements.len(),
                    all == elements.deep_view(),
                    read == all.take(limit as int),
                    texts.deep_view() == nonempty_texts(read.take(i as int)),
                decreases limit - i,
            {
                assert(read.take(i + 1).drop_last() =~= read.take(i as int));
                assert(read.take(i + 1).last() == elements[i as int].deep_view());
                let pieces = texts_of_nodes(&elements[i]);
                let joined = join_strings(&pieces, "");
                proof {
                    reveal_strlit("");
                    assert(""@ =~= Seq::<char>::empty());
                }
                let text = trim_str(joined.as_str());
                if !text.as_str().is_empty() {
                    let ghost before = texts.deep_view();
                    texts.push(text);
                    assert(texts.deep_view() =~= before.push(text@));
                }
                i += 1;
            }
            assert(read.take(limit as int) =~= read);
            texts
        },
    }
}

/// A field to extract from a page: its name, and the CSS selector that picks
/// it out when one was given as text.
pub struct FieldSelector {
    pub name: String,
    pub selector: Option<String>,
}

/// The value extracted for a field.
pub enum FieldValue {
    /// The one text found.
    Single(String),
    /// All texts found, when there are none or several.
    Many(Vec<String>),
}

/// An extracted field.
pub struct ExtractedField {
    pub name: String,
    pub value: FieldValue,
}

/// The model of a `FieldValue`: one text or a list of texts.
pub enum FieldValueView {
    Single(Seq<char>),
    Many(Seq<Seq<char>>),
}

impl View for FieldValue {
    type V = FieldValueView;

    open spec fn view(&self) -> FieldValueView {
        match self {
            FieldValue::Single(s) => FieldValueView::Single(s@),
            FieldValue::Many(v) => FieldValueView::Many(v.deep_view()),
        }
    }
}

impl View for ExtractedField {
    type V = (Seq<char>, FieldValueView);

    open spec fn view(&self) -> (Seq<char>, FieldValueView) {
        (self.name@, self.value@)
    }
}

impl View for FieldSelector {
    type V = (Seq<char>, Option<Seq<char>>);

    open spec fn view(&self) -> (Seq<char>, Option<Seq<char>>) {
        (self.name@, self.selector.deep_view())
    }
}

/// The value a selector query gives a field: its one text when there is
/// exactly one, else the list of texts.
pub open spec fn field_value(texts: Seq<Seq<char>>) -> FieldValueView {
    if texts.len() == 1 {
        FieldValueView::Single(texts[0])
    } else {
        FieldValueView::Many(texts)
    }
}

/// The fields extracted from a page: one for each field that has a selector,
/// in order.
pub open spec fn structured_fields(
    html: Seq<char>,
    fields: Seq<(Seq<char>, Option<Seq<char>>)>,
) -> Seq<(Seq<char>, FieldValueView)>
    decreases fields.len(),
{
    if fields.len() == 0 {
        seq![]
    } else {
        let before = structured_fields(html, fields.drop_last());
        match fields.last().1 {
            Some(css) => before.push((fields.last().0, field_value(selector_query(html, css)))),
            None => before,
        }
    }
}

/// Extracts named fields from a page: each field that has a selector gets
/// the texts that the selector query gives, a single text standing alone.
pub fn extract_structured(html: &str, fields: &Vec<FieldSelector>) -> (extracted: Vec<
    ExtractedField,
>)
    ensures
        extracted@.map_values(|f: ExtractedField| f@) == structured_fields(
            html@,
            fields@.map_values(|f: FieldSelector| f@),
        ),
{
    let ghost all = fields@.map_values(|f: FieldSelector| f@);
    let mut extracted: Vec<ExtractedField> = Vec::new();
    let mut i: usize = 0;
    while i < fields.len()
        invariant
            i <= fields.len(),
            all == fields@.map_values(|f: FieldSelector| f@),
            extracted@.map_values(|f: ExtractedField| f@) == structured_fields(
                html@,
                all.take(i as int),
            ),
        decreases fields.len() - i,
    {
        let ghost before = extracted@.map_values(|f: ExtractedField| f@);
        assert(all.take(i + 1).drop_last() =~= all.take(i as int));
        assert(all.take(i + 1).last() == fields[i as int]@);
        let field = &fields[i];
        match &field.selector {
            Some(css) => {
                let mut texts = query_selector(html, css.as_str());
                let ghost found = texts.deep_view();
                let value = if texts.len() == 1 {
                    assert(found[0] == texts[0]@);
                    let only = texts.pop().unwrap();
                    assert(only@ == found[0]);
                    FieldValue::Single(only)
                } else {
                    FieldValue::Many(texts)
                };
                extracted.push(ExtractedField { name: field.name.clone(), value });
                assert(extracted@.map_values(|f: ExtractedField| f@) =~= before.push(
                    (field.name@, field_value(selector_query(html@, css@))),
                ));
            },
            None => {},
        }
        i += 1;
    }
    assert(all.take(fields.len() as int) =~= all);
    extracted
}

/// The readable text of a page keeps the words of its body text, in order,
/// and is collapsed: no whitespace at either end, and single spaces between
/// words.
pub proof fn lemma_page_text_is_clean(html: Seq<char>)
    ensures
        is_collapsed(page_text(html)),
        selected_text_nodes(html, "body"@) is Some && selected_text_nodes(html, "body"@).unwrap().len() > 0
            ==> words(page_text(html)) == words(
            join(readable_texts(selected_text_nodes(html, "body"@).unwrap()[0]), seq![' ']),
        ),
{
    match selected_text_nodes(html, "body"@) {
        Some(bodies) => {
            if bodies.len() > 0 {
                lemma_collapse_keeps_words(join(readable_texts(bodies[0]), seq![' ']));
            } else {
                assert(is_collapsed(page_text(html)));
            }
        },
        None => {
            assert(is_collapsed(page_text(html)));
        },
    }
}

proof fn lemma_links_of_len(elements: Seq<(Seq<Seq<char>>, Option<Seq<char>>)>, base_url: Seq<char>)
    ensures
        links_of(elements, base_url).len() <= elements.len(),
    decreases elements.len(),
{
    if elements.len() > 0 {
        lemma_links_of_len(elements.drop_last(), base_url);
    }
}

/// A page yields at most `MAX_LINKS` links, and never more than it has
/// `a[href]` elements.
pub proof fn lemma_links_bounded(html: Seq<char>, base_url: Seq<char>)
    ensures
        page_links(html, base_url).len() <= MAX_LINKS,
        selected_texts_with_attr(html, "a[href]"@, "href"@) matches Some(anchors) ==> page_links(
            html,
            base_url,
        ).len() <= anchors.len(),
{
    if let Some(anchors) = selected_texts_with_attr(html, "a[href]"@, "href"@) {
        lemma_links_of_len(anchors, base_url);
    }
}

proof fn lemma_nonempty_texts_facts(elements: Seq<Seq<TextNode>>)
    ensures
        nonempty_texts(elements).len() <= elements.len(),
        forall|i: int|
            0 <= i < nonempty_texts(elements).len() ==> {
                let t = #[trigger] nonempty_texts(elements)[i];
                &&& t.len() > 0
                &&& !is_space(t[0])
                &&& !is_space(t.last())
            },
    decreases elements.len(),
{
    if elements.len() > 0 {
        lemma_nonempty_texts_facts(elements.drop_last());
        lemma_trim_ends(concat(node_texts(elements.last())));
        let before = nonempty_texts(elements.drop_last());
        let all = nonempty_texts(elements);
        assert forall|i: int| 0 <= i < all.len() implies {
            let t = #[trigger] all[i];
            &&& t.len() > 0
            &&& !is_space(t[0])
            &&& !is_space(t.last())
        } by {
            if i < before.len() {
                assert(all[i] == before[i]);
            }
        }
    }
}

/// A valid selector query gives at most `MAX_QUERY_ELEMENTS` texts, each
/// non-empty and without whitespace at either end; an invalid one gives the
/// single message that names it.
pub proof fn lemma_query_results_bounded(html: Seq<char>, css: Seq<char>)
    ensures
        selector_query(html, css).len() <= MAX_QUERY_ELEMENTS,
        selected_text_nodes(html, css) is Some ==> forall|i: int|
            0 <= i < selector_query(html, css).len() ==> {
                let t = #[trigger] selector_query(html, css)[i];
                &&& t.len() > 0
                &&& !is_space(t[0])
                &&& !is_space(t.last())
            },
        selected_text_nodes(html, css) is None ==> selector_query(html, css) == seq![
            "Invalid selector: "@ + css,
        ],
{
    if let Some(elements) = selected_text_nodes(html, css) {
        lemma_nonempty_texts_facts(at_most(elements, MAX_QUERY_ELEMENTS as nat));
    }
}

/// How many of `fields` carry a selector.
pub open spec fn fields_with_selector(fields: Seq<(Seq<char>, Option<Seq<char>>)>) -> nat
    decreases fields.len(),
{
    if fields.len() == 0 {
        0
    } else {
        fields_with_selector(fields.drop_last()) + if fields.last().1 is Some {
            1nat
        } else {
            0nat
        }
    }
}

/// Structured extraction gives one field for each field that carries a
/// selector, under the same name and in the same order; a field whose query
/// gives exactly one text holds that text alone, any other holds the list.
pub proof fn lemma_structured_fields(
    html: Seq<char>,
    fields: Seq<(Seq<char>, Option<Seq<char>>)>,
    k: int,
)
    requires
        0 <= k < structured_fields(html, fields).len(),
    ensures
        structured_fields(html, fields).len() == fields_with_selector(fields),
        exists|j: int|
            0 <= j < fields.len() && (#[trigger] fields[j]).1 is Some && structured_fields(
                html,
                fields,
            )[k] == (fields[j].0, field_value(selector_query(html, fields[j].1.unwrap()))),
    decreases fields.len(),
{
    let out = structured_fields(html, fields);
    let init = fields.drop_last();
    let before = structured_fields(html, init);
    if k < before.len() {
        lemma_structured_fields(html, init, k);
        let j = choose|j: int|
            0 <= j < init.len() && (#[trigger] init[j]).1 is Some && before[k] == (
            init[j].0, field_value(selector_query(html, init[j].1.unwrap())));
        assert(fields[j] == init[j]);
        assert(out[k] == before[k]);
    } else {
        lemma_structured_count(html, init);
        let j = fields.len() - 1;
        assert(fields[j] == fields.last());
    }
}

proof fn lemma_structured_count(html: Seq<char>, fields: Seq<(Seq<char>, Option<Seq<char>>)>)
    ensures
        structured_fields(html, fields).len() == fields_with_selector(fields),
    decreases fields.len(),
{
    if fields.len() > 0 {
        lemma_structured_count(html, fields.drop_last());
    }
}

/// Every field that carries a selector has its entry in the structured
/// extraction, under its name, holding what its selector query gives.
pub proof fn lemma_structured_covers_fields(
    html: Seq<char>,
    fields: Seq<(Seq<char>, Option<Seq<char>>)>,
    j: int,
)
    requires
        0 <= j < fields.len(),
        fields[j].1 is Some,
    ensures
        exists|k: int|
            0 <= k < structured_fields(html, fields).len() && #[trigger] structured_fields(
                html,
                fields,
            )[k] == (fields[j].0, field_value(selector_query(html, fields[j].1.unwrap()))),
    decreases fields.len(),
{
    let out = structured_fields(html, fields);
    let init = fields.drop_last();
    let before = structured_fields(html, init);
    if j == fields.len() - 1 {
        assert(out[before.len() as int] == (fields[j].0, field_value(
            selector_query(html, fields[j].1.unwrap()),
        )));
    } else {
        assert(init[j] == fields[j]);
        lemma_structured_covers_fields(html, init, j);
        let k = choose|k: int|
            0 <= k < before.len() && #[trigger] before[k] == (init[j].0, field_value(
                selector_query(html, init[j].1.unwrap()),
            ));
        assert(out[k] == before[k]);
    }
}

/// Whether a reader sees a text node: its parent element is neither a
/// `script` nor a `style`.
pub open spec fn shown_node() -> spec_fn(TextNode) -> bool {
    |n: TextNode|
        n.0 != Some(seq!['s', 'c', 'r', 'i', 'p', 't']) && n.0 != Some(
            seq!['s', 't', 'y', 'l', 'e'],
        )
}

/// The text of a text node.
pub open spec fn text_of_node() -> spec_fn(TextNode) -> Seq<char> {
    |n: TextNode| n.1
}

/// The words of a text node.
pub open spec fn words_of_node() -> spec_fn(TextNode) -> Seq<Seq<char>> {
    |n: TextNode| words(n.1)
}

proof fn lemma_node_texts_are_texts(nodes: Seq<TextNode>)
    ensures
        node_texts(nodes) == nodes.map_values(text_of_node()),
    decreases nodes.len(),
{
    if nodes.len() > 0 {
        lemma_node_texts_are_texts(nodes.drop_last());
        assert(nodes.map_values(text_of_node()) =~= nodes.drop_last().map_values(
            text_of_node(),
        ).push(nodes.last().1));
    } else {
        assert(nodes.map_values(text_of_node()) =~= Seq::<Seq<char>>::empty());
    }
}

/// The text kept of a list of text nodes is the text of every node whose
/// parent is not a `script` or `style`, in order: no other node is dropped.
pub proof fn lemma_readable_texts_are_shown_nodes(nodes: Seq<TextNode>)
    ensures
        readable_texts(nodes) == nodes.filter(shown_node()).map_values(text_of_node()),
    decreases nodes.len(),
{
    if nodes.len() == 0 {
        reveal(Seq::filter);
        assert(nodes.filter(shown_node()).map_values(text_of_node()) =~= Seq::<
            Seq<char>,
        >::empty());
    } else {
        let init = nodes.drop_last();
        let last = nodes.last();
        lemma_readable_texts_are_shown_nodes(init);
        assert(nodes =~= init.push(last));
        init.lemma_filter_push(last, shown_node());
        let f = init.filter(shown_node());
        if shown_node()(last) {
            assert(f.push(last).map_values(text_of_node()) =~= f.map_values(text_of_node()).push(
                last.1,
            ));
        }
    }
}

/// The words of a page's readable text are exactly the words of the text
/// nodes of its first `body` whose parent is not a `script` or `style`,
/// node after node, in order.
pub proof fn lemma_page_text_words(html: Seq<char>)
    requires
        selected_text_nodes(html, "body"@) is Some,
        selected_text_nodes(html, "body"@).unwrap().len() > 0,
    ensures
        words(page_text(html)) == selected_text_nodes(html, "body"@).unwrap()[0].filter(
            shown_node(),
        ).map_values(words_of_node()).flatten(),
{
    let nodes = selected_text_nodes(html, "body"@).unwrap()[0];
    let texts = readable_texts(nodes);
    lemma_readable_texts_are_shown_nodes(nodes);
    lemma_collapse_keeps_words(join(texts, seq![' ']));
    lemma_words_of_join(texts);
    let kept = nodes.filter(shown_node());
    assert(words_of_each(texts) =~= kept.map_values(words_of_node()));
}

/// The trimmed, run-together text of a matched element.
pub open spec fn trimmed_element_text() -> spec_fn(Seq<TextNode>) -> Seq<char> {
    |e: Seq<TextNode>| trim(e.map_values(text_of_node()).flatten())
}

/// Whether a text is not empty.
pub open spec fn non_empty_text() -> spec_fn(Seq<char>) -> bool {
    |t: Seq<char>| t.len() > 0
}

proof fn lemma_nonempty_texts_filter(elements: Seq<Seq<TextNode>>)
    ensures
        nonempty_texts(elements) == elements.map_values(trimmed_element_text()).filter(
            non_empty_text(),
        ),
    decreases elements.len(),
{
    let mapped = elements.map_values(trimmed_element_text());
    if elements.len() == 0 {
        reveal(Seq::filter);
        assert(mapped.filter(non_empty_text()) =~= Seq::<Seq<char>>::empty());
    } else {
        let init = elements.drop_last();
        let last = elements.last();
        lemma_nonempty_texts_filter(init);
        lemma_node_texts_are_texts(last);
        lemma_concat_is_flatten(node_texts(last));
        assert(mapped =~= init.map_values(trimmed_element_text()).push(
            trimmed_element_text()(last),
        ));
        init.map_values(trimmed_element_text()).lemma_filter_push(
            trimmed_element_text()(last),
            non_empty_text(),
        );
    }
}

/// A query with a valid selector answers, in order, with the trimmed text
/// of every one of the first 50 matched elements whose trimmed text is not
/// empty, and with nothing else: one entry per such element.
pub proof fn lemma_query_answers_every_match(elements: Seq<Seq<TextNode>>, css: Seq<char>)
    ensures
        query_answer(Some(elements), css) == (if elements.len() <= 50 {
            elements
        } else {
            elements.take(50)
        }).map_values(trimmed_element_text()).filter(non_empty_text()),
{
    lemma_nonempty_texts_filter(at_most(elements, MAX_QUERY_ELEMENTS as nat));
}

/// Whether an anchor has an `href`.
pub open spec fn anchor_has_href() -> spec_fn((Seq<Seq<char>>, Option<Seq<char>>)) -> bool {
    |a: (Seq<Seq<char>>, Option<Seq<char>>)| a.1 is Some
}

/// The link of an anchor with an `href`: the `href` joined to `base_url`
/// when the two join into a URL, else the `href` itself; and the trimmed
/// text of the anchor.
pub open spec fn anchor_link(base_url: Seq<char>) -> spec_fn(
    (Seq<Seq<char>>, Option<Seq<char>>),
) -> LinkView {
    |a: (Seq<Seq<char>>, Option<Seq<char>>)|
        LinkView {
            href: match joined_url(base_url, a.1.unwrap()) {
                Some(url) => url,
                None => a.1.unwrap(),
            },
            text: trim(a.0.flatten()),
        }
}

proof fn lemma_links_of_filter(
    anchors: Seq<(Seq<Seq<char>>, Option<Seq<char>>)>,
    base_url: Seq<char>,
)
    ensures
        links_of(anchors, base_url) == anchors.filter(anchor_has_href()).map_values(
            anchor_link(base_url),
        ),
    decreases anchors.len(),
{
    if anchors.len() == 0 {
        reveal(Seq::filter);
        assert(anchors.filter(anchor_has_href()).map_values(anchor_link(base_url)) =~= Seq::<
            LinkView,
        >::empty());
    } else {
        let init = anchors.drop_last();
        let last = anchors.last();
        lemma_links_of_filter(init, base_url);
        assert(anchors =~= init.push(last));
        init.lemma_filter_push(last, anchor_has_href());
        let f = init.filter(anchor_has_href());
        if last.1 is Some {
            lemma_concat_is_flatten(last.0);
            assert(f.push(last).map_values(anchor_link(base_url)) =~= f.map_values(
                anchor_link(base_url),
            ).push(anchor_link(base_url)(last)));
        }
    }
}

/// Every anchor with an `href` gives a link, up to the first 100: the
/// links are, in order, those of the anchors that have an `href`, cut to
/// 100, and the i-th is the resolved `href` and trimmed text of the i-th
/// such anchor.
pub proof fn lemma_every_anchor_gives_a_link(
    anchors: Seq<(Seq<Seq<char>>, Option<Seq<char>>)>,
    base_url: Seq<char>,
)
    ensures
        ({
            let all = anchors.filter(anchor_has_href()).map_values(anchor_link(base_url));
            let links = anchor_links(Some(anchors), base_url);
            &&& links.len() == if all.len() < 100 {
                all.len()
            } else {
                100
            }
            &&& forall|i: int| 0 <= i < links.len() ==> links[i] == all[i]
        }),
{
    lemma_links_of_filter(anchors, base_url);
}

/// Each field that carries a selector has an entry under its name holding
/// the texts of its selector query: the one text alone when there is
/// exactly one, and otherwise the whole list, none left out.
pub proof fn lemma_structured_entry_holds_all_texts(
    html: Seq<char>,
    fields: Seq<(Seq<char>, Option<Seq<char>>)>,
    j: int,
)
    requires
        0 <= j < fields.len(),
        fields[j].1 is Some,
    ensures
        exists|k: int|
            0 <= k < structured_fields(html, fields).len() && (#[trigger] structured_fields(
                html,
                fields,
            )[k]).0 == fields[j].0 && ({
                let q = selector_query(html, fields[j].1.unwrap());
                &&& q.len() == 1 ==> structured_fields(html, fields)[k].1
                    == FieldValueView::Single(q[0])
                &&& q.len() != 1 ==> structured_fields(html, fields)[k].1
                    == FieldValueView::Many(q)
            }),
{
    lemma_structured_covers_fields(html, fields, j);
    let q = selector_query(html, fields[j].1.unwrap());
    let k = choose|k: int|
        0 <= k < structured_fields(html, fields).len() && #[trigger] structured_fields(
            html,
            fields,
        )[k] == (fields[j].0, field_value(q));
    assert(structured_fields(html, fields)[k].0 == fields[j].0);
}

/// The title is the whole text of the first `title` element: all its text
/// nodes run together, nothing cut.
pub proof fn lemma_title_is_whole_text(elements: Seq<Seq<TextNode>>)
    requires
        elements.len() > 0,
    ensures
        first_text(Some(elements)) == Some(elements[0].map_values(text_of_node()).flatten()),
{
    lemma_node_texts_are_texts(elements[0]);
    lemma_concat_is_flatten(node_texts(elements[0]));
}

/// There is no title when no `title` element is found.
pub proof fn lemma_no_title_without_title_element(found: Option<Seq<Seq<TextNode>>>)
    requires
        found matches Some(elements) ==> elements.len() == 0,
    ensures
        first_text(found) == Option::<Seq<char>>::None,
{
}

/// An attribute field of the metadata is the attribute of the first
/// element found, whole: absent when nothing is found or when that first
/// element lacks the attribute, whatever later elements hold.
pub proof fn lemma_attr_of_first_element(found: Option<Seq<(Seq<Seq<char>>, Option<Seq<char>>)>>)
    ensures
        first_attr(found) == match found {
            Some(elements) => if elements.len() > 0 {
                elements[0].1
            } else {
                None
            },
            None => None,
        },
{
}

} // verus!
