use mcp_browser::page::{
    extract_links, extract_metadata, extract_structured, first_attr_of, first_text_of,
    html_to_text, links_of_anchors, query_selector, query_texts, readable_texts_of,
    resolve_link, text_of_bodies, texts_of_nodes, FieldSelector, FieldValue, MAX_LINKS,
    MAX_QUERY_ELEMENTS,
};

fn node(parent: Option<&str>, text: &str) -> (Option<String>, String) {
    (parent.map(String::from), text.to_string())
}

#[test]
fn html_to_text_collapses_body_whitespace() {
    let html = "<html><head><title>T</title></head><body><p>Hello   world</p>\n<div>\tagain </div></body></html>";
    assert_eq!(html_to_text(html), "Hello world again");
}

#[test]
fn html_to_text_separates_adjacent_text_nodes() {
    let html = "<body><b>one</b><i>two</i></body>";
    assert_eq!(html_to_text(html), "one two");
}

#[test]
fn html_to_text_of_empty_page_is_empty() {
    assert_eq!(html_to_text(""), "");
    assert_eq!(html_to_text("<html><body>   \n </body></html>"), "");
}

#[test]
fn html_to_text_leaves_title_out() {
    let html = "<html><head><title>Head</title></head><body>Body text</body></html>";
    assert_eq!(html_to_text(html), "Body text");
}

#[test]
fn html_to_text_is_clean() {
    let html = "<body>  a\u{00A0}\u{00A0}b \n\n c\u{3000}</body>";
    let text = html_to_text(html);
    assert_eq!(text, "a b c");
    assert_eq!(text.trim(), text);
    assert!(!text.contains("  "));
}

#[test]
fn extract_links_resolves_and_trims() {
    let html = r#"<body><a href="/about">  About us </a><a href="https://x.org/p">X</a><a>none</a><a href="rel">R</a><a href="../up">U</a></body>"#;
    let links = extract_links(html, "https://example.com/dir/index.html");
    assert_eq!(links.len(), 4);
    assert_eq!(links[0].href, "https://example.com/about");
    assert_eq!(links[0].text, "About us");
    assert_eq!(links[1].href, "https://x.org/p");
    assert_eq!(links[1].text, "X");
    assert_eq!(links[2].href, "https://example.com/dir/rel");
    assert_eq!(links[2].text, "R");
    assert_eq!(links[3].href, "https://example.com/up");
}

#[test]
fn extract_links_resolves_relative_page() {
    let links = extract_links("<a href='page.html'>P</a>", "https://ex.com/dir/");
    assert_eq!(links.len(), 1);
    assert_eq!(links[0].href, "https://ex.com/dir/page.html");
    assert_eq!(links[0].text, "P");
}

#[test]
fn extract_links_resolves_http_looking_relative_href() {
    let html = r#"<a href="httpfoo">a</a>"#;
    let links = extract_links(html, "https://e.com");
    assert_eq!(links[0].href, "https://e.com/httpfoo");
}

#[test]
fn extract_links_stops_at_the_limit() {
    let mut html = String::from("<body>");
    for i in 0..150 {
        html.push_str(&format!("<a href=\"/p{}\">link {}</a>", i, i));
    }
    html.push_str("</body>");
    let links = extract_links(&html, "https://e.com");
    assert_eq!(links.len(), MAX_LINKS);
    assert_eq!(links[0].href, "https://e.com/p0");
    assert_eq!(links[99].href, "https://e.com/p99");
    assert_eq!(links[99].text, "link 99");
}

#[test]
fn extract_links_of_page_without_links() {
    assert!(extract_links("<p>nothing</p>", "https://e.com").is_empty());
}

#[test]
fn resolve_link_cases() {
    assert_eq!(resolve_link("http://a.b/c", "https://z.org/"), "http://a.b/c");
    assert_eq!(resolve_link("/x", "https://z.org///"), "https://z.org/x");
    assert_eq!(resolve_link("x", "https://z.org"), "https://z.org/x");
    assert_eq!(resolve_link("newest", "https://news.ycombinator.com"), "https://news.ycombinator.com/newest");
    assert_eq!(resolve_link("?q=1", "https://z.org/a/b"), "https://z.org/a/b?q=1");
    assert_eq!(resolve_link("#top", ""), "#top");
    assert_eq!(resolve_link("x", "not a url"), "x");
}

#[test]
fn extract_metadata_reads_all_fields() {
    let html = r#"<html><head><title> My  Page </title>
        <meta name="description" content="A page.">
        <meta property="og:title" content="OG T">
        <meta property="og:image" content="https://i/img.png">
        <link rel="canonical" href="https://e.com/page">
        </head><body></body></html>"#;
    let meta = extract_metadata(html);
    assert_eq!(meta.title.as_deref(), Some(" My  Page "));
    assert_eq!(meta.description.as_deref(), Some("A page."));
    assert_eq!(meta.og_title.as_deref(), Some("OG T"));
    assert_eq!(meta.og_image.as_deref(), Some("https://i/img.png"));
    assert_eq!(meta.canonical.as_deref(), Some("https://e.com/page"));
}

#[test]
fn extract_metadata_of_bare_page() {
    let meta = extract_metadata("<p>hi</p>");
    assert_eq!(meta.title, None);
    assert_eq!(meta.description, None);
    assert_eq!(meta.og_title, None);
    assert_eq!(meta.og_image, None);
    assert_eq!(meta.canonical, None);
}

#[test]
fn extract_metadata_takes_only_the_first_match() {
    let html = r#"<head><meta name="description"><meta name="description" content="second"></head>"#;
    assert_eq!(extract_metadata(html).description, None);
}

#[test]
fn query_selector_trims_and_drops_empty() {
    let html = "<ul><li> a </li><li>   </li><li>b<span> c</span></li></ul>";
    assert_eq!(query_selector(html, "li"), vec!["a".to_string(), "b c".to_string()]);
}

#[test]
fn query_selector_reports_invalid_selector() {
    assert_eq!(query_selector("<p>x</p>", "!!!"), vec!["Invalid selector: !!!".to_string()]);
}

#[test]
fn query_selector_reads_at_most_fifty() {
    let mut html = String::new();
    for i in 0..60 {
        html.push_str(&format!("<p>{}</p>", i));
    }
    let found = query_selector(&html, "p");
    assert_eq!(found.len(), MAX_QUERY_ELEMENTS);
    assert_eq!(found[49], "49");
}

#[test]
fn query_selector_limit_counts_empty_elements() {
    let mut html = String::new();
    for _ in 0..50 {
        html.push_str("<p> </p>");
    }
    html.push_str("<p>late</p>");
    assert!(query_selector(&html, "p").is_empty());
}

#[test]
fn extract_structured_single_and_many() {
    let html = "<h1>Title</h1><span class=p>1</span><span class=p>2</span>";
    let fields = vec![
        FieldSelector { name: "title".to_string(), selector: Some("h1".to_string()) },
        FieldSelector { name: "skipped".to_string(), selector: None },
        FieldSelector { name: "prices".to_string(), selector: Some(".p".to_string()) },
        FieldSelector { name: "none".to_string(), selector: Some("table".to_string()) },
    ];
    let out = extract_structured(html, &fields);
    assert_eq!(out.len(), 3);
    assert_eq!(out[0].name, "title");
    assert!(matches!(&out[0].value, FieldValue::Single(s) if s == "Title"));
    assert_eq!(out[1].name, "prices");
    assert!(matches!(&out[1].value, FieldValue::Many(v) if v == &vec!["1".to_string(), "2".to_string()]));
    assert_eq!(out[2].name, "none");
    assert!(matches!(&out[2].value, FieldValue::Many(v) if v.is_empty()));
}

#[test]
fn extract_structured_invalid_selector_gives_single_message() {
    let fields = vec![FieldSelector { name: "bad".to_string(), selector: Some("[[".to_string()) }];
    let out = extract_structured("<p>x</p>", &fields);
    assert!(matches!(&out[0].value, FieldValue::Single(s) if s == "Invalid selector: [["));
}

#[test]
fn html_to_text_leaves_out_scripts_and_styles() {
    let html = "<html><body><script>var x = 1;</script><style>p { color: red }</style><p>Shown</p><noscript>kept</noscript></body></html>";
    assert_eq!(html_to_text(html), "Shown kept");
}

#[test]
fn query_selector_keeps_script_text() {
    let html = "<body><div><script>go()</script></div></body>";
    assert_eq!(query_selector(html, "div"), vec!["go()".to_string()]);
}

#[test]
fn text_of_bodies_cases() {
    let bodies = Some(vec![
        vec![node(Some("p"), " Hello "), node(Some("script"), "x()"), node(Some("b"), "world\n")],
        vec![node(Some("p"), "second body")],
    ]);
    assert_eq!(text_of_bodies(&bodies), "Hello world");
    assert_eq!(text_of_bodies(&Some(Vec::new())), "");
    assert_eq!(text_of_bodies(&None), "");
}

#[test]
fn readable_and_all_texts_of_nodes() {
    let nodes = vec![node(Some("style"), "a{}"), node(None, "x"), node(Some("span"), "y"), node(Some("scripts"), "z")];
    assert_eq!(readable_texts_of(&nodes), vec!["x".to_string(), "y".to_string(), "z".to_string()]);
    assert_eq!(texts_of_nodes(&nodes), vec!["a{}".to_string(), "x".to_string(), "y".to_string(), "z".to_string()]);
}

#[test]
fn links_of_anchors_cases() {
    let anchors = Some(vec![
        (vec![" a ".to_string(), "b".to_string()], Some("/x".to_string())),
        (vec!["skip".to_string()], None),
        (vec![], Some("http://y".to_string())),
    ]);
    let links = links_of_anchors(&anchors, "https://e.org/");
    assert_eq!(links.len(), 2);
    assert_eq!(links[0].href, "https://e.org/x");
    assert_eq!(links[0].text, "a b");
    assert_eq!(links[1].href, "http://y/");
    assert_eq!(links[1].text, "");
    assert!(links_of_anchors(&None, "https://e.org").is_empty());
}

#[test]
fn query_texts_cases() {
    let found = Some(vec![vec![node(Some("li"), " one "), node(Some("b"), "two")], vec![node(Some("li"), "  ")]]);
    assert_eq!(query_texts(&found, "li"), vec!["one two".to_string()]);
    assert_eq!(query_texts(&None, "a[["), vec!["Invalid selector: a[[".to_string()]);
}

#[test]
fn first_text_and_attr_cases() {
    let found = Some(vec![vec![node(Some("title"), "A "), node(Some("i"), "B")], vec![node(Some("title"), "C")]]);
    assert_eq!(first_text_of(&found).as_deref(), Some("A B"));
    assert_eq!(first_text_of(&Some(Vec::new())), None);
    assert_eq!(first_text_of(&None), None);
    let attrs = Some(vec![(vec![], Some("v".to_string())), (vec![], Some("w".to_string()))]);
    assert_eq!(first_attr_of(&attrs).as_deref(), Some("v"));
    assert_eq!(first_attr_of(&Some(vec![(vec![], None)])), None);
    assert_eq!(first_attr_of(&None), None);
}
