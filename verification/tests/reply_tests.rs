use mcp_browser::encoding::decimal_string;
use mcp_browser::page::{FieldSelector, FieldValue};
use mcp_browser::reply::{
    click_reply, error_reply, found_reply, links_reply, media_reply, metadata_reply,
    navigate_reply, query_reply, read_page_reply, structured_reply, text_reply, typed_reply,
    wait_timeout_ms, DEFAULT_WAIT_TIMEOUT_MS,
};

#[test]
fn error_reply_is_prefixed() {
    assert_eq!(error_reply("net::ERR_NAME_NOT_RESOLVED"), "Error: net::ERR_NAME_NOT_RESOLVED");
    assert_eq!(error_reply(""), "Error: ");
}

#[test]
fn read_page_reply_cases() {
    assert_eq!(read_page_reply(Ok("<body> Example   Domain </body>".to_string())), "Example Domain");
    assert_eq!(read_page_reply(Err("boom".to_string())), "Error: boom");
}

#[test]
fn text_reply_cases() {
    assert_eq!(text_reply(Ok("<html></html>".to_string())), "<html></html>");
    assert_eq!(text_reply(Err("x".to_string())), "Error: x");
}

#[test]
fn media_reply_encodes_base64() {
    let m = media_reply("png", Ok(b"hello".to_vec())).unwrap();
    assert_eq!(m.format, "png");
    assert_eq!(m.size_bytes, 5);
    assert_eq!(m.base64, "aGVsbG8=");
    let m = media_reply("pdf", Ok(b"hell".to_vec())).unwrap();
    assert_eq!(m.base64, "aGVsbA==");
    let m = media_reply("pdf", Ok(b"hel".to_vec())).unwrap();
    assert_eq!(m.base64, "aGVs");
    let m = media_reply("pdf", Ok(vec![0xfb, 0xff, 0x00])).unwrap();
    assert_eq!(m.base64, "+/8A");
    let m = media_reply("png", Ok(Vec::new())).unwrap();
    assert_eq!(m.base64, "");
    assert_eq!(m.size_bytes, 0);
}

#[test]
fn media_reply_length_is_four_per_three_bytes_begun() {
    for n in 0..20usize {
        let m = media_reply("png", Ok(vec![7u8; n])).unwrap();
        assert_eq!(m.base64.len(), 4 * ((n + 2) / 3));
    }
}

#[test]
fn media_reply_error() {
    match media_reply("png", Err("no tab".to_string())) {
        Err(e) => assert_eq!(e, "Error: no tab"),
        Ok(_) => panic!("expected an error"),
    }
}

#[test]
fn click_reply_counts_characters() {
    assert_eq!(
        click_reply(".btn-submit", Ok("héllo".to_string())),
        "Clicked '.btn-submit'. Page has 5 chars after click."
    );
    assert_eq!(click_reply(".b", Ok("<p>é</p>".to_string())), "Clicked '.b'. Page has 8 chars after click.");
    assert_eq!(click_reply("a", Ok(String::new())), "Clicked 'a'. Page has 0 chars after click.");
    assert_eq!(click_reply("a", Err("gone".to_string())), "Error: gone");
}

#[test]
fn typed_and_found_replies() {
    assert_eq!(typed_reply("input[name=email]", Ok(())), "Typed into 'input[name=email]'");
    assert_eq!(typed_reply("x", Err("e".to_string())), "Error: e");
    assert_eq!(found_reply(".results-loaded", Ok(())), "Element '.results-loaded' found");
    assert_eq!(found_reply("x", Err("Timeout waiting for element".to_string())), "Error: Timeout waiting for element");
}

#[test]
fn wait_timeout_default() {
    assert_eq!(wait_timeout_ms(None), 5000);
    assert_eq!(DEFAULT_WAIT_TIMEOUT_MS, 5000);
    assert_eq!(wait_timeout_ms(Some(12)), 12);
}

#[test]
fn navigate_reply_cases() {
    let html = "<html><head><title>Rust Programming Language</title></head><body>é</body></html>".to_string();
    let len = html.len();
    let visit = navigate_reply("https://www.rust-lang.org", Ok(html), 1243).unwrap();
    assert_eq!(visit.url, "https://www.rust-lang.org");
    assert_eq!(visit.title.as_deref(), Some("Rust Programming Language"));
    assert_eq!(visit.load_time_ms, 1243);
    assert_eq!(visit.size_bytes, len);
    match navigate_reply("u", Err("down".to_string()), 3) {
        Err(e) => assert_eq!(e, "Error: down"),
        Ok(_) => panic!("expected an error"),
    }
}

#[test]
fn decimal_string_cases() {
    assert_eq!(decimal_string(0), "0");
    assert_eq!(decimal_string(9), "9");
    assert_eq!(decimal_string(10), "10");
    assert_eq!(decimal_string(15234), "15234");
    assert_eq!(decimal_string(u128::MAX), u128::MAX.to_string());
}

#[test]
fn links_reply_cases() {
    let links = links_reply(Ok("<a href='/a'>A</a>".to_string()), "https://e.com/x").unwrap();
    assert_eq!(links.len(), 1);
    assert_eq!(links[0].href, "https://e.com/a");
    match links_reply(Err("net::ERR_NAME_NOT_RESOLVED".to_string()), "https://e.com") {
        Err(e) => assert_eq!(e, "Error: net::ERR_NAME_NOT_RESOLVED"),
        Ok(_) => panic!("expected an error"),
    }
}

#[test]
fn metadata_reply_cases() {
    let meta = metadata_reply(Ok("<title>T</title>".to_string())).unwrap();
    assert_eq!(meta.title.as_deref(), Some("T"));
    match metadata_reply(Err("down".to_string())) {
        Err(e) => assert_eq!(e, "Error: down"),
        Ok(_) => panic!("expected an error"),
    }
}

#[test]
fn query_reply_cases() {
    let texts = query_reply(Ok("<p>a</p><p>b</p>".to_string()), "p").unwrap();
    assert_eq!(texts, vec!["a".to_string(), "b".to_string()]);
    match query_reply(Ok("<p>a</p>".to_string()), "!!!") {
        Err(e) => assert_eq!(e, "Error: Invalid selector: !!!"),
        Ok(_) => panic!("expected an error"),
    }
    match query_reply(Err("down".to_string()), "p") {
        Err(e) => assert_eq!(e, "Error: down"),
        Ok(_) => panic!("expected an error"),
    }
}

#[test]
fn structured_reply_cases() {
    let fields = vec![FieldSelector { name: "h".to_string(), selector: Some("h1".to_string()) }];
    let out = structured_reply(Ok("<h1>Hi</h1>".to_string()), &fields).unwrap();
    assert_eq!(out.len(), 1);
    assert!(matches!(&out[0].value, FieldValue::Single(s) if s == "Hi"));
    match structured_reply(Err("down".to_string()), &fields) {
        Err(e) => assert_eq!(e, "Error: down"),
        Ok(_) => panic!("expected an error"),
    }
}

#[test]
fn media_reply_base64_decodes_to_the_bytes() {
    for n in 0..40usize {
        let bytes: Vec<u8> = (0..n).map(|i| (i * 37 + 11) as u8).collect();
        let m = media_reply("png", Ok(bytes.clone())).unwrap();
        let decoded = base64::Engine::decode(&base64::engine::general_purpose::STANDARD, m.base64.as_bytes()).unwrap();
        assert_eq!(decoded, bytes);
        assert_eq!(m.size_bytes, n);
    }
}
