use mcp_browser::text::{chars_of, collapse_whitespace_str, is_whitespace_char, join_strings, trim_str};

#[test]
fn whitespace_matches_std() {
    for n in 0u32..=0x10FFFF {
        if let Some(c) = char::from_u32(n) {
            assert_eq!(is_whitespace_char(c), c.is_whitespace(), "char {:#x}", n);
        }
    }
    for c in ['\u{FEFF}', '\u{200B}', '\u{10FFFF}', 'a'] {
        assert_eq!(is_whitespace_char(c), c.is_whitespace());
    }
}

#[test]
fn collapse_matches_split_whitespace() {
    let samples = ["", "   ", "a", " a  b\t\nc ", "\u{2003}x\u{2028}y\u{85}", "one two"];
    for s in samples {
        let expected = s.split_whitespace().collect::<Vec<_>>().join(" ");
        assert_eq!(collapse_whitespace_str(s), expected);
    }
}

#[test]
fn collapse_is_idempotent_on_samples() {
    let once = collapse_whitespace_str("  x \n\n y  z ");
    assert_eq!(once, "x y z");
    assert_eq!(collapse_whitespace_str(&once), once);
}

#[test]
fn trim_matches_std() {
    let samples = ["", "  ", " a ", "\u{3000}b c\u{A0}", "x"];
    for s in samples {
        assert_eq!(trim_str(s), s.trim());
    }
}

#[test]
fn join_strings_cases() {
    let parts = vec!["a".to_string(), "b".to_string(), "".to_string()];
    assert_eq!(join_strings(&parts, ", "), "a, b, ");
    assert_eq!(join_strings(&Vec::new(), "-"), "");
    assert_eq!(join_strings(&vec!["only".to_string()], "-"), "only");
}

#[test]
fn chars_of_keeps_order() {
    assert_eq!(chars_of("héllo"), vec!['h', 'é', 'l', 'l', 'o']);
}
