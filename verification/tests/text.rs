use chronon_spectra_telemetry::text::{
    chars_of, is_whitespace, lower_char_is, lower_contains, str_eq, trim_bounds,
};

#[test]
fn whitespace_matches_char_is_whitespace() {
    for code in 0u32..0x3100 {
        if let Some(c) = char::from_u32(code) {
            assert_eq!(is_whitespace(c), c.is_whitespace(), "U+{code:04X}");
        }
    }
}

#[test]
fn trim_matches_str_trim() {
    for s in ["", "   ", " a ", "\u{2028}x y\u{3000}", "abc", "\t\n a\u{85}"] {
        let v = chars_of(s);
        let (lo, hi) = trim_bounds(&v);
        let t: String = v[lo..hi].iter().collect();
        assert_eq!(t, s.trim());
    }
}

#[test]
fn ascii_folding_and_search() {
    for code in 0u32..0x250 {
        if let Some(c) = char::from_u32(code) {
            assert!(lower_char_is(c, c.to_ascii_lowercase()));
        }
    }
    assert!(!lower_char_is('É', 'é'));
    let v = chars_of("Failed To VALENCE");
    assert!(lower_contains(&v, "valence"));
    assert!(lower_contains(&v, ""));
    assert!(!lower_contains(&v, "Valence"));
    assert!(str_eq("a", "a"));
    assert!(!str_eq("a", "ab"));
}
