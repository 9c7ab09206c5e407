use roddna_core::profile::profile_len;
use roddna_core::selection::filters_accept;
use roddna_core::server::{action_from_word, names_containing, names_equal, ActionClass};
use roddna_core::taper::{
    classify_source, is_hex_const_type, is_hex_lowercase, join_model_key, model_parts,
    PlaningFormGeometry,
    SectionGeometry, Taper,
};
use roddna_core::text::{
    chars_of, contains_chars, is_whitespace, eq_chars, eq_ignore_ascii_case_chars, first_token_of,
    first_two_words, lt_chars, push_decimal, starts_with_chars, string_from_chars,
    trim_marked, trim_non_alphanumeric, trim_whitespace,
};

fn v(s: &str) -> Vec<char> {
    s.chars().collect()
}

#[test]
fn profile_len_drops_trailing_zero_padding_only() {
    let z = |b: &[bool]| b.to_vec();
    assert_eq!(profile_len(4, 4, &z(&[false, false, false, true])), 3);
    assert_eq!(profile_len(5, 5, &z(&[false, true, false, true, true])), 3);
    // The first point is always kept.
    assert_eq!(profile_len(3, 3, &z(&[true, true, true])), 1);
    // The shorter array bounds the profile.
    assert_eq!(profile_len(2, 4, &z(&[false, false, true, true])), 2);
    assert_eq!(profile_len(0, 3, &z(&[false, false, false])), 0);
}

#[test]
fn char_helpers_search_and_compare() {
    assert_eq!(chars_of("ab\u{e9}"), v("ab\u{e9}"));
    assert_eq!(string_from_chars(&v("Tip")), "Tip");
    assert!(contains_chars(&v("two piece quad"), &v("quad")));
    assert!(contains_chars(&v("abc"), &v("")));
    assert!(!contains_chars(&v("qua"), &v("quad")));
    assert!(starts_with_chars(&v("hexagonal"), &v("hex")));
    assert!(!starts_with_chars(&v("penta hex"), &v("hex")));
    assert!(eq_ignore_ascii_case_chars(&v("GaRRison"), &v("garrison")));
    assert!(!eq_ignore_ascii_case_chars(&v("Garrison"), &v("Garison")));
    assert!(eq_chars(&v("None"), &v("None")));
    assert!(!eq_chars(&v("None"), &v("none")));
    assert!(lt_chars(&v("Fly-Rod"), &v("Spey-Rod")));
    assert!(lt_chars(&v("Fly"), &v("Fly-Rod")));
    assert!(!lt_chars(&v("Fly-Rod"), &v("Fly-Rod")));
    assert!(!lt_chars(&v("b"), &v("a")));
}

#[test]
fn trimming_and_tokens() {
    assert_eq!(trim_non_alphanumeric(&v("'Payne,'")), v("Payne"));
    assert_eq!(trim_non_alphanumeric(&v("--")), v(""));
    assert_eq!(trim_whitespace(&v("  13 \t")), v("13"));
    assert_eq!(first_token_of(&v("Payne 98,x")), v("Payne"));
    assert_eq!(first_token_of(&v(",Payne")), v(""));
    assert_eq!(
        first_two_words(&v(" , Payne,,98 7'")),
        Some((v("Payne"), v("98")))
    );
    assert_eq!(first_two_words(&v("Payne , ")), None);
}

#[test]
fn decimal_digits() {
    let mut s = String::from("Mid ");
    push_decimal(&mut s, 0);
    assert_eq!(s, "Mid 0");
    let mut s = String::new();
    push_decimal(&mut s, 4096);
    assert_eq!(s, "4096");
}

#[test]
fn classification_after_lowercasing() {
    assert_eq!(classify_source("RodDNA v2.0", "roddna v2.0"), "RodDNA");
    // Classification reads the lower-cased form only.
    assert_eq!(classify_source("RodDNA v2.0", "RodDNA v2.0"), "RodDNA v2.0");
    assert_eq!(classify_source("x", "bamboo taper sheets"), "Taper Sheets");
    assert_eq!(PlaningFormGeometry::from_lowercase("quad"), Some(PlaningFormGeometry::Quad));
    assert_eq!(PlaningFormGeometry::from_lowercase("Hex"), None);
    assert_eq!(SectionGeometry::from_lowercase("penta quad"), SectionGeometry::Penta);
    assert!(is_hex_lowercase("hex"));
    assert!(!is_hex_lowercase("HEX"));
    assert_eq!(join_model_key("payne", "98"), "payne 98");
    assert_eq!(model_parts("Payne 98 7'"), Some((v("Payne"), v("98"))));
    assert_eq!(model_parts("Payne"), None);
}

#[test]
fn action_words_and_name_filters() {
    assert_eq!(action_from_word("tip"), Ok(ActionClass::Fast));
    assert_eq!(
        action_from_word("Fast"),
        Err("unknown action \"Fast\" \u{2014} use fast, medium, or full".to_string())
    );
    let models = vec![
        Taper { name: Some("Zeitner Switch Spey".to_string()), ..Default::default() },
        Taper::default(),
        Taper { name: Some("Payne 98".to_string()), ..Default::default() },
    ];
    assert_eq!(names_containing(&models, "spey"), vec![0]);
    assert_eq!(names_containing(&models, ""), vec![0, 1, 2]);
    assert_eq!(names_equal(&models, "Payne 98"), vec![2]);
    assert!(names_equal(&models, "payne 98").is_empty());
    assert!(filters_accept("payne 98", Some("payne"), Some("Fly-Rod"), "Fly-Rod"));
    assert!(!filters_accept("payne 98", Some("PAYNE"), None, ""));
    assert!(filters_accept("payne 98", None, None, ""));
}

#[test]
fn trim_marked_removes_marked_ends_only() {
    let s = v("xabx");
    assert_eq!(trim_marked(&s, &vec![true, false, true, true]), v("a"));
    assert_eq!(trim_marked(&s, &vec![false, true, true, false]), v("xabx"));
    assert_eq!(trim_marked(&s, &vec![true, true, true, true]), v(""));
}

#[test]
fn hex_ferrule_check_agrees_with_planing_hex() {
    for ct in ["Hex", "HEXQUAD", "Quad", "Penta", "hexagon", "Two Piece Quad", ""] {
        assert_eq!(
            is_hex_const_type(Some(ct)),
            PlaningFormGeometry::for_const_type(Some(ct)) == Some(PlaningFormGeometry::Hex)
        );
    }
}

#[test]
fn maker_is_the_first_word_of_the_model_key() {
    for name in ["Payne 98 7'6\"", "Garrison,212", "'Leonard' 50 DF"] {
        let t = Taper { name: Some(name.to_string()), ..Default::default() };
        let maker = t.maker().unwrap();
        let key = t.model_key().unwrap();
        assert!(key.starts_with(&maker.to_lowercase()));
    }
}

#[test]
fn whitespace_is_the_unicode_white_space_set() {
    for c in ['\t', '\n', '\u{0B}', '\u{0C}', '\r', ' ', '\u{85}', '\u{A0}', '\u{1680}', '\u{2000}',
              '\u{200A}', '\u{2028}', '\u{2029}', '\u{202F}', '\u{205F}', '\u{3000}'] {
        assert!(is_whitespace(c), "{:?}", c);
    }
    for c in ['a', '0', '\u{200B}', '\u{FEFF}', '\u{180E}', '_', '\u{1F}'] {
        assert!(!is_whitespace(c), "{:?}", c);
    }
    assert_eq!(trim_whitespace(&v("\u{3000}13\u{A0}")), v("13"));
}
