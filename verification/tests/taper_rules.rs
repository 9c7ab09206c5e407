use roddna_core::taper::{
    ferrule_size_is_set, ferrule_weight_index, is_hex_const_type, PlaningFormGeometry, Provenance,
    SectionGeometry, SolveParams, Taper,
};

fn with_source(s: &str) -> Taper {
    Taper {
        provenance: Some(Provenance {
            source: Some(s.to_string()),
            ..Default::default()
        }),
        ..Default::default()
    }
}

fn named(s: &str) -> Taper {
    Taper {
        name: Some(s.to_string()),
        ..Default::default()
    }
}

#[test]
fn source_group_collapses_versions_and_recognises_libraries() {
    assert_eq!(
        with_source("RodDNA v1.4 update").source_group().as_deref(),
        Some("RodDNA")
    );
    assert_eq!(
        with_source("RodDNA v2.0").source_group().as_deref(),
        Some("RodDNA")
    );
    assert_eq!(
        with_source("David Ray's Taper Library (Hexrod)")
            .source_group()
            .as_deref(),
        Some("Hexrod")
    );
    assert_eq!(
        with_source("2019 Bamboo Taper Sheets (Tom Morgan)")
            .source_group()
            .as_deref(),
        Some("Taper Sheets")
    );
    // Unknown source falls back to the raw string; no source -> None.
    assert_eq!(
        with_source("Some Future Library").source_group().as_deref(),
        Some("Some Future Library")
    );
    assert_eq!(Taper::default().source_group(), None);
}

#[test]
fn source_group_recognises_bob_clay_and_prefers_hexrod() {
    assert_eq!(
        with_source("Bamboo Rod Building with BOB CLAY").source_group().as_deref(),
        Some("Bob Clay")
    );
    // Hexrod is checked before RodDNA.
    assert_eq!(
        with_source("roddna via hexrod").source_group().as_deref(),
        Some("Hexrod")
    );
    let no_source = Taper {
        provenance: Some(Provenance::default()),
        ..Default::default()
    };
    assert_eq!(no_source.source_group(), None);
}

#[test]
fn maker_is_first_name_token_trimmed() {
    assert_eq!(named("Garrison 212 8' 5wt").maker().as_deref(), Some("Garrison"));
    assert_eq!(named("Payne,98").maker().as_deref(), Some("Payne"));
    assert_eq!(named("\"Leonard\" 50").maker().as_deref(), Some("Leonard"));
    // A leading separator leaves an empty first piece.
    assert_eq!(named(" Payne 98").maker(), None);
    assert_eq!(named("--- x").maker(), None);
    assert_eq!(Taper::default().maker(), None);
}

#[test]
fn model_key_uses_first_two_words_lowercased() {
    assert_eq!(
        named("Payne 98 7'6\" 5wt").model_key().as_deref(),
        Some("payne 98")
    );
    assert_eq!(
        named("  Garrison,, 212 8'").model_key().as_deref(),
        Some("garrison 212")
    );
    assert_eq!(named("Dickerson").model_key(), None);
    assert_eq!(named("Payne --").model_key(), None);
    assert_eq!(Taper::default().model_key(), None);
}

#[test]
fn planing_geometry_for_const_type() {
    assert_eq!(
        PlaningFormGeometry::for_const_type(Some("Hex")),
        Some(PlaningFormGeometry::Hex)
    );
    assert_eq!(
        PlaningFormGeometry::for_const_type(Some("QUAD")),
        Some(PlaningFormGeometry::Quad)
    );
    assert_eq!(
        PlaningFormGeometry::for_const_type(Some("Two Piece Quad")),
        Some(PlaningFormGeometry::Quad)
    );
    assert_eq!(
        PlaningFormGeometry::for_const_type(Some("Penta")),
        Some(PlaningFormGeometry::Penta)
    );
    assert_eq!(PlaningFormGeometry::for_const_type(Some("Rectangular")), None);
    assert_eq!(PlaningFormGeometry::for_const_type(None), None);
}

#[test]
fn section_geometry_for_const_type_defaults_to_hex() {
    assert_eq!(SectionGeometry::for_const_type(Some("Penta")), SectionGeometry::Penta);
    assert_eq!(SectionGeometry::for_const_type(Some("Two Piece Quad")), SectionGeometry::Quad);
    assert_eq!(SectionGeometry::for_const_type(Some("Hepta")), SectionGeometry::Hepta);
    assert_eq!(SectionGeometry::for_const_type(Some("octa")), SectionGeometry::Octa);
    assert_eq!(SectionGeometry::for_const_type(Some("Rectangular")), SectionGeometry::Hex);
    assert_eq!(SectionGeometry::for_const_type(None), SectionGeometry::Hex);
    assert_eq!(SectionGeometry::Penta.sides(), 5);
    assert_eq!(SectionGeometry::Hex.sides(), 6);
    assert_eq!(SectionGeometry::Octa.sides(), 8);
}

#[test]
fn hex_ferrule_check_is_case_insensitive_prefix() {
    assert!(is_hex_const_type(Some("HEX")));
    assert!(is_hex_const_type(Some("hexagonal")));
    assert!(!is_hex_const_type(Some("Quad")));
    assert!(!is_hex_const_type(None));
}

#[test]
fn ferrule_weight_index_parses_numerator() {
    assert_eq!(ferrule_weight_index("11/64"), Some(10));
    assert_eq!(ferrule_weight_index("13/64"), Some(12));
    assert_eq!(ferrule_weight_index(" 1 /64"), Some(0));
    assert_eq!(ferrule_weight_index("+17/64"), Some(16));
    assert_eq!(ferrule_weight_index("18/64"), None);
    assert_eq!(ferrule_weight_index("0/64"), None);
    assert_eq!(ferrule_weight_index("None"), None);
    assert_eq!(ferrule_weight_index("NONE"), None);
    assert_eq!(ferrule_weight_index(""), None);
    assert_eq!(ferrule_weight_index("abc"), None);
    assert_eq!(ferrule_weight_index("99999999999999999999999/64"), None);
}

#[test]
fn ferrule_size_slot_placeholders_are_unset() {
    assert!(ferrule_size_is_set(Some("13/64")));
    assert!(!ferrule_size_is_set(Some("None")));
    assert!(!ferrule_size_is_set(Some("")));
    assert!(!ferrule_size_is_set(None));
    // Only the exact placeholder is skipped.
    assert!(ferrule_size_is_set(Some("none")));
}

#[test]
fn export_header_carries_metadata_and_provenance() {
    let t = Taper {
        name: Some("Test Rod".to_string()),
        rod_type: Some("Fly-Rod".to_string()),
        const_type: Some("Hex".to_string()),
        provenance: Some(Provenance {
            source: Some("Test Source".to_string()),
            author: Some("Test Author".to_string()),
            ..Default::default()
        }),
        ..Default::default()
    };
    let h = t.export_header("90\"", "5", "2");
    assert!(h.starts_with("# caneDNA taper export"));
    assert!(h.contains("# Name: Test Rod"));
    assert!(h.contains("Type: Fly-Rod | Construction: Hex | Length: 90\" | Line: 5 | Pieces: 2"));
    assert!(h.contains("# Source: Test Source (Test Author)"));

    let bare = Taper::default().export_header("\u{2014}", "\u{2014}", "\u{2014}");
    assert_eq!(
        bare,
        "# caneDNA taper export\n# Name: (unnamed)\n# Type: \u{2014} | Construction: \u{2014} | Length: \u{2014} | Line: \u{2014} | Pieces: \u{2014}"
    );
    assert!(!bare.contains("# Source:"));
}

#[test]
fn solve_params_default_and_passes() {
    let p = SolveParams::default();
    assert_eq!(p.iterations, 4);
    assert!(p.monotonic);
    assert_eq!(p.passes(), 4);
    let zero = SolveParams { iterations: 0, monotonic: false };
    assert_eq!(zero.passes(), 1);
}
