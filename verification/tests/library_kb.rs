use roddna_core::kb::{CastingKb, CastingSnippet, MakerCasting};
use roddna_core::library::{Library, Meta};
use roddna_core::taper::{Provenance, Taper};

fn rod(name: &str, rod_type: Option<&str>, source: Option<&str>) -> Taper {
    Taper {
        name: Some(name.to_string()),
        rod_type: rod_type.map(|s| s.to_string()),
        provenance: source.map(|s| Provenance {
            source: Some(s.to_string()),
            ..Default::default()
        }),
        ..Default::default()
    }
}

fn library() -> Library {
    Library {
        meta: Meta {
            source: "test".to_string(),
            author: String::new(),
            count: 5,
        },
        models: vec![
            rod("A", Some("Spey-Rod"), Some("RodDNA v2.0")),
            rod("B", Some("Fly-Rod"), Some("David Ray's Taper Library (Hexrod)")),
            rod("C", None, None),
            rod("D", Some("Fly-Rod"), Some("RodDNA v1.4 update")),
            rod("E", Some("Casting-Rod"), Some("Some Future Library")),
        ],
    }
}

#[test]
fn rod_types_are_distinct_and_sorted() {
    assert_eq!(
        library().rod_types(),
        vec!["Casting-Rod".to_string(), "Fly-Rod".to_string(), "Spey-Rod".to_string()]
    );
}

#[test]
fn source_groups_are_distinct_and_sorted() {
    assert_eq!(
        library().source_groups(),
        vec!["Hexrod".to_string(), "RodDNA".to_string(), "Some Future Library".to_string()]
    );
}

#[test]
fn empty_library_has_no_filter_values() {
    let lib = Library {
        meta: Meta { source: String::new(), author: String::new(), count: 0 },
        models: vec![],
    };
    assert!(lib.rod_types().is_empty());
    assert!(lib.source_groups().is_empty());
}

fn entry(label: Option<&str>, mentions: u64) -> MakerCasting {
    MakerCasting {
        label: label.map(|s| s.to_string()),
        mentions_with_casting: mentions,
        snippets_shown: 1,
        action_counts: vec![("parabolic".to_string(), 2)],
        snippets: vec![CastingSnippet {
            quote: "a lovely caster".to_string(),
            actions: vec!["delicate".to_string()],
            year: Some(1999),
            date: None,
            subject: None,
            author: Some("someone".to_string()),
        }],
    }
}

fn kb() -> CastingKb {
    CastingKb {
        makers: vec![
            ("Dickerson".to_string(), entry(None, 3)),
            ("Garrison".to_string(), entry(None, 7)),
            ("Payne".to_string(), entry(None, 9)),
        ],
        models: vec![
            ("payne 101".to_string(), entry(None, 5)),
            ("payne 98".to_string(), entry(Some("Payne 98"), 4)),
        ],
    }
}

#[test]
fn kb_prefers_model_entry_with_its_label() {
    let kb = kb();
    let t = Taper { name: Some("Payne 98 7'6\" 5wt".to_string()), ..Default::default() };
    let (label, mc) = kb.for_taper(&t).expect("Payne 98 notes");
    assert_eq!(label, "Payne 98");
    assert_eq!(mc.mentions_with_casting, 4);
    // A model entry without a label is labelled by its key.
    let t = Taper { name: Some("Payne 101 8'".to_string()), ..Default::default() };
    let (label, mc) = kb.for_taper(&t).unwrap();
    assert_eq!(label, "payne 101");
    assert_eq!(mc.mentions_with_casting, 5);
}

#[test]
fn kb_falls_back_to_maker_ignoring_ascii_case() {
    let kb = kb();
    let t = Taper { name: Some("GARRISON 212 8' 5wt".to_string()), ..Default::default() };
    let (label, mc) = kb.for_taper(&t).expect("Garrison casting notes");
    assert_eq!(label, "Garrison");
    assert_eq!(mc.mentions_with_casting, 7);
    assert!(!mc.snippets.is_empty());
    let unknown = Taper { name: Some("Leonard 50".to_string()), ..Default::default() };
    assert!(kb.for_taper(&unknown).is_none());
    assert!(kb.for_taper(&Taper::default()).is_none());
}

#[test]
fn action_tags_most_common_first_ties_in_key_order() {
    let mut mc = entry(None, 1);
    mc.action_counts = vec![
        ("delicate".to_string(), 2),
        ("fast".to_string(), 5),
        ("parabolic".to_string(), 2),
        ("slow".to_string(), 1),
    ];
    assert_eq!(mc.action_order(), vec![1, 0, 2, 3]);
    mc.action_counts.clear();
    assert!(mc.action_order().is_empty());
}

#[test]
fn kb_maker_match_takes_the_first_key_in_key_order() {
    // Keys in key order: "GARRISON" sorts before "Garrison".
    let kb = CastingKb {
        makers: vec![
            ("GARRISON".to_string(), entry(None, 2)),
            ("Garrison".to_string(), entry(None, 7)),
        ],
        models: vec![],
    };
    let t = Taper { name: Some("garrison 212".to_string()), ..Default::default() };
    let (label, mc) = kb.for_taper(&t).expect("Garrison casting notes");
    assert_eq!(label, "GARRISON");
    assert_eq!(mc.mentions_with_casting, 2);
}

#[test]
fn action_ties_follow_key_order() {
    let mut mc = entry(None, 1);
    mc.action_counts = vec![
        ("a".to_string(), 3),
        ("b".to_string(), 3),
        ("c".to_string(), 3),
    ];
    assert_eq!(mc.action_order(), vec![0, 1, 2]);
}
