use roddna_core::selection::{text_filters_match, toggle_selection};
use roddna_core::server::{
    list_plan, parse_action, route, seed_scope, tool_for, ActionClass, Route, SeedScope, Tool,
};
use roddna_core::taper::Taper;

fn named(s: &str) -> Taper {
    Taper { name: Some(s.to_string()), ..Default::default() }
}

#[test]
fn parse_action_accepts_synonyms() {
    assert_eq!(parse_action("fast"), Ok(ActionClass::Fast));
    assert_eq!(parse_action("  Tip "), Ok(ActionClass::Fast));
    assert_eq!(parse_action("MODERATE"), Ok(ActionClass::Medium));
    assert_eq!(parse_action("progressive"), Ok(ActionClass::Medium));
    assert_eq!(parse_action("Full-Flex"), Ok(ActionClass::Full));
    assert_eq!(parse_action("parabolic\n"), Ok(ActionClass::Full));
    assert_eq!(parse_action("slow"), Ok(ActionClass::Full));
}

#[test]
fn parse_action_rejects_unknown_words() {
    assert_eq!(
        parse_action(" Stiff "),
        Err("unknown action \"stiff\" \u{2014} use fast, medium, or full".to_string())
    );
    assert!(parse_action("").is_err());
}

#[test]
fn route_answers_requests_only() {
    assert_eq!(route("initialize", false), None);
    assert_eq!(route("initialize", true), Some(Route::Initialize));
    assert_eq!(route("tools/list", true), Some(Route::ListTools));
    assert_eq!(route("tools/call", true), Some(Route::CallTool));
    assert_eq!(route("ping", true), Some(Route::Ping));
    assert_eq!(route("resources/list", true), Some(Route::MethodNotFound));
    assert_eq!(tool_for("design_rod"), Tool::DesignRod);
    assert_eq!(tool_for("list_tapers"), Tool::ListTapers);
    assert_eq!(tool_for("other"), Tool::Unknown);
}

fn models() -> Vec<Taper> {
    vec![
        named("Zeitner Switch Spey"),
        named("Payne 98"),
        Taper::default(),
        named("Bob Clay Universal SPEY"),
    ]
}

#[test]
fn seed_scope_filters_by_exact_name_then_substring() {
    let m = models();
    match seed_scope(&m, Some("Payne 98"), Some("spey")) {
        Ok(SeedScope::Only(v)) => assert_eq!(v, vec![1]),
        _ => panic!("expected an exact-name scope"),
    }
    match seed_scope(&m, None, Some("Spey")) {
        Ok(SeedScope::Only(v)) => assert_eq!(v, vec![0, 3]),
        _ => panic!("expected a substring scope"),
    }
    assert!(matches!(seed_scope(&m, None, None), Ok(SeedScope::All)));
    match seed_scope(&m, Some("payne 98"), None) {
        Err(e) => assert_eq!(
            e,
            "no library rod is named exactly \"payne 98\" \u{2014} use list_tapers to find the right name"
        ),
        _ => panic!("exact names are case-sensitive"),
    }
    match seed_scope(&m, None, Some("Cattanach")) {
        Err(e) => assert_eq!(
            e,
            "no library rod name contains \"Cattanach\" \u{2014} use list_tapers to browse what's available"
        ),
        _ => panic!("expected no match"),
    }
}

#[test]
fn list_plan_filters_and_limits() {
    let m = models();
    let all = list_plan(&m, None, None);
    assert_eq!(all.matches, vec![0, 1, 2, 3]);
    assert_eq!(all.shown, vec![0, 1, 2, 3]);
    assert_eq!(all.more, 0);
    let spey = list_plan(&m, Some("SPEY"), Some(1));
    assert_eq!(spey.matches, vec![0, 3]);
    assert_eq!(spey.shown, vec![0]);
    assert_eq!(spey.more, 1);
    // A zero limit still shows one row.
    let zero = list_plan(&m, None, Some(0));
    assert_eq!(zero.shown, vec![0]);
    assert_eq!(zero.more, 3);
}

#[test]
fn toggle_adds_then_removes_in_click_order() {
    let mut sel = vec![4, 2];
    toggle_selection(&mut sel, 7);
    assert_eq!(sel, vec![4, 2, 7]);
    toggle_selection(&mut sel, 7);
    assert_eq!(sel, vec![4, 2]);
    toggle_selection(&mut sel, 4);
    assert_eq!(sel, vec![2]);
    toggle_selection(&mut sel, 4);
    assert_eq!(sel, vec![2, 4]);
}

#[test]
fn text_filters_search_and_type() {
    let t = Taper {
        name: Some("Payne 98".to_string()),
        rod_type: Some("Fly-Rod".to_string()),
        ..Default::default()
    };
    assert!(text_filters_match(&t, "", ""));
    assert!(text_filters_match(&t, "PAYNE", "Fly-Rod"));
    assert!(!text_filters_match(&t, "garrison", ""));
    assert!(!text_filters_match(&t, "", "Spey-Rod"));
    assert!(!text_filters_match(&Taper::default(), "", "Fly-Rod"));
    assert!(text_filters_match(&Taper::default(), "", ""));
}

#[test]
fn toggling_unselected_rod_twice_restores_selection() {
    let original = vec![3, 1, 8];
    let mut sel = original.clone();
    toggle_selection(&mut sel, 5);
    toggle_selection(&mut sel, 5);
    assert_eq!(sel, original);
}

#[test]
fn toggling_selected_rod_twice_keeps_the_same_rods() {
    let mut sel = vec![3, 1, 8];
    toggle_selection(&mut sel, 1);
    assert_eq!(sel, vec![3, 8]);
    toggle_selection(&mut sel, 1);
    let mut sorted = sel.clone();
    sorted.sort();
    assert_eq!(sorted, vec![1, 3, 8]);
    assert_eq!(sel, vec![3, 8, 1]);
}
