//! Decisions of the design-assistant server: routing JSON-RPC requests,
//! reading the requested action, and choosing which library rods a request
//! may use as seeds or lists.

use vstd::prelude::*;

use crate::taper::Taper;
use crate::text::{
    chars_of, contains_chars, lowercase, seq_contains, trim_whitespace, trim_ws,
    string_from_chars, unicode_lowercase,
};

verus! {

// ---------------------------------------------------------------------------
// Requests
// ---------------------------------------------------------------------------

/// What the server does with a JSON-RPC request.
#[derive(Debug, Clone, Copy, PartialEq, Eq, Structural)]
pub enum Route {
    Initialize,
    ListTools,
    CallTool,
    Ping,
    MethodNotFound,
}

/// The route of a method name.
pub open spec fn route_of(method: Seq<char>) -> Route {
    if method == "initialize"@ {
        Route::Initialize
    } else if method == "tools/list"@ {
        Route::ListTools
    } else if method == "tools/call"@ {
        Route::CallTool
    } else if method == "ping"@ {
        Route::Ping
    } else {
        Route::MethodNotFound
    }
}

fn str_eq(a: &str, b: &str) -> (r: bool)
    ensures
        r == (a@ == b@),
{
    crate::text::eq_chars(&chars_of(a), &chars_of(b))
}

/// How to answer a message: `None` for a notification (a message without
/// an id, which is never answered), else the route of its method.
pub fn route(method: &str, has_id: bool) -> (r: Option<Route>)
    ensures
        !has_id ==> r is None,
        has_id ==> r == Some(route_of(method@)),
{
    if !has_id {
        return None;
    }
    if str_eq(method, "initialize") {
        Some(Route::Initialize)
    } else if str_eq(method, "tools/list") {
        Some(Route::ListTools)
    } else if str_eq(method, "tools/call") {
        Some(Route::CallTool)
    } else if str_eq(method, "ping") {
        Some(Route::Ping)
    } else {
        Some(Route::MethodNotFound)
    }
}

/// The tools the server offers.
#[derive(Debug, Clone, Copy, PartialEq, Eq, Structural)]
pub enum Tool {
    DesignRod,
    ListTapers,
    Unknown,
}

/// The tool a tool name selects.
pub open spec fn tool_of(name: Seq<char>) -> Tool {
    if name == "design_rod"@ {
        Tool::DesignRod
    } else if name == "list_tapers"@ {
        Tool::ListTapers
    } else {
        Tool::Unknown
    }
}

/// The tool a tool name selects.
pub fn tool_for(name: &str) -> (r: Tool)
    ensures
        r == tool_of(name@),
{
    if str_eq(name, "design_rod") {
        Tool::DesignRod
    } else if str_eq(name, "list_tapers") {
        Tool::ListTapers
    } else {
        Tool::Unknown
    }
}

// ---------------------------------------------------------------------------
// Actions
// ---------------------------------------------------------------------------

/// The action feel a design request asks for.
#[derive(Debug, Clone, Copy, PartialEq, Eq, Structural)]
pub enum ActionClass {
    /// Tip action (streamers, distance).
    Fast,
    /// Progressive.
    Medium,
    /// Full-flex / parabolic.
    Full,
}

/// The action class a lower-cased, trimmed action word names.
pub open spec fn action_of(word: Seq<char>) -> Option<ActionClass> {
    if word == "fast"@ || word == "tip"@ {
        Some(ActionClass::Fast)
    } else if word == "medium"@ || word == "moderate"@ || word == "progressive"@ {
        Some(ActionClass::Medium)
    } else if word == "full"@ || word == "full-flex"@ || word == "slow"@ || word == "parabolic"@ {
        Some(ActionClass::Full)
    } else {
        None
    }
}

/// The word the server advertises for each action class (the `action`
/// values of the design request, and the words its error message offers).
pub open spec fn advertised_word(a: ActionClass) -> Seq<char> {
    match a {
        ActionClass::Fast => "fast"@,
        ActionClass::Medium => "medium"@,
        ActionClass::Full => "full"@,
    }
}

/// Law: each advertised action word reads back as its own action class, so
/// the three words name three different classes; the documented synonyms
/// read as the class of the word they stand for (tip for fast; moderate and
/// progressive for medium; full-flex, slow and parabolic for full).
pub proof fn lemma_advertised_words_round_trip(a: ActionClass, b: ActionClass)
    ensures
        action_of(advertised_word(a)) == Some(a),
        advertised_word(a) == advertised_word(b) ==> a == b,
        action_of("tip"@) == action_of(advertised_word(ActionClass::Fast)),
        action_of("moderate"@) == action_of(advertised_word(ActionClass::Medium)),
        action_of("progressive"@) == action_of(advertised_word(ActionClass::Medium)),
        action_of("full-flex"@) == action_of(advertised_word(ActionClass::Full)),
        action_of("slow"@) == action_of(advertised_word(ActionClass::Full)),
        action_of("parabolic"@) == action_of(advertised_word(ActionClass::Full)),
{
    reveal_strlit("fast");
    reveal_strlit("tip");
    reveal_strlit("medium");
    reveal_strlit("moderate");
    reveal_strlit("progressive");
    reveal_strlit("full");
    reveal_strlit("full-flex");
    reveal_strlit("slow");
    reveal_strlit("parabolic");
    // Different lengths, or a different second letter, tell the words apart.
    assert("medium"@.len() == 6 && "fast"@.len() == 4 && "tip"@.len() == 3);
    assert("full"@.len() == 4 && "moderate"@.len() == 8 && "progressive"@.len() == 11);
    assert("full"@[1] != "fast"@[1]);
    assert("medium"@ != "fast"@ && "medium"@ != "tip"@);
    assert("full"@ != "fast"@ && "full"@ != "tip"@ && "full"@ != "medium"@);
    assert("full"@ != "moderate"@ && "full"@ != "progressive"@);
    assert("full-flex"@.len() == 9 && "slow"@.len() == 4 && "parabolic"@.len() == 9);
    assert("slow"@[0] != "fast"@[0] && "slow"@[0] != "full"@[0]);
}

/// The message for an action word that names no action class.
pub open spec fn unknown_action_message(word: Seq<char>) -> Seq<char> {
    "unknown action \""@ + word + "\" \u{2014} use fast, medium, or full"@
}

/// The action class of a lower-cased, trimmed action word, or the message
/// naming the word when it is not one.
pub fn action_from_word(word: &str) -> (r: Result<ActionClass, String>)
    ensures
        r matches Ok(a) ==> action_of(word@) == Some(a),
        r matches Err(m) ==> action_of(word@) is None && m@ == unknown_action_message(word@),
        r is Ok <==> action_of(word@) is Some,
{
    if str_eq(word, "fast") || str_eq(word, "tip") {
        Ok(ActionClass::Fast)
    } else if str_eq(word, "medium") || str_eq(word, "moderate") || str_eq(word, "progressive") {
        Ok(ActionClass::Medium)
    } else if str_eq(word, "full") || str_eq(word, "full-flex") || str_eq(word, "slow") || str_eq(
        word,
        "parabolic",
    ) {
        Ok(ActionClass::Full)
    } else {
        let mut m = String::from_str("unknown action \"");
        m.append(word);
        m.append("\" \u{2014} use fast, medium, or full");
        Err(m)
    }
}

/// The normalised action word of a request: trimmed, then lower-cased.
pub open spec fn action_word(s: Seq<char>) -> Seq<char> {
    unicode_lowercase(trim_ws(s))
}

/// Reads a requested action ("fast", "tip", "medium", "moderate",
/// "progressive", "full", "full-flex", "slow", "parabolic"), ignoring
/// surrounding white space and case.
pub fn parse_action(s: &str) -> (r: Result<ActionClass, String>)
    ensures
        r matches Ok(a) ==> action_of(action_word(s@)) == Some(a),
        r matches Err(m) ==> action_of(action_word(s@)) is None && m@ == unknown_action_message(
            action_word(s@),
        ),
        r is Ok <==> action_of(action_word(s@)) is Some,
{
    let trimmed = string_from_chars(&trim_whitespace(&chars_of(s)));
    let word = lowercase(trimmed.as_str());
    action_from_word(word.as_str())
}

// ---------------------------------------------------------------------------
// Seed and list filters
// ---------------------------------------------------------------------------

/// The text a name filter searches: the lower-cased name, or the lower-cased
/// empty string for an unnamed rod.
pub open spec fn searchable_name(t: Taper) -> Seq<char> {
    match t.name {
        Some(n) => unicode_lowercase(n@),
        None => unicode_lowercase(Seq::empty()),
    }
}

/// Taper `t` is named exactly `name`.
pub open spec fn named_exactly(t: Taper, name: Seq<char>) -> bool {
    t.name matches Some(n) && n@ == name
}

/// The indices of `models` whose entry satisfies `keep`, in order.
pub open spec fn kept_indices(models: Seq<Taper>, keep: spec_fn(Taper) -> bool) -> Seq<usize>
    decreases models.len(),
{
    if models.len() == 0 {
        Seq::empty()
    } else {
        let rest = kept_indices(models.drop_last(), keep);
        if keep(models.last()) {
            rest.push((models.len() - 1) as usize)
        } else {
            rest
        }
    }
}

/// The lower-cased name of a taper, as searched by the name filters.
fn searchable(t: &Taper) -> (r: Vec<char>)
    ensures
        r@ == searchable_name(*t),
{
    match &t.name {
        Some(n) => chars_of(lowercase(n.as_str()).as_str()),
        None => {
            let empty = String::new();
            chars_of(lowercase(empty.as_str()).as_str())
        },
    }
}

/// The predicate of the name-substring filter with lower-cased needle `needle`.
pub open spec fn name_contains_pred(needle: Seq<char>) -> spec_fn(Taper) -> bool {
    |t: Taper| seq_contains(searchable_name(t), needle)
}

/// The predicate of the exact-name filter.
pub open spec fn name_exact_pred(name: Seq<char>) -> spec_fn(Taper) -> bool {
    |t: Taper| named_exactly(t, name)
}

proof fn lemma_kept_step(models: Seq<Taper>, keep: spec_fn(Taper) -> bool, i: int)
    requires
        0 <= i < models.len(),
    ensures
        kept_indices(models.take(i + 1), keep) == if keep(models[i]) {
            kept_indices(models.take(i), keep).push(i as usize)
        } else {
            kept_indices(models.take(i), keep)
        },
{
    let t = models.take(i + 1);
    assert(t.drop_last() =~= models.take(i));
    assert(t.last() == models[i]);
}

/// Indices of the models whose lower-cased name contains the lower-cased
/// `needle` (an unnamed model is searched as the empty name).
pub fn names_containing(models: &Vec<Taper>, needle_lower: &str) -> (r: Vec<usize>)
    ensures
        r@ == kept_indices(models@, name_contains_pred(needle_lower@)),
{
    let needle = chars_of(needle_lower);
    let ghost keep = name_contains_pred(needle_lower@);
    let mut r: Vec<usize> = Vec::new();
    let mut i: usize = 0;
    while i < models.len()
        invariant
            needle@ == needle_lower@,
            keep == name_contains_pred(needle_lower@),
            i <= models.len(),
            r@ == kept_indices(models@.take(i as int), keep),
        decreases models.len() - i,
    {
        proof {
            lemma_kept_step(models@, keep, i as int);
        }
        if contains_chars(&searchable(&models[i]), &needle) {
            r.push(i);
        }
        i += 1;
    }
    assert(models@.take(models.len() as int) =~= models@);
    r
}

/// Indices of the models named exactly `name`.
pub fn names_equal(models: &Vec<Taper>, name: &str) -> (r: Vec<usize>)
    ensures
        r@ == kept_indices(models@, name_exact_pred(name@)),
{
    let ghost keep = name_exact_pred(name@);
    let mut r: Vec<usize> = Vec::new();
    let mut i: usize = 0;
    while i < models.len()
        invariant
            keep == name_exact_pred(name@),
            i <= models.len(),
            r@ == kept_indices(models@.take(i as int), keep),
        decreases models.len() - i,
    {
        proof {
            lemma_kept_step(models@, keep, i as int);
        }
        let hit = match &models[i].name {
            Some(n) => str_eq(n.as_str(), name),
            None => false,
        };
        if hit {
            r.push(i);
        }
        i += 1;
    }
    assert(models@.take(models.len() as int) =~= models@);
    r
}

/// Law: every kept index is in range, kept in increasing order, and its
/// model satisfies the filter; every model that satisfies it is kept.
pub proof fn lemma_kept_indices(models: Seq<Taper>, keep: spec_fn(Taper) -> bool)
    requires
        models.len() <= usize::MAX,
    ensures
        forall|k: int|
            0 <= k < kept_indices(models, keep).len() ==> {
                let i = #[trigger] kept_indices(models, keep)[k] as int;
                0 <= i < models.len() && keep(models[i])
            },
        forall|k1: int, k2: int|
            0 <= k1 < k2 < kept_indices(models, keep).len() ==> #[trigger] kept_indices(models, keep)[k1]
                < #[trigger] kept_indices(models, keep)[k2],
        forall|i: int| 0 <= i < models.len() && keep(#[trigger] models[i]) ==> kept_indices(models, keep).contains(
            i as usize,
        ),
    decreases models.len(),
{
    if models.len() > 0 {
        let init = models.drop_last();
        lemma_kept_indices(init, keep);
        let rest = kept_indices(init, keep);
        assert forall|i: int| 0 <= i < init.len() implies #[trigger] init[i] == models[i] by {}
        let n = models.len() - 1;
        assert(kept_indices(models, keep) == if keep(models.last()) {
            rest.push(n as usize)
        } else {
            rest
        });
        if keep(models.last()) {
            let all = rest.push(n as usize);
            assert forall|k: int| 0 <= k < all.len() implies {
                let i = #[trigger] all[k] as int;
                0 <= i < models.len() && keep(models[i])
            } by {
                if k < rest.len() {
                    assert(all[k] == rest[k]);
                    assert(init[rest[k] as int] == models[rest[k] as int]);
                }
            }
            assert forall|k1: int, k2: int| 0 <= k1 < k2 < all.len() implies #[trigger] all[k1]
                < #[trigger] all[k2] by {
                assert(all[k1] == rest[k1]);
                if k2 < rest.len() {
                    assert(all[k2] == rest[k2]);
                }
            }
            assert forall|i: int| 0 <= i < models.len() && keep(#[trigger] models[i]) implies all.contains(
                i as usize,
            ) by {
                if i < n {
                    assert(init[i] == models[i]);
                    let k = choose|k: int| 0 <= k < rest.len() && rest[k] == i as usize;
                    assert(all[k] == i as usize);
                } else {
                    assert(all[rest.len() as int] == i as usize);
                }
            }
        } else {
            assert forall|k: int| 0 <= k < rest.len() implies {
                let i = #[trigger] rest[k] as int;
                0 <= i < models.len() && keep(models[i])
            } by {
                assert(init[rest[k] as int] == models[rest[k] as int]);
            }
            assert forall|i: int| 0 <= i < models.len() && keep(#[trigger] models[i]) implies rest.contains(
                i as usize,
            ) by {
                assert(i < n);
                assert(init[i] == models[i]);
            }
        }
    }
}

/// Which library rods a design request may seed from.
pub enum SeedScope {
    /// Every rod.
    All,
    /// Only the rods at these indices.
    Only(Vec<usize>),
}

/// The message when no rod is named exactly `name`.
pub open spec fn no_exact_seed_message(name: Seq<char>) -> Seq<char> {
    "no library rod is named exactly \""@ + name
        + "\" \u{2014} use list_tapers to find the right name"@
}

/// The message when no rod name contains `sub`.
pub open spec fn no_matching_seed_message(sub: Seq<char>) -> Seq<char> {
    "no library rod name contains \""@ + sub
        + "\" \u{2014} use list_tapers to browse what's available"@
}

/// Restricts the seeds of a design request: an exact seed name wins over a
/// name substring (matched case-insensitively); with neither, every rod may
/// seed. A restriction that leaves no rod is refused with a message naming
/// it.
pub fn seed_scope(models: &Vec<Taper>, seed_name: Option<&str>, seed_contains: Option<&str>) -> (r:
    Result<SeedScope, String>)
    ensures
        seed_name matches Some(exact) ==> {
            let kept = kept_indices(models@, name_exact_pred(exact@));
            &&& kept.len() == 0 ==> (r matches Err(m) && m@ == no_exact_seed_message(exact@))
            &&& kept.len() > 0 ==> (r matches Ok(SeedScope::Only(v)) && v@ == kept)
        },
        seed_name is None ==> (seed_contains matches Some(sub) ==> {
            let kept = kept_indices(models@, name_contains_pred(unicode_lowercase(sub@)));
            &&& kept.len() == 0 ==> (r matches Err(m) && m@ == no_matching_seed_message(sub@))
            &&& kept.len() > 0 ==> (r matches Ok(SeedScope::Only(v)) && v@ == kept)
        }),
        seed_name is None && seed_contains is None ==> r matches Ok(SeedScope::All),
{
    match seed_name {
        Some(exact) => {
            let kept = names_equal(models, exact);
            if kept.len() == 0 {
                let mut m = String::from_str("no library rod is named exactly \"");
                m.append(exact);
                m.append("\" \u{2014} use list_tapers to find the right name");
                Err(m)
            } else {
                Ok(SeedScope::Only(kept))
            }
        },
        None => match seed_contains {
            Some(sub) => {
                let needle = lowercase(sub);
                let kept = names_containing(models, needle.as_str());
                if kept.len() == 0 {
                    let mut m = String::from_str("no library rod name contains \"");
                    m.append(sub);
                    m.append("\" \u{2014} use list_tapers to browse what's available");
                    Err(m)
                } else {
                    Ok(SeedScope::Only(kept))
                }
            },
            None => Ok(SeedScope::All),
        },
    }
}

/// What a library listing shows.
pub struct ListPlan {
    /// Indices of every matching rod, in library order.
    pub matches: Vec<usize>,
    /// The rows shown: the first `limit` matches.
    pub shown: Vec<usize>,
    /// How many matches are left out.
    pub more: usize,
}

/// The row limit of a listing: 40 by default, at least 1, converted to
/// `usize` with `as`.
pub open spec fn list_limit(limit: Option<u64>) -> nat {
    let l: u64 = match limit {
        Some(l) => l,
        None => 40,
    };
    (if l < 1 {
        1u64
    } else {
        l
    }) as usize as nat
}

/// Plans a library listing: the rods whose lower-cased name contains the
/// lower-cased `contains` (all rods without it), the first `limit` of them
/// shown, and the count left out.
pub fn list_plan(models: &Vec<Taper>, contains: Option<&str>, limit: Option<u64>) -> (r: ListPlan)
    ensures
        contains matches Some(c) ==> r.matches@ == kept_indices(
            models@,
            name_contains_pred(unicode_lowercase(c@)),
        ),
        contains is None ==> r.matches@ == Seq::new(models.len() as nat, |i: int| i as usize),
        r.shown@ == r.matches@.take(
            if r.matches.len() < list_limit(limit) {
                r.matches.len() as int
            } else {
                list_limit(limit) as int
            },
        ),
        r.more == if r.matches.len() > list_limit(limit) {
            r.matches.len() - list_limit(limit)
        } else {
            0
        },
{
    let matches = match contains {
        Some(c) => {
            let needle = lowercase(c);
            names_containing(models, needle.as_str())
        },
        None => {
            let mut all: Vec<usize> = Vec::new();
            let mut i: usize = 0;
            while i < models.len()
                invariant
                    i <= models.len(),
                    all@ == Seq::new(i as nat, |j: int| j as usize),
                decreases models.len() - i,
            {
                all.push(i);
                i += 1;
            }
            all
        },
    };
    let l: u64 = match limit {
        Some(l) => l,
        None => 40,
    };
    let l: usize = (if l < 1 { 1u64 } else { l }) as usize;
    let n = if matches.len() < l { matches.len() } else { l };
    let mut shown: Vec<usize> = Vec::new();
    let mut i: usize = 0;
    while i < n
        invariant
            n <= matches.len(),
            i <= n,
            shown@ == matches@.take(i as int),
        decreases n - i,
    {
        shown.push(matches[i]);
        assert(matches@.take(i + 1) =~= matches@.take(i as int).push(matches@[i as int]));
        i += 1;
    }
    let more = if matches.len() > l { matches.len() - l } else { 0 };
    ListPlan { matches, shown, more }
}

} // verus!
