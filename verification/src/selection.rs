//! The explorer's multi-selection of rods, kept in click order (which drives
//! legend order and colour stability).

use vstd::prelude::*;

use crate::server::searchable_name;
use crate::taper::Taper;
use crate::text::{chars_of, contains_chars, eq_chars, lowercase, seq_contains, unicode_lowercase};

verus! {

/// `p` is the first position of `i` in `sel`.
pub open spec fn first_position(sel: Seq<usize>, i: usize, p: int) -> bool {
    &&& 0 <= p < sel.len()
    &&& sel[p] == i
    &&& forall|q: int| 0 <= q < p ==> #[trigger] sel[q] != i
}

/// The selection after toggling rod `i`: its first occurrence removed when
/// selected, else appended.
pub open spec fn toggled(sel: Seq<usize>, i: usize) -> Seq<usize> {
    if sel.contains(i) {
        sel.remove(choose|p: int| first_position(sel, i, p))
    } else {
        sel.push(i)
    }
}

proof fn lemma_first_position_exists(sel: Seq<usize>, i: usize)
    requires
        sel.contains(i),
    ensures
        exists|p: int| first_position(sel, i, p),
    decreases sel.len(),
{
    if sel[0] == i {
        assert(first_position(sel, i, 0));
    } else {
        let t = sel.drop_first();
        let k = choose|k: int| 0 <= k < sel.len() && sel[k] == i;
        assert(t[k - 1] == i);
        lemma_first_position_exists(t, i);
        let p = choose|p: int| first_position(t, i, p);
        assert forall|q: int| 0 <= q < p + 1 implies #[trigger] sel[q] != i by {
            if q > 0 {
                assert(sel[q] == t[q - 1]);
            }
        }
        assert(first_position(sel, i, p + 1));
    }
}

proof fn lemma_first_position_unique(sel: Seq<usize>, i: usize, p: int, q: int)
    requires
        first_position(sel, i, p),
        first_position(sel, i, q),
    ensures
        p == q,
{
    if p < q {
        assert(sel[p] != i);
    } else if q < p {
        assert(sel[q] != i);
    }
}

/// Toggles rod `i` in or out of the selection, preserving click order: a
/// selected rod is removed, an unselected one is appended.
pub fn toggle_selection(selected: &mut Vec<usize>, i: usize)
    ensures
        final(selected)@ == toggled(old(selected)@, i),
{
    let mut p: usize = 0;
    while p < selected.len() && selected[p] != i
        invariant
            p <= selected.len(),
            forall|q: int| 0 <= q < p ==> #[trigger] selected@[q] != i,
        decreases selected.len() - p,
    {
        p += 1;
    }
    if p < selected.len() {
        proof {
            assert(first_position(selected@, i, p as int));
            assert(selected@.contains(i));
            lemma_first_position_exists(selected@, i);
            let c = choose|c: int| first_position(selected@, i, c);
            lemma_first_position_unique(selected@, i, c, p as int);
        }
        selected.remove(p);
    } else {
        proof {
            if selected@.contains(i) {
                let k = choose|k: int| 0 <= k < selected@.len() && selected@[k] == i;
                assert(selected@[k] != i);
            }
        }
        selected.push(i);
    }
}

/// Law: toggling an unselected rod twice restores the selection exactly.
pub proof fn lemma_toggle_twice_unselected(sel: Seq<usize>, i: usize)
    requires
        !sel.contains(i),
    ensures
        toggled(toggled(sel, i), i) == sel,
{
    let s1 = sel.push(i);
    assert(s1.contains(i)) by {
        assert(s1[sel.len() as int] == i);
    }
    let p = sel.len() as int;
    assert forall|q: int| 0 <= q < p implies #[trigger] s1[q] != i by {
        assert(s1[q] == sel[q]);
    }
    assert(first_position(s1, i, p));
    lemma_first_position_exists(s1, i);
    let c = choose|c: int| first_position(s1, i, c);
    lemma_first_position_unique(s1, i, c, p);
    assert(s1.remove(p) =~= sel);
}

/// Law: toggling keeps a selection free of duplicates, and toggling a rod
/// twice restores which rods are selected (a selected rod moves to the end
/// of the click order).
pub proof fn lemma_toggle_preserves_set(sel: Seq<usize>, i: usize)
    requires
        sel.no_duplicates(),
    ensures
        toggled(sel, i).no_duplicates(),
        toggled(sel, i).contains(i) == !sel.contains(i),
        forall|j: usize| j != i ==> (#[trigger] toggled(sel, i).contains(j) <==> sel.contains(j)),
        toggled(toggled(sel, i), i).to_set() == sel.to_set(),
{
    lemma_toggle_facts(sel, i);
    let s1 = toggled(sel, i);
    lemma_toggle_facts(s1, i);
    let s2 = toggled(s1, i);
    assert forall|j: usize| s2.to_set().contains(j) <==> sel.to_set().contains(j) by {
        if j == i {
        }
    }
    assert(s2.to_set() =~= sel.to_set());
}

proof fn lemma_toggle_facts(sel: Seq<usize>, i: usize)
    requires
        sel.no_duplicates(),
    ensures
        toggled(sel, i).no_duplicates(),
        toggled(sel, i).contains(i) == !sel.contains(i),
        forall|j: usize| j != i ==> (#[trigger] toggled(sel, i).contains(j) <==> sel.contains(j)),
{
    if sel.contains(i) {
        lemma_first_position_exists(sel, i);
        let p = choose|p: int| first_position(sel, i, p);
        let r = sel.remove(p);
        assert forall|a: int, b: int| 0 <= a < b < r.len() implies #[trigger] r[a] != #[trigger] r[b] by {
            let a1 = if a < p { a } else { a + 1 };
            let b1 = if b < p { b } else { b + 1 };
            assert(r[a] == sel[a1] && r[b] == sel[b1]);
        }
        assert(!r.contains(i)) by {
            if r.contains(i) {
                let k = choose|k: int| 0 <= k < r.len() && r[k] == i;
                let k1 = if k < p { k } else { k + 1 };
                assert(r[k] == sel[k1]);
            }
        }
        assert forall|j: usize| j != i implies (#[trigger] r.contains(j) <==> sel.contains(j)) by {
            if sel.contains(j) {
                let k = choose|k: int| 0 <= k < sel.len() && sel[k] == j;
                if k < p {
                    assert(r[k] == j);
                } else {
                    assert(k != p);
                    assert(r[k - 1] == j);
                }
            }
            if r.contains(j) {
                let k = choose|k: int| 0 <= k < r.len() && r[k] == j;
                let k1 = if k < p { k } else { k + 1 };
                assert(sel[k1] == j);
            }
        }
    } else {
        let r = sel.push(i);
        assert(r[sel.len() as int] == i);
        assert forall|a: int, b: int| 0 <= a < b < r.len() implies #[trigger] r[a] != #[trigger] r[b] by {
            if b == sel.len() {
                assert(r[a] == sel[a]);
            } else {
                assert(r[a] == sel[a] && r[b] == sel[b]);
            }
        }
        assert forall|j: usize| j != i implies (#[trigger] r.contains(j) <==> sel.contains(j)) by {
            if sel.contains(j) {
                let k = choose|k: int| 0 <= k < sel.len() && sel[k] == j;
                assert(r[k] == j);
            }
            if r.contains(j) {
                let k = choose|k: int| 0 <= k < r.len() && r[k] == j;
                assert(k < sel.len());
                assert(sel[k] == j);
            }
        }
    }
}


/// The text filters of the rod list accept `t`: its lower-cased name
/// contains the lower-cased search (when there is a search) and its rod type
/// is the chosen type (when one is chosen).
pub open spec fn text_filters_accept(t: Taper, search: Seq<char>, type_filter: Seq<char>) -> bool {
    &&& search.len() == 0 || seq_contains(searchable_name(t), unicode_lowercase(search))
    &&& type_filter.len() == 0 || (t.rod_type matches Some(r) && r@ == type_filter)
}

/// Law: a rod passes the list's filters exactly when its lower-cased name
/// holds the lower-cased search text (if any is typed) and its rod type is
/// the chosen type (if one is chosen); the search text never lifts the type
/// filter, nor the type filter the search.
pub proof fn lemma_text_filters_conjoin(t: Taper, search: Seq<char>, type_filter: Seq<char>)
    ensures
        text_filters_accept(t, search, type_filter) && type_filter.len() > 0 ==> (t.rod_type matches Some(
            r,
        ) && r@ == type_filter),
        text_filters_accept(t, search, type_filter) && search.len() > 0 ==> seq_contains(
            searchable_name(t),
            unicode_lowercase(search),
        ),
        (search.len() == 0 || seq_contains(searchable_name(t), unicode_lowercase(search))) && (
        type_filter.len() == 0 || (t.rod_type matches Some(r) && r@ == type_filter))
            ==> text_filters_accept(t, search, type_filter),
{
}

/// Whether a rod passes the list's filters, given its lower-cased name,
/// the lower-cased search text (`None` when the search box is empty) and
/// the chosen rod type (empty for any).
pub fn filters_accept(
    name_lower: &str,
    search_lower: Option<&str>,
    rod_type: Option<&str>,
    type_filter: &str,
) -> (r: bool)
    ensures
        r == ((match search_lower {
            Some(q) => seq_contains(name_lower@, q@),
            None => true,
        }) && (type_filter@.len() == 0 || (rod_type matches Some(t) && t@ == type_filter@))),
{
    if let Some(q) = search_lower {
        if !contains_chars(&chars_of(name_lower), &chars_of(q)) {
            return false;
        }
    }
    let tv = chars_of(type_filter);
    if tv.len() > 0 {
        match rod_type {
            Some(t) => eq_chars(&chars_of(t), &tv),
            None => false,
        }
    } else {
        true
    }
}

/// Whether a rod passes the list's search box and rod-type filter (the
/// line-weight and piece-count filters compare the numeric record).
pub fn text_filters_match(t: &Taper, search: &str, type_filter: &str) -> (r: bool)
    ensures
        r == text_filters_accept(*t, search@, type_filter@),
{
    let name_lower = match &t.name {
        Some(n) => lowercase(n.as_str()),
        None => {
            let empty = String::new();
            lowercase(empty.as_str())
        },
    };
    let rod_type = match &t.rod_type {
        Some(r) => Some(r.as_str()),
        None => None,
    };
    if chars_of(search).len() > 0 {
        let q = lowercase(search);
        filters_accept(name_lower.as_str(), Some(q.as_str()), rod_type, type_filter)
    } else {
        filters_accept(name_lower.as_str(), None, rod_type, type_filter)
    }
}

} // verus!
