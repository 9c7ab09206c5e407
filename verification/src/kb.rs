//! The casting knowledge base: cited casting feedback per maker and per
//! model, and how a taper is linked to it.
//!
//! The maker, model and action-count tables are `(key, entry)` lists whose
//! keys are strictly increasing (`keys_in_order`): key order, as a sorted map
//! walks it, with each key once. The lookups require it.

use vstd::prelude::*;

use crate::taper::{maker_of, model_key_of, Taper};
use crate::text::{char_seq_lt, chars_of, eq_chars, eq_ignore_ascii_case, eq_ignore_ascii_case_chars};

verus! {

/// A single cited casting-feedback snippet.
#[derive(Debug, Clone)]
pub struct CastingSnippet {
    pub quote: String,
    /// Action tags detected in this snippet (fast / slow / parabolic / ...).
    pub actions: Vec<String>,
    pub year: Option<i64>,
    pub date: Option<String>,
    pub subject: Option<String>,
    pub author: Option<String>,
}

/// Casting feedback aggregated for one maker or model.
#[derive(Debug, Clone)]
pub struct MakerCasting {
    /// Display label (present on model entries, e.g. "Payne 98").
    pub label: Option<String>,
    pub mentions_with_casting: u64,
    pub snippets_shown: u64,
    /// Action-tag counts across all matching sentences, by tag.
    pub action_counts: Vec<(String, u64)>,
    pub snippets: Vec<CastingSnippet>,
}

/// The casting knowledge base.
#[derive(Debug, Clone)]
pub struct CastingKb {
    /// Maker-level entries, keyed by maker name.
    pub makers: Vec<(String, MakerCasting)>,
    /// Model-level entries keyed by lower-cased "maker model" (e.g. "payne 98").
    pub models: Vec<(String, MakerCasting)>,
}

/// The keys of `entries` strictly increase: the table is in key order and
/// holds no key twice.
pub open spec fn keys_in_order<V>(entries: Seq<(String, V)>) -> bool {
    forall|i: int, j: int|
        0 <= i < j < entries.len() ==> char_seq_lt(#[trigger] entries[i].0@, #[trigger] entries[j].0@)
}

impl CastingKb {
    /// Both tables are in key order.
    pub open spec fn well_formed(self) -> bool {
        keys_in_order(self.makers@) && keys_in_order(self.models@)
    }
}

/// `i` is the first entry whose key is `key`.
pub open spec fn is_first_key(entries: Seq<(String, MakerCasting)>, key: Seq<char>, i: int) -> bool {
    &&& 0 <= i < entries.len()
    &&& entries[i].0@ == key
    &&& forall|j: int| 0 <= j < i ==> (#[trigger] entries[j]).0@ != key
}

/// Some entry has key `key`.
pub open spec fn has_key(entries: Seq<(String, MakerCasting)>, key: Seq<char>) -> bool {
    exists|i: int| 0 <= i < entries.len() && (#[trigger] entries[i]).0@ == key
}

/// `i` is the first entry whose key equals `maker` ignoring ASCII case.
pub open spec fn is_first_maker(entries: Seq<(String, MakerCasting)>, maker: Seq<char>, i: int) -> bool {
    &&& 0 <= i < entries.len()
    &&& eq_ignore_ascii_case(entries[i].0@, maker)
    &&& forall|j: int| 0 <= j < i ==> !eq_ignore_ascii_case((#[trigger] entries[j]).0@, maker)
}

/// Some entry's key equals `maker` ignoring ASCII case.
pub open spec fn has_maker(entries: Seq<(String, MakerCasting)>, maker: Seq<char>) -> bool {
    exists|i: int| 0 <= i < entries.len() && eq_ignore_ascii_case((#[trigger] entries[i]).0@, maker)
}

/// The model key of a taper's name, if any.
pub open spec fn taper_model_key(t: Taper) -> Option<Seq<char>> {
    match t.name {
        Some(n) => model_key_of(n@),
        None => None,
    }
}

/// The maker token of a taper's name, if any.
pub open spec fn taper_maker(t: Taper) -> Option<Seq<char>> {
    match t.name {
        Some(n) => maker_of(n@),
        None => None,
    }
}

/// The model-level lookup applies: the taper has a model key and the model
/// table holds it.
pub open spec fn model_match(kb: CastingKb, t: Taper) -> bool {
    taper_model_key(t) matches Some(k) && has_key(kb.models@, k)
}

/// Position of the first entry with key `key`.
fn find_key(entries: &Vec<(String, MakerCasting)>, key: &String) -> (r: Option<usize>)
    ensures
        r matches Some(i) ==> is_first_key(entries@, key@, i as int),
        r is None <==> !has_key(entries@, key@),
{
    let kc = chars_of(key.as_str());
    let mut i: usize = 0;
    while i < entries.len()
        invariant
            kc@ == key@,
            i <= entries.len(),
            forall|j: int| 0 <= j < i ==> (#[trigger] entries@[j]).0@ != key@,
        decreases entries.len() - i,
    {
        if eq_chars(&chars_of(entries[i].0.as_str()), &kc) {
            return Some(i);
        }
        i += 1;
    }
    None
}

/// Position of the first entry whose key equals `maker` ignoring ASCII case.
fn find_maker(entries: &Vec<(String, MakerCasting)>, maker: &String) -> (r: Option<usize>)
    ensures
        r matches Some(i) ==> is_first_maker(entries@, maker@, i as int),
        r is None <==> !has_maker(entries@, maker@),
{
    let mc = chars_of(maker.as_str());
    let mut i: usize = 0;
    while i < entries.len()
        invariant
            mc@ == maker@,
            i <= entries.len(),
            forall|j: int| 0 <= j < i ==> !eq_ignore_ascii_case((#[trigger] entries@[j]).0@, maker@),
        decreases entries.len() - i,
    {
        if eq_ignore_ascii_case_chars(&chars_of(entries[i].0.as_str()), &mc) {
            return Some(i);
        }
        i += 1;
    }
    None
}

impl CastingKb {
    /// Casting feedback for a taper: the model-level entry for its "maker
    /// model" key when there is one (labelled by the entry's own label, else
    /// the key), otherwise the first maker-level entry whose name equals the
    /// taper's maker token ignoring ASCII case (labelled by that name).
    pub fn for_taper(&self, taper: &Taper) -> (r: Option<(String, &MakerCasting)>)
        requires
            self.well_formed(),
        ensures
            model_match(*self, *taper) ==> exists|i: int| {
                &&& is_first_key(self.models@, taper_model_key(*taper)->0, i)
                &&& r matches Some((label, mc)) && *mc == self.models@[i].1 && label@ == match self.models@[i].1.label {
                    Some(l) => l@,
                    None => taper_model_key(*taper)->0,
                }
            },
            !model_match(*self, *taper) && (taper_maker(*taper) matches Some(m) && has_maker(self.makers@, m))
                ==> exists|i: int| {
                &&& is_first_maker(self.makers@, taper_maker(*taper)->0, i)
                &&& r matches Some((label, mc)) && *mc == self.makers@[i].1 && label@ == self.makers@[i].0@
                &&& forall|j: int|
                    0 <= j < self.makers@.len() && j != i && eq_ignore_ascii_case(
                        #[trigger] self.makers@[j].0@,
                        taper_maker(*taper)->0,
                    ) ==> char_seq_lt(self.makers@[i].0@, self.makers@[j].0@)
            },
            !model_match(*self, *taper) && !(taper_maker(*taper) matches Some(m) && has_maker(self.makers@, m))
                ==> r is None,
    {
        if let Some(key) = taper.model_key() {
            if let Some(i) = find_key(&self.models, &key) {
                let mc = &self.models[i].1;
                let label = match &mc.label {
                    Some(l) => l.clone(),
                    None => key,
                };
                return Some((label, mc));
            }
        }
        let maker = match taper.maker() {
            Some(m) => m,
            None => return None,
        };
        match find_maker(&self.makers, &maker) {
            Some(i) => {
                assert forall|j: int|
                    0 <= j < self.makers@.len() && j != i && eq_ignore_ascii_case(
                        #[trigger] self.makers@[j].0@,
                        maker@,
                    ) implies char_seq_lt(self.makers@[i as int].0@, self.makers@[j].0@) by {
                    if j < i {
                        assert(!eq_ignore_ascii_case(self.makers@[j].0@, maker@));
                    }
                }
                Some((self.makers[i].0.clone(), &self.makers[i].1))
            },
            None => None,
        }
    }
}


/// Entry `a` is listed before entry `b` when ordering tags most common
/// first: a higher count first, equal counts in table (key) order.
pub open spec fn listed_before(counts: Seq<(String, u64)>, a: int, b: int) -> bool {
    counts[a].1 > counts[b].1 || (counts[a].1 == counts[b].1 && a < b)
}

/// Each entry of `order` is listed before every later one.
pub open spec fn in_frequency_order(counts: Seq<(String, u64)>, order: Seq<usize>) -> bool {
    forall|k1: int, k2: int|
        0 <= k1 < k2 < order.len() ==> listed_before(counts, #[trigger] order[k1] as int, #[trigger] order[k2] as int)
}

/// `order` lists every entry of `counts` exactly once, most common first.
pub open spec fn is_frequency_order(counts: Seq<(String, u64)>, order: Seq<usize>) -> bool {
    &&& order.len() == counts.len()
    &&& forall|k: int| 0 <= k < order.len() ==> #[trigger] order[k] < counts.len()
    &&& forall|v: usize| v < counts.len() ==> #[trigger] order.contains(v)
    &&& in_frequency_order(counts, order)
}

impl MakerCasting {
    /// The positions of the action-tag counts, most common tag first; tags
    /// with equal counts in key order.
    pub fn action_order(&self) -> (r: Vec<usize>)
        requires
            keys_in_order(self.action_counts@),
        ensures
            is_frequency_order(self.action_counts@, r@),
            forall|k1: int, k2: int|
                0 <= k1 < k2 < r.len() && self.action_counts@[r@[k1] as int].1 == self.action_counts@[r@[k2] as int].1
                    ==> char_seq_lt(
                    #[trigger] self.action_counts@[r@[k1] as int].0@,
                    #[trigger] self.action_counts@[r@[k2] as int].0@,
                ),
    {
        let counts = &self.action_counts;
        let mut out: Vec<usize> = Vec::new();
        let mut i: usize = 0;
        while i < counts.len()
            invariant
                i <= counts.len(),
                out.len() == i,
                forall|k: int| 0 <= k < out.len() ==> #[trigger] out@[k] < i,
                forall|v: usize| v < i ==> #[trigger] out@.contains(v),
                in_frequency_order(counts@, out@),
            decreases counts.len() - i,
        {
            let c = counts[i].1;
            let mut p: usize = 0;
            while p < out.len() && counts[out[p]].1 >= c
                invariant
                    i < counts.len(),
                    c == counts@[i as int].1,
                    p <= out.len(),
                    forall|k: int| 0 <= k < out.len() ==> #[trigger] out@[k] < i,
                    forall|k: int| 0 <= k < p ==> counts@[#[trigger] out@[k] as int].1 >= c,
                decreases out.len() - p,
            {
                p += 1;
            }
            let ghost old_out = out@;
            proof {
                // Entries from p on all count less than c: the list is sorted.
                assert forall|k: int| p <= k < old_out.len() implies counts@[#[trigger] old_out[k] as int].1 < c by {
                    if k > p {
                        assert(listed_before(counts@, old_out[p as int] as int, old_out[k] as int));
                    }
                }
            }
            out.insert(p, i);
            assert forall|k: int| 0 <= k < out.len() implies #[trigger] out@[k] < i + 1 by {
                if k < p {
                    assert(out@[k] == old_out[k]);
                } else if k > p {
                    assert(out@[k] == old_out[k - 1]);
                }
            }
            assert forall|v: usize| v < i + 1 implies #[trigger] out@.contains(v) by {
                if v == i {
                    assert(out@[p as int] == i);
                } else {
                    assert(old_out.contains(v));
                    let k = choose|k: int| 0 <= k < old_out.len() && old_out[k] == v;
                    if k < p {
                        assert(out@[k] == old_out[k]);
                    } else {
                        assert(out@[k + 1] == old_out[k]);
                    }
                }
            }
            assert forall|k1: int, k2: int| 0 <= k1 < k2 < out.len() implies listed_before(
                counts@,
                #[trigger] out@[k1] as int,
                #[trigger] out@[k2] as int,
            ) by {
                if k2 < p {
                    assert(out@[k1] == old_out[k1] && out@[k2] == old_out[k2]);
                } else if k2 == p {
                    assert(out@[k1] == old_out[k1]);
                } else if k1 == p {
                    assert(out@[k2] == old_out[k2 - 1]);
                } else if k1 < p {
                    assert(out@[k1] == old_out[k1] && out@[k2] == old_out[k2 - 1]);
                } else {
                    assert(out@[k1] == old_out[k1 - 1] && out@[k2] == old_out[k2 - 1]);
                }
            }
            i += 1;
        }
        out
    }
}

/// Two lists in frequency order holding the same entries are the same list.
proof fn lemma_frequency_lists_equal(counts: Seq<(String, u64)>, a: Seq<usize>, b: Seq<usize>)
    requires
        in_frequency_order(counts, a),
        in_frequency_order(counts, b),
        forall|x: usize| a.contains(x) <==> b.contains(x),
    ensures
        a == b,
    decreases a.len(),
{
    if a.len() == 0 {
        if b.len() > 0 {
            assert(b.contains(b[0]));
        }
        assert(a =~= b);
        return;
    }
    assert(a.contains(a[0]));
    assert(b.contains(b[0]));
    let j = choose|j: int| 0 <= j < b.len() && b[j] == a[0];
    let m = choose|m: int| 0 <= m < a.len() && a[m] == b[0];
    if j > 0 {
        assert(listed_before(counts, b[0] as int, b[j] as int));
        if m > 0 {
            assert(listed_before(counts, a[0] as int, a[m] as int));
        }
    }
    assert(a[0] == b[0]);
    let (ta, tb) = (a.drop_first(), b.drop_first());
    assert forall|k1: int, k2: int| 0 <= k1 < k2 < ta.len() implies listed_before(
        counts,
        #[trigger] ta[k1] as int,
        #[trigger] ta[k2] as int,
    ) by {
        assert(ta[k1] == a[k1 + 1] && ta[k2] == a[k2 + 1]);
    }
    assert forall|k1: int, k2: int| 0 <= k1 < k2 < tb.len() implies listed_before(
        counts,
        #[trigger] tb[k1] as int,
        #[trigger] tb[k2] as int,
    ) by {
        assert(tb[k1] == b[k1 + 1] && tb[k2] == b[k2 + 1]);
    }
    assert forall|x: usize| ta.contains(x) <==> tb.contains(x) by {
        if ta.contains(x) {
            let k = choose|k: int| 0 <= k < ta.len() && ta[k] == x;
            assert(a[k + 1] == x);
            assert(a.contains(x));
            assert(listed_before(counts, a[0] as int, a[k + 1] as int));
            let q = choose|q: int| 0 <= q < b.len() && b[q] == x;
            assert(q != 0);
            assert(tb[q - 1] == x);
        }
        if tb.contains(x) {
            let k = choose|k: int| 0 <= k < tb.len() && tb[k] == x;
            assert(b[k + 1] == x);
            assert(b.contains(x));
            assert(listed_before(counts, b[0] as int, b[k + 1] as int));
            let q = choose|q: int| 0 <= q < a.len() && a[q] == x;
            assert(q != 0);
            assert(ta[q - 1] == x);
        }
    }
    lemma_frequency_lists_equal(counts, ta, tb);
    assert(a =~= seq![a[0]] + ta);
    assert(b =~= seq![b[0]] + tb);
}

/// Law: an order listing tags most common first holds no entry twice, and
/// it is the only such order (so `action_order`'s result is determined).
pub proof fn lemma_frequency_order_unique(counts: Seq<(String, u64)>, a: Seq<usize>, b: Seq<usize>)
    requires
        is_frequency_order(counts, a),
        is_frequency_order(counts, b),
    ensures
        a.no_duplicates(),
        a == b,
{
    assert forall|k1: int, k2: int| 0 <= k1 < k2 < a.len() implies a[k1] != a[k2] by {
        assert(listed_before(counts, a[k1] as int, a[k2] as int));
    }
    assert forall|x: usize| a.contains(x) <==> b.contains(x) by {
        if a.contains(x) {
            let k = choose|k: int| 0 <= k < a.len() && a[k] == x;
            assert(a[k] < counts.len());
            assert(b.contains(x));
        }
        if b.contains(x) {
            let k = choose|k: int| 0 <= k < b.len() && b[k] == x;
            assert(b[k] < counts.len());
            assert(a.contains(x));
        }
    }
    lemma_frequency_lists_equal(counts, a, b);
}
} // verus!
