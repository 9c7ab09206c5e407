//! The taper library and its distinct, sorted filter values.

use vstd::prelude::*;

use crate::taper::{taper_source_group, Taper};
use crate::text::{char_seq_lt, chars_of, eq_chars, lemma_lt_strict_total, lemma_lt_transitive, lt_chars};

verus! {

/// Library header: where it came from and how many models it holds.
#[derive(Debug, Clone)]
pub struct Meta {
    pub source: String,
    pub author: String,
    pub count: usize,
}

/// A library of taper records.
#[derive(Debug, Clone)]
pub struct Library {
    pub meta: Meta,
    pub models: Vec<Taper>,
}

/// Every element of `s` sorts strictly before every later one (so `s` is
/// sorted and holds no value twice).
pub open spec fn strictly_sorted(s: Seq<String>) -> bool {
    forall|i: int, j: int| 0 <= i < j < s.len() ==> char_seq_lt(#[trigger] s[i]@, #[trigger] s[j]@)
}

/// `x` is the text of some element of `s`.
pub open spec fn holds_text(s: Seq<String>, x: Seq<char>) -> bool {
    exists|i: int| 0 <= i < s.len() && #[trigger] s[i]@ == x
}

/// Taper `t` has rod type `x`.
pub open spec fn is_rod_type(t: Taper, x: Seq<char>) -> bool {
    t.rod_type matches Some(r) && r@ == x
}

/// Some model of the library has rod type `x`.
pub open spec fn has_rod_type(models: Seq<Taper>, x: Seq<char>) -> bool {
    exists|i: int| 0 <= i < models.len() && #[trigger] is_rod_type(models[i], x)
}

/// Some model of the library falls in source group `x`.
pub open spec fn has_source_group(models: Seq<Taper>, x: Seq<char>) -> bool {
    exists|i: int| 0 <= i < models.len() && taper_source_group(#[trigger] models[i]) == Some(x)
}

/// Inserts `s` into the strictly sorted `out` unless it is already there.
/// `keys` holds the characters of each element of `out`.
fn insert_sorted(out: &mut Vec<String>, keys: &mut Vec<Vec<char>>, s: String)
    requires
        strictly_sorted(old(out)@),
        old(keys).len() == old(out).len(),
        forall|i: int| 0 <= i < old(out).len() ==> (#[trigger] old(keys)@[i])@ == old(out)@[i]@,
    ensures
        strictly_sorted(final(out)@),
        final(keys).len() == final(out).len(),
        forall|i: int| 0 <= i < final(out).len() ==> (#[trigger] final(keys)@[i])@ == final(out)@[i]@,
        forall|x: Seq<char>| #[trigger]
            holds_text(final(out)@, x) ==> holds_text(old(out)@, x) || x == s@,
        forall|x: Seq<char>| #[trigger] holds_text(old(out)@, x) ==> holds_text(final(out)@, x),
        holds_text(final(out)@, s@),
{
    let key = chars_of(s.as_str());
    let mut p: usize = 0;
    while p < keys.len() && lt_chars(&keys[p], &key)
        invariant
            keys.len() == out.len(),
            forall|i: int| 0 <= i < out.len() ==> (#[trigger] keys@[i])@ == out@[i]@,
            p <= keys.len(),
            forall|i: int| 0 <= i < p ==> char_seq_lt(#[trigger] out@[i]@, key@),
        decreases keys.len() - p,
    {
        p += 1;
    }
    if p < keys.len() && eq_chars(&keys[p], &key) {
        assert(out@[p as int]@ == s@);
        assert(holds_text(out@, s@));
        assert forall|x: Seq<char>| holds_text(out@, x) <==> (holds_text(out@, x) || x == s@) by {
            if x == s@ {
                assert(out@[p as int]@ == x);
            }
        }
        return;
    }
    let ghost old_out = out@;
    let ghost sv = s@;
    assert(old_out == old(out)@);
    proof {
        if p < old_out.len() {
            lemma_lt_strict_total(old_out[p as int]@, s@);
        }
    }
    out.insert(p, s);
    keys.insert(p, key);
    assert forall|i: int, j: int| 0 <= i < j < out@.len() implies char_seq_lt(
        #[trigger] out@[i]@,
        #[trigger] out@[j]@,
    ) by {
        if j < p {
            assert(out@[i] == old_out[i] && out@[j] == old_out[j]);
        } else if j == p {
            assert(out@[i] == old_out[i]);
        } else if i == p {
            assert(out@[j] == old_out[j - 1]);
            if j - 1 > p {
                lemma_lt_transitive(s@, old_out[p as int]@, old_out[j - 1]@);
            }
        } else if i < p {
            assert(out@[i] == old_out[i] && out@[j] == old_out[j - 1]);
        } else {
            assert(out@[i] == old_out[i - 1] && out@[j] == old_out[j - 1]);
        }
    }
    assert forall|i: int| 0 <= i < out.len() implies (#[trigger] keys@[i])@ == out@[i]@ by {
        if i > p {
            assert(out@[i] == old_out[i - 1]);
        }
    }
    assert(out@[p as int]@ == sv);
    assert(holds_text(out@, sv));
    assert forall|x: Seq<char>| holds_text(out@, x) <==> (holds_text(old_out, x) || x == sv) by {
        if holds_text(out@, x) {
            let i = choose|i: int| 0 <= i < out@.len() && #[trigger] out@[i]@ == x;
            if i < p {
                assert(old_out[i]@ == x);
            } else if i > p {
                assert(old_out[i - 1]@ == x);
            }
        }
        if holds_text(old_out, x) {
            let i = choose|i: int| 0 <= i < old_out.len() && #[trigger] old_out[i]@ == x;
            if i < p {
                assert(out@[i]@ == x);
            } else {
                assert(out@[i + 1]@ == x);
            }
        }
        if x == sv {
            assert(out@[p as int]@ == x);
        }
    }
}

impl Library {
    /// The distinct rod types present, sorted.
    pub fn rod_types(&self) -> (r: Vec<String>)
        ensures
            strictly_sorted(r@),
            forall|x: Seq<char>| holds_text(r@, x) <==> has_rod_type(self.models@, x),
    {
        let mut out: Vec<String> = Vec::new();
        let mut keys: Vec<Vec<char>> = Vec::new();
        let mut i: usize = 0;
        while i < self.models.len()
            invariant
                i <= self.models.len(),
                strictly_sorted(out@),
                keys.len() == out.len(),
                forall|j: int| 0 <= j < out.len() ==> (#[trigger] keys@[j])@ == out@[j]@,
                forall|x: Seq<char>| holds_text(out@, x) <==> has_rod_type(self.models@.take(i as int), x),
            decreases self.models.len() - i,
        {
            let ghost before = out@;
            let ghost pre = self.models@.take(i as int);
            let ghost post = self.models@.take(i + 1);
            assert(post[i as int] == self.models@[i as int]);
            assert forall|j: int| 0 <= j < i implies #[trigger] post[j] == pre[j] by {}
            match &self.models[i].rod_type {
                Some(t) => {
                    insert_sorted(&mut out, &mut keys, t.clone());
                    assert(is_rod_type(post[i as int], t@));
                },
                None => {},
            }
            assert forall|x: Seq<char>| holds_text(out@, x) <==> has_rod_type(post, x) by {
                if holds_text(before, x) {
                    assert(has_rod_type(pre, x));
                    let j = choose|j: int| 0 <= j < pre.len() && #[trigger] is_rod_type(pre[j], x);
                    assert(is_rod_type(post[j], x));
                }
                if has_rod_type(post, x) {
                    let j = choose|j: int| 0 <= j < post.len() && #[trigger] is_rod_type(post[j], x);
                    if j < i {
                        assert(is_rod_type(pre[j], x));
                        assert(has_rod_type(pre, x));
                        assert(holds_text(before, x));
                    }
                }
            }
            i += 1;
        }
        assert(self.models@.take(self.models.len() as int) =~= self.models@);
        out
    }

    /// The distinct source groups present (see `Taper::source_group`),
    /// sorted: the values a source filter offers.
    pub fn source_groups(&self) -> (r: Vec<String>)
        ensures
            strictly_sorted(r@),
            forall|x: Seq<char>| holds_text(r@, x) <==> has_source_group(self.models@, x),
    {
        let mut out: Vec<String> = Vec::new();
        let mut keys: Vec<Vec<char>> = Vec::new();
        let mut i: usize = 0;
        while i < self.models.len()
            invariant
                i <= self.models.len(),
                strictly_sorted(out@),
                keys.len() == out.len(),
                forall|j: int| 0 <= j < out.len() ==> (#[trigger] keys@[j])@ == out@[j]@,
                forall|x: Seq<char>| holds_text(out@, x) <==> has_source_group(self.models@.take(i as int), x),
            decreases self.models.len() - i,
        {
            let ghost before = out@;
            let ghost pre = self.models@.take(i as int);
            let ghost post = self.models@.take(i + 1);
            assert(post[i as int] == self.models@[i as int]);
            assert forall|j: int| 0 <= j < i implies #[trigger] post[j] == pre[j] by {}
            let g = self.models[i].source_group();
            match g {
                Some(t) => {
                    assert(taper_source_group(post[i as int]) == Some(t@));
                    insert_sorted(&mut out, &mut keys, t);
                },
                None => {},
            }
            assert forall|x: Seq<char>| holds_text(out@, x) <==> has_source_group(post, x) by {
                if holds_text(before, x) {
                    assert(has_source_group(pre, x));
                    let j = choose|j: int| 0 <= j < pre.len() && taper_source_group(#[trigger] pre[j]) == Some(x);
                    assert(taper_source_group(post[j]) == Some(x));
                }
                if has_source_group(post, x) {
                    let j = choose|j: int| 0 <= j < post.len() && taper_source_group(#[trigger] post[j]) == Some(x);
                    if j < i {
                        assert(taper_source_group(pre[j]) == Some(x));
                        assert(has_source_group(pre, x));
                        assert(holds_text(before, x));
                    }
                }
            }
            i += 1;
        }
        assert(self.models@.take(self.models.len() as int) =~= self.models@);
        out
    }
}


/// Law: a strictly sorted list is determined by the values it holds, so the
/// filter-value lists above are the only lists meeting their contracts.
pub proof fn lemma_strictly_sorted_unique(a: Seq<String>, b: Seq<String>)
    requires
        strictly_sorted(a),
        strictly_sorted(b),
        forall|x: Seq<char>| holds_text(a, x) <==> holds_text(b, x),
    ensures
        a.len() == b.len(),
        forall|i: int| 0 <= i < a.len() ==> #[trigger] a[i]@ == b[i]@,
    decreases a.len(),
{
    if a.len() == 0 {
        if b.len() > 0 {
            assert(holds_text(b, b[0]@));
        }
        return;
    }
    if b.len() == 0 {
        assert(holds_text(a, a[0]@));
        return;
    }
    assert(holds_text(a, a[0]@));
    assert(holds_text(b, b[0]@));
    let j = choose|j: int| 0 <= j < b.len() && #[trigger] b[j]@ == a[0]@;
    let k = choose|k: int| 0 <= k < a.len() && #[trigger] a[k]@ == b[0]@;
    lemma_lt_strict_total(a[0]@, b[0]@);
    if j > 0 {
        assert(char_seq_lt(b[0]@, b[j]@));
        if k > 0 {
            assert(char_seq_lt(a[0]@, a[k]@));
        }
    }
    assert(a[0]@ == b[0]@);
    let (ta, tb) = (a.drop_first(), b.drop_first());
    assert forall|i: int, j2: int| 0 <= i < j2 < ta.len() implies char_seq_lt(#[trigger] ta[i]@, #[trigger] ta[j2]@) by {
        assert(ta[i] == a[i + 1] && ta[j2] == a[j2 + 1]);
    }
    assert forall|i: int, j2: int| 0 <= i < j2 < tb.len() implies char_seq_lt(#[trigger] tb[i]@, #[trigger] tb[j2]@) by {
        assert(tb[i] == b[i + 1] && tb[j2] == b[j2 + 1]);
    }
    assert forall|x: Seq<char>| holds_text(ta, x) <==> holds_text(tb, x) by {
        if holds_text(ta, x) {
            let i = choose|i: int| 0 <= i < ta.len() && #[trigger] ta[i]@ == x;
            assert(a[i + 1]@ == x);
            assert(holds_text(a, x));
            let m = choose|m: int| 0 <= m < b.len() && #[trigger] b[m]@ == x;
            lemma_lt_strict_total(a[0]@, a[0]@);
            assert(char_seq_lt(a[0]@, a[i + 1]@));
            if m == 0 {
                assert(false);
            }
            assert(tb[m - 1]@ == x);
        }
        if holds_text(tb, x) {
            let i = choose|i: int| 0 <= i < tb.len() && #[trigger] tb[i]@ == x;
            assert(b[i + 1]@ == x);
            assert(holds_text(b, x));
            let m = choose|m: int| 0 <= m < a.len() && #[trigger] a[m]@ == x;
            lemma_lt_strict_total(b[0]@, b[0]@);
            assert(char_seq_lt(b[0]@, b[i + 1]@));
            if m == 0 {
                assert(false);
            }
            assert(ta[m - 1]@ == x);
        }
    }
    lemma_strictly_sorted_unique(ta, tb);
    assert forall|i: int| 0 <= i < a.len() implies #[trigger] a[i]@ == b[i]@ by {
        if i > 0 {
            assert(ta[i - 1]@ == tb[i - 1]@);
        }
    }
}

} // verus!
