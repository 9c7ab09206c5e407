//! Character-level string helpers shared by the classification rules.
//!
//! Strings are handled as sequences of `char`s. Unicode case mapping and the
//! alphanumeric class come from std behind small trusted wrappers;
//! everything built on top of them (searching, trimming, splitting,
//! ordering) is verified here.

use vstd::prelude::*;

verus! {

// ---------------------------------------------------------------------------
// Names for what std's Unicode tables compute
// ---------------------------------------------------------------------------

/// What `str::to_lowercase` returns for a string, as a character sequence.
pub uninterp spec fn unicode_lowercase(s: Seq<char>) -> Seq<char>;

/// What `char::is_alphanumeric` returns for a character.
pub uninterp spec fn unicode_alphanumeric(c: char) -> bool;


/// Trusted: calls std's `str::to_lowercase`. The contract claims only that
/// the result's characters are `unicode_lowercase` of the argument's
/// characters, i.e. that the result depends on the argument alone; the
/// Unicode case mapping itself is left unsaid.
#[verifier::external_body]
pub(crate) fn lowercase(s: &str) -> (r: String)
    ensures
        r@ == unicode_lowercase(s@),
{
    s.to_lowercase()
}

/// Trusted: calls std's `char::is_alphanumeric`. The contract claims only
/// that the answer is `unicode_alphanumeric` of the character; which
/// characters are letters or digits is left unsaid.
#[verifier::external_body]
pub(crate) fn is_alphanumeric(c: char) -> (r: bool)
    ensures
        r == unicode_alphanumeric(c),
{
    c.is_alphanumeric()
}

/// The characters with the Unicode White_Space property, which is what
/// `char::is_whitespace` tests: U+0009 to U+000D, U+0020, U+0085, U+00A0,
/// U+1680, U+2000 to U+200A, U+2028, U+2029, U+202F, U+205F and U+3000.
pub open spec fn unicode_whitespace(c: char) -> bool {
    let x = c as u32;
    ||| 0x09 <= x <= 0x0D
    ||| x == 0x20
    ||| x == 0x85
    ||| x == 0xA0
    ||| x == 0x1680
    ||| 0x2000 <= x <= 0x200A
    ||| x == 0x2028
    ||| x == 0x2029
    ||| x == 0x202F
    ||| x == 0x205F
    ||| x == 0x3000
}

/// Whether `c` is white space (has the Unicode White_Space property).
pub fn is_whitespace(c: char) -> (r: bool)
    ensures
        r == unicode_whitespace(c),
{
    let x = c as u32;
    (0x09 <= x && x <= 0x0D) || x == 0x20 || x == 0x85 || x == 0xA0 || x == 0x1680 || (0x2000 <= x
        && x <= 0x200A) || x == 0x2028 || x == 0x2029 || x == 0x202F || x == 0x205F || x == 0x3000
}

/// Trusted: calls std's `String::push`. The contract claims what its
/// documentation says: the string afterwards is the old string with `c`
/// appended.
#[verifier::external_body]
pub(crate) fn push_char(s: &mut String, c: char)
    ensures
        final(s)@ == old(s)@.push(c),
{
    s.push(c)
}

// ---------------------------------------------------------------------------
// Conversions
// ---------------------------------------------------------------------------

/// The characters of a string slice, in order.
pub fn chars_of(s: &str) -> (r: Vec<char>)
    ensures
        r@ == s@,
{
    let mut r: Vec<char> = Vec::new();
    for c in it: s.chars()
        invariant
            r@ == it.seq().take(it.index()),
    {
        r.push(c);
    }
    r
}

/// A string holding exactly the characters of `v[lo..hi]`.
pub fn string_from_range(v: &Vec<char>, lo: usize, hi: usize) -> (r: String)
    requires
        lo <= hi <= v.len(),
    ensures
        r@ == v@.subrange(lo as int, hi as int),
{
    let mut r = String::new();
    let mut i = lo;
    while i < hi
        invariant
            lo <= i <= hi <= v.len(),
            r@ == v@.subrange(lo as int, i as int),
        decreases hi - i,
    {
        push_char(&mut r, v[i]);
        assert(v@.subrange(lo as int, i + 1) == v@.subrange(lo as int, i as int).push(v@[i as int]));
        i += 1;
    }
    r
}

/// A string holding exactly the characters of `v`.
pub fn string_from_chars(v: &Vec<char>) -> (r: String)
    ensures
        r@ == v@,
{
    let r = string_from_range(v, 0, v.len());
    assert(v@.subrange(0, v@.len() as int) == v@);
    r
}

// ---------------------------------------------------------------------------
// Searching
// ---------------------------------------------------------------------------

/// `needle` occurs in `hay` starting at position `i`.
pub open spec fn occurs_at(hay: Seq<char>, needle: Seq<char>, i: int) -> bool {
    0 <= i && i + needle.len() <= hay.len() && hay.subrange(i, i + needle.len()) == needle
}

/// `needle` occurs somewhere in `hay` (the empty needle occurs everywhere).
pub open spec fn seq_contains(hay: Seq<char>, needle: Seq<char>) -> bool {
    exists|i: int| #[trigger] occurs_at(hay, needle, i)
}

/// `hay` begins with `prefix`.
pub open spec fn seq_starts_with(hay: Seq<char>, prefix: Seq<char>) -> bool {
    occurs_at(hay, prefix, 0)
}

/// Whether `needle` occurs in `hay` at position `i`.
fn matches_at(hay: &Vec<char>, needle: &Vec<char>, i: usize) -> (r: bool)
    ensures
        r == occurs_at(hay@, needle@, i as int),
{
    if i > hay.len() || needle.len() > hay.len() - i {
        return false;
    }
    let mut j: usize = 0;
    while j < needle.len()
        invariant
            i + needle.len() <= hay.len(),
            j <= needle.len(),
            forall|k: int| 0 <= k < j ==> hay@[i + k] == needle@[k],
        decreases needle.len() - j,
    {
        if hay[i + j] != needle[j] {
            assert(hay@.subrange(i as int, i + needle.len())[j as int] != needle@[j as int]);
            return false;
        }
        j += 1;
    }
    assert(hay@.subrange(i as int, i + needle.len()) =~= needle@);
    true
}

/// Whether `needle` occurs anywhere in `hay`.
pub fn contains_chars(hay: &Vec<char>, needle: &Vec<char>) -> (r: bool)
    ensures
        r == seq_contains(hay@, needle@),
{
    if needle.len() > hay.len() {
        assert forall|i: int| !#[trigger] occurs_at(hay@, needle@, i) by {}
        return false;
    }
    let last = hay.len() - needle.len();
    let mut i: usize = 0;
    loop
        invariant
            last == hay.len() - needle.len(),
            i <= last,
            forall|k: int| 0 <= k < i ==> !#[trigger] occurs_at(hay@, needle@, k),
        ensures
            forall|k: int| 0 <= k <= last ==> !#[trigger] occurs_at(hay@, needle@, k),
        decreases last - i,
    {
        if matches_at(hay, needle, i) {
            return true;
        }
        if i == last {
            break;
        }
        i += 1;
    }
    assert forall|k: int| !#[trigger] occurs_at(hay@, needle@, k) by {
        if 0 <= k <= last {
        }
    }
    false
}

/// Whether `hay` begins with `prefix`.
pub fn starts_with_chars(hay: &Vec<char>, prefix: &Vec<char>) -> (r: bool)
    ensures
        r == seq_starts_with(hay@, prefix@),
{
    matches_at(hay, prefix, 0)
}

// ---------------------------------------------------------------------------
// ASCII case folding
// ---------------------------------------------------------------------------

/// The code point of `c` with ASCII upper-case letters mapped to lower case.
pub open spec fn ascii_fold(c: char) -> u32 {
    if 'A' <= c && c <= 'Z' {
        (c as u32 + 32) as u32
    } else {
        c as u32
    }
}

/// Two strings are equal ignoring ASCII case. (Comparing UTF-8 bytes with
/// ASCII folding, as std does, is the same as comparing characters with
/// ASCII folding: folding never touches the bytes of a multi-byte character.)
pub open spec fn eq_ignore_ascii_case(a: Seq<char>, b: Seq<char>) -> bool {
    a.len() == b.len() && forall|i: int| 0 <= i < a.len() ==> ascii_fold(#[trigger] a[i]) == ascii_fold(b[i])
}

fn fold_char(c: char) -> (r: u32)
    ensures
        r == ascii_fold(c),
{
    if 'A' <= c && c <= 'Z' {
        c as u32 + 32
    } else {
        c as u32
    }
}

/// Whether two character sequences are equal ignoring ASCII case.
pub fn eq_ignore_ascii_case_chars(a: &Vec<char>, b: &Vec<char>) -> (r: bool)
    ensures
        r == eq_ignore_ascii_case(a@, b@),
{
    if a.len() != b.len() {
        return false;
    }
    let mut i: usize = 0;
    while i < a.len()
        invariant
            a.len() == b.len(),
            i <= a.len(),
            forall|k: int| 0 <= k < i ==> ascii_fold(#[trigger] a@[k]) == ascii_fold(b@[k]),
        decreases a.len() - i,
    {
        if fold_char(a[i]) != fold_char(b[i]) {
            return false;
        }
        i += 1;
    }
    true
}

// ---------------------------------------------------------------------------
// Trimming
// ---------------------------------------------------------------------------

/// Number of leading characters of `s` satisfying `p`.
pub open spec fn lead_count(s: Seq<char>, p: spec_fn(char) -> bool) -> nat
    decreases s.len(),
{
    if s.len() > 0 && p(s[0]) {
        1 + lead_count(s.drop_first(), p)
    } else {
        0
    }
}

/// The leading count is characterised by a satisfying prefix followed by an
/// end or a character that fails `p`.
pub proof fn lemma_lead_count(s: Seq<char>, p: spec_fn(char) -> bool, i: int)
    requires
        0 <= i <= s.len(),
        forall|j: int| 0 <= j < i ==> p(#[trigger] s[j]),
        i == s.len() || !p(s[i]),
    ensures
        lead_count(s, p) == i,
    decreases i,
{
    if i > 0 {
        let t = s.drop_first();
        assert forall|j: int| 0 <= j < i - 1 implies p(#[trigger] t[j]) by {
            assert(t[j] == s[j + 1]);
        }
        if i < s.len() {
            assert(t[i - 1] == s[i]);
        }
        lemma_lead_count(t, p, i - 1);
    }
}

/// Number of leading `true` marks.
pub open spec fn lead_marked(m: Seq<bool>) -> nat
    decreases m.len(),
{
    if m.len() > 0 && m[0] {
        1 + lead_marked(m.drop_first())
    } else {
        0
    }
}

/// Number of trailing `true` marks.
pub open spec fn trail_marked(m: Seq<bool>) -> nat
    decreases m.len(),
{
    if m.len() > 0 && m.last() {
        1 + trail_marked(m.drop_last())
    } else {
        0
    }
}

/// `s` with every leading and trailing character whose mark is set removed
/// (`m[i]` marks `s[i]`); empty when every character is marked.
pub open spec fn trim_marked_spec(s: Seq<char>, m: Seq<bool>) -> Seq<char> {
    if lead_marked(m) >= s.len() {
        Seq::empty()
    } else {
        s.subrange(lead_marked(m) as int, s.len() - trail_marked(m))
    }
}

/// Marks the white-space characters of `s`.
pub open spec fn whitespace_marks(s: Seq<char>) -> Seq<bool> {
    Seq::new(s.len(), |i: int| unicode_whitespace(s[i]))
}

/// Marks the characters of `s` that are not letters or digits.
pub open spec fn non_alphanumeric_marks(s: Seq<char>) -> Seq<bool> {
    Seq::new(s.len(), |i: int| !unicode_alphanumeric(s[i]))
}

/// `s` without leading and trailing white space (what `str::trim` does).
pub open spec fn trim_ws(s: Seq<char>) -> Seq<char> {
    trim_marked_spec(s, whitespace_marks(s))
}

/// `s` without leading and trailing characters that are not letters or
/// digits (`trim_matches(|c| !c.is_alphanumeric())`).
pub open spec fn trim_alnum(s: Seq<char>) -> Seq<char> {
    trim_marked_spec(s, non_alphanumeric_marks(s))
}

proof fn lemma_lead_marked(m: Seq<bool>, i: int)
    requires
        0 <= i <= m.len(),
        forall|j: int| 0 <= j < i ==> #[trigger] m[j],
        i == m.len() || !m[i],
    ensures
        lead_marked(m) == i,
    decreases i,
{
    if i > 0 {
        let t = m.drop_first();
        assert forall|j: int| 0 <= j < i - 1 implies #[trigger] t[j] by {
            assert(t[j] == m[j + 1]);
        }
        if i < m.len() {
            assert(t[i - 1] == m[i]);
        }
        lemma_lead_marked(t, i - 1);
    }
}

proof fn lemma_trail_marked(m: Seq<bool>, i: int)
    requires
        0 <= i <= m.len(),
        forall|j: int| m.len() - i <= j < m.len() ==> #[trigger] m[j],
        i == m.len() || !m[m.len() - 1 - i],
    ensures
        trail_marked(m) == i,
    decreases i,
{
    if i > 0 {
        let t = m.drop_last();
        assert forall|j: int| t.len() - (i - 1) <= j < t.len() implies #[trigger] t[j] by {
            assert(t[j] == m[j]);
        }
        if i < m.len() {
            assert(t[t.len() - 1 - (i - 1)] == m[m.len() - 1 - i]);
        }
        lemma_trail_marked(t, i - 1);
    }
}

/// The characters of `v[lo..hi]`, as a vector.
pub fn sub_vec(v: &Vec<char>, lo: usize, hi: usize) -> (r: Vec<char>)
    requires
        lo <= hi <= v.len(),
    ensures
        r@ == v@.subrange(lo as int, hi as int),
{
    let mut r: Vec<char> = Vec::new();
    let mut i = lo;
    while i < hi
        invariant
            lo <= i <= hi <= v.len(),
            r@ == v@.subrange(lo as int, i as int),
        decreases hi - i,
    {
        r.push(v[i]);
        assert(v@.subrange(lo as int, i + 1) == v@.subrange(lo as int, i as int).push(v@[i as int]));
        i += 1;
    }
    r
}

/// `s` with its leading and trailing marked characters removed, where
/// `marks[i]` says whether `s[i]` is to be trimmed.
pub fn trim_marked(s: &Vec<char>, marks: &Vec<bool>) -> (r: Vec<char>)
    requires
        marks.len() == s.len(),
    ensures
        r@ == trim_marked_spec(s@, marks@),
{
    let mut lo: usize = 0;
    while lo < s.len() && marks[lo]
        invariant
            marks.len() == s.len(),
            lo <= s.len(),
            forall|j: int| 0 <= j < lo ==> #[trigger] marks@[j],
        decreases s.len() - lo,
    {
        lo += 1;
    }
    proof {
        lemma_lead_marked(marks@, lo as int);
    }
    if lo == s.len() {
        return Vec::new();
    }
    let mut t: usize = 0;
    while t < s.len() && marks[s.len() - 1 - t]
        invariant
            marks.len() == s.len(),
            t <= s.len(),
            forall|j: int| s.len() - t <= j < s.len() ==> #[trigger] marks@[j],
        decreases s.len() - t,
    {
        t += 1;
    }
    proof {
        lemma_trail_marked(marks@, t as int);
    }
    // The first kept character stops the trailing scan, so the two trims
    // never overlap.
    assert(t < s.len() - lo) by {
        if t >= s.len() - lo {
            assert(marks@[lo as int]);
        }
    }
    sub_vec(s, lo, s.len() - t)
}

/// `s` with leading and trailing characters that are not letters or digits
/// removed (`trim_matches(|c| !c.is_alphanumeric())`).
pub fn trim_non_alphanumeric(s: &Vec<char>) -> (r: Vec<char>)
    ensures
        r@ == trim_alnum(s@),
{
    let mut marks: Vec<bool> = Vec::new();
    let mut i: usize = 0;
    while i < s.len()
        invariant
            i <= s.len(),
            marks.len() == i,
            forall|j: int| 0 <= j < i ==> #[trigger] marks@[j] == !unicode_alphanumeric(s@[j]),
        decreases s.len() - i,
    {
        marks.push(!is_alphanumeric(s[i]));
        i += 1;
    }
    assert(marks@ =~= non_alphanumeric_marks(s@));
    trim_marked(s, &marks)
}

/// `s` with leading and trailing white space removed (`str::trim`).
pub fn trim_whitespace(s: &Vec<char>) -> (r: Vec<char>)
    ensures
        r@ == trim_ws(s@),
{
    let mut marks: Vec<bool> = Vec::new();
    let mut i: usize = 0;
    while i < s.len()
        invariant
            i <= s.len(),
            marks.len() == i,
            forall|j: int| 0 <= j < i ==> #[trigger] marks@[j] == unicode_whitespace(s@[j]),
        decreases s.len() - i,
    {
        marks.push(is_whitespace(s[i]));
        i += 1;
    }
    assert(marks@ =~= whitespace_marks(s@));
    trim_marked(s, &marks)
}

// ---------------------------------------------------------------------------
// Ordering
// ---------------------------------------------------------------------------

/// Index of the first position where `a` and `b` differ, or where the
/// shorter of the two ends.
pub open spec fn mismatch(a: Seq<char>, b: Seq<char>) -> nat
    decreases a.len(),
{
    if a.len() == 0 || b.len() == 0 || a[0] != b[0] {
        0
    } else {
        1 + mismatch(a.drop_first(), b.drop_first())
    }
}

/// Lexicographic order on character sequences by code point. This is the
/// order of `String`'s `Ord` (which compares UTF-8 bytes; UTF-8 preserves
/// code point order).
pub open spec fn char_seq_lt(a: Seq<char>, b: Seq<char>) -> bool {
    let i = mismatch(a, b);
    if i >= a.len() {
        i < b.len()
    } else {
        i < b.len() && (a[i as int] as int) < (b[i as int] as int)
    }
}

/// The mismatch index is characterised by an equal prefix followed by an
/// end or a difference.
pub proof fn lemma_mismatch(a: Seq<char>, b: Seq<char>, i: int)
    requires
        0 <= i <= a.len(),
        i <= b.len(),
        forall|j: int| 0 <= j < i ==> #[trigger] a[j] == b[j],
        i == a.len() || i == b.len() || a[i] != b[i],
    ensures
        mismatch(a, b) == i,
    decreases i,
{
    if i > 0 {
        let (a1, b1) = (a.drop_first(), b.drop_first());
        assert forall|j: int| 0 <= j < i - 1 implies #[trigger] a1[j] == b1[j] by {
            assert(a[j + 1] == b[j + 1]);
        }
        lemma_mismatch(a1, b1, i - 1);
    }
}

/// The prefix before the mismatch index is common to both sequences.
pub proof fn lemma_mismatch_prefix(a: Seq<char>, b: Seq<char>)
    ensures
        mismatch(a, b) <= a.len(),
        mismatch(a, b) <= b.len(),
        forall|j: int| 0 <= j < mismatch(a, b) ==> #[trigger] a[j] == b[j],
        mismatch(a, b) == a.len() || mismatch(a, b) == b.len() || a[mismatch(a, b) as int]
            != b[mismatch(a, b) as int],
    decreases a.len(),
{
    if !(a.len() == 0 || b.len() == 0 || a[0] != b[0]) {
        let (a1, b1) = (a.drop_first(), b.drop_first());
        lemma_mismatch_prefix(a1, b1);
        assert forall|j: int| 0 <= j < mismatch(a, b) implies #[trigger] a[j] == b[j] by {
            if j > 0 {
                assert(a1[j - 1] == b1[j - 1]);
            }
        }
    }
}

/// `char_seq_lt` is a strict total order.
pub proof fn lemma_lt_strict_total(a: Seq<char>, b: Seq<char>)
    ensures
        !char_seq_lt(a, a),
        char_seq_lt(a, b) ==> !char_seq_lt(b, a),
        a != b ==> char_seq_lt(a, b) || char_seq_lt(b, a),
{
    lemma_mismatch_prefix(a, a);
    lemma_mismatch(a, a, a.len() as int);
    lemma_mismatch_prefix(a, b);
    lemma_mismatch_prefix(b, a);
    let i = mismatch(a, b) as int;
    lemma_mismatch(b, a, i);
    if a != b {
        if i == a.len() && i == b.len() {
            assert(a =~= b);
        } else if i < a.len() && i < b.len() {
            assert(a[i] != b[i]);
            assert((a[i] as int) != (b[i] as int));
        }
    }
}

/// `char_seq_lt` is transitive.
pub proof fn lemma_lt_transitive(a: Seq<char>, b: Seq<char>, c: Seq<char>)
    requires
        char_seq_lt(a, b),
        char_seq_lt(b, c),
    ensures
        char_seq_lt(a, c),
{
    lemma_mismatch_prefix(a, b);
    lemma_mismatch_prefix(b, c);
    let i = mismatch(a, b) as int;
    let j = mismatch(b, c) as int;
    if i < j {
        assert forall|k: int| 0 <= k < i implies #[trigger] a[k] == c[k] by {
            assert(a[k] == b[k]);
            assert(b[k] == c[k]);
        }
        lemma_mismatch(a, c, i);
    } else if j < i {
        assert forall|k: int| 0 <= k < j implies #[trigger] a[k] == c[k] by {
            assert(a[k] == b[k]);
            assert(b[k] == c[k]);
        }
        assert(a[j] == b[j]);
        lemma_mismatch(a, c, j);
    } else {
        assert forall|k: int| 0 <= k < i implies #[trigger] a[k] == c[k] by {
            assert(a[k] == b[k]);
            assert(b[k] == c[k]);
        }
        lemma_mismatch(a, c, i);
    }
}

/// Whether `a` sorts strictly before `b`.
pub fn lt_chars(a: &Vec<char>, b: &Vec<char>) -> (r: bool)
    ensures
        r == char_seq_lt(a@, b@),
{
    let mut i: usize = 0;
    while i < a.len() && i < b.len() && a[i] == b[i]
        invariant
            i <= a.len(),
            i <= b.len(),
            forall|j: int| 0 <= j < i ==> #[trigger] a@[j] == b@[j],
        decreases a.len() - i,
    {
        i += 1;
    }
    proof {
        lemma_mismatch(a@, b@, i as int);
    }
    if i == a.len() {
        i < b.len()
    } else {
        i < b.len() && a[i] < b[i]
    }
}

/// Whether two character sequences are equal.
pub fn eq_chars(a: &Vec<char>, b: &Vec<char>) -> (r: bool)
    ensures
        r == (a@ == b@),
{
    if a.len() != b.len() {
        return false;
    }
    let mut i: usize = 0;
    while i < a.len()
        invariant
            a.len() == b.len(),
            i <= a.len(),
            forall|j: int| 0 <= j < i ==> #[trigger] a@[j] == b@[j],
        decreases a.len() - i,
    {
        if a[i] != b[i] {
            return false;
        }
        i += 1;
    }
    assert(a@ =~= b@);
    true
}

// ---------------------------------------------------------------------------
// Name tokens
// ---------------------------------------------------------------------------

/// The separators a rod name is split on.
pub open spec fn is_name_sep(c: char) -> bool {
    c == ' ' || c == ','
}

/// Characters that belong to a name token.
pub open spec fn token_char_pred() -> spec_fn(char) -> bool {
    |c: char| !is_name_sep(c)
}

/// The first piece of `s` when split on the name separators (empty when `s`
/// starts with a separator), as `split([' ', ',']).next()` returns it.
pub open spec fn first_token(s: Seq<char>) -> Seq<char> {
    s.take(lead_count(s, token_char_pred()) as int)
}

/// A leading count never exceeds the length.
pub proof fn lemma_lead_count_bound(s: Seq<char>, p: spec_fn(char) -> bool)
    ensures
        lead_count(s, p) <= s.len(),
    decreases s.len(),
{
    if s.len() > 0 && p(s[0]) {
        lemma_lead_count_bound(s.drop_first(), p);
    }
}

/// The non-empty pieces of `s` split on the name separators, in order (the
/// maximal runs of non-separator characters).
pub open spec fn words(s: Seq<char>) -> Seq<Seq<char>>
    decreases s.len(),
{
    if s.len() == 0 {
        Seq::empty()
    } else if is_name_sep(s[0]) {
        words(s.drop_first())
    } else {
        let k = lead_count(s, token_char_pred());
        proof {
            lemma_lead_count_bound(s, token_char_pred());
        }
        seq![s.take(k as int)] + words(s.skip(k as int))
    }
}

/// Skipping a run of separators does not change the words that follow.
proof fn lemma_words_skip_seps(v: Seq<char>, x: int, y: int)
    requires
        0 <= x <= y <= v.len(),
        forall|k: int| x <= k < y ==> is_name_sep(#[trigger] v[k]),
    ensures
        words(v.skip(x)) == words(v.skip(y)),
    decreases y - x,
{
    if x < y {
        assert(v.skip(x).drop_first() =~= v.skip(x + 1));
        assert(v.skip(x)[0] == v[x]);
        lemma_words_skip_seps(v, x + 1, y);
    }
}

/// Index of the first separator at or after `i`, or the length.
fn token_end(v: &Vec<char>, i: usize) -> (j: usize)
    requires
        i <= v.len(),
    ensures
        i <= j <= v.len(),
        j - i == lead_count(v@.skip(i as int), token_char_pred()),
        forall|k: int| i <= k < j ==> !is_name_sep(#[trigger] v@[k]),
{
    let mut j = i;
    while j < v.len() && v[j] != ' ' && v[j] != ','
        invariant
            i <= j <= v.len(),
            forall|k: int| i <= k < j ==> !is_name_sep(#[trigger] v@[k]),
        decreases v.len() - j,
    {
        j += 1;
    }
    proof {
        let s = v@.skip(i as int);
        assert forall|k: int| 0 <= k < j - i implies token_char_pred()(#[trigger] s[k]) by {
            assert(s[k] == v@[i + k]);
        }
        if j < v.len() {
            assert(s[j - i] == v@[j as int]);
        }
        lemma_lead_count(s, token_char_pred(), j - i);
    }
    j
}

/// Index of the first non-separator at or after `i`, or the length.
fn skip_seps(v: &Vec<char>, i: usize) -> (j: usize)
    requires
        i <= v.len(),
    ensures
        i <= j <= v.len(),
        forall|k: int| i <= k < j ==> is_name_sep(#[trigger] v@[k]),
        j < v.len() ==> !is_name_sep(v@[j as int]),
{
    let mut j = i;
    while j < v.len() && (v[j] == ' ' || v[j] == ',')
        invariant
            i <= j <= v.len(),
            forall|k: int| i <= k < j ==> is_name_sep(#[trigger] v@[k]),
        decreases v.len() - j,
    {
        j += 1;
    }
    j
}

/// The word starting at a non-separator position `i`, and the words after it.
proof fn lemma_words_at(v: Seq<char>, i: int, j: int)
    requires
        0 <= i < j <= v.len(),
        !is_name_sep(v[i]),
        j - i == lead_count(v.skip(i), token_char_pred()),
    ensures
        words(v.skip(i)) == seq![v.subrange(i, j)] + words(v.skip(j)),
{
    let s = v.skip(i);
    assert(s[0] == v[i]);
    assert(s.take(j - i) =~= v.subrange(i, j));
    assert(s.skip(j - i) =~= v.skip(j));
}

/// The first piece of `v` split on the name separators.
pub fn first_token_of(v: &Vec<char>) -> (r: Vec<char>)
    ensures
        r@ == first_token(v@),
{
    let j = token_end(v, 0);
    assert(v@.skip(0) =~= v@);
    sub_vec(v, 0, j)
}

/// The first two words of `v`, when it has at least two.
pub fn first_two_words(v: &Vec<char>) -> (r: Option<(Vec<char>, Vec<char>)>)
    ensures
        r is Some <==> words(v@).len() >= 2,
        r matches Some((a, b)) ==> a@ == words(v@)[0] && b@ == words(v@)[1],
{
    let i = skip_seps(v, 0);
    proof {
        assert(v@.skip(0) =~= v@);
        lemma_words_skip_seps(v@, 0, i as int);
    }
    if i == v.len() {
        assert(v@.skip(i as int).len() == 0);
        return None;
    }
    let j = token_end(v, i);
    proof {
        lemma_words_at(v@, i as int, j as int);
    }
    let k = skip_seps(v, j);
    proof {
        lemma_words_skip_seps(v@, j as int, k as int);
    }
    if k == v.len() {
        assert(v@.skip(k as int).len() == 0);
        assert(words(v@) =~= seq![v@.subrange(i as int, j as int)]);
        return None;
    }
    let l = token_end(v, k);
    proof {
        lemma_words_at(v@, k as int, l as int);
    }
    let a = sub_vec(v, i, j);
    let b = sub_vec(v, k, l);
    Some((a, b))
}


// ---------------------------------------------------------------------------
// Decimal numbers
// ---------------------------------------------------------------------------

/// The character of a decimal digit.
pub open spec fn digit_char(d: nat) -> char
    recommends
        d < 10,
{
    (('0' as int) + d) as char
}

/// The decimal representation of `n`, without leading zeros.
pub open spec fn decimal(n: nat) -> Seq<char>
    decreases n,
{
    if n < 10 {
        seq![digit_char(n)]
    } else {
        decimal(n / 10).push(digit_char(n % 10))
    }
}

fn digit_to_char(d: usize) -> (c: char)
    requires
        d < 10,
    ensures
        c == digit_char(d as nat),
{
    let digits = ['0', '1', '2', '3', '4', '5', '6', '7', '8', '9'];
    let c = digits[d];
    assert(c == digit_char(d as nat)) by {
        assert(digits@[0] == '0');
        assert(digits@[9] == '9');
    }
    c
}

/// Appends the decimal representation of `n` to `s`.
pub fn push_decimal(s: &mut String, n: usize)
    ensures
        final(s)@ == old(s)@ + decimal(n as nat),
    decreases n,
{
    if n >= 10 {
        push_decimal(s, n / 10);
    }
    push_char(s, digit_to_char(n % 10));
    assert(old(s)@ + decimal(n as nat) =~= s@);
}

} // verus!
