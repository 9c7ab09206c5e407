//! The descriptive record of a rod taper and the classification rules that
//! read it: source grouping, maker / model keys for the casting knowledge
//! base, cross-section geometry, and ferrule slots.
//!
//! The numeric taper (stations, dimensions and the physics inputs) is
//! floating point and is handled outside this crate; what is kept here is
//! the text of the record, which is what these rules read.

use vstd::prelude::*;

use crate::text::{
    chars_of, contains_chars, first_token, first_token_of, first_two_words, lowercase, push_char,
    seq_contains, seq_starts_with, starts_with_chars, eq_chars, eq_ignore_ascii_case,
    eq_ignore_ascii_case_chars, trim_whitespace, trim_ws, lead_count, string_from_chars, trim_alnum, trim_non_alphanumeric,
    unicode_lowercase, words, is_name_sep, token_char_pred,
};

verus! {

/// Where a taper was sourced from, carried per record so attribution
/// survives merging libraries.
#[derive(Debug, Clone)]
pub struct Provenance {
    /// Human-readable library name, e.g. "RodDNA v2.0".
    pub source: Option<String>,
    pub author: Option<String>,
    pub source_url: Option<String>,
    /// File or collection within the source library.
    pub collection: Option<String>,
    pub license: Option<String>,
    /// ISO date this record was imported.
    pub imported: Option<String>,
}

impl Default for Provenance {
    fn default() -> (r: Self)
        ensures
            r.source is None,
            r.author is None,
            r.source_url is None,
            r.collection is None,
            r.license is None,
            r.imported is None,
    {
        Provenance {
            source: None,
            author: None,
            source_url: None,
            collection: None,
            license: None,
            imported: None,
        }
    }
}

/// The descriptive fields of one rod model / taper record.
#[derive(Debug, Clone)]
pub struct Taper {
    pub name: Option<String>,
    pub rod_type: Option<String>,
    pub const_type: Option<String>,
    pub ferrule_type: Option<String>,
    pub ferrule1_size: Option<String>,
    pub ferrule2_size: Option<String>,
    pub ferrule3_size: Option<String>,
    pub notes: Option<String>,
    /// Attribution metadata about where this taper came from.
    pub provenance: Option<Provenance>,
}

impl Default for Taper {
    fn default() -> (r: Self)
        ensures
            r.name is None,
            r.rod_type is None,
            r.const_type is None,
            r.ferrule_type is None,
            r.ferrule1_size is None,
            r.ferrule2_size is None,
            r.ferrule3_size is None,
            r.notes is None,
            r.provenance is None,
    {
        Taper {
            name: None,
            rod_type: None,
            const_type: None,
            ferrule_type: None,
            ferrule1_size: None,
            ferrule2_size: None,
            ferrule3_size: None,
            notes: None,
            provenance: None,
        }
    }
}

// ---------------------------------------------------------------------------
// Source groups
// ---------------------------------------------------------------------------

/// The library a lower-cased source string is recognised as, if any.
pub open spec fn source_label(lower: Seq<char>) -> Option<Seq<char>> {
    if seq_contains(lower, "hexrod"@) {
        Some("Hexrod"@)
    } else if seq_contains(lower, "roddna"@) {
        Some("RodDNA"@)
    } else if seq_contains(lower, "taper sheets"@) {
        Some("Taper Sheets"@)
    } else if seq_contains(lower, "bob clay"@) {
        Some("Bob Clay"@)
    } else {
        None
    }
}

/// The group of a source string: its recognised library label, else the
/// source string itself.
pub open spec fn source_group_of(source: Seq<char>) -> Seq<char> {
    match source_label(unicode_lowercase(source)) {
        Some(label) => label,
        None => source,
    }
}

/// The source group of a record, when it carries a source.
pub open spec fn taper_source_group(t: Taper) -> Option<Seq<char>> {
    match t.provenance {
        Some(p) => match p.source {
            Some(s) => Some(source_group_of(s@)),
            None => None,
        },
        None => None,
    }
}

/// Groups a source string given its lower-cased form: the recognised
/// library label, else the source string unchanged.
pub fn classify_source(source: &str, lower: &str) -> (r: String)
    ensures
        r@ == match source_label(lower@) {
            Some(label) => label,
            None => source@,
        },
{
    let hay = chars_of(lower);
    if contains_chars(&hay, &chars_of("hexrod")) {
        String::from_str("Hexrod")
    } else if contains_chars(&hay, &chars_of("roddna")) {
        String::from_str("RodDNA")
    } else if contains_chars(&hay, &chars_of("taper sheets")) {
        String::from_str("Taper Sheets")
    } else if contains_chars(&hay, &chars_of("bob clay")) {
        String::from_str("Bob Clay")
    } else {
        String::from_str(source)
    }
}

// ---------------------------------------------------------------------------
// Maker and model keys
// ---------------------------------------------------------------------------

/// The maker token of a rod name: its first piece (split on space and
/// comma) with surrounding non-alphanumeric characters trimmed, when that
/// leaves something.
pub open spec fn maker_of(name: Seq<char>) -> Option<Seq<char>> {
    let tok = trim_alnum(first_token(name));
    if tok.len() == 0 {
        None
    } else {
        Some(tok)
    }
}

/// The two trimmed words a model key is built from, when the name has two
/// words and neither trims away to nothing.
pub open spec fn model_parts_of(name: Seq<char>) -> Option<(Seq<char>, Seq<char>)> {
    let ws = words(name);
    if ws.len() < 2 {
        None
    } else {
        let a = trim_alnum(ws[0]);
        let b = trim_alnum(ws[1]);
        if a.len() == 0 || b.len() == 0 {
            None
        } else {
            Some((a, b))
        }
    }
}

/// The lower-cased "maker model" key of a rod name.
pub open spec fn model_key_of(name: Seq<char>) -> Option<Seq<char>> {
    match model_parts_of(name) {
        Some((a, b)) => Some(unicode_lowercase(a) + seq![' '] + unicode_lowercase(b)),
        None => None,
    }
}

/// Law: when a name starts with a word (not a separator), its maker token is
/// the maker word its model key is built from, so the knowledge base's
/// maker fallback looks up the same maker the model key names.
pub proof fn lemma_maker_is_model_maker(name: Seq<char>)
    requires
        name.len() > 0,
        !is_name_sep(name[0]),
        model_parts_of(name) is Some,
    ensures
        maker_of(name) == Some((model_parts_of(name)->0).0),
{
    crate::text::lemma_lead_count_bound(name, token_char_pred());
    assert(words(name)[0] == first_token(name));
}

/// Law: a model key is the first name word, lower-cased, a space, and the
/// second name word, lower-cased (each word trimmed of non-alphanumeric
/// ends); a name with fewer than two such words has no key. Both words are
/// lower-cased, so the key matches the lower-cased keys of the model table.
pub proof fn lemma_model_key_lowercases_both_words(name: Seq<char>)
    ensures
        model_key_of(name) matches Some(k) ==> {
            &&& words(name).len() >= 2
            &&& trim_alnum(words(name)[0]).len() > 0
            &&& trim_alnum(words(name)[1]).len() > 0
            &&& k == unicode_lowercase(trim_alnum(words(name)[0])) + seq![' ']
                + unicode_lowercase(trim_alnum(words(name)[1]))
        },
        (words(name).len() >= 2 && trim_alnum(words(name)[0]).len() > 0 && trim_alnum(
            words(name)[1],
        ).len() > 0) ==> model_key_of(name) is Some,
{
}

/// Joins the lower-cased maker and model words into a key.
pub fn join_model_key(maker_lower: &str, model_lower: &str) -> (r: String)
    ensures
        r@ == maker_lower@ + seq![' '] + model_lower@,
{
    let mut r = String::from_str(maker_lower);
    push_char(&mut r, ' ');
    r.append(model_lower);
    r
}

/// The trimmed maker and model words of a name, when it has both.
pub fn model_parts(name: &str) -> (r: Option<(Vec<char>, Vec<char>)>)
    ensures
        r matches Some((a, b)) ==> model_parts_of(name@) == Some((a@, b@)),
        r is None <==> model_parts_of(name@) is None,
{
    let v = chars_of(name);
    match first_two_words(&v) {
        None => None,
        Some((w0, w1)) => {
            let a = trim_non_alphanumeric(&w0);
            let b = trim_non_alphanumeric(&w1);
            if a.len() == 0 || b.len() == 0 {
                None
            } else {
                Some((a, b))
            }
        },
    }
}

impl Taper {
    /// A short grouping of `provenance.source` that collapses a library's
    /// version strings into one bucket ("RodDNA v2.0" and "RodDNA v1.4
    /// update" are both "RodDNA"). An unrecognised source is returned as it
    /// is; a record without a source has no group.
    pub fn source_group(&self) -> (r: Option<String>)
        ensures
            r is None <==> taper_source_group(*self) is None,
            r matches Some(g) ==> taper_source_group(*self) == Some(g@),
    {
        match &self.provenance {
            None => None,
            Some(p) => match &p.source {
                None => None,
                Some(src) => {
                    let lower = lowercase(src.as_str());
                    Some(classify_source(src.as_str(), lower.as_str()))
                },
            },
        }
    }

    /// The maker token that links a taper to the casting knowledge base: the
    /// first word of the rod name, trimmed of punctuation.
    pub fn maker(&self) -> (r: Option<String>)
        ensures
            r is None <==> (self.name is None || maker_of(self.name->0@) is None),
            r matches Some(m) ==> self.name is Some && maker_of(self.name->0@) == Some(m@),
    {
        match &self.name {
            None => None,
            Some(name) => {
                let v = chars_of(name.as_str());
                let tok = trim_non_alphanumeric(&first_token_of(&v));
                if tok.len() == 0 {
                    None
                } else {
                    Some(string_from_chars(&tok))
                }
            },
        }
    }

    /// The lower-cased "maker model" key from the first two name words, as
    /// used by the knowledge base's model entries ("Payne 98" gives
    /// "payne 98").
    pub fn model_key(&self) -> (r: Option<String>)
        ensures
            r is None <==> (self.name is None || model_key_of(self.name->0@) is None),
            r matches Some(k) ==> self.name is Some && model_key_of(self.name->0@) == Some(k@),
    {
        match &self.name {
            None => None,
            Some(name) => match model_parts(name.as_str()) {
                None => None,
                Some((a, b)) => {
                    let a_lower = lowercase(string_from_chars(&a).as_str());
                    let b_lower = lowercase(string_from_chars(&b).as_str());
                    Some(join_model_key(a_lower.as_str(), b_lower.as_str()))
                },
            },
        }
    }
}


// ---------------------------------------------------------------------------
// Cross-section geometry
// ---------------------------------------------------------------------------

/// The three geometries the planing-form report supports, each with its own
/// dimension-to-depth conversion.
#[derive(Debug, Clone, Copy, PartialEq, Eq, Structural)]
pub enum PlaningFormGeometry {
    Hex,
    Quad,
    Penta,
}

/// The planing-form geometry named by a lower-cased construction type.
pub open spec fn planing_geometry_of(lower: Seq<char>) -> Option<PlaningFormGeometry> {
    if seq_starts_with(lower, "hex"@) {
        Some(PlaningFormGeometry::Hex)
    } else if seq_contains(lower, "quad"@) {
        Some(PlaningFormGeometry::Quad)
    } else if seq_starts_with(lower, "penta"@) {
        Some(PlaningFormGeometry::Penta)
    } else {
        None
    }
}

impl PlaningFormGeometry {
    /// The geometry named by a lower-cased construction type.
    pub fn from_lowercase(lower: &str) -> (r: Option<PlaningFormGeometry>)
        ensures
            r == planing_geometry_of(lower@),
    {
        let v = chars_of(lower);
        if starts_with_chars(&v, &chars_of("hex")) {
            Some(PlaningFormGeometry::Hex)
        } else if contains_chars(&v, &chars_of("quad")) {
            Some(PlaningFormGeometry::Quad)
        } else if starts_with_chars(&v, &chars_of("penta")) {
            Some(PlaningFormGeometry::Penta)
        } else {
            None
        }
    }

    /// The planing-form geometry of a construction type ("Hex", "Quad",
    /// "Two Piece Quad", "Penta", ...), matched case-insensitively; `None`
    /// for any other geometry or an absent type.
    pub fn for_const_type(const_type: Option<&str>) -> (r: Option<PlaningFormGeometry>)
        ensures
            r == match const_type {
                Some(s) => planing_geometry_of(unicode_lowercase(s@)),
                None => None,
            },
    {
        match const_type {
            None => None,
            Some(s) => {
                let lower = lowercase(s);
                PlaningFormGeometry::from_lowercase(lower.as_str())
            },
        }
    }
}

/// The regular-polygon cross-section used by the stress and vibration
/// models. Unrecognised construction types are treated as Hex.
#[derive(Debug, Clone, Copy, PartialEq, Eq, Structural)]
pub enum SectionGeometry {
    Hex,
    Quad,
    Penta,
    Hepta,
    Octa,
}

/// The section geometry named by a lower-cased construction type.
pub open spec fn section_geometry_of(lower: Seq<char>) -> SectionGeometry {
    if seq_starts_with(lower, "penta"@) {
        SectionGeometry::Penta
    } else if seq_contains(lower, "quad"@) {
        SectionGeometry::Quad
    } else if seq_starts_with(lower, "hepta"@) {
        SectionGeometry::Hepta
    } else if seq_starts_with(lower, "octa"@) {
        SectionGeometry::Octa
    } else {
        SectionGeometry::Hex
    }
}

/// Number of sides of each section geometry.
pub open spec fn spec_sides(g: SectionGeometry) -> u32 {
    match g {
        SectionGeometry::Hex => 6,
        SectionGeometry::Quad => 4,
        SectionGeometry::Penta => 5,
        SectionGeometry::Hepta => 7,
        SectionGeometry::Octa => 8,
    }
}

/// Law: the side count is the polygon's number of sides. The five
/// geometries have five different side counts, four to eight, in polygon
/// order quad < penta < hex < hepta < octa, with hex at six. A construction
/// type naming "quad" (and not starting with "penta") has a four-sided
/// section, one starting with "penta" a five-sided one, and one naming none
/// of the five polygons a six-sided one.
pub proof fn lemma_sides_are_polygon_sides(g: SectionGeometry, h: SectionGeometry, lower: Seq<char>)
    ensures
        4 <= spec_sides(g) <= 8,
        spec_sides(g) == spec_sides(h) ==> g == h,
        spec_sides(SectionGeometry::Quad) < spec_sides(SectionGeometry::Penta),
        spec_sides(SectionGeometry::Penta) < spec_sides(SectionGeometry::Hex),
        spec_sides(SectionGeometry::Hex) < spec_sides(SectionGeometry::Hepta),
        spec_sides(SectionGeometry::Hepta) < spec_sides(SectionGeometry::Octa),
        spec_sides(SectionGeometry::Hex) == 6,
        seq_contains(lower, "quad"@) && !seq_starts_with(lower, "penta"@) ==> spec_sides(
            section_geometry_of(lower),
        ) == 4,
        seq_starts_with(lower, "penta"@) ==> spec_sides(section_geometry_of(lower)) == 5,
        !seq_starts_with(lower, "penta"@) && !seq_contains(lower, "quad"@) && !seq_starts_with(
            lower,
            "hepta"@,
        ) && !seq_starts_with(lower, "octa"@) ==> spec_sides(section_geometry_of(lower)) == 6,
{
}

impl SectionGeometry {
    /// The section geometry named by a lower-cased construction type.
    pub fn from_lowercase(lower: &str) -> (r: SectionGeometry)
        ensures
            r == section_geometry_of(lower@),
    {
        let v = chars_of(lower);
        if starts_with_chars(&v, &chars_of("penta")) {
            SectionGeometry::Penta
        } else if contains_chars(&v, &chars_of("quad")) {
            SectionGeometry::Quad
        } else if starts_with_chars(&v, &chars_of("hepta")) {
            SectionGeometry::Hepta
        } else if starts_with_chars(&v, &chars_of("octa")) {
            SectionGeometry::Octa
        } else {
            SectionGeometry::Hex
        }
    }

    /// The section geometry of a construction type, matched
    /// case-insensitively; Hex when absent or unrecognised.
    pub fn for_const_type(const_type: Option<&str>) -> (r: SectionGeometry)
        ensures
            r == match const_type {
                Some(s) => section_geometry_of(unicode_lowercase(s@)),
                None => SectionGeometry::Hex,
            },
    {
        match const_type {
            None => SectionGeometry::Hex,
            Some(s) => {
                let lower = lowercase(s);
                SectionGeometry::from_lowercase(lower.as_str())
            },
        }
    }

    /// Number of sides of the regular polygon.
    pub fn sides(&self) -> (r: u32)
        ensures
            r == spec_sides(*self),
    {
        match self {
            SectionGeometry::Hex => 6,
            SectionGeometry::Quad => 4,
            SectionGeometry::Penta => 5,
            SectionGeometry::Hepta => 7,
            SectionGeometry::Octa => 8,
        }
    }
}

/// Whether a lower-cased construction type names a hex build.
pub fn is_hex_lowercase(lower: &str) -> (r: bool)
    ensures
        r == seq_starts_with(lower@, "hex"@),
{
    starts_with_chars(&chars_of(lower), &chars_of("hex"))
}

/// Whether a construction type is a hex build (lower-cased, it starts with
/// "hex"): the geometry for which a ferrule's across-the-apexes outside
/// diameter is reported.
pub fn is_hex_const_type(const_type: Option<&str>) -> (r: bool)
    ensures
        r == match const_type {
            Some(s) => seq_starts_with(unicode_lowercase(s@), "hex"@),
            None => false,
        },
{
    match const_type {
        None => false,
        Some(s) => {
            let lower = lowercase(s);
            is_hex_lowercase(lower.as_str())
        },
    }
}

/// Law: a construction type counts as hex for ferrule reporting exactly when
/// the planing-form report treats it as Hex.
pub proof fn lemma_hex_ferrule_matches_planing(const_type: Option<Seq<char>>)
    ensures
        (match const_type {
            Some(s) => seq_starts_with(unicode_lowercase(s), "hex"@),
            None => false,
        }) == (match const_type {
            Some(s) => planing_geometry_of(unicode_lowercase(s)) == Some(PlaningFormGeometry::Hex),
            None => false,
        }),
{
}

// ---------------------------------------------------------------------------
// Ferrule slots
// ---------------------------------------------------------------------------

/// Number of entries in the standard ferrule-weight table (sizes 1/64" to
/// 17/64").
pub const STANDARD_FERRULE_SIZES: usize = 17;

/// A ferrule size slot holds a real size: present, non-empty, and not the
/// "None" placeholder the source data uses for unused slots.
pub open spec fn ferrule_size_set(size: Option<Seq<char>>) -> bool {
    match size {
        Some(s) => s.len() > 0 && s != "None"@,
        None => false,
    }
}

/// Whether a ferrule size slot holds a real size.
pub fn ferrule_size_is_set(size: Option<&str>) -> (r: bool)
    ensures
        r == ferrule_size_set(match size {
            Some(s) => Some(s@),
            None => None,
        }),
{
    match size {
        None => false,
        Some(s) => {
            let v = chars_of(s);
            v.len() > 0 && !eq_chars(&v, &chars_of("None"))
        },
    }
}

/// An ASCII decimal digit.
pub open spec fn is_digit(c: char) -> bool {
    '0' <= c && c <= '9'
}

/// The value of a run of decimal digits.
pub open spec fn digits_value(d: Seq<char>) -> nat
    decreases d.len(),
{
    if d.len() == 0 {
        0
    } else {
        digits_value(d.drop_last()) * 10 + (d.last() as int - '0' as int) as nat
    }
}

/// All characters of `d` are decimal digits.
pub open spec fn all_digits(d: Seq<char>) -> bool {
    forall|i: int| 0 <= i < d.len() ==> is_digit(#[trigger] d[i])
}

/// `t` without a leading '+' sign.
pub open spec fn sign_stripped(t: Seq<char>) -> Seq<char> {
    if t.len() > 0 && t[0] == '+' {
        t.drop_first()
    } else {
        t
    }
}

/// The digits of an unsigned integer literal as `usize::from_str` accepts
/// it: an optional leading '+', then at least one decimal digit.
pub open spec fn unsigned_literal_digits(t: Seq<char>) -> Option<Seq<char>> {
    let d = sign_stripped(t);
    if d.len() > 0 && all_digits(d) {
        Some(d)
    } else {
        None
    }
}

/// Characters other than '/'.
pub open spec fn not_slash_pred() -> spec_fn(char) -> bool {
    |c: char| c != '/'
}

/// The part of a size string before its first '/'.
pub open spec fn before_slash(s: Seq<char>) -> Seq<char> {
    s.take(lead_count(s, not_slash_pred()) as int)
}

/// Index into the standard ferrule-weight table for a size string such as
/// "11/64": the numerator minus one, when the size is not blank or "none"
/// (any case), its numerator parses as an unsigned integer, and the table
/// has that entry.
pub open spec fn ferrule_table_index(size: Seq<char>) -> Option<nat> {
    if size.len() == 0 || eq_ignore_ascii_case(size, "none"@) {
        None
    } else {
        match unsigned_literal_digits(trim_ws(before_slash(size))) {
            Some(d) => if 1 <= digits_value(d) <= STANDARD_FERRULE_SIZES {
                Some((digits_value(d) - 1) as nat)
            } else {
                None
            },
            None => None,
        }
    }
}

/// An unsigned literal's digits start after the optional sign at `lo`.
proof fn lemma_unsigned_literal(t: Seq<char>, lo: int)
    requires
        lo == if t.len() > 0 && t[0] == '+' { 1int } else { 0int },
    ensures
        unsigned_literal_digits(t) == if lo < t.len() && forall|i: int|
            lo <= i < t.len() ==> is_digit(#[trigger] t[i]) {
            Some(t.skip(lo))
        } else {
            None
        },
{
    let d = t.skip(lo);
    assert(sign_stripped(t) =~= d);
    let all_t = forall|i: int| lo <= i < t.len() ==> is_digit(#[trigger] t[i]);
    if all_digits(d) {
        assert forall|i: int| lo <= i < t.len() implies is_digit(#[trigger] t[i]) by {
            assert(d[i - lo] == t[i]);
        }
    }
    if all_t {
        assert forall|i: int| 0 <= i < d.len() implies is_digit(#[trigger] d[i]) by {
            assert(d[i] == t[i + lo]);
        }
    }
}

/// Value of the decimal digits `d[lo..]`, capped at 18 (enough to tell
/// every table entry apart from "too large").
fn capped_digits_value(d: &Vec<char>, lo: usize) -> (r: Option<usize>)
    requires
        lo <= d.len(),
    ensures
        r is Some <==> (lo < d.len() && forall|i: int| lo <= i < d.len() ==> is_digit(#[trigger] d@[i])),
        r matches Some(v) ==> v == if digits_value(d@.skip(lo as int)) < 18 {
            digits_value(d@.skip(lo as int))
        } else {
            18
        },
{
    if lo == d.len() {
        return None;
    }
    let mut v: usize = 0;
    let mut i = lo;
    while i < d.len()
        invariant
            lo <= i <= d.len(),
            forall|k: int| lo <= k < i ==> is_digit(#[trigger] d@[k]),
            v == if digits_value(d@.subrange(lo as int, i as int)) < 18 {
                digits_value(d@.subrange(lo as int, i as int))
            } else {
                18
            },
        decreases d.len() - i,
    {
        let c = d[i];
        if !('0' <= c && c <= '9') {
            return None;
        }
        let digit = (c as u32 - '0' as u32) as usize;
        proof {
            let pre = d@.subrange(lo as int, i as int);
            let next = d@.subrange(lo as int, i + 1);
            assert(next.drop_last() =~= pre);
            assert(next.last() == c);
            assert(digits_value(next) == digits_value(pre) * 10 + digit);
        }
        v = if v >= 18 || v * 10 + digit >= 18 { 18 } else { v * 10 + digit };
        i += 1;
    }
    assert(d@.subrange(lo as int, d.len() as int) =~= d@.skip(lo as int));
    Some(v)
}

/// Index into the standard ferrule-weight table for a size string such as
/// "11/64" (its numerator minus one), or `None` for a blank, "none" or
/// unparseable size, or one past the end of the table.
pub fn ferrule_weight_index(size: &str) -> (r: Option<usize>)
    ensures
        r matches Some(i) ==> ferrule_table_index(size@) == Some(i as nat) && i < STANDARD_FERRULE_SIZES,
        r is None <==> ferrule_table_index(size@) is None,
{
    let v = chars_of(size);
    if v.len() == 0 || eq_ignore_ascii_case_chars(&v, &chars_of("none")) {
        return None;
    }
    let mut j: usize = 0;
    while j < v.len() && v[j] != '/'
        invariant
            j <= v.len(),
            forall|k: int| 0 <= k < j ==> #[trigger] v@[k] != '/',
        decreases v.len() - j,
    {
        j += 1;
    }
    proof {
        let p = not_slash_pred();
        assert forall|k: int| 0 <= k < j implies p(#[trigger] v@[k]) by {}
        crate::text::lemma_lead_count(v@, p, j as int);
    }
    let piece = crate::text::sub_vec(&v, 0, j);
    assert(piece@ == before_slash(v@));
    let t = trim_whitespace(&piece);
    let lo: usize = if t.len() > 0 && t[0] == '+' { 1 } else { 0 };
    proof {
        lemma_unsigned_literal(t@, lo as int);
    }
    match capped_digits_value(&t, lo) {
        None => None,
        Some(n) => if 1 <= n && n <= STANDARD_FERRULE_SIZES {
            Some(n - 1)
        } else {
            None
        },
    }
}


// ---------------------------------------------------------------------------
// Export header
// ---------------------------------------------------------------------------

/// `s` when present, else `default`.
pub open spec fn text_or(s: Option<String>, default: Seq<char>) -> Seq<char> {
    match s {
        Some(t) => t@,
        None => default,
    }
}

/// The `#`-prefixed metadata block both export formats start with: name,
/// type / construction / length / line / pieces, and the source line when
/// the record carries provenance. The numeric fields arrive already
/// formatted.
pub open spec fn export_header_text(
    t: Taper,
    length: Seq<char>,
    line: Seq<char>,
    pieces: Seq<char>,
) -> Seq<char> {
    let head = "# caneDNA taper export\n# Name: "@ + text_or(t.name, "(unnamed)"@)
        + "\n# Type: "@ + text_or(t.rod_type, "\u{2014}"@) + " | Construction: "@
        + text_or(t.const_type, "\u{2014}"@) + " | Length: "@ + length + " | Line: "@ + line
        + " | Pieces: "@ + pieces;
    match t.provenance {
        Some(p) => head + "\n# Source: "@ + text_or(p.source, "unknown"@) + " ("@ + text_or(
            p.author,
            "unknown"@,
        ) + ")"@,
        None => head,
    }
}

/// Appends `s` when present, else `default`.
fn append_or(out: &mut String, s: &Option<String>, default: &str)
    ensures
        final(out)@ == old(out)@ + text_or(*s, default@),
{
    match s {
        Some(t) => out.append(t.as_str()),
        None => out.append(default),
    }
}

impl Taper {
    /// The export metadata block, given the formatted length (e.g. `90"` or
    /// an em dash), line weight and piece count.
    pub fn export_header(&self, length: &str, line: &str, pieces: &str) -> (r: String)
        ensures
            r@ == export_header_text(*self, length@, line@, pieces@),
    {
        let mut out = String::from_str("# caneDNA taper export\n# Name: ");
        append_or(&mut out, &self.name, "(unnamed)");
        out.append("\n# Type: ");
        append_or(&mut out, &self.rod_type, "\u{2014}");
        out.append(" | Construction: ");
        append_or(&mut out, &self.const_type, "\u{2014}");
        out.append(" | Length: ");
        out.append(length);
        out.append(" | Line: ");
        out.append(line);
        out.append(" | Pieces: ");
        out.append(pieces);
        if let Some(p) = &self.provenance {
            out.append("\n# Source: ");
            append_or(&mut out, &p.source, "unknown");
            out.append(" (");
            append_or(&mut out, &p.author, "unknown");
            out.append(")");
        }
        out
    }
}

// ---------------------------------------------------------------------------
// Stress-solver settings
// ---------------------------------------------------------------------------

/// Tunable inputs of the flat-stress solver.
#[derive(Debug, Clone, Copy, PartialEq, Eq, Structural)]
pub struct SolveParams {
    /// Fixed-point iterations to absorb the self-weight feedback.
    pub iterations: usize,
    /// Force the solved taper non-decreasing from tip to butt.
    pub monotonic: bool,
}

impl Default for SolveParams {
    fn default() -> (r: Self)
        ensures
            r.iterations == 4,
            r.monotonic,
    {
        SolveParams { iterations: 4, monotonic: true }
    }
}

impl SolveParams {
    /// Number of solver passes run: the configured iterations, at least one.
    pub fn passes(&self) -> (r: usize)
        ensures
            r == if self.iterations < 1 { 1 } else { self.iterations },
    {
        if self.iterations < 1 { 1 } else { self.iterations }
    }
}

} // verus!
