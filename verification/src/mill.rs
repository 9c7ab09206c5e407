//! Morgan Hand Mill layout rules: how a rod's profile is cut into per-piece
//! mill sections, how each section registers on the mill bed, and the
//! station numbering used on the 1-inch moment grid.
//!
//! The profile itself is floating point; these rules work on what is read
//! from it (point counts, positions, rounded spans).

use vstd::prelude::*;

use crate::text::{decimal, push_decimal, push_char};

verus! {

/// Bed station at which a section's ferrule or tiptop point registers.
pub const MHM_TIPTOP_STATION: u8 = 12;

/// Number of lettered start / mill-stop positions (A through K).
pub const MHM_HOLD_DOWN_LETTERS: usize = 11;

// ---------------------------------------------------------------------------
// Section labels
// ---------------------------------------------------------------------------

/// Label of piece `k` of a `pieces`-piece rod: "Tip" first, "Butt" last,
/// "Mid k" between.
pub open spec fn spec_section_label(k: nat, pieces: nat) -> Seq<char> {
    if k == 0 {
        "Tip"@
    } else if k == pieces - 1 {
        "Butt"@
    } else {
        "Mid "@ + decimal(k)
    }
}

/// Label of piece `k` of a `pieces`-piece rod ("Tip", "Mid k", "Butt").
pub fn section_label(k: usize, pieces: usize) -> (r: String)
    requires
        k == 0 || pieces >= 1,
    ensures
        r@ == spec_section_label(k as nat, pieces as nat),
{
    if k == 0 {
        String::from_str("Tip")
    } else if k == pieces - 1 {
        String::from_str("Butt")
    } else {
        let mut s = String::from_str("Mid ");
        push_decimal(&mut s, k);
        s
    }
}

// ---------------------------------------------------------------------------
// Section plan
// ---------------------------------------------------------------------------

/// One piece's slice of the profile: the points `start..end`, its label,
/// and whether the split was estimated (no ferrule data).
#[derive(Debug, Clone)]
pub struct SectionPlan {
    pub label: String,
    pub approximate: bool,
    pub start: usize,
    pub end: usize,
}

/// The whole profile is one section: a one-piece rod, or fewer points than
/// pieces.
pub open spec fn single_section(n: nat, pieces: nat) -> bool {
    pieces <= 1 || n < pieces
}

/// The split follows the ferrule locations: one usable location per joint.
pub open spec fn ferrule_split(pieces: nat, hits: Seq<Option<usize>>) -> bool {
    hits.len() >= pieces - 1
}

/// Cut position of joint `k` (1 <= k < pieces): the first profile point at
/// or past the ferrule (else the last point), or an even share of the points;
/// never before point 1.
pub open spec fn cut_at(n: nat, pieces: nat, hits: Seq<Option<usize>>, k: int) -> int {
    let c = if ferrule_split(pieces, hits) {
        match hits[k - 1] {
            Some(p) => p as int,
            None => n - 1,
        }
    } else {
        (k * n) / (pieces as int)
    };
    if c < 1 {
        1
    } else {
        c
    }
}

/// First point of piece `k`: 0 for the tip, else one point before its cut,
/// so the joint's bracketing points are shared.
pub open spec fn plan_start(n: nat, pieces: nat, hits: Seq<Option<usize>>, k: int) -> int {
    if k == 0 {
        0
    } else {
        cut_at(n, pieces, hits, k) - 1
    }
}

/// End (exclusive) of piece `k`: the profile's end for the butt, else one
/// point past the next cut.
pub open spec fn plan_end(n: nat, pieces: nat, hits: Seq<Option<usize>>, k: int) -> int {
    if k == pieces - 1 {
        n as int
    } else {
        let e = cut_at(n, pieces, hits, k + 1) + 1;
        if e < n {
            e
        } else {
            n as int
        }
    }
}

/// Even splitting multiplies a piece index by the point count.
pub open spec fn even_split_fits(n: nat, pieces: nat) -> bool {
    (pieces - 1) * n <= usize::MAX
}

/// Plans the per-piece mill sections of a profile of `n` points.
///
/// `pieces` is the rod's piece count (at least 1) and `hits` holds, for each
/// usable ferrule location in slot order, the index of the first profile
/// point at or past it (`None` when every point lies before it). With at
/// least `pieces - 1` of them the joints follow the ferrules; otherwise the
/// points are shared out evenly and the sections are marked approximate.
pub fn plan_sections(n: usize, pieces: usize, hits: &Vec<Option<usize>>) -> (r: Vec<SectionPlan>)
    requires
        pieces >= 1,
        forall|i: int| 0 <= i < hits.len() ==> (#[trigger] hits@[i] matches Some(p) ==> p < n),
        !single_section(n as nat, pieces as nat) && !ferrule_split(pieces as nat, hits@)
            ==> even_split_fits(n as nat, pieces as nat),
    ensures
        single_section(n as nat, pieces as nat) ==> {
            &&& r.len() == 1
            &&& r@[0].label@ == "Full rod"@
            &&& !r@[0].approximate
            &&& r@[0].start == 0
            &&& r@[0].end == n
        },
        !single_section(n as nat, pieces as nat) ==> {
            &&& r.len() == pieces
            &&& forall|k: int|
                0 <= k < pieces ==> {
                    &&& (#[trigger] r@[k]).label@ == spec_section_label(k as nat, pieces as nat)
                    &&& r@[k].approximate == !ferrule_split(pieces as nat, hits@)
                    &&& r@[k].start == plan_start(n as nat, pieces as nat, hits@, k)
                    &&& r@[k].end == plan_end(n as nat, pieces as nat, hits@, k)
                }
        },
{
    let mut r: Vec<SectionPlan> = Vec::new();
    if pieces <= 1 || n < pieces {
        r.push(SectionPlan { label: String::from_str("Full rod"), approximate: false, start: 0, end: n });
        return r;
    }
    let by_ferrule = hits.len() >= pieces - 1;
    // bounds[0] = 0, bounds[k] = cut of joint k, bounds[pieces] = n.
    let mut bounds: Vec<usize> = Vec::new();
    bounds.push(0);
    let mut k: usize = 1;
    while k < pieces
        invariant
            2 <= pieces <= n,
            1 <= k <= pieces,
            by_ferrule == ferrule_split(pieces as nat, hits@),
            forall|i: int| 0 <= i < hits.len() ==> (#[trigger] hits@[i] matches Some(p) ==> p < n),
            !by_ferrule ==> even_split_fits(n as nat, pieces as nat),
            bounds.len() == k,
            bounds@[0] == 0,
            forall|j: int| 1 <= j < k ==> #[trigger] bounds@[j] == cut_at(n as nat, pieces as nat, hits@, j),
            forall|j: int| 1 <= j < k ==> 1 <= #[trigger] bounds@[j] < n,
        decreases pieces - k,
    {
        let c = if by_ferrule {
            let h = hits[k - 1];
            assert(hits@[k - 1] matches Some(p) ==> p < n);
            match h {
                Some(p) => p,
                None => n - 1,
            }
        } else {
            assert((k as int * n as int) / (pieces as int) < n) by (nonlinear_arith)
                requires
                    0 < k < pieces,
                    pieces <= n,
            {
                assert(k * n < pieces * n);
            }
            assert((k as int) * (n as int) <= (pieces as int - 1) * (n as int)) by (nonlinear_arith)
                requires
                    k < pieces,
            ;
            k * n / pieces
        };
        let c = if c < 1 { 1 } else { c };
        bounds.push(c);
        k += 1;
    }
    bounds.push(n);
    let mut i: usize = 0;
    while i < pieces
        invariant
            2 <= pieces <= n,
            i <= pieces,
            by_ferrule == ferrule_split(pieces as nat, hits@),
            bounds.len() == pieces + 1,
            bounds@[0] == 0,
            bounds@[pieces as int] == n,
            forall|j: int| 1 <= j < pieces ==> #[trigger] bounds@[j] == cut_at(n as nat, pieces as nat, hits@, j),
            forall|j: int| 1 <= j < pieces ==> 1 <= #[trigger] bounds@[j] < n,
            r.len() == i,
            forall|j: int|
                0 <= j < i ==> {
                    &&& (#[trigger] r@[j]).label@ == spec_section_label(j as nat, pieces as nat)
                    &&& r@[j].approximate == !by_ferrule
                    &&& r@[j].start == plan_start(n as nat, pieces as nat, hits@, j)
                    &&& r@[j].end == plan_end(n as nat, pieces as nat, hits@, j)
                },
        decreases pieces - i,
    {
        let start = if i == 0 { 0 } else { bounds[i] - 1 };
        let end = if i == pieces - 1 {
            n
        } else {
            let e = bounds[i + 1] + 1;
            if e < n { e } else { n }
        };
        r.push(SectionPlan { label: section_label(i, pieces), approximate: !by_ferrule, start, end });
        i += 1;
    }
    r
}

/// Law: the first piece starts at the tip, the last ends at the butt, and
/// neighbouring pieces share exactly the two points that bracket their
/// joint.
pub proof fn lemma_plan_joints(n: nat, pieces: nat, hits: Seq<Option<usize>>, k: int)
    requires
        !single_section(n, pieces),
        forall|i: int| 0 <= i < hits.len() ==> (#[trigger] hits[i] matches Some(p) ==> p < n),
        0 <= k < pieces - 1,
    ensures
        plan_start(n, pieces, hits, 0) == 0,
        plan_end(n, pieces, hits, pieces - 1) == n,
        plan_end(n, pieces, hits, k) == plan_start(n, pieces, hits, k + 1) + 2,
{
    let k1 = k + 1;
    if !ferrule_split(pieces, hits) {
        assert((k1 * n) / (pieces as int) < n) by (nonlinear_arith)
            requires
                0 < k1 < pieces,
                pieces <= n,
        {
            assert(k1 * n < pieces * n);
        }
    } else {
        assert(hits[k1 - 1] matches Some(p) ==> p < n);
    }
}

/// Law: when the points are shared out evenly, every piece is a non-empty,
/// in-bounds slice of the profile, and the pieces advance from tip to butt.
pub proof fn lemma_even_plan_well_formed(n: nat, pieces: nat, hits: Seq<Option<usize>>, k: int)
    requires
        !single_section(n, pieces),
        !ferrule_split(pieces, hits),
        0 <= k < pieces,
    ensures
        0 <= plan_start(n, pieces, hits, k) < plan_end(n, pieces, hits, k) <= n,
        k + 1 < pieces ==> plan_start(n, pieces, hits, k) <= plan_start(n, pieces, hits, k + 1),
{
    let p = pieces as int;
    let ni = n as int;
    if k > 0 {
        assert((k * ni) / p < ni) by (nonlinear_arith)
            requires
                0 < k < p,
                p <= ni,
        {
            assert(k * ni < p * ni);
        }
    }
    if k + 1 < p {
        assert((k * ni) / p <= ((k + 1) * ni) / p) by (nonlinear_arith)
            requires
                0 <= k,
                0 < p,
                0 <= ni,
        {
            assert(k * ni <= (k + 1) * ni);
            vstd::arithmetic::div_mod::lemma_div_is_ordered(k * ni, (k + 1) * ni, p);
        }
        assert(((k + 1) * ni) / p < ni) by (nonlinear_arith)
            requires
                0 <= k,
                k + 1 < p,
                p <= ni,
        {
            assert((k + 1) * ni < p * ni);
        }
    }
}

/// Law: when the ferrule hits run from tip to butt (non-decreasing), every
/// piece of a ferrule split is a non-empty, in-bounds slice of the profile.
pub proof fn lemma_ferrule_plan_well_formed(n: nat, pieces: nat, hits: Seq<Option<usize>>, k: int)
    requires
        !single_section(n, pieces),
        ferrule_split(pieces, hits),
        forall|i: int| 0 <= i < hits.len() ==> (#[trigger] hits[i] matches Some(p) ==> p < n),
        forall|i: int, j: int|
            1 <= i <= j < pieces ==> cut_at(n, pieces, hits, i) <= cut_at(n, pieces, hits, j),
        0 <= k < pieces,
    ensures
        0 <= plan_start(n, pieces, hits, k) < plan_end(n, pieces, hits, k) <= n,
{
    if k > 0 {
        assert(hits[k - 1] matches Some(p) ==> p < n);
    }
    if k + 1 < pieces {
        assert(hits[k] matches Some(p) ==> p < n);
    }
}

// ---------------------------------------------------------------------------
// Bed registration
// ---------------------------------------------------------------------------

/// How one section registers on the 14-station mill bed.
#[derive(Debug, Clone, Copy)]
pub struct BedRegistration {
    /// Bed station the section's butt lands on (#12 minus the span); negative
    /// when the section is too long for the standard bed.
    pub butt_station: i32,
    /// The section fits the standard bed (`butt_station >= 0`).
    pub fits_standard_bed: bool,
    /// The section needs the extension bed.
    pub needs_extension_bed: bool,
    /// Suggested A-K hold-down / mill-stop letter.
    pub letter: char,
}

/// Index (0 = A) of the hold-down letter for a strip spanning `strip_span`
/// 5-inch stations: the lowest letter that leaves enough anvil space,
/// `clamp(13 - strip_span, A, K)`.
pub open spec fn letter_index(strip_span: int) -> int {
    let x = 13 - strip_span;
    if x < 0 {
        0
    } else if x > MHM_HOLD_DOWN_LETTERS - 1 {
        MHM_HOLD_DOWN_LETTERS - 1
    } else {
        x
    }
}

/// Registers a section spanning `station_span` bed stations, whose strip
/// (section plus cut-offs and hold-down allowance) spans `strip_span`. The
/// span enters the station arithmetic as an `i32` (`as` conversion).
pub fn bed_registration(station_span: usize, strip_span: i32) -> (r: BedRegistration)
    requires
        station_span as i32 >= i32::MIN + 13,
        strip_span >= i32::MIN + 14,
    ensures
        r.butt_station == MHM_TIPTOP_STATION - (station_span as i32),
        station_span <= i32::MAX ==> r.butt_station == MHM_TIPTOP_STATION - station_span,
        r.fits_standard_bed == (r.butt_station >= 0),
        r.needs_extension_bed == !r.fits_standard_bed,
        r.letter as int == 'A' as int + letter_index(strip_span as int),
{
    let butt_station = MHM_TIPTOP_STATION as i32 - station_span as i32;
    let fits = butt_station >= 0;
    let x = 13 - strip_span;
    let idx: u32 = if x < 0 {
        0
    } else if x > MHM_HOLD_DOWN_LETTERS as i32 - 1 {
        MHM_HOLD_DOWN_LETTERS as u32 - 1
    } else {
        x as u32
    };
    let letters = ['A', 'B', 'C', 'D', 'E', 'F', 'G', 'H', 'I', 'J', 'K'];
    let letter = letters[idx as usize];
    assert(letter as int == 'A' as int + idx) by {
        assert(letters@[0] == 'A');
        assert(letters@[10] == 'K');
    }
    BedRegistration { butt_station, fits_standard_bed: fits, needs_extension_bed: !fits, letter }
}

/// Law: the hold-down letter is always one of A-K, and a longer strip never
/// starts at a later letter.
pub proof fn lemma_letter_range_and_order(a: int, b: int)
    ensures
        0 <= letter_index(a) < MHM_HOLD_DOWN_LETTERS,
        a <= b ==> letter_index(b) <= letter_index(a),
{
}

/// Law: a strip spanning 13 stations or more is held down at A, one
/// spanning 3 or fewer at K, and in between each station less moves the
/// hold-down exactly one letter later (so the letter is `13 - span`).
pub proof fn lemma_letter_steps(s: int)
    ensures
        s >= 13 ==> letter_index(s) == 0,
        s <= 3 ==> letter_index(s) == MHM_HOLD_DOWN_LETTERS - 1,
        3 <= s < 13 ==> letter_index(s) == letter_index(s + 1) + 1,
        3 <= s <= 13 ==> letter_index(s) + s == 13,
{
}

// ---------------------------------------------------------------------------
// Moment grid
// ---------------------------------------------------------------------------

/// Index on the 1-inch moment grid of a station: 0 at or before the tip,
/// else the rounded station minus one, kept inside the grid.
pub open spec fn spec_moment_index(past_tip: bool, rounded: nat, action_length: nat) -> nat {
    if !past_tip {
        0
    } else {
        let i = if rounded >= 1 { (rounded - 1) as nat } else { 0 };
        if i < action_length - 1 {
            i
        } else {
            (action_length - 1) as nat
        }
    }
}

/// Index on the 1-inch moment grid for a profile station. `past_tip` says
/// whether the station lies beyond the tip (positive) and `rounded` is the
/// station rounded to whole inches.
pub fn moment_index(past_tip: bool, rounded: usize, action_length: usize) -> (r: usize)
    requires
        action_length >= 1,
    ensures
        r == spec_moment_index(past_tip, rounded as nat, action_length as nat),
        r < action_length,
{
    if !past_tip {
        0
    } else {
        let i = if rounded >= 1 { rounded - 1 } else { 0 };
        if i < action_length - 1 { i } else { action_length - 1 }
    }
}

/// Anvil numbers of a run of `n` mill stations, tip first: they descend from
/// `n - 1` at the tip-most station to 0 at the butt-most one.
pub fn anvil_numbers(n: usize) -> (r: Vec<usize>)
    ensures
        r.len() == n,
        forall|i: int| 0 <= i < n ==> #[trigger] r@[i] == n - 1 - i,
{
    let mut r: Vec<usize> = Vec::new();
    let mut i: usize = 0;
    while i < n
        invariant
            i <= n,
            r.len() == i,
            forall|k: int| 0 <= k < i ==> #[trigger] r@[k] == n - 1 - k,
        decreases n - i,
    {
        r.push(n - 1 - i);
        i += 1;
    }
    r
}

/// Law: in a run of stations the anvil numbers strictly descend toward the
/// butt, and the butt-most station is numbered 0.
pub proof fn lemma_anvil_numbers_descend(n: nat, r: Seq<usize>)
    requires
        r.len() == n,
        forall|i: int| 0 <= i < n ==> #[trigger] r[i] == n - 1 - i,
    ensures
        forall|i: int, j: int| 0 <= i < j < n ==> #[trigger] r[i] > #[trigger] r[j],
        n > 0 ==> r[n - 1] == 0,
{
}

} // verus!
