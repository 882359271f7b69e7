use vstd::prelude::*;
use vstd::arithmetic::div_mod::{lemma_fundamental_div_mod, lemma_div_is_ordered, lemma_div_pos_is_pos};
use vstd::arithmetic::mul::lemma_mul_inequality;
use crate::points::{Points, MAX_HALF_UNITS};
use crate::rows::GradingScaleTableRowData;

verus! {

/// A grade, best to worst.  The numeric forms are `1` (very good)
/// through `6` (fail).
#[derive(Debug, Clone, Copy, PartialEq, Eq, Structural, Hash)]
pub enum Grade {
    VeryGood,
    Good,
    Satisfactory,
    Sufficient,
    Poor,
    Fail,
}

#[derive(Debug, Clone, Copy, PartialEq, Eq, Structural)]
pub enum GradingError {
    InvalidGrade(u8),
    InvalidPoints(Points),
}

impl Grade {
    /// The numeric form of the grade: `1` for the best, `6` for the worst.
    pub open spec fn spec_number(&self) -> int {
        match self {
            Grade::VeryGood => 1,
            Grade::Good => 2,
            Grade::Satisfactory => 3,
            Grade::Sufficient => 4,
            Grade::Poor => 5,
            Grade::Fail => 6,
        }
    }

    /// The position of the grade in best-to-worst order, `0..6`.
    pub open spec fn spec_index(&self) -> int {
        self.spec_number() - 1
    }

    pub fn to_number(self) -> (r: u8)
        ensures
            r == self.spec_number(),
    {
        match self {
            Grade::VeryGood => 1,
            Grade::Good => 2,
            Grade::Satisfactory => 3,
            Grade::Sufficient => 4,
            Grade::Poor => 5,
            Grade::Fail => 6,
        }
    }

    /// The grade with the given numeric form; `1..=6` are the valid inputs.
    pub fn try_from(value: u8) -> (r: Result<Grade, GradingError>)
        ensures
            1 <= value <= 6 <==> r is Ok,
            r matches Ok(g) ==> g.spec_number() == value,
            r matches Err(e) ==> e == GradingError::InvalidGrade(value),
    {
        match value {
            1 => Ok(Grade::VeryGood),
            2 => Ok(Grade::Good),
            3 => Ok(Grade::Satisfactory),
            4 => Ok(Grade::Sufficient),
            5 => Ok(Grade::Poor),
            6 => Ok(Grade::Fail),
            _ => Err(GradingError::InvalidGrade(value)),
        }
    }

    /// The grade at the given best-to-worst position, `0..6`.
    pub fn from_index(index: usize) -> (r: Grade)
        requires
            index < 6,
        ensures
            r.spec_index() == index,
    {
        match index {
            0 => Grade::VeryGood,
            1 => Grade::Good,
            2 => Grade::Satisfactory,
            3 => Grade::Sufficient,
            4 => Grade::Poor,
            _ => Grade::Fail,
        }
    }

    pub fn label(&self) -> (r: &'static str)
        ensures
            self is VeryGood ==> r@ == "Very Good"@,
            self is Good ==> r@ == "Good"@,
            self is Satisfactory ==> r@ == "Satisfactory"@,
            self is Sufficient ==> r@ == "Sufficient"@,
            self is Poor ==> r@ == "Poor"@,
            self is Fail ==> r@ == "Fail"@,
    {
        match self {
            Grade::VeryGood => "Very Good",
            Grade::Good => "Good",
            Grade::Satisfactory => "Satisfactory",
            Grade::Sufficient => "Sufficient",
            Grade::Poor => "Poor",
            Grade::Fail => "Fail",
        }
    }

    /// The next better grade, or `None` for the best.
    pub fn next_better(self) -> (r: Option<Grade>)
        ensures
            self is VeryGood ==> r is None,
            !(self is VeryGood) ==> (r matches Some(g) && g.spec_number() == self.spec_number() - 1),
    {
        match self {
            Grade::VeryGood => None,
            Grade::Good => Some(Grade::VeryGood),
            Grade::Satisfactory => Some(Grade::Good),
            Grade::Sufficient => Some(Grade::Satisfactory),
            Grade::Poor => Some(Grade::Sufficient),
            Grade::Fail => Some(Grade::Poor),
        }
    }
}

/// A boundary share of the maximum point total: the fraction
/// `num / den`.  The named presets hold whole hundredths
/// (`den == 100`); a manual threshold edit stores the edited threshold
/// over the maximum at edit time, both in half-point units, so the
/// share is exact and a recomputation reproduces the threshold.
#[derive(Debug, Clone, Copy, PartialEq, Eq, Structural)]
pub struct Share {
    pub num: u32,
    pub den: u32,
}

impl Share {
    /// Shares kept in tables have a positive denominator, and both
    /// parts within the representable point range.
    pub open spec fn wf(&self) -> bool {
        1 <= self.den <= MAX_HALF_UNITS && self.num <= MAX_HALF_UNITS
    }

    /// A share given in whole hundredths.
    pub fn hundredths(value: u32) -> (r: Share)
        ensures
            r == (Share { num: value, den: 100u32 }),
    {
        Share { num: value, den: 100 }
    }
}

/// The IHK boundary table: for each grade, the least share of the
/// maximum points that still earns it.
pub open spec fn ihk_table() -> Seq<(u8, Share)> {
    seq![
        (1u8, Share { num: 92u32, den: 100u32 }),
        (2u8, Share { num: 81u32, den: 100u32 }),
        (3u8, Share { num: 67u32, den: 100u32 }),
        (4u8, Share { num: 50u32, den: 100u32 }),
        (5u8, Share { num: 30u32, den: 100u32 }),
        (6u8, Share { num: 0u32, den: 100u32 }),
    ]
}

/// The Techniker boundary table.
pub open spec fn techniker_table() -> Seq<(u8, Share)> {
    seq![
        (1u8, Share { num: 85u32, den: 100u32 }),
        (2u8, Share { num: 70u32, den: 100u32 }),
        (3u8, Share { num: 55u32, den: 100u32 }),
        (4u8, Share { num: 40u32, den: 100u32 }),
        (5u8, Share { num: 20u32, den: 100u32 }),
        (6u8, Share { num: 0u32, den: 100u32 }),
    ]
}

/// The linear boundary table.
pub open spec fn linear_table() -> Seq<(u8, Share)> {
    seq![
        (1u8, Share { num: 87u32, den: 100u32 }),
        (2u8, Share { num: 60u32, den: 100u32 }),
        (3u8, Share { num: 47u32, den: 100u32 }),
        (4u8, Share { num: 30u32, den: 100u32 }),
        (5u8, Share { num: 17u32, den: 100u32 }),
        (6u8, Share { num: 0u32, den: 100u32 }),
    ]
}

/// The kind of grading scale: one of the named presets, or a custom
/// boundary table (always a snapshot taken from some preset, then edited).
#[derive(Debug, Clone)]
pub enum GradeScaleType {
    IHK,
    TECHNIKER,
    LINEAR,
    Custom(Vec<(u8, Share)>),
}

impl GradeScaleType {
    /// The boundary table of the scale: six `(grade number, share)`
    /// pairs, best grade first.
    pub open spec fn spec_values(&self) -> Seq<(u8, Share)> {
        match self {
            GradeScaleType::IHK => ihk_table(),
            GradeScaleType::TECHNIKER => techniker_table(),
            GradeScaleType::LINEAR => linear_table(),
            GradeScaleType::Custom(v) => v@,
        }
    }

    /// Well-formed tables have six entries, grade numbers `1..=6` in
    /// order, and well-formed shares.
    pub open spec fn wf(&self) -> bool {
        &&& self.spec_values().len() == 6
        &&& forall|i: int| 0 <= i < 6 ==> (#[trigger] self.spec_values()[i]).0 == i + 1
        &&& forall|i: int| 0 <= i < 6 ==> (#[trigger] self.spec_values()[i]).1.wf()
    }

    /// Whether this is one of the three named presets.
    pub open spec fn is_standard(&self) -> bool {
        self is IHK || self is TECHNIKER || self is LINEAR
    }

    /// The named presets are well formed.
    pub proof fn lemma_standard_wf(&self)
        requires
            self.is_standard(),
        ensures
            self.wf(),
    {
    }

    /// The boundary table, as a vector.
    pub fn values(&self) -> (r: Vec<(u8, Share)>)
        ensures
            r@ == self.spec_values(),
    {
        match self {
            GradeScaleType::IHK => {
                let v = vec![
                    (1u8, Share::hundredths(92)),
                    (2u8, Share::hundredths(81)),
                    (3u8, Share::hundredths(67)),
                    (4u8, Share::hundredths(50)),
                    (5u8, Share::hundredths(30)),
                    (6u8, Share::hundredths(0)),
                ];
                assert(v@ =~= ihk_table());
                v
            }
            GradeScaleType::TECHNIKER => {
                let v = vec![
                    (1u8, Share::hundredths(85)),
                    (2u8, Share::hundredths(70)),
                    (3u8, Share::hundredths(55)),
                    (4u8, Share::hundredths(40)),
                    (5u8, Share::hundredths(20)),
                    (6u8, Share::hundredths(0)),
                ];
                assert(v@ =~= techniker_table());
                v
            }
            GradeScaleType::LINEAR => {
                let v = vec![
                    (1u8, Share::hundredths(87)),
                    (2u8, Share::hundredths(60)),
                    (3u8, Share::hundredths(47)),
                    (4u8, Share::hundredths(30)),
                    (5u8, Share::hundredths(17)),
                    (6u8, Share::hundredths(0)),
                ];
                assert(v@ =~= linear_table());
                v
            }
            GradeScaleType::Custom(v) => copy_table(v),
        }
    }

    pub fn text(&self) -> (r: &'static str)
        ensures
            self is IHK ==> r@ == "IHK"@,
            self is TECHNIKER ==> r@ == "TECHNIKER"@,
            self is LINEAR ==> r@ == "LINEAR"@,
            self is Custom ==> r@ == "CUSTOM"@,
    {
        match self {
            GradeScaleType::IHK => "IHK",
            GradeScaleType::TECHNIKER => "TECHNIKER",
            GradeScaleType::LINEAR => "LINEAR",
            GradeScaleType::Custom(_) => "CUSTOM",
        }
    }

    pub fn key_binding(&self) -> (r: &'static str)
        ensures
            self is IHK ==> r@ == "I"@,
            self is TECHNIKER ==> r@ == "T"@,
            self is LINEAR ==> r@ == "L"@,
            self is Custom ==> r@ == "C"@,
    {
        match self {
            GradeScaleType::IHK => "I",
            GradeScaleType::TECHNIKER => "T",
            GradeScaleType::LINEAR => "L",
            GradeScaleType::Custom(_) => "C",
        }
    }

    pub fn is_custom(&self) -> (r: bool)
        ensures
            r == (self is Custom),
    {
        matches!(self, GradeScaleType::Custom(_))
    }

    /// Snapshots the current boundary table into a custom scale.
    pub fn to_custom(&self) -> (r: GradeScaleType)
        ensures
            r is Custom,
            r.spec_values() == self.spec_values(),
    {
        GradeScaleType::Custom(self.values())
    }

    /// Overwrites the share of entry `index` with `value` hundredths
    /// clamped to one hundred percent — but only on a custom scale and
    /// only for an index inside the table; anything else is ignored.
    pub fn change(&mut self, index: usize, value: u32)
        ensures
            (*old(self) is Custom && index < old(self).spec_values().len()) ==> final(self).spec_values()
                == old(self).spec_values().update(
                    index as int,
                    (old(self).spec_values()[index as int].0, (Share {
                        num: clamp_pct(value),
                        den: 100u32,
                    })),
                ),
            !(*old(self) is Custom && index < old(self).spec_values().len()) ==> *final(self) == *old(self),
            *final(self) is Custom <==> *old(self) is Custom,
    {
        let clamped = if value > 100 { 100 } else { value };
        match self {
            GradeScaleType::Custom(values) => {
                if index < values.len() {
                    let grade_number = values[index].0;
                    values[index] = (grade_number, Share::hundredths(clamped));
                }
            }
            _ => {}
        }
    }

    /// Replaces the share of one entry of a custom table; the path a
    /// threshold edit writes its exact share back through.
    fn set_share(&mut self, index: usize, share: Share)
        requires
            *old(self) is Custom,
            index < old(self).spec_values().len(),
        ensures
            *final(self) is Custom,
            final(self).spec_values() == old(self).spec_values().update(
                index as int,
                (old(self).spec_values()[index as int].0, share),
            ),
    {
        match self {
            GradeScaleType::Custom(values) => {
                let grade_number = values[index].0;
                values[index] = (grade_number, share);
            }
            _ => {}
        }
    }
}

/// A plain copy of a boundary table.
fn copy_table(v: &Vec<(u8, Share)>) -> (r: Vec<(u8, Share)>)
    ensures
        r@ == v@,
{
    let mut r: Vec<(u8, Share)> = Vec::new();
    let mut i: usize = 0;
    while i < v.len()
        invariant
            i <= v@.len(),
            r@ =~= v@.take(i as int),
        decreases v@.len() - i,
    {
        r.push(v[i]);
        i += 1;
        assert(r@ =~= v@.take(i as int));
    }
    assert(r@ =~= v@);
    r
}

/// A percentage clamped to at most one hundred percent.
pub open spec fn clamp_pct(value: u32) -> u32 {
    if value > 100 { 100u32 } else { value }
}

/// The threshold for a boundary share at a maximum of `total_halves`
/// half-point units: the share of the maximum, rounded to the nearest
/// whole point (halves up), in half-point units, capped at the largest
/// representable point value.
pub open spec fn threshold_halves(share: Share, total_halves: int) -> int {
    let raw = 2 * ((share.num * total_halves + share.den) / (2 * share.den));
    if raw > MAX_HALF_UNITS {
        MAX_HALF_UNITS as int
    } else {
        raw
    }
}

/// The six thresholds derived from a boundary table at a given maximum,
/// best grade first, in half-point units.
pub open spec fn derived_thresholds(t: GradeScaleType, total_halves: int) -> Seq<int> {
    Seq::new(6, |i: int| threshold_halves(t.spec_values()[i].1, total_halves))
}

/// The share `points / total`, in hundredths and rounded to the nearest
/// hundredth (halves up); both arguments in half-point units.
pub open spec fn spec_pct(points: int, total: int) -> int {
    (200 * points + total) / (2 * total)
}

/// The share a threshold edit writes back, `threshold / total` in
/// half-point units, derives that very threshold again at the same
/// maximum: the write-back loses nothing, whatever the maximum.
pub proof fn lemma_exact_share_inverts(threshold: int, total: int)
    requires
        0 <= threshold <= MAX_HALF_UNITS,
        threshold % 2 == 0,
        1 <= total <= MAX_HALF_UNITS,
    ensures
        threshold_halves((Share { num: threshold as u32, den: total as u32 }), total) == threshold,
{
    let x = threshold * total + total;
    let h = threshold / 2;
    lemma_fundamental_div_mod(threshold, 2);
    assert(threshold == 2 * h);
    assert(threshold * total == h * (2 * total)) by (nonlinear_arith)
        requires
            threshold == 2 * h,
    ;
    assert(x == h * (2 * total) + total);
    vstd::arithmetic::div_mod::lemma_fundamental_div_mod_converse_div(
        x,
        2 * total,
        threshold / 2,
        total,
    );
}

/// The grade earned by `points` against the given minimum thresholds
/// (best grade first): the best grade whose minimum the points exceed,
/// or `None` when they exceed none.
pub open spec fn spec_grade_for_points(thresholds: Seq<int>, points: int) -> Option<Grade> {
    if points > thresholds[0] {
        Some(Grade::VeryGood)
    } else if points > thresholds[1] {
        Some(Grade::Good)
    } else if points > thresholds[2] {
        Some(Grade::Satisfactory)
    } else if points > thresholds[3] {
        Some(Grade::Sufficient)
    } else if points > thresholds[4] {
        Some(Grade::Poor)
    } else if points > thresholds[5] {
        Some(Grade::Fail)
    } else {
        None
    }
}

/// A derived threshold is an even number of half-point units (a whole
/// point count) and never leaves the representable range.
pub proof fn lemma_threshold_in_range(share: Share, total: int)
    requires
        share.wf(),
        1 <= total <= MAX_HALF_UNITS,
    ensures
        0 <= threshold_halves(share, total) <= MAX_HALF_UNITS,
        threshold_halves(share, total) % 2 == 0,
{
    let a = share.num * total + share.den;
    assert(share.num * total >= 0) by (nonlinear_arith)
        requires
            share.num >= 0,
            total >= 0,
    ;
    lemma_div_pos_is_pos(a, 2 * share.den);
}

/// The stateful engine: the active scale kind, the maximum point total,
/// half-point mode, and the derived per-grade minimum thresholds.
#[derive(Debug, Clone)]
pub struct GradingScale {
    scale_type: GradeScaleType,
    total_points: Points,
    thresholds: Vec<Points>,
    use_half_points: bool,
}

impl GradingScale {
    pub closed spec fn spec_scale_type(&self) -> GradeScaleType {
        self.scale_type
    }

    /// The maximum point total, in half-point units.
    pub closed spec fn spec_total(&self) -> int {
        self.total_points.halves()
    }

    pub closed spec fn spec_half(&self) -> bool {
        self.use_half_points
    }

    /// The six minimum thresholds, best grade first, in half-point units.
    pub closed spec fn spec_thresholds(&self) -> Seq<int> {
        self.thresholds@.map_values(|p: Points| p.halves())
    }

    /// Well-formed engines have a well-formed table, a positive bounded
    /// maximum, six whole-point thresholds in the bounded range, and —
    /// since every mutation re-derives or writes back exactly — the
    /// thresholds always equal the ones derived from the active table
    /// at the current maximum.
    pub open spec fn wf(&self) -> bool {
        &&& self.spec_scale_type().wf()
        &&& 1 <= self.spec_total() <= MAX_HALF_UNITS
        &&& self.spec_thresholds().len() == 6
        &&& forall|i: int| 0 <= i < 6 ==> 0 <= #[trigger] self.spec_thresholds()[i] <= MAX_HALF_UNITS
        &&& forall|i: int| 0 <= i < 6 ==> #[trigger] self.spec_thresholds()[i] % 2 == 0
        &&& self.thresholds_derived()
    }

    /// Whether the thresholds are exactly the ones derived from the
    /// active table at the current maximum.
    pub open spec fn thresholds_derived(&self) -> bool {
        self.spec_thresholds() == derived_thresholds(self.spec_scale_type(), self.spec_total())
    }

    /// Builds an engine from a scale kind and a positive maximum;
    /// a maximum of zero is rejected as invalid.
    pub fn from_type(scale_type: GradeScaleType, max_points: Points) -> (r: Result<GradingScale, GradingError>)
        requires
            scale_type.wf(),
            max_points.bounded(),
        ensures
            max_points.halves() == 0 ==> (r matches Err(e) && e == GradingError::InvalidPoints(max_points)),
            max_points.halves() > 0 ==> (r matches Ok(s) && {
                &&& s.wf()
                &&& s.spec_scale_type() == scale_type
                &&& s.spec_total() == max_points.halves()
                &&& s.spec_half() == false
                &&& s.thresholds_derived()
            }),
    {
        if max_points.half_units() == 0 {
            return Err(GradingError::InvalidPoints(max_points));
        }
        let thresholds = GradingScale::calculate_thresholds(&scale_type, max_points);
        let s = GradingScale {
            scale_type,
            total_points: max_points,
            thresholds,
            use_half_points: false,
        };
        proof {
            assert(s.spec_thresholds() =~= derived_thresholds(s.spec_scale_type(), s.spec_total()));
        }
        Ok(s)
    }

    /// Computes the derived thresholds for a table at a maximum.
    fn calculate_thresholds(scale_type: &GradeScaleType, max_points: Points) -> (r: Vec<Points>)
        requires
            scale_type.wf(),
            1 <= max_points.halves() <= MAX_HALF_UNITS,
        ensures
            r@.len() == 6,
            forall|i: int| 0 <= i < 6 ==> #[trigger] r@[i].halves()
                == derived_thresholds(*scale_type, max_points.halves())[i],
            forall|i: int| 0 <= i < 6 ==> 0 <= #[trigger] r@[i].halves() <= MAX_HALF_UNITS,
            forall|i: int| 0 <= i < 6 ==> #[trigger] r@[i].halves() % 2 == 0,
    {
        let values = scale_type.values();
        let total = max_points.half_units();
        let mut r: Vec<Points> = Vec::new();
        let mut i: usize = 0;
        while i < 6
            invariant
                scale_type.wf(),
                values@ == scale_type.spec_values(),
                1 <= total <= MAX_HALF_UNITS,
                i <= 6,
                r@.len() == i,
                forall|j: int| 0 <= j < i ==> #[trigger] r@[j].halves()
                    == threshold_halves(scale_type.spec_values()[j].1, total as int),
                forall|j: int| 0 <= j < i ==> 0 <= #[trigger] r@[j].halves() <= MAX_HALF_UNITS,
                forall|j: int| 0 <= j < i ==> #[trigger] r@[j].halves() % 2 == 0,
            decreases 6 - i,
        {
            let share = values[i].1;
            assert(share.wf());
            proof {
                assert((share.num as int) * (total as int) <= (MAX_HALF_UNITS as int)
                    * (MAX_HALF_UNITS as int)) by (nonlinear_arith)
                    requires
                        0 <= share.num as int <= MAX_HALF_UNITS as int,
                        0 <= total as int <= MAX_HALF_UNITS as int,
                ;
                lemma_threshold_in_range(share, total as int);
            }
            let q: u64 = ((share.num as u64) * (total as u64) + (share.den as u64))
                / (2 * (share.den as u64));
            let raw: u64 = 2 * q;
            let t = if raw > MAX_HALF_UNITS as u64 {
                Points::from_halves(MAX_HALF_UNITS)
            } else {
                Points::from_halves(raw as u32)
            };
            r.push(t);
            i += 1;
        }
        r
    }

    /// The maximum point total.
    pub fn total_points(&self) -> (r: Points)
        ensures
            r.halves() == self.spec_total(),
    {
        self.total_points
    }

    /// Sets a new positive maximum and recomputes the thresholds from
    /// the active table.
    pub fn set_total_points(&mut self, total: Points)
        requires
            old(self).wf(),
            1 <= total.halves() <= MAX_HALF_UNITS as int,
        ensures
            final(self).wf(),
            final(self).spec_scale_type() == old(self).spec_scale_type(),
            final(self).spec_half() == old(self).spec_half(),
            final(self).spec_total() == total.halves(),
            final(self).thresholds_derived(),
    {
        self.total_points = total;
        self.recalculate();
    }

    /// Flips half-point mode.  Only derived display maxima change: the
    /// thresholds are recomputed for consistency of downstream views,
    /// and since a well-formed engine's thresholds already equal what
    /// the table derives — manual edits included — the recomputation
    /// provably leaves every minimum threshold as it was.
    pub fn toggle_half_points(&mut self)
        requires
            old(self).wf(),
        ensures
            final(self).wf(),
            final(self).spec_scale_type() == old(self).spec_scale_type(),
            final(self).spec_total() == old(self).spec_total(),
            final(self).spec_half() == !old(self).spec_half(),
            final(self).spec_thresholds() == old(self).spec_thresholds(),
            final(self).thresholds_derived(),
    {
        self.use_half_points = !self.use_half_points;
        self.recalculate();
    }

    pub fn is_using_half_points(&self) -> (r: bool)
        ensures
            r == self.spec_half(),
    {
        self.use_half_points
    }

    pub fn scale_type(&self) -> (r: &GradeScaleType)
        ensures
            *r == self.spec_scale_type(),
    {
        &self.scale_type
    }

    /// Replaces the scale kind and recomputes the thresholds.
    pub fn change_scale_type(&mut self, scale_type: GradeScaleType)
        requires
            old(self).wf(),
            scale_type.wf(),
        ensures
            final(self).wf(),
            final(self).spec_scale_type() == scale_type,
            final(self).spec_total() == old(self).spec_total(),
            final(self).spec_half() == old(self).spec_half(),
            final(self).thresholds_derived(),
    {
        self.scale_type = scale_type;
        self.recalculate();
    }

    /// Recomputes the thresholds from the active table at the current
    /// maximum: the single source of truth for threshold derivation.
    /// On thresholds that already are the derived ones — which every
    /// well-formed engine's are, manual edits included, since their
    /// exact shares were written back into the table — this is the
    /// identity.
    pub fn recalculate(&mut self)
        requires
            old(self).spec_scale_type().wf(),
            1 <= old(self).spec_total() <= MAX_HALF_UNITS,
        ensures
            final(self).wf(),
            final(self).spec_scale_type() == old(self).spec_scale_type(),
            final(self).spec_total() == old(self).spec_total(),
            final(self).spec_half() == old(self).spec_half(),
            final(self).thresholds_derived(),
            old(self).thresholds_derived() ==> final(self).spec_thresholds() == old(
                self,
            ).spec_thresholds(),
    {
        self.thresholds = GradingScale::calculate_thresholds(&self.scale_type, self.total_points);
        proof {
            assert(self.spec_thresholds() =~= derived_thresholds(
                self.spec_scale_type(),
                self.spec_total(),
            ));
        }
    }

    /// The six minimum thresholds, best grade first.
    pub fn thresholds(&self) -> (r: &Vec<Points>)
        ensures
            r@.map_values(|p: Points| p.halves()) == self.spec_thresholds(),
    {
        &self.thresholds
    }

    /// The minimum threshold of one grade.
    pub fn threshold_for_grade(&self, grade: Grade) -> (r: Points)
        requires
            self.wf(),
        ensures
            r.halves() == self.spec_thresholds()[grade.spec_index()],
    {
        let idx = (grade.to_number() - 1) as usize;
        self.thresholds[idx]
    }

    /// The step one interactive nudge moves a threshold by: half a
    /// point in half-point mode, else a whole point (in half-units).
    pub open spec fn step_halves(&self) -> int {
        if self.spec_half() {
            1
        } else {
            2
        }
    }

    /// The grade earned by a point value: the best grade whose minimum
    /// threshold the points strictly exceed, or `None` when they exceed
    /// none (a point value at or below the worst grade's minimum).
    pub fn grade_for_points(&self, points: Points) -> (r: Option<Grade>)
        requires
            self.wf(),
        ensures
            r == spec_grade_for_points(self.spec_thresholds(), points.halves()),
    {
        let p = points.half_units();
        if p > self.thresholds[0].half_units() {
            Some(Grade::VeryGood)
        } else if p > self.thresholds[1].half_units() {
            Some(Grade::Good)
        } else if p > self.thresholds[2].half_units() {
            Some(Grade::Satisfactory)
        } else if p > self.thresholds[3].half_units() {
            Some(Grade::Sufficient)
        } else if p > self.thresholds[4].half_units() {
            Some(Grade::Poor)
        } else if p > self.thresholds[5].half_units() {
            Some(Grade::Fail)
        } else {
            None
        }
    }

    /// The share of `points` in `total`, in rounded hundredths.
    pub fn percentage_for_points(points: Points, total: Points) -> (r: u32)
        requires
            total.halves() >= 1,
            points.bounded(),
        ensures
            r == spec_pct(points.halves(), total.halves()),
    {
        proof {
            lemma_pct_in_range(points.halves(), total.halves());
        }
        let p = points.half_units() as u64;
        let t = total.half_units() as u64;
        let v = (200 * p + t) / (2 * t);
        v as u32
    }

    /// Sets the threshold of one grade to `new_points` rounded to a
    /// whole point.  Any manual threshold edit first detaches the scale
    /// from its named preset by snapshotting it into a custom scale, so
    /// a preset's own table is never mutated; the custom table's entry
    /// for the grade is rewritten as the new threshold's exact share of
    /// the maximum, so that a later recomputation reproduces the edit
    /// whatever the maximum is.
    pub fn update_points_for_grade(&mut self, grade: Grade, new_points: Points) -> (r: Result<(), GradingError>)
        requires
            old(self).wf(),
            new_points.bounded(),
        ensures
            r is Ok,
            final(self).wf(),
            updated_with(*old(self), *final(self), grade.spec_index(), new_points.halves()),
    {
        let idx = (grade.to_number() - 1) as usize;
        let rounded = new_points.round_to_whole();
        if !self.scale_type.is_custom() {
            self.scale_type = self.scale_type.to_custom();
        }
        let total = self.total_points.half_units();
        self.scale_type.set_share(idx, Share { num: rounded.half_units(), den: total });
        self.thresholds[idx] = rounded;
        proof {
            assert(self.spec_thresholds() =~= old(self).spec_thresholds().update(
                grade.spec_index(),
                new_points.halves() + new_points.halves() % 2,
            ));
            lemma_exact_share_inverts(rounded.halves(), self.spec_total());
            assert forall|i: int| 0 <= i < 6 implies #[trigger] self.spec_thresholds()[i]
                == derived_thresholds(self.spec_scale_type(), self.spec_total())[i] by {
                if i != grade.spec_index() {
                    assert(self.spec_scale_type().spec_values()[i]
                        == old(self).spec_scale_type().spec_values()[i]);
                }
            }
            assert(self.spec_thresholds() =~= derived_thresholds(
                self.spec_scale_type(),
                self.spec_total(),
            ));
        }
        Ok(())
    }

    /// Raises the threshold of one grade by one step.  Like every
    /// manual edit this converts the scale to a custom one, whatever
    /// its prior kind.
    pub fn increment_points_for_grade(&mut self, grade: Grade) -> (r: Result<(), GradingError>)
        requires
            old(self).wf(),
        ensures
            r is Ok,
            final(self).wf(),
            updated_with(
                *old(self),
                *final(self),
                grade.spec_index(),
                inc_target(*old(self), grade.spec_index()),
            ),
    {
        let idx = (grade.to_number() - 1) as usize;
        let step: u32 = if self.is_using_half_points() {
            1
        } else {
            2
        };
        let cur = self.thresholds[idx].half_units();
        assert(cur == self.spec_thresholds()[idx as int]);
        let target = if cur + step > MAX_HALF_UNITS {
            MAX_HALF_UNITS
        } else {
            cur + step
        };
        self.update_points_for_grade(grade, Points::from_halves(target))
    }

    /// The display maximum of the band at position `i`: the whole
    /// maximum for the best grade, else the next better grade's
    /// minimum less one step (half a point in half-point mode, a whole
    /// point otherwise), never below zero.
    pub open spec fn display_max(&self, i: int) -> int {
        if i == 0 {
            self.spec_total()
        } else if self.spec_thresholds()[i - 1] - self.step_halves() < 0 {
            0
        } else {
            self.spec_thresholds()[i - 1] - self.step_halves()
        }
    }

    /// The six display rows, best grade first: each grade with its
    /// band's minimum (the threshold), the band's display maximum, and
    /// the minimum's share of the whole in hundredths.
    pub fn to_grading_scale_table_data(&self) -> (r: Vec<GradingScaleTableRowData>)
        requires
            self.wf(),
        ensures
            r@.len() == 6,
            forall|i: int| 0 <= i < 6 ==> (#[trigger] r@[i]).grade == i + 1,
            forall|i: int| 0 <= i < 6 ==> (#[trigger] r@[i]).min.halves() == self.spec_thresholds()[i],
            forall|i: int| 0 <= i < 6 ==> (#[trigger] r@[i]).max.halves() == self.display_max(i),
            forall|i: int| 0 <= i < 6 ==> (#[trigger] r@[i]).pct == spec_pct(
                self.spec_thresholds()[i],
                self.spec_total(),
            ),
    {
        let step: u32 = if self.use_half_points {
            1
        } else {
            2
        };
        let mut rows: Vec<GradingScaleTableRowData> = Vec::new();
        let mut i: usize = 0;
        while i < 6
            invariant
                self.wf(),
                step == self.step_halves(),
                i <= 6,
                rows@.len() == i,
                forall|j: int| 0 <= j < i ==> (#[trigger] rows@[j]).grade == j + 1,
                forall|j: int| 0 <= j < i ==> (#[trigger] rows@[j]).min.halves() == self.spec_thresholds()[j],
                forall|j: int| 0 <= j < i ==> (#[trigger] rows@[j]).max.halves() == self.display_max(j),
                forall|j: int| 0 <= j < i ==> (#[trigger] rows@[j]).pct == spec_pct(
                    self.spec_thresholds()[j],
                    self.spec_total(),
                ),
            decreases 6 - i,
        {
            let min = self.thresholds[i];
            assert(min.halves() == self.spec_thresholds()[i as int]);
            let max = if i == 0 {
                self.total_points
            } else {
                let prev = self.thresholds[i - 1].half_units();
                if prev < step {
                    Points::from_halves(0)
                } else {
                    Points::from_halves(prev - step)
                }
            };
            let pct = GradingScale::percentage_for_points(min, self.total_points);
            rows.push(GradingScaleTableRowData::new((i as u8) + 1, min, max, pct));
            i += 1;
        }
        rows
    }

    /// Lowers the threshold of one grade by one step, never below
    /// zero.  Like every manual edit this converts the scale to a
    /// custom one, whatever its prior kind.
    pub fn decrement_points_for_grade(&mut self, grade: Grade) -> (r: Result<(), GradingError>)
        requires
            old(self).wf(),
        ensures
            r is Ok,
            final(self).wf(),
            updated_with(
                *old(self),
                *final(self),
                grade.spec_index(),
                dec_target(*old(self), grade.spec_index()),
            ),
    {
        let idx = (grade.to_number() - 1) as usize;
        let step: u32 = if self.is_using_half_points() {
            1
        } else {
            2
        };
        let cur = self.thresholds[idx].half_units();
        assert(cur == self.spec_thresholds()[idx as int]);
        let target = if cur < step {
            0
        } else {
            cur - step
        };
        self.update_points_for_grade(grade, Points::from_halves(target))
    }
}

/// What a manual threshold edit leaves behind: `post` is `pre` with the
/// threshold of the grade at position `g` set to `target` rounded up to
/// a whole point, the scale detached into a custom one carrying `pre`'s
/// table, and that table's entry for the grade rewritten as the new
/// threshold's exact share of the maximum.  Maximum and half-point
/// mode are untouched.
pub open spec fn updated_with(pre: GradingScale, post: GradingScale, g: int, target: int) -> bool {
    let rounded = target + target % 2;
    &&& post.spec_total() == pre.spec_total()
    &&& post.spec_half() == pre.spec_half()
    &&& post.spec_thresholds() == pre.spec_thresholds().update(g, rounded)
    &&& post.spec_scale_type() is Custom
    &&& post.spec_scale_type().spec_values() == pre.spec_scale_type().spec_values().update(
        g,
        (((g + 1) as u8), (Share { num: rounded as u32, den: pre.spec_total() as u32 })),
    )
}

/// Promotion invariant: after any threshold nudge — whatever the
/// grade, the target value, and the scale's prior kind — the scale is
/// a custom one, so a named preset's own table is never mutated.  The
/// premise is what every threshold edit ensures.
pub proof fn lemma_edit_promotes_to_custom(
    pre: GradingScale,
    post: GradingScale,
    g: int,
    target: int,
)
    requires
        updated_with(pre, post, g, target),
    ensures
        post.spec_scale_type() is Custom,
{
}

/// The threshold an increment aims at: one step up, capped at the
/// largest representable point value.
pub open spec fn inc_target(s: GradingScale, g: int) -> int {
    if s.spec_thresholds()[g] + s.step_halves() > MAX_HALF_UNITS {
        MAX_HALF_UNITS as int
    } else {
        s.spec_thresholds()[g] + s.step_halves()
    }
}

/// The threshold a decrement aims at: one step down, never below zero.
pub open spec fn dec_target(s: GradingScale, g: int) -> int {
    if s.spec_thresholds()[g] - s.step_halves() < 0 {
        0
    } else {
        s.spec_thresholds()[g] - s.step_halves()
    }
}

/// For a share in whole hundredths the cap of `threshold_halves` never
/// bites: the raw value is at most one above the maximum, and being
/// even it stays within the representable range.
proof fn lemma_hundredths_uncapped(num: int, total: int)
    requires
        0 <= num <= 100,
        1 <= total <= MAX_HALF_UNITS,
    ensures
        threshold_halves((Share { num: num as u32, den: 100u32 }), total) == 2 * ((num * total
            + 100) / 200),
        0 <= 2 * ((num * total + 100) / 200) <= MAX_HALF_UNITS,
{
    let a = num * total + 100;
    let b = 100 * total + 100;
    assert(num * total >= 0) by (nonlinear_arith)
        requires
            num >= 0,
            total >= 0,
    ;
    lemma_mul_inequality(num, 100, total);
    assert(num * total == total * num) by (nonlinear_arith);
    assert(100 * total == total * 100) by (nonlinear_arith);
    assert(a <= b);
    lemma_div_pos_is_pos(a, 200);
    lemma_div_is_ordered(a, b, 200);
    lemma_fundamental_div_mod(b, 200);
    assert(200 * (b / 200) <= b);
    assert(2 * (b / 200) <= total + 1);
    assert(2 * (a / 200) <= total + 1);
    assert(2 * (a / 200) != MAX_HALF_UNITS + 1);
}

/// A higher boundary share in hundredths never yields a lower
/// threshold.
proof fn lemma_threshold_monotone(n1: int, n2: int, total: int)
    requires
        0 <= n2 <= n1 <= 100,
        1 <= total <= MAX_HALF_UNITS,
    ensures
        threshold_halves((Share { num: n1 as u32, den: 100u32 }), total) >= threshold_halves(
            (Share { num: n2 as u32, den: 100u32 }),
            total,
        ),
{
    lemma_hundredths_uncapped(n1, total);
    lemma_hundredths_uncapped(n2, total);
    lemma_mul_inequality(n2, n1, total);
    assert(n1 * total == total * n1) by (nonlinear_arith);
    assert(n2 * total == total * n2) by (nonlinear_arith);
    lemma_div_is_ordered(n2 * total + 100, n1 * total + 100, 200);
}

/// In a sequence whose neighbours never increase, no later element
/// exceeds an earlier one.
proof fn lemma_seq_nonincreasing(s: Seq<int>, i: int, j: int)
    requires
        0 <= i <= j < s.len(),
        forall|k: int| 0 <= k < s.len() - 1 ==> #[trigger] s[k] >= s[k + 1],
    ensures
        s[i] >= s[j],
    decreases j - i,
{
    if i < j {
        lemma_seq_nonincreasing(s, i + 1, j);
    }
}

/// For every named preset and positive maximum, the derived thresholds
/// never increase from the best grade to the worst, and the worst
/// grade's threshold is zero.
pub proof fn lemma_standard_thresholds_monotone(t: GradeScaleType, total: int)
    requires
        t.is_standard(),
        1 <= total <= MAX_HALF_UNITS,
    ensures
        forall|i: int, j: int| 0 <= i <= j < 6 ==> derived_thresholds(t, total)[i]
            >= derived_thresholds(t, total)[j],
        derived_thresholds(t, total)[5] == 0,
{
    let dt = derived_thresholds(t, total);
    assert forall|k: int| 0 <= k < 5 implies #[trigger] dt[k] >= dt[k + 1] by {
        let s1 = t.spec_values()[k].1;
        let s2 = t.spec_values()[k + 1].1;
        assert(s1.den == 100 && s2.den == 100 && s1.num >= s2.num && s1.num <= 100);
        assert(s1 == (Share { num: s1.num, den: 100u32 }));
        assert(s2 == (Share { num: s2.num, den: 100u32 }));
        lemma_threshold_monotone(s1.num as int, s2.num as int, total);
    }
    assert forall|i: int, j: int| 0 <= i <= j < 6 implies dt[i] >= dt[j] by {
        lemma_seq_nonincreasing(dt, i, j);
    }
    lemma_hundredths_uncapped(0, total);
    assert(0 * total == 0) by (nonlinear_arith);
    assert(t.spec_values()[5].1 == (Share { num: 0u32, den: 100u32 }));
    assert(dt[5] == 2 * ((0 * total + 100) / 200));
}

/// The full maximum earns the best grade, for every named preset and
/// every maximum except the few small even ones where the rounded
/// best threshold reaches the maximum itself: even maxima of at most
/// six points under IHK and of at most three points under the other
/// presets.  The equivalence names the failing maxima exactly.
pub proof fn lemma_full_points_best_grade(t: GradeScaleType, total: int)
    requires
        t.is_standard(),
        1 <= total <= MAX_HALF_UNITS,
    ensures
        spec_grade_for_points(derived_thresholds(t, total), total) == Some(Grade::VeryGood)
            <==> (total % 2 == 1 || (t is IHK && total >= 14) || (t is TECHNIKER && total >= 8)
            || (t is LINEAR && total >= 8)),
{
    let p0 = t.spec_values()[0].1.num as int;
    assert(t.spec_values()[0].1 == (Share { num: p0 as u32, den: 100u32 }));
    assert(p0 == 92 || p0 == 85 || p0 == 87);
    lemma_hundredths_uncapped(p0, total);
    let a = p0 * total + 100;
    let q = a / 200;
    let thr = derived_thresholds(t, total)[0];
    assert(thr == 2 * q);
    if total % 2 == 1 || (t is IHK && total >= 14) || (t is TECHNIKER && total >= 8) || (t
        is LINEAR && total >= 8) {
        lemma_fundamental_div_mod(a, 200);
        assert(200 * q <= a);
        if total % 2 == 1 {
            vstd::arithmetic::mul::lemma_mul_strict_inequality(p0, 100, total);
            assert(p0 * total == total * p0) by (nonlinear_arith);
            assert(100 * total == total * 100) by (nonlinear_arith);
            assert(a < 100 * total + 100);
            assert(200 * q < 100 * (total + 1));
            assert(2 * q <= total);
            assert(2 * q != total);
        } else {
            if t is IHK {
                assert(a == 92 * total + 100);
                assert(92 * total + 100 < 100 * total);
            } else if t is TECHNIKER {
                assert(a == 85 * total + 100);
                assert(85 * total + 100 < 100 * total);
            } else {
                assert(a == 87 * total + 100);
                assert(87 * total + 100 < 100 * total);
            }
            assert(200 * q < 100 * total);
        }
        assert(thr < total);
    } else {
        // an even maximum below the preset's bound: the rounded best
        // threshold lands exactly on the maximum, which therefore
        // does not exceed it
        assert(total % 2 == 0);
        let r = a - 100 * total;
        if t is IHK {
            assert(a == 92 * total + 100);
            assert(total <= 12);
        } else if t is TECHNIKER {
            assert(a == 85 * total + 100);
            assert(total <= 6);
        } else {
            assert(a == 87 * total + 100);
            assert(total <= 6);
        }
        assert(0 <= r < 200);
        assert(100 * total == (total / 2) * 200);
        assert(a == (total / 2) * 200 + r);
        vstd::arithmetic::div_mod::lemma_fundamental_div_mod_converse_div(a, 200, total / 2, r);
        assert(q == total / 2);
        assert(thr == total);
    }
}

/// Round trip: for a named preset at a maximum of at least
/// thirty-three and a half points, the rounded share of each derived
/// threshold in the maximum reproduces that grade's defining
/// percentage to within one hundredth.  At thirty-three points the
/// tolerance already fails (IHK's fifty percent reproduces as
/// fifty-two).
pub proof fn lemma_percentage_round_trip(t: GradeScaleType, total: int, i: int)
    requires
        t.is_standard(),
        67 <= total <= MAX_HALF_UNITS,
        0 <= i < 6,
    ensures
        t.spec_values()[i].1.num - 1 <= spec_pct(derived_thresholds(t, total)[i], total),
        spec_pct(derived_thresholds(t, total)[i], total) <= t.spec_values()[i].1.num + 1,
{
    let p = t.spec_values()[i].1.num as int;
    assert(t.spec_values()[i].1 == (Share { num: p as u32, den: 100u32 }));
    assert(0 <= p <= 100);
    lemma_hundredths_uncapped(p, total);
    let a = p * total + 100;
    let q = a / 200;
    let thr = derived_thresholds(t, total)[i];
    assert(thr == 2 * q);
    let b = 200 * thr + total;
    let u = spec_pct(thr, total);
    assert(b == 400 * q + total);
    assert(p * total >= 0) by (nonlinear_arith)
        requires p >= 0 && total >= 0;
    lemma_fundamental_div_mod(a, 200);
    assert(200 * q <= a < 200 * q + 200);
    lemma_fundamental_div_mod(b, 2 * total);
    assert(b == (2 * total) * u + b % (2 * total));
    assert(0 <= b % (2 * total) < 2 * total);
    // upper bound: 2*total*u <= b <= 2*p*total + total + 200 < 2*total*(p + 2)
    assert(b <= 2 * (p * total) + total + 200);
    assert((2 * total) * u <= b);
    assert(2 * (p * total) + total + 200 < (2 * total) * (p + 2)) by (nonlinear_arith)
        requires total >= 67;
    assert((2 * total) * u < (2 * total) * (p + 2));
    assert(u < p + 2) by (nonlinear_arith)
        requires (2 * total) * u < (2 * total) * (p + 2) && total >= 1;
    // lower bound: 2*total*u > b - 2*total >= 2*p*total - 198 + total - 2*total >= 2*total*(p - 2)
    assert(400 * q >= 2 * (p * total) - 198);
    assert((2 * total) * u > b - 2 * total);
    assert(2 * (p * total) - 198 + total - 2 * total >= (2 * total) * (p - 2)) by (nonlinear_arith)
        requires total >= 66;
    assert((2 * total) * u > (2 * total) * (p - 2));
    assert(u > p - 2) by (nonlinear_arith)
        requires (2 * total) * u > (2 * total) * (p - 2) && total >= 1;
}

/// The rounded share of points in a total stays in `u32` range for
/// bounded point values.
pub proof fn lemma_pct_in_range(p: int, t: int)
    requires
        0 <= p <= MAX_HALF_UNITS,
        1 <= t <= u32::MAX,
    ensures
        0 <= spec_pct(p, t) <= u32::MAX,
{
    let a = 200 * p + t;
    lemma_div_pos_is_pos(a, 2 * t);
    vstd::arithmetic::div_mod::lemma_div_is_ordered_by_denominator(a, 2, 2 * t);
    lemma_fundamental_div_mod(a, 2);
}

/// Snapshotting to a custom scale is idempotent: `to_custom` promises a
/// custom scale with the table of its receiver, so a second snapshot
/// carries the same percentage table as the first.  The premises are
/// exactly what [`GradeScaleType::to_custom`] ensures of each call.
pub proof fn lemma_to_custom_idempotent(
    start: GradeScaleType,
    first: GradeScaleType,
    second: GradeScaleType,
)
    requires
        first is Custom,
        first.spec_values() == start.spec_values(),
        second is Custom,
        second.spec_values() == first.spec_values(),
    ensures
        second.spec_values() == start.spec_values(),
        second is Custom,
{
}

} // verus!
