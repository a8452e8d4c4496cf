//! Checking that the knobs of a frame form a plausible row.

use vstd::prelude::*;
use vstd::string::*;

use super::detect::Knob;
use super::{FrameState, Stage, StageError};
use crate::config::KnobDetection;
use crate::fixed::abs;
use crate::order::{find_median, median};
use crate::stats::{sum, total, wide, widened};
use crate::text::{decimal, push_number, push_ratio, ratio_decimal};
use crate::wide::Integer;

verus! {

/// What the check of a row of knobs found.
#[derive(Debug, PartialEq, Eq)]
pub struct SanityResult {
    pub ok: bool,
    pub count_ok: bool,
    pub y_aligned: bool,
    pub size_uniform: bool,
    pub spacing_uniform: bool,
    pub synthetic_count: usize,
    pub details: String,
}

/// What a [`SanityResult`] says.
#[verifier::ext_equal]
pub struct SanityView {
    pub ok: bool,
    pub count_ok: bool,
    pub y_aligned: bool,
    pub size_uniform: bool,
    pub spacing_uniform: bool,
    pub synthetic_count: int,
    pub details: Seq<char>,
}

impl View for SanityResult {
    type V = SanityView;

    open spec fn view(&self) -> SanityView {
        SanityView {
            ok: self.ok,
            count_ok: self.count_ok,
            y_aligned: self.y_aligned,
            size_uniform: self.size_uniform,
            spacing_uniform: self.spacing_uniform,
            synthetic_count: self.synthetic_count as int,
            details: self.details@,
        }
    }
}

/// The stage that checks the row of knobs.
#[derive(Debug, Clone, Copy, PartialEq, Eq, Structural)]
pub struct Sanity {
    pub expected_count: usize,
    pub y_tolerance: i64,
    pub size_tolerance: i64,
    pub spacing_tolerance: i64,
    pub max_synthetic: usize,
}

/// The name of the stage.
pub fn name() -> (r: &'static str)
    ensures
        r@ == "sanity"@,
{
    "sanity"
}

/// A ratio that may be infinite.
#[verifier::ext_equal]
pub enum Ratio {
    Finite { over: int, under: int },
    Infinite,
}

impl Ratio {
    /// The ratio is at most the fixed-point number `limit`.
    pub open spec fn at_most(self, limit: int) -> bool {
        match self {
            Ratio::Finite { over, under } => over * 1_000_000 <= limit * under,
            Ratio::Infinite => false,
        }
    }

    /// The ratio in percent, without decimals.
    pub open spec fn percent(self) -> Seq<char> {
        match self {
            Ratio::Finite { over, under } => ratio_decimal(over * 100, under, 0),
            Ratio::Infinite => "inf"@,
        }
    }
}

/// The knobs that were found in the frame.
pub open spec fn found_knobs(knobs: Seq<Knob>) -> Seq<Knob>
    decreases knobs.len(),
{
    if knobs.len() == 0 {
        knobs
    } else if knobs.last().synthetic {
        found_knobs(knobs.drop_last())
    } else {
        found_knobs(knobs.drop_last()).push(knobs.last())
    }
}

/// The heights of some knobs.
pub open spec fn heights(knobs: Seq<Knob>) -> Seq<i64> {
    knobs.map_values(|k: Knob| k.y)
}

/// The radii of some knobs.
pub open spec fn radii(knobs: Seq<Knob>) -> Seq<i64> {
    knobs.map_values(|k: Knob| k.radius)
}

/// The distances from each knob to the next.
pub open spec fn spacings(knobs: Seq<Knob>) -> Seq<i128>
    recommends
        knobs.len() > 0,
{
    Seq::new((knobs.len() - 1) as nat, |i: int| (knobs[i + 1].x - knobs[i].x) as i128)
}

/// The largest deviation of `factor` times a value from `from`.
pub open spec fn largest_deviation(values: Seq<i128>, factor: int, from: int) -> int
    decreases values.len(),
{
    if values.len() == 0 {
        0
    } else {
        let before = largest_deviation(values.drop_last(), factor, from);
        let d = abs(factor * values.last() - from);
        if before < d {
            d
        } else {
            before
        }
    }
}

/// The largest deviation as a share of `from`.
pub open spec fn deviation_ratio(values: Seq<i128>, factor: int, from: int) -> Ratio {
    let d = largest_deviation(values, factor, from);
    if from != 0 {
        Ratio::Finite { over: d, under: abs(from) }
    } else if d == 0 {
        Ratio::Finite { over: 0, under: 1 }
    } else {
        Ratio::Infinite
    }
}

/// Texts with a separator between them.
pub open spec fn joined(parts: Seq<Seq<char>>) -> Seq<char>
    decreases parts.len(),
{
    if parts.len() == 0 {
        Seq::empty()
    } else if parts.len() == 1 {
        parts[0]
    } else {
        joined(parts.drop_last()) + "; "@ + parts.last()
    }
}

/// The texts, with `part` behind them where it is wanted.
pub open spec fn listed(parts: Seq<Seq<char>>, wanted: bool, part: Seq<char>) -> Seq<Seq<char>> {
    if wanted {
        parts.push(part)
    } else {
        parts
    }
}

impl Sanity {
    /// Makes the stage from its settings; up to three knobs may be put at their places.
    pub fn new(kd: &KnobDetection) -> (r: Self)
        ensures
            r == (Sanity {
                expected_count: kd.expected_count,
                y_tolerance: kd.y_tolerance_px,
                size_tolerance: kd.size_tolerance_pct,
                spacing_tolerance: kd.spacing_tolerance_pct,
                max_synthetic: 3,
            }),
    {
        Sanity {
            expected_count: kd.expected_count,
            y_tolerance: kd.y_tolerance_px,
            size_tolerance: kd.size_tolerance_pct,
            spacing_tolerance: kd.spacing_tolerance_pct,
            max_synthetic: 3,
        }
    }

    /// What the check says of a row of knobs. The found knobs have to lie within the tolerance
    /// of their mean height, and their radii within it of their median; the gaps between all
    /// knobs have to lie within the tolerance of their mean.
    pub open spec fn verdict(&self, knobs: Seq<Knob>) -> SanityView {
        let found = found_knobs(knobs);
        let synthetic_count = knobs.len() - found.len();
        let count_ok = synthetic_count <= self.max_synthetic;
        let d0 = listed(
            Seq::empty(),
            !count_ok,
            "synthetic="@ + decimal(synthetic_count) + "/"@ + decimal(knobs.len() as int),
        );
        if found.len() < 2 {
            SanityView {
                ok: false,
                count_ok,
                y_aligned: false,
                size_uniform: false,
                spacing_uniform: false,
                synthetic_count,
                details: joined(d0),
            }
        } else {
            let n = found.len() as int;
            let y_dev = largest_deviation(wide(heights(found)), n, sum(wide(heights(found))));
            let y_aligned = y_dev <= self.y_tolerance * n;
            let d1 = listed(d0, !y_aligned, "y_dev="@ + ratio_decimal(y_dev, n * 1_000_000, 1) + "px"@);
            let r_dev = deviation_ratio(wide(radii(found)), 1, median(radii(found)) as int);
            let size_uniform = r_dev.at_most(self.size_tolerance as int);
            let d2 = listed(d1, !size_uniform, "size_dev="@ + r_dev.percent() + "%"@);
            let sp = spacings(knobs);
            let sp_dev = deviation_ratio(sp, sp.len() as int, sum(sp));
            let spacing_uniform = sp_dev.at_most(self.spacing_tolerance as int);
            let d3 = listed(d2, !spacing_uniform, "spacing_dev="@ + sp_dev.percent() + "%"@);
            let ok = count_ok && y_aligned && size_uniform && spacing_uniform;
            SanityView {
                ok,
                count_ok,
                y_aligned,
                size_uniform,
                spacing_uniform,
                synthetic_count,
                details: joined(listed(d3, ok, "PASS"@)),
            }
        }
    }
}

fn push_detail(details: &mut String, count: &mut usize, part: &str, Ghost(parts): Ghost<Seq<Seq<char>>>)
    requires
        old(details)@ == joined(parts),
        *old(count) == parts.len(),
        parts.len() < 10,
    ensures
        final(details)@ == joined(parts.push(part@)),
        *final(count) == parts.len() + 1,
{
    let ghost all = parts.push(part@);
    assert(all.drop_last() =~= parts);
    if *count > 0 {
        details.append("; ");
    }
    details.append(part);
    assert(parts.len() == 0 ==> details@ =~= part@);
    *count = *count + 1;
}

fn find_largest_deviation(values: &Vec<i128>, factor: &Integer, from: &Integer) -> (r: Integer)
    ensures
        r@ == largest_deviation(values@, factor@, from@),
        r@ >= 0,
{
    let mut r: Integer = Integer::new(0);
    let mut i: usize = 0;
    assert(values@.take(0) =~= Seq::empty());
    while i < values.len()
        invariant
            i <= values.len(),
            r@ == largest_deviation(values@.take(i as int), factor@, from@),
            r@ >= 0,
        decreases values.len() - i,
    {
        assert(values@.take(i as int + 1).drop_last() =~= values@.take(i as int));
        let d: Integer = factor.times(&Integer::new(values[i])).minus(from);
        let d: Integer = if d.is_negative() {
            d.opposite()
        } else {
            d
        };
        if r.is_less(&d) {
            r = d;
        }
        i = i + 1;
    }
    assert(values@.take(i as int) =~= values@);
    r
}

/// The two parts of a ratio; nothing below stands for an infinite one.
struct Parts {
    over: Integer,
    under: Integer,
}

impl Parts {
    spec fn ratio(&self) -> Ratio {
        if self.under@ == 0 {
            Ratio::Infinite
        } else {
            Ratio::Finite { over: self.over@, under: self.under@ }
        }
    }

    spec fn wf(&self) -> bool {
        self.under@ >= 0
    }

    fn is_infinite(&self) -> (r: bool)
        requires
            self.wf(),
        ensures
            r == (self.ratio() is Infinite),
    {
        !Integer::new(0).is_less(&self.under)
    }

    fn is_at_most(&self, limit: i64) -> (r: bool)
        requires
            self.wf(),
        ensures
            r == self.ratio().at_most(limit as int),
    {
        let one: Integer = Integer::new(1_000_000);
        !self.is_infinite() && !Integer::new(limit as i128).times(&self.under).is_less(
            &self.over.times(&one),
        )
    }

    fn percent_text(&self, prefix: &str) -> (r: String)
        requires
            self.wf(),
        ensures
            r@ == prefix@ + self.ratio().percent() + "%"@,
    {
        let mut s: String = String::from_str(prefix);
        if self.is_infinite() {
            s.append("inf");
        } else {
            push_ratio(&mut s, &self.over.times(&Integer::new(100)), &self.under, 0);
        }
        s.append("%");
        s
    }
}

fn find_deviation_ratio(values: &Vec<i128>, factor: &Integer, from: &Integer) -> (r: Parts)
    ensures
        r.wf(),
        r.ratio() == deviation_ratio(values@, factor@, from@),
{
    let d: Integer = find_largest_deviation(values, factor, from);
    let zero: Integer = Integer::new(0);
    if from.is_negative() {
        Parts { over: d, under: from.opposite() }
    } else if zero.is_less(from) {
        Parts { over: d, under: from.clone() }
    } else if zero.is_less(&d) {
        Parts { over: d, under: zero }
    } else {
        Parts { over: zero, under: Integer::new(1) }
    }
}

fn collect_found(knobs: &Vec<Knob>) -> (r: (Vec<i64>, Vec<i64>))
    ensures
        r.0@ == heights(found_knobs(knobs@)),
        r.1@ == radii(found_knobs(knobs@)),
        r.0.len() <= knobs.len(),
{
    let mut ys: Vec<i64> = Vec::new();
    let mut rs: Vec<i64> = Vec::new();
    let mut i: usize = 0;
    assert(knobs@.take(0) =~= Seq::empty());
    assert(heights(found_knobs(knobs@.take(0))) =~= Seq::empty());
    assert(radii(found_knobs(knobs@.take(0))) =~= Seq::empty());
    while i < knobs.len()
        invariant
            i <= knobs.len(),
            ys.len() <= i,
            ys.len() == rs.len(),
            ys@ == heights(found_knobs(knobs@.take(i as int))),
            rs@ == radii(found_knobs(knobs@.take(i as int))),
        decreases knobs.len() - i,
    {
        let k: Knob = knobs[i];
        let ghost before = found_knobs(knobs@.take(i as int));
        assert(knobs@.take(i as int + 1).drop_last() =~= knobs@.take(i as int));
        if !k.synthetic {
            ys.push(k.y);
            rs.push(k.radius);
            assert(ys@ =~= heights(before.push(k)));
            assert(rs@ =~= radii(before.push(k)));
        }
        i = i + 1;
    }
    assert(knobs@.take(i as int) =~= knobs@);
    (ys, rs)
}

fn find_spacings(knobs: &Vec<Knob>) -> (r: Vec<i128>)
    requires
        knobs.len() > 0,
    ensures
        r@ == spacings(knobs@),
        r.len() == knobs.len() - 1,
{
    let mut r: Vec<i128> = Vec::new();
    let mut i: usize = 0;
    while i < knobs.len() - 1
        invariant
            knobs.len() > 0,
            i <= knobs.len() - 1,
            r.len() == i,
            forall|j: int| 0 <= j < i ==> #[trigger] r[j] == knobs[j + 1].x - knobs[j].x,
        decreases knobs.len() - i,
    {
        r.push(knobs[i + 1].x as i128 - knobs[i].x as i128);
        i = i + 1;
    }
    assert(r@ =~= spacings(knobs@));
    r
}

impl Sanity {
    /// Checks that the knobs form a plausible row.
    pub fn check(&self, knobs: &Vec<Knob>) -> (r: SanityResult)
        ensures
            r@ == self.verdict(knobs@),
    {
        let (ys, rs) = collect_found(knobs);
        let ghost found = found_knobs(knobs@);
        assert(ys.len() == found.len());
        let synthetic_count: usize = knobs.len() - ys.len();
        let mut details: String = String::from_str("");
        let mut count: usize = 0;
        let ghost mut parts: Seq<Seq<char>> = Seq::empty();
        proof {
            reveal_strlit("");
            assert(details@ =~= joined(parts));
        }
        let count_ok: bool = synthetic_count <= self.max_synthetic;
        if !count_ok {
            let mut part: String = String::from_str("synthetic=");
            push_number(&mut part, synthetic_count as u128);
            part.append("/");
            push_number(&mut part, knobs.len() as u128);
            push_detail(&mut details, &mut count, part.as_str(), Ghost(parts));
            proof {
                parts = parts.push(part@);
            }
        }
        if ys.len() < 2 {
            return SanityResult {
                ok: false,
                count_ok,
                y_aligned: false,
                size_uniform: false,
                spacing_uniform: false,
                synthetic_count,
                details,
            };
        }
        let n: Integer = Integer::new(ys.len() as i128);
        let ys: Vec<i128> = widened(&ys);
        let y_dev: Integer = find_largest_deviation(&ys, &n, &total(&ys));
        let y_aligned: bool = !Integer::new(self.y_tolerance as i128).times(&n).is_less(&y_dev);
        if !y_aligned {
            let mut part: String = String::from_str("y_dev=");
            push_ratio(&mut part, &y_dev, &n.times(&Integer::new(1_000_000)), 1);
            part.append("px");
            push_detail(&mut details, &mut count, part.as_str(), Ghost(parts));
            proof {
                parts = parts.push(part@);
            }
        }
        let median_r: i64 = find_median(&rs);
        let r_dev: Parts = find_deviation_ratio(
            &widened(&rs),
            &Integer::new(1),
            &Integer::new(median_r as i128),
        );
        let size_uniform: bool = r_dev.is_at_most(self.size_tolerance);
        if !size_uniform {
            let part: String = r_dev.percent_text("size_dev=");
            push_detail(&mut details, &mut count, part.as_str(), Ghost(parts));
            proof {
                parts = parts.push(part@);
            }
        }
        let sp: Vec<i128> = find_spacings(knobs);
        let sp_dev: Parts = find_deviation_ratio(
            &sp,
            &Integer::new(sp.len() as i128),
            &total(&sp),
        );
        let spacing_uniform: bool = sp_dev.is_at_most(self.spacing_tolerance);
        if !spacing_uniform {
            let part: String = sp_dev.percent_text("spacing_dev=");
            push_detail(&mut details, &mut count, part.as_str(), Ghost(parts));
            proof {
                parts = parts.push(part@);
            }
        }
        let ok: bool = count_ok && y_aligned && size_uniform && spacing_uniform;
        if ok {
            push_detail(&mut details, &mut count, "PASS", Ghost(parts));
        }
        SanityResult {
            ok,
            count_ok,
            y_aligned,
            size_uniform,
            spacing_uniform,
            synthetic_count,
            details,
        }
    }
}

impl<M> Stage<M> for Sanity {
    open spec fn accepts(&self, state: FrameState<M>) -> bool {
        true
    }

    open spec fn spec_name(&self) -> &'static str {
        "sanity"
    }

    fn name(&self) -> (r: &'static str) {
        "sanity"
    }

    fn process(&self, state: &mut FrameState<M>) -> (r: Result<(), StageError>)
        ensures
            r is Ok,
            final(state).sanity matches Some(s) && s@ == self.verdict(old(state).knobs@),
            *final(state) == (FrameState { sanity: final(state).sanity, ..*old(state) }),
    {
        let result: SanityResult = self.check(&state.knobs);
        state.sanity = Some(result);
        Ok(())
    }
}


/// The knobs that were found are those that are not made up, in their order.
pub proof fn found_knobs_are_not_made_up(knobs: Seq<Knob>)
    ensures
        found_knobs(knobs) == knobs.filter(|k: Knob| !k.synthetic),
    decreases knobs.len(),
{
    reveal(Seq::filter);
    if knobs.len() > 0 {
        found_knobs_are_not_made_up(knobs.drop_last());
    } else {
        assert(knobs =~= Seq::<Knob>::empty());
    }
}

proof fn the_largest_deviation_is_reached(values: Seq<i128>, factor: int, from: int)
    ensures
        largest_deviation(values, factor, from) >= 0,
        forall|i: int|
            0 <= i < values.len() ==> abs(factor * #[trigger] values[i] - from) <= largest_deviation(
                values,
                factor,
                from,
            ),
        values.len() > 0 ==> exists|i: int|
            0 <= i < values.len() && abs(factor * #[trigger] values[i] - from) == largest_deviation(
                values,
                factor,
                from,
            ),
    decreases values.len(),
{
    if values.len() > 0 {
        let t = values.drop_last();
        let n = t.len() as int;
        the_largest_deviation_is_reached(t, factor, from);
        let r = largest_deviation(values, factor, from);
        assert forall|i: int| 0 <= i < values.len() implies abs(factor * #[trigger] values[i] - from)
            <= r by {
            if i < n {
                assert(t[i] == values[i]);
            }
        }
        if r == abs(factor * values[n] - from) {
        } else {
            let i = choose|i: int|
                0 <= i < t.len() && abs(factor * #[trigger] t[i] - from) == largest_deviation(
                    t,
                    factor,
                    from,
                );
            assert(values[i] == t[i]);
        }
    }
}

/// All values are within a limit of `from`, once multiplied by the factor.
pub open spec fn all_within(values: Seq<i128>, factor: int, from: int, limit: int) -> bool {
    forall|i: int| 0 <= i < values.len() ==> abs(factor * #[trigger] values[i] - from) <= limit
}

/// The largest deviation is within a limit exactly if all are.
pub proof fn the_largest_deviation_is_that_of_all(
    values: Seq<i128>,
    factor: int,
    from: int,
    limit: int,
)
    requires
        values.len() > 0,
    ensures
        largest_deviation(values, factor, from) <= limit <==> all_within(values, factor, from, limit),
{
    the_largest_deviation_is_reached(values, factor, from);
}

/// A share of deviation is within a limit exactly if each value is within that share of what they are
/// compared with.
pub proof fn shares_of_deviation_are_those_of_all(
    values: Seq<i128>,
    factor: int,
    from: int,
    limit: int,
)
    requires
        values.len() > 0,
        limit >= 0,
    ensures
        deviation_ratio(values, factor, from).at_most(limit) <==> forall|i: int|
            0 <= i < values.len() ==> abs(factor * #[trigger] values[i] - from) * 1_000_000 <= limit
                * abs(from),
{
    the_largest_deviation_is_reached(values, factor, from);
    let d = largest_deviation(values, factor, from);
    let k = choose|i: int|
        0 <= i < values.len() && abs(factor * #[trigger] values[i] - from) == d;
    assert(abs(factor * values[k] - from) == d);
    assert(limit * 0 == 0);
}

proof fn spacings_add_up_to_the_whole(knobs: Seq<Knob>, n: int)
    requires
        1 <= n <= knobs.len(),
    ensures
        sum(spacings(knobs).take(n - 1)) == knobs[n - 1].x - knobs[0].x,
    decreases n,
{
    if n > 1 {
        spacings_add_up_to_the_whole(knobs, n - 1);
        assert(spacings(knobs).take(n - 1).drop_last() =~= spacings(knobs).take(n - 2));
        assert(spacings(knobs)[n - 2] == knobs[n - 1].x - knobs[n - 2].x);
    } else {
        assert(spacings(knobs).take(0).len() == 0);
    }
}

/// The spacings add up to the way from the first knob to the last.
pub proof fn spacings_add_up(knobs: Seq<Knob>)
    requires
        knobs.len() > 0,
    ensures
        spacings(knobs).len() == knobs.len() - 1,
        sum(spacings(knobs)) == knobs.last().x - knobs[0].x,
{
    spacings_add_up_to_the_whole(knobs, knobs.len() as int);
    assert(spacings(knobs).take(knobs.len() - 1) =~= spacings(knobs));
}

impl Sanity {
    /// Knobs pass exactly if at least two were found and few enough made up, those that were found
    /// are all level with their mean height and as large as the middle one, and all are evenly spaced,
    /// each within its tolerance. Each of these is told apart from the others.
    pub proof fn knobs_pass_in_all_respects(&self, knobs: Seq<Knob>)
        requires
            knobs.filter(|k: Knob| !k.synthetic).len() >= 2,
            self.size_tolerance >= 0,
            self.spacing_tolerance >= 0,
        ensures
            ({
                let found = knobs.filter(|k: Knob| !k.synthetic);
                let n = found.len() as int;
                let v = self.verdict(knobs);
                let ys = Seq::new(found.len(), |i: int| found[i].y as i128);
                let middle = median(Seq::new(found.len(), |i: int| found[i].radius));
                &&& v.synthetic_count == knobs.len() - n
                &&& v.count_ok <==> knobs.len() - n <= self.max_synthetic
                &&& v.y_aligned <==> all_within(ys, n, sum(ys), self.y_tolerance * n)
                &&& v.size_uniform <==> forall|i: int|
                    0 <= i < n ==> abs((#[trigger] found[i]).radius - middle) * 1_000_000
                        <= self.size_tolerance * abs(middle as int)
                &&& v.ok <==> v.count_ok && v.y_aligned && v.size_uniform && v.spacing_uniform
                &&& v.ok ==> v.details == "PASS"@
            }),
    {
        let found = found_knobs(knobs);
        found_knobs_are_not_made_up(knobs);
        let ys = Seq::new(found.len(), |i: int| found[i].y as i128);
        assert(wide(heights(found)) =~= ys);
        the_largest_deviation_is_that_of_all(
            ys,
            found.len() as int,
            sum(ys),
            self.y_tolerance * found.len(),
        );
        let rs = radii(found);
        assert(rs =~= Seq::new(found.len(), |i: int| found[i].radius));
        let middle = median(rs) as int;
        shares_of_deviation_are_those_of_all(wide(rs), 1, middle, self.size_tolerance as int);
        assert forall|i: int| 0 <= i < found.len() implies #[trigger] wide(rs)[i] == found[i].radius by {}
        if self.verdict(knobs).size_uniform {
            assert forall|i: int| 0 <= i < found.len() implies abs((#[trigger] found[i]).radius - middle)
                * 1_000_000 <= self.size_tolerance * abs(middle) by {
                assert(abs(1 * wide(rs)[i] - middle) * 1_000_000 <= self.size_tolerance * abs(middle));
            }
        }
        reveal_with_fuel(joined, 2);
        assert(listed(Seq::<Seq<char>>::empty(), true, "PASS"@) =~= seq!["PASS"@]);
    }

    /// The spacing is even exactly if each gap between neighbours, made up or not, is within the
    /// tolerance of their mean: of the way from the first to the last, divided among them.
    pub proof fn spacings_are_compared_with_their_mean(&self, knobs: Seq<Knob>)
        requires
            knobs.filter(|k: Knob| !k.synthetic).len() >= 2,
            self.spacing_tolerance >= 0,
        ensures
            ({
                let way = knobs.last().x - knobs[0].x;
                self.verdict(knobs).spacing_uniform <==> forall|i: int|
                    0 < i < knobs.len() ==> abs(
                        (knobs.len() - 1) * ((#[trigger] knobs[i]).x - knobs[i - 1].x) - way,
                    ) * 1_000_000 <= self.spacing_tolerance * abs(way)
            }),
    {
        found_knobs_are_not_made_up(knobs);
        found_knobs_are_no_more(knobs);
        let sp = spacings(knobs);
        let way = knobs.last().x - knobs[0].x;
        let m = sp.len() as int;
        spacings_add_up(knobs);
        shares_of_deviation_are_those_of_all(sp, m, way, self.spacing_tolerance as int);
        if self.verdict(knobs).spacing_uniform {
            assert forall|i: int| 0 < i < knobs.len() implies abs(
                (knobs.len() - 1) * ((#[trigger] knobs[i]).x - knobs[i - 1].x) - way,
            ) * 1_000_000 <= self.spacing_tolerance * abs(way) by {
                assert(sp[i - 1] == knobs[(i - 1) + 1].x - knobs[i - 1].x);
                assert(abs(m * sp[i - 1] - way) * 1_000_000 <= self.spacing_tolerance * abs(way));
            }
        } else {
            let k = choose|k: int|
                0 <= k < sp.len() && !(abs(m * #[trigger] sp[k] - way) * 1_000_000
                    <= self.spacing_tolerance * abs(way));
            assert(sp[k] == knobs[k + 1].x - knobs[(k + 1) - 1].x);
        }
    }

    /// With fewer than two knobs found nothing passes but, where few enough are made up, their count.
    pub proof fn too_few_knobs_do_not_pass(&self, knobs: Seq<Knob>)
        requires
            knobs.filter(|k: Knob| !k.synthetic).len() < 2,
        ensures
            ({
                let v = self.verdict(knobs);
                let made_up = knobs.len() - knobs.filter(|k: Knob| !k.synthetic).len();
                &&& !v.ok && !v.y_aligned && !v.size_uniform && !v.spacing_uniform
                &&& v.synthetic_count == made_up
                &&& v.count_ok <==> made_up <= self.max_synthetic
            }),
    {
        found_knobs_are_not_made_up(knobs);
    }
}

proof fn found_knobs_are_no_more(knobs: Seq<Knob>)
    ensures
        found_knobs(knobs).len() <= knobs.len(),
    decreases knobs.len(),
{
    if knobs.len() > 0 {
        found_knobs_are_no_more(knobs.drop_last());
    }
}

} // verus!
