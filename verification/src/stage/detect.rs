//! Finding the knobs among the outlines in a warped frame.
//!
//! Outlines that could be knobs are assigned to the places where knobs are expected; where none
//! fits, a knob is put at the expected place.

use vstd::prelude::*;
use vstd::string::*;

use super::{FrameState, StageError};
use crate::config::KnobDetection;
use crate::fixed::{abs, abs_exec, floor_div, max, ONE};
use crate::order::{
    find_median, median, medians_lie_in_the_middle, places_above, places_below,
};
use crate::surd::{are_at_most, is_at_most, sums_are_comparable, sums_are_ordered};
use crate::wide::Integer;

verus! {

/// A knob in the warped frame.
#[derive(Debug, Clone, Copy, PartialEq, Eq, Structural)]
pub struct Knob {
    pub x: i64,
    pub y: i64,
    pub radius: i64,
    /// The place in the row, from zero on.
    pub slot: usize,
    /// Whether the knob was put at its expected place for want of an outline.
    pub synthetic: bool,
}

/// An ellipse that was fitted to an outline.
#[derive(Debug, Clone, Copy, PartialEq, Eq, Structural)]
pub struct Ellipse {
    pub center_x: i64,
    pub center_y: i64,
    pub width: i64,
    pub height: i64,
}

/// The stage that finds the knobs.
#[derive(Debug, Clone, Copy, PartialEq, Eq, Structural)]
pub struct Detect {
    /// Radii in whole pixels.
    pub min_radius: i32,
    pub max_radius: i32,
    /// Fractions of the image's height.
    pub y_band_top: i64,
    pub y_band_bottom: i64,
    pub expected_count: usize,
    pub prior_x_start: i64,
    pub prior_x_end: i64,
    pub prior_y: i64,
    pub slot_capture_radius: i64,
}

/// The name of the stage.
pub fn name() -> (r: &'static str)
    ensures
        r@ == "detect"@,
{
    "detect"
}

/// The error for a frame that no stage has enhanced.
pub fn no_enhanced_frame() -> (r: StageError)
    ensures
        r.stage@ == "detect"@,
        r.message@ == "no enhanced frame"@,
{
    StageError { stage: name(), message: String::from_str("no enhanced frame") }
}

/// The edge thresholds for the mean gradients, in quarters of their unit: half and one and a
/// half times the mean of the two.
pub fn canny_thresholds(mean_x: i64, mean_y: i64) -> (r: (i128, i128))
    ensures
        r.0 == mean_x + mean_y,
        r.1 == 3 * (mean_x + mean_y),
{
    let sum: i128 = mean_x as i128 + mean_y as i128;
    (sum, 3 * sum)
}

/// Where a knob is expected: at the height `y`, and `x` of so many parts of a unit from the left.
#[verifier::ext_equal]
pub struct Place {
    pub x: int,
    pub parts: int,
    pub y: int,
}

/// The square of the distance of a candidate from an expected place, in parts of a unit.
pub open spec fn square_distance(c: Knob, place: Place) -> int {
    let dx = c.x * place.parts - place.x;
    let dy = (c.y - place.y) * place.parts;
    dx * dx + dy * dy
}

/// The candidate `a` fits an expected place at least as well as `b`: its distance in capture radii
/// and the deviation of its radius in median radii are together at most those of `b`.
pub open spec fn fits_as_well(
    a: Knob,
    b: Knob,
    place: Place,
    capture: int,
    median_radius: int,
) -> bool {
    let unit = max(median_radius, 1_000_000);
    is_at_most(
        unit * unit * square_distance(a, place),
        capture * place.parts * abs(a.radius - median_radius),
        unit * unit * square_distance(b, place),
        capture * place.parts * abs(b.radius - median_radius),
    )
}

proof fn scaled_distances_are_not_negative(c: Knob, place: Place, unit: int)
    ensures
        unit * unit * square_distance(c, place) >= 0,
{
    let dx = c.x * place.parts - place.x;
    let dy = (c.y - place.y) * place.parts;
    let d = square_distance(c, place);
    assert(d >= 0) by (nonlinear_arith)
        requires
            d == dx * dx + dy * dy,
    ;
    assert(unit * unit * d >= 0) by (nonlinear_arith)
        requires
            d >= 0,
    ;
}

/// The candidate can be taken for the place: it is free and nearer than the capture radius.
pub open spec fn is_eligible(
    candidates: Seq<Knob>,
    used: Seq<bool>,
    place: Place,
    capture: int,
    i: int,
) -> bool {
    let reach = capture * place.parts;
    !used[i] && capture > 0 && square_distance(candidates[i], place) < reach * reach
}

/// Among the first `upto` candidates, the one that can be taken for the place and fits it best,
/// the first of equally good ones.
pub open spec fn best_for_place(
    candidates: Seq<Knob>,
    used: Seq<bool>,
    place: Place,
    capture: int,
    median_radius: int,
    upto: int,
) -> Option<int>
    decreases upto,
{
    if upto <= 0 {
        None
    } else {
        let best = best_for_place(candidates, used, place, capture, median_radius, upto - 1);
        if !is_eligible(candidates, used, place, capture, upto - 1) {
            best
        } else {
            match best {
                Some(b) if fits_as_well(
                    candidates[b],
                    candidates[upto - 1],
                    place,
                    capture,
                    median_radius,
                ) => Some(b),
                _ => Some(upto - 1),
            }
        }
    }
}

/// Which candidate is taken for each place, and which candidates are taken.
#[verifier::ext_equal]
pub struct Assignment {
    pub taken_for: Seq<Option<int>>,
    pub used: Seq<bool>,
}

impl Detect {
    /// Makes the stage from its settings.
    pub fn new(kd: &KnobDetection) -> (r: Self)
        ensures
            r.min_radius == kd.hough_min_radius,
            r.max_radius == kd.hough_max_radius,
            r.y_band_top == kd.y_band_top,
            r.y_band_bottom == kd.y_band_bottom,
            r.expected_count == kd.expected_count,
            r.prior_x_start == kd.prior_x_start,
            r.prior_x_end == kd.prior_x_end,
            r.prior_y == kd.prior_y,
            r.slot_capture_radius == kd.slot_capture_radius,
    {
        Detect {
            min_radius: kd.hough_min_radius,
            max_radius: kd.hough_max_radius,
            y_band_top: kd.y_band_top,
            y_band_bottom: kd.y_band_bottom,
            expected_count: kd.expected_count,
            prior_x_start: kd.prior_x_start,
            prior_x_end: kd.prior_x_end,
            prior_y: kd.prior_y,
            slot_capture_radius: kd.slot_capture_radius,
        }
    }

    /// An outline can be a knob's: it has at least five points, and its length lies between half
    /// the circumference of the smallest knob and two and a half times that of the largest.
    pub open spec fn is_outline(&self, points: int, perimeter: int) -> bool {
        &&& points >= 5
        &&& perimeter * 1_000_000_000 >= 3_141_592_653_589_793 * self.min_radius
        &&& perimeter * 1_000_000_000 <= 5 * 3_141_592_653_589_793 * self.max_radius
    }

    /// Whether an outline of so many points and this length can be a knob's.
    pub fn outline_fits(&self, points: usize, perimeter: i64) -> (r: bool)
        ensures
            r == self.is_outline(points as int, perimeter as int),
    {
        let pi: i128 = 3_141_592_653_589_793;
        let length: i128 = perimeter as i128 * 1_000_000_000;
        let five_pi: i128 = 15_707_963_267_948_965;
        points >= 5 && length >= pi * self.min_radius as i128 && length <= five_pi
            * self.max_radius as i128
    }

    /// The ellipse is about as large as a knob, lies in the knob band of an image of the given
    /// height and is not very elongated.
    pub open spec fn is_knob_like(&self, e: Ellipse, image_height: int) -> bool {
        let sides = e.width + e.height;
        let (major, minor) = if e.width > e.height {
            (e.width, e.height)
        } else {
            (e.height, e.width)
        };
        &&& sides * 10 >= 24 * self.min_radius * ONE
        &&& sides * 10 <= 60 * self.max_radius * ONE
        &&& e.center_y >= self.y_band_top * image_height
        &&& e.center_y <= self.y_band_bottom * image_height
        &&& !(minor > 0 && 2 * major > 5 * minor)
    }

    /// The knob candidate for an ellipse, if it is knob-like.
    pub open spec fn candidate_of(&self, e: Ellipse, image_height: int) -> Option<Knob> {
        if self.is_knob_like(e, image_height) {
            Some(
                Knob {
                    x: e.center_x,
                    y: e.center_y,
                    radius: ((e.width + e.height) / 4) as i64,
                    slot: 0,
                    synthetic: false,
                },
            )
        } else {
            None
        }
    }

    /// The knob candidate for an ellipse, if it is knob-like.
    pub fn candidate(&self, e: &Ellipse, image_height: u32) -> (r: Option<Knob>)
        ensures
            r == self.candidate_of(*e, image_height as int),
    {
        let sides: i128 = e.width as i128 + e.height as i128;
        let one: i128 = ONE as i128;
        if sides * 10 < 24 * self.min_radius as i128 * one || sides * 10 > 60
            * self.max_radius as i128 * one {
            return None;
        }
        proof {
            let b = 0x8000_0000_0000_0000int;
            let h = image_height as int;
            assert(-b * 0x1_0000_0000 <= self.y_band_top * h <= b * 0x1_0000_0000) by (nonlinear_arith)
                requires
                    -b <= self.y_band_top <= b,
                    0 <= h <= 0x1_0000_0000,
            ;
            assert(-b * 0x1_0000_0000 <= self.y_band_bottom * h <= b * 0x1_0000_0000)
                by (nonlinear_arith)
                requires
                    -b <= self.y_band_bottom <= b,
                    0 <= h <= 0x1_0000_0000,
            ;
        }
        let y_top: i128 = self.y_band_top as i128 * image_height as i128;
        let y_bottom: i128 = self.y_band_bottom as i128 * image_height as i128;
        if (e.center_y as i128) < y_top || e.center_y as i128 > y_bottom {
            return None;
        }
        let (major, minor) = if e.width > e.height {
            (e.width, e.height)
        } else {
            (e.height, e.width)
        };
        if minor > 0 && 2 * major as i128 > 5 * minor as i128 {
            return None;
        }
        Some(
            Knob {
                x: e.center_x,
                y: e.center_y,
                radius: floor_div(sides, 4) as i64,
                slot: 0,
                synthetic: false,
            },
        )
    }

    /// Where the knob of place `i` is expected: the places divide the stretch from the first to
    /// the last one evenly. A single place divides nothing and lies nowhere, held as zero.
    pub open spec fn place_x(&self, i: int) -> int {
        if self.expected_count == 1 {
            0
        } else {
            self.prior_x_start + i * (self.prior_x_end - self.prior_x_start) / (self.expected_count
                - 1)
        }
    }

    /// The place of the knob `i`.
    pub open spec fn place(&self, i: int) -> Place {
        let parts = self.expected_count - 1;
        Place {
            x: self.prior_x_start * parts + i * (self.prior_x_end - self.prior_x_start),
            parts,
            y: self.prior_y as int,
        }
    }

    /// The radius that a knob of these candidates has in the middle.
    pub open spec fn typical_radius(&self, candidates: Seq<Knob>) -> int {
        if candidates.len() == 0 {
            (self.min_radius + self.max_radius) * 500_000
        } else {
            median(radii(candidates)) as int
        }
    }

    /// The candidates taken for the first `upto` places, each place in turn taking the free one
    /// that fits it best.
    pub open spec fn assignment(&self, candidates: Seq<Knob>, upto: int) -> Assignment
        decreases upto,
    {
        if upto <= 0 {
            Assignment {
                taken_for: Seq::empty(),
                used: Seq::new(candidates.len(), |i: int| false),
            }
        } else {
            let before = self.assignment(candidates, upto - 1);
            let best = best_for_place(
                candidates,
                before.used,
                self.place(upto - 1),
                self.slot_capture_radius as int,
                self.typical_radius(candidates),
                candidates.len() as int,
            );
            Assignment {
                taken_for: before.taken_for.push(best),
                used: match best {
                    Some(b) => before.used.update(b, true),
                    None => before.used,
                },
            }
        }
    }
}

/// The candidates that were made.
pub open spec fn kept(made: Seq<Option<Knob>>) -> Seq<Knob>
    decreases made.len(),
{
    if made.len() == 0 {
        Seq::empty()
    } else {
        let before = kept(made.drop_last());
        match made.last() {
            Some(knob) => before.push(knob),
            None => before,
        }
    }
}

/// The radii of some knobs.
pub open spec fn radii(knobs: Seq<Knob>) -> Seq<i64> {
    knobs.map_values(|k: Knob| k.radius)
}

/// The heights of some knobs.
pub open spec fn heights(knobs: Seq<Knob>) -> Seq<i64> {
    knobs.map_values(|k: Knob| k.y)
}

/// The candidates that were taken, in the order of their places.
pub open spec fn taken(candidates: Seq<Knob>, taken_for: Seq<Option<int>>) -> Seq<Knob>
    decreases taken_for.len(),
{
    if taken_for.len() == 0 {
        Seq::empty()
    } else {
        let before = taken(candidates, taken_for.drop_last());
        match taken_for.last() {
            Some(c) => before.push(candidates[c]),
            None => before,
        }
    }
}

/// A place of one stretch's division lies on the stretch.
proof fn places_lie_between(i: int, d: int, m: int)
    requires
        0 <= i <= m,
        m > 0,
    ensures
        d >= 0 ==> 0 <= i * d / m <= d,
        d <= 0 ==> d <= i * d / m <= 0,
{
    let q = i * d / m;
    let r = i * d % m;
    assert(i * d == m * q + r && 0 <= r < m) by {
        vstd::arithmetic::div_mod::lemma_fundamental_div_mod(i * d, m);
    }
    if d >= 0 {
        assert(0 <= i * d <= m * d) by (nonlinear_arith)
            requires
                0 <= i <= m,
                d >= 0,
        ;
        assert(q >= 0) by (nonlinear_arith)
            requires
                m * q + r >= 0,
                0 <= r < m,
        ;
        assert(q <= d) by (nonlinear_arith)
            requires
                m * q + r <= m * d,
                0 <= r < m,
        ;
    }
    if d <= 0 {
        assert(m * d <= i * d <= 0) by (nonlinear_arith)
            requires
                0 <= i <= m,
                d <= 0,
        ;
        assert(q <= 0) by (nonlinear_arith)
            requires
                m * q + r <= 0,
                0 <= r < m,
        ;
        assert(q >= d) by (nonlinear_arith)
            requires
                m * q + r >= m * d,
                0 <= r < m,
        ;
    }
}

/// A place whose parts are known.
struct KnownPlace {
    x: Integer,
    parts: Integer,
    y: i64,
}

impl KnownPlace {
    spec fn place(&self) -> Place {
        Place { x: self.x@, parts: self.parts@, y: self.y as int }
    }

    fn square_distance_of(&self, c: &Knob) -> (r: Integer)
        ensures
            r@ == square_distance(*c, self.place()),
    {
        let dx: Integer = Integer::new(c.x as i128).times(&self.parts).minus(&self.x);
        let dy: Integer = Integer::new(c.y as i128 - self.y as i128).times(&self.parts);
        dx.times(&dx).plus(&dy.times(&dy))
    }

    fn is_within(&self, c: &Knob, capture: i64) -> (r: bool)
        ensures
            r == ({
                let reach = capture * self.place().parts;
                square_distance(*c, self.place()) < reach * reach
            }),
    {
        let reach: Integer = Integer::new(capture as i128).times(&self.parts);
        self.square_distance_of(c).is_less(&reach.times(&reach))
    }

    fn does_fit_as_well(&self, a: &Knob, b: &Knob, capture: i64, median_radius: i64) -> (r: bool)
        ensures
            r == fits_as_well(*a, *b, self.place(), capture as int, median_radius as int),
    {
        let median: i128 = median_radius as i128;
        let unit: Integer = Integer::new(
            if median < 1_000_000 {
                1_000_000
            } else {
                median
            },
        );
        let square: Integer = unit.times(&unit);
        let reach: Integer = Integer::new(capture as i128).times(&self.parts);
        are_at_most(
            &square.times(&self.square_distance_of(a)),
            &reach.times(&Integer::new(abs_exec(a.radius as i128 - median))),
            &square.times(&self.square_distance_of(b)),
            &reach.times(&Integer::new(abs_exec(b.radius as i128 - median))),
        )
    }
}

fn radii_of(knobs: &Vec<Knob>) -> (r: Vec<i64>)
    ensures
        r@ == radii(knobs@),
{
    let mut r: Vec<i64> = Vec::with_capacity(knobs.len());
    let mut i: usize = 0;
    while i < knobs.len()
        invariant
            i <= knobs.len(),
            r.len() == i,
            forall|j: int| 0 <= j < i ==> #[trigger] r[j] == knobs[j].radius,
        decreases knobs.len() - i,
    {
        r.push(knobs[i].radius);
        i = i + 1;
    }
    assert(r@ =~= radii(knobs@));
    r
}

fn heights_of(knobs: &Vec<Knob>) -> (r: Vec<i64>)
    ensures
        r@ == heights(knobs@),
{
    let mut r: Vec<i64> = Vec::with_capacity(knobs.len());
    let mut i: usize = 0;
    while i < knobs.len()
        invariant
            i <= knobs.len(),
            r.len() == i,
            forall|j: int| 0 <= j < i ==> #[trigger] r[j] == knobs[j].y,
        decreases knobs.len() - i,
    {
        r.push(knobs[i].y);
        i = i + 1;
    }
    assert(r@ =~= heights(knobs@));
    r
}

/// The chosen candidate in the place: its center halfway to the expected one.
pub open spec fn settled(c: Option<Knob>, place_x: int, slot: int, y: int, radius: int) -> Knob {
    match c {
        Some(k) => Knob {
            x: ((place_x + k.x) / 2) as i64,
            y: y as i64,
            radius: radius as i64,
            slot: slot as usize,
            synthetic: false,
        },
        None => Knob {
            x: place_x as i64,
            y: y as i64,
            radius: radius as i64,
            slot: slot as usize,
            synthetic: true,
        },
    }
}

impl Detect {
    /// The radius of all knobs: the median of those that were taken.
    pub open spec fn common_radius(&self, candidates: Seq<Knob>) -> int {
        let found = self.real_knobs(candidates);
        if found.len() == 0 {
            self.typical_radius(candidates)
        } else {
            median(radii(found)) as int
        }
    }

    /// The height of all knobs: the median of those that were taken.
    pub open spec fn common_y(&self, candidates: Seq<Knob>) -> int {
        let found = self.real_knobs(candidates);
        if found.len() == 0 {
            self.prior_y as int
        } else {
            median(heights(found)) as int
        }
    }

    /// The candidates that were taken.
    pub open spec fn real_knobs(&self, candidates: Seq<Knob>) -> Seq<Knob> {
        taken(candidates, self.assignment(candidates, self.expected_count as int).taken_for)
    }

    /// The knobs that the stage finds among the candidates: one for each place, all of one
    /// radius and at one height.
    pub open spec fn detected(&self, candidates: Seq<Knob>) -> Seq<Knob> {
        let taken_for = self.assignment(candidates, self.expected_count as int).taken_for;
        Seq::new(
            self.expected_count as nat,
            |i: int|
                settled(
                    match taken_for[i] {
                        Some(c) => Some(candidates[c]),
                        None => None,
                    },
                    self.place_x(i),
                    i,
                    self.common_y(candidates),
                    self.common_radius(candidates),
                ),
        )
    }

    fn find_place(&self, i: usize) -> (r: KnownPlace)
        requires
            i < self.expected_count,
        ensures
            r.place() == self.place(i as int),
    {
        let parts: Integer = Integer::new(self.expected_count as i128 - 1);
        let d: Integer = Integer::new(self.prior_x_end as i128 - self.prior_x_start as i128);
        let x: Integer = Integer::new(self.prior_x_start as i128).times(&parts).plus(
            &Integer::new(i as i128).times(&d),
        );
        KnownPlace { x, parts, y: self.prior_y }
    }

    fn find_place_x(&self, i: usize) -> (r: i64)
        requires
            i < self.expected_count,
        ensures
            r == self.place_x(i as int),
    {
        if self.expected_count == 1 {
            return 0;
        }
        let d: i128 = self.prior_x_end as i128 - self.prior_x_start as i128;
        let m: i128 = self.expected_count as i128 - 1;
        proof {
            places_lie_between(i as int, d as int, m as int);
        }
        Integer::new(self.prior_x_start as i128).plus(
            &Integer::new(i as i128).times(&Integer::new(d)).over(&Integer::new(m)),
        ).to_i64()
    }

    fn find_best(
        &self,
        candidates: &Vec<Knob>,
        used: &Vec<bool>,
        place: &KnownPlace,
        median_radius: i64,
    ) -> (r: Option<usize>)
        requires
            used.len() == candidates.len(),
        ensures
            best_for_place(
                candidates@,
                used@,
                place.place(),
                self.slot_capture_radius as int,
                median_radius as int,
                candidates.len() as int,
            ) == (match r {
                Some(b) => Some(b as int),
                None => None,
            }),
            r matches Some(b) ==> b < candidates.len() && !used[b as int],
    {
        let capture: i64 = self.slot_capture_radius;
        let mut best: Option<usize> = None;
        let mut i: usize = 0;
        while i < candidates.len()
            invariant
                capture == self.slot_capture_radius,
                used.len() == candidates.len(),
                i <= candidates.len(),
                best_for_place(
                    candidates@,
                    used@,
                    place.place(),
                    capture as int,
                    median_radius as int,
                    i as int,
                ) == (match best {
                    Some(b) => Some(b as int),
                    None => None,
                }),
                best matches Some(b) ==> b < i && !used[b as int],
            decreases candidates.len() - i,
        {
            if !used[i] && capture > 0 && place.is_within(&candidates[i], capture) {
                assert(is_eligible(
                    candidates@,
                    used@,
                    place.place(),
                    capture as int,
                    i as int,
                ));
                let better: bool = match best {
                    None => true,
                    Some(b) => !place.does_fit_as_well(
                        &candidates[b],
                        &candidates[i],
                        capture,
                        median_radius,
                    ),
                };
                if better {
                    best = Some(i);
                }
            }
            i = i + 1;
        }
        best
    }

    /// What may be made of a contour, where `count` gives the number of its points, `measure` its
    /// length and `fit` its ellipse: nothing where its outline cannot be a knob's, and otherwise
    /// the candidate for its ellipse.
    pub open spec fn may_make<
        C,
        N: Fn(&C) -> usize,
        O: Fn(&C) -> Result<i64, StageError>,
        L: Fn(&C) -> Result<Ellipse, StageError>,
    >(
        &self,
        count: N,
        measure: O,
        fit: L,
        contour: C,
        height: int,
        made: Option<Knob>,
    ) -> bool {
        exists|points: usize|
            #![trigger call_ensures(count, (&contour,), points)]
            call_ensures(count, (&contour,), points) && if points < 5 {
                made is None
            } else {
                exists|perimeter: i64|
                    #![trigger call_ensures(measure, (&contour,), Ok(perimeter))]
                    call_ensures(measure, (&contour,), Ok(perimeter)) && if self.is_outline(
                        points as int,
                        perimeter as int,
                    ) {
                        exists|e: Ellipse|
                            #![trigger call_ensures(fit, (&contour,), Ok(e))]
                            call_ensures(fit, (&contour,), Ok(e)) && made == self.candidate_of(
                                e,
                                height,
                            )
                    } else {
                        made is None
                    }
            }
    }

    /// The candidates that may be made of some contours.
    pub open spec fn may_make_all<
        C,
        N: Fn(&C) -> usize,
        O: Fn(&C) -> Result<i64, StageError>,
        L: Fn(&C) -> Result<Ellipse, StageError>,
    >(
        &self,
        count: N,
        measure: O,
        fit: L,
        contours: Seq<C>,
        height: int,
        knobs: Seq<Knob>,
    ) -> bool {
        exists|made: Seq<Option<Knob>>|
            #![trigger kept(made)]
            made.len() == contours.len() && knobs == kept(made) && forall|i: int|
                0 <= i < made.len() ==> self.may_make(
                    count,
                    measure,
                    fit,
                    contours[i],
                    height,
                    #[trigger] made[i],
                )
    }

    /// A contour may have this error: that of its length, where it has five points at least, or
    /// that of its ellipse, where its outline can be a knob's.
    pub open spec fn may_fail_at<
        C,
        N: Fn(&C) -> usize,
        O: Fn(&C) -> Result<i64, StageError>,
        L: Fn(&C) -> Result<Ellipse, StageError>,
    >(&self, count: N, measure: O, fit: L, contour: C, error: StageError) -> bool {
        exists|points: usize|
            #![trigger call_ensures(count, (&contour,), points)]
            call_ensures(count, (&contour,), points) && points >= 5 && (call_ensures(
                measure,
                (&contour,),
                Err(error),
            ) || exists|perimeter: i64|
                #![trigger call_ensures(measure, (&contour,), Ok(perimeter))]
                call_ensures(measure, (&contour,), Ok(perimeter)) && self.is_outline(
                    points as int,
                    perimeter as int,
                ) && call_ensures(fit, (&contour,), Err(error)))
    }

    /// One of the contours may have this error, and something be made of those before it.
    pub open spec fn may_fail<
        C,
        N: Fn(&C) -> usize,
        O: Fn(&C) -> Result<i64, StageError>,
        L: Fn(&C) -> Result<Ellipse, StageError>,
    >(
        &self,
        count: N,
        measure: O,
        fit: L,
        contours: Seq<C>,
        height: int,
        error: StageError,
    ) -> bool {
        exists|i: int, before: Seq<Knob>|
            #![trigger self.may_make_all(count, measure, fit, contours.take(i), height, before)]
            0 <= i < contours.len() && self.may_make_all(
                count,
                measure,
                fit,
                contours.take(i),
                height,
                before,
            ) && self.may_fail_at(count, measure, fit, contours[i], error)
    }

    fn make<
        C,
        N: Fn(&C) -> usize,
        O: Fn(&C) -> Result<i64, StageError>,
        L: Fn(&C) -> Result<Ellipse, StageError>,
    >(&self, contour: &C, image_height: u32, count: &N, measure: &O, fit: &L) -> (r: Result<
        Option<Knob>,
        StageError,
    >)
        requires
            forall|contour: &C| #[trigger] call_requires(*count, (contour,)),
            forall|contour: &C| #[trigger] call_requires(*measure, (contour,)),
            forall|contour: &C| #[trigger] call_requires(*fit, (contour,)),
        ensures
            match r {
                Ok(made) => self.may_make(
                    *count,
                    *measure,
                    *fit,
                    *contour,
                    image_height as int,
                    made,
                ),
                Err(e) => self.may_fail_at(*count, *measure, *fit, *contour, e),
            },
    {
        let points: usize = count(contour);
        assert(call_ensures(*count, (contour,), points));
        if points < 5 {
            return Ok(None);
        }
        let perimeter: i64 = match measure(contour) {
            Ok(perimeter) => perimeter,
            Err(e) => return Err(e),
        };
        assert(call_ensures(*measure, (contour,), Ok(perimeter)));
        if !self.outline_fits(points, perimeter) {
            return Ok(None);
        }
        let e: Ellipse = match fit(contour) {
            Ok(e) => e,
            Err(e) => return Err(e),
        };
        assert(call_ensures(*fit, (contour,), Ok(e)));
        Ok(self.candidate(&e, image_height))
    }

    /// The candidates among some contours in an image of the given height. `count` gives the
    /// number of a contour's points, `measure` its length and `fit` its ellipse. The length of a
    /// contour of fewer than five points is not asked for, and neither is the ellipse where the
    /// outline cannot be a knob's.
    pub fn candidates<
        C,
        N: Fn(&C) -> usize,
        O: Fn(&C) -> Result<i64, StageError>,
        L: Fn(&C) -> Result<Ellipse, StageError>,
    >(
        &self,
        contours: &Vec<C>,
        image_height: u32,
        count: &N,
        measure: &O,
        fit: &L,
    ) -> (r: Result<Vec<Knob>, StageError>)
        requires
            forall|contour: &C| #[trigger] call_requires(*count, (contour,)),
            forall|contour: &C| #[trigger] call_requires(*measure, (contour,)),
            forall|contour: &C| #[trigger] call_requires(*fit, (contour,)),
        ensures
            match r {
                Ok(knobs) => self.may_make_all(
                    *count,
                    *measure,
                    *fit,
                    contours@,
                    image_height as int,
                    knobs@,
                ),
                Err(e) => self.may_fail(
                    *count,
                    *measure,
                    *fit,
                    contours@,
                    image_height as int,
                    e,
                ),
            },
    {
        let mut knobs: Vec<Knob> = Vec::new();
        let ghost mut made: Seq<Option<Knob>> = Seq::empty();
        let mut i: usize = 0;
        while i < contours.len()
            invariant
                i <= contours.len(),
                forall|contour: &C| #[trigger] call_requires(*count, (contour,)),
                forall|contour: &C| #[trigger] call_requires(*measure, (contour,)),
                forall|contour: &C| #[trigger] call_requires(*fit, (contour,)),
                made.len() == i,
                knobs@ == kept(made),
                forall|j: int|
                    0 <= j < i ==> self.may_make(
                        *count,
                        *measure,
                        *fit,
                        contours[j],
                        image_height as int,
                        #[trigger] made[j],
                    ),
            decreases contours.len() - i,
        {
            let next: Option<Knob> = match self.make(
                &contours[i],
                image_height,
                count,
                measure,
                fit,
            ) {
                Ok(next) => next,
                Err(e) => {
                    assert(self.may_make_all(
                        *count,
                        *measure,
                        *fit,
                        contours@.take(i as int),
                        image_height as int,
                        kept(made),
                    ));
                    return Err(e);
                },
            };
            proof {
                assert(made.push(next).drop_last() =~= made);
                made = made.push(next);
            }
            if let Some(knob) = next {
                knobs.push(knob);
            }
            i = i + 1;
        }
        Ok(knobs)
    }

    /// Finds the knobs in a frame. `trace` gives the edges in an image, and `find` the contours
    /// among them with the height of the image; `count` gives the number of a contour's points,
    /// `measure` its length and `fit` its ellipse. Without edges the frame is left as it was; the edges are
    /// kept even if the contours fail, and a success changes the edges and the knobs alone.
    pub fn process<
        M,
        C,
        T: Fn(&M) -> Result<M, StageError>,
        F: Fn(&M) -> Result<(Vec<C>, u32), StageError>,
        N: Fn(&C) -> usize,
        O: Fn(&C) -> Result<i64, StageError>,
        L: Fn(&C) -> Result<Ellipse, StageError>,
    >(
        &self,
        state: &mut FrameState<M>,
        trace: &T,
        find: &F,
        count: &N,
        measure: &O,
        fit: &L,
    ) -> (r: Result<(), StageError>)
        requires
            forall|image: &M| #[trigger] call_requires(*trace, (image,)),
            forall|edges: &M| #[trigger] call_requires(*find, (edges,)),
            forall|contour: &C| #[trigger] call_requires(*count, (contour,)),
            forall|contour: &C| #[trigger] call_requires(*measure, (contour,)),
            forall|contour: &C| #[trigger] call_requires(*fit, (contour,)),
        ensures
            ({
                let before = *old(state);
                let after = *final(state);
                match before.enhanced {
                    None => {
                        &&& r matches Err(err) && err.stage@ == "detect"@ && err.message@
                            == "no enhanced frame"@
                        &&& after == before
                    },
                    Some(image) => match r {
                        Ok(_) => {
                            &&& after.debug_edges matches Some(edges) && call_ensures(
                                *trace,
                                (&image,),
                                Ok(edges),
                            ) && self.may_find(*find, *count, *measure, *fit, edges, after.knobs@)
                            &&& after == (FrameState {
                                debug_edges: after.debug_edges,
                                knobs: after.knobs,
                                ..before
                            })
                        },
                        Err(e) => {
                            ||| call_ensures(*trace, (&image,), Err(e)) && after == before
                            ||| (after.debug_edges matches Some(edges) && call_ensures(
                                *trace,
                                (&image,),
                                Ok(edges),
                            ) && self.may_lose(*find, *count, *measure, *fit, edges, e) && after == (
                            FrameState { debug_edges: after.debug_edges, ..before }))
                        },
                    },
                }
            }),
    {
        let edges: M = match &state.enhanced {
            None => return Err(no_enhanced_frame()),
            Some(image) => match trace(image) {
                Ok(edges) => edges,
                Err(e) => return Err(e),
            },
        };
        let found: Result<(Vec<C>, u32), StageError> = find(&edges);
        state.debug_edges = Some(edges);
        let (contours, height): (Vec<C>, u32) = match found {
            Ok(found) => found,
            Err(e) => return Err(e),
        };
        match self.candidates(&contours, height, count, measure, fit) {
            Ok(candidates) => {
                state.knobs = self.assign(&candidates);
                assert(self.may_make_all(
                    *count,
                    *measure,
                    *fit,
                    contours@,
                    height as int,
                    candidates@,
                ));
                assert(self.may_find(*find, *count, *measure, *fit, edges, state.knobs@));
                Ok(())
            },
            Err(e) => {
                assert(self.may_lose(*find, *count, *measure, *fit, edges, e));
                Err(e)
            },
        }
    }

    /// The knobs may be found so among the edges.
    pub open spec fn may_find<
        M,
        C,
        F: Fn(&M) -> Result<(Vec<C>, u32), StageError>,
        N: Fn(&C) -> usize,
        O: Fn(&C) -> Result<i64, StageError>,
        L: Fn(&C) -> Result<Ellipse, StageError>,
    >(&self, find: F, count: N, measure: O, fit: L, edges: M, knobs: Seq<Knob>) -> bool {
        exists|contours: Vec<C>, height: u32, candidates: Seq<Knob>|
            #![trigger self.may_make_all(count, measure, fit, contours@, height as int, candidates)]
            call_ensures(find, (&edges,), Ok((contours, height))) && self.may_make_all(
                count,
                measure,
                fit,
                contours@,
                height as int,
                candidates,
            ) && knobs == self.detected(candidates)
    }

    /// Looking for knobs among the edges may fail so.
    pub open spec fn may_lose<
        M,
        C,
        F: Fn(&M) -> Result<(Vec<C>, u32), StageError>,
        N: Fn(&C) -> usize,
        O: Fn(&C) -> Result<i64, StageError>,
        L: Fn(&C) -> Result<Ellipse, StageError>,
    >(&self, find: F, count: N, measure: O, fit: L, edges: M, error: StageError) -> bool {
        ||| call_ensures(find, (&edges,), Err(error))
        ||| exists|contours: Vec<C>, height: u32|
            #![trigger call_ensures(find, (&edges,), Ok((contours, height)))]
            call_ensures(find, (&edges,), Ok((contours, height))) && self.may_fail(
                count,
                measure,
                fit,
                contours@,
                height as int,
                error,
            )
    }

    /// Assigns the candidates to the places where knobs are expected, and puts a knob where
    /// there is none. Knobs are all alike and stand on one rail, so all of them get the radius
    /// and the height in the middle of those that were found.
    pub fn assign(&self, candidates: &Vec<Knob>) -> (r: Vec<Knob>)
        ensures
            r@ == self.detected(candidates@),
    {
        let n: usize = self.expected_count;
        let median_radius: i64 = if candidates.len() == 0 {
            (self.min_radius as i64 + self.max_radius as i64) * 500_000
        } else {
            find_median(&radii_of(candidates))
        };
        let mut used: Vec<bool> = Vec::new();
        let mut k: usize = 0;
        while k < candidates.len()
            invariant
                k <= candidates.len(),
                used.len() == k,
                forall|i: int| 0 <= i < k ==> !(#[trigger] used[i]),
            decreases candidates.len() - k,
        {
            used.push(false);
            k = k + 1;
        }
        let mut assigned: Vec<Option<usize>> = Vec::new();
        let mut found: Vec<Knob> = Vec::new();
        let mut i: usize = 0;
        assert(used@ =~= self.assignment(candidates@, 0).used);
        while i < n
            invariant
                n == self.expected_count,
                median_radius == self.typical_radius(candidates@),
                i <= n,
                assigned.len() == i,
                used.len() == candidates.len(),
                used@ == self.assignment(candidates@, i as int).used,
                self.assignment(candidates@, i as int).taken_for.len() == i,
                forall|j: int|
                    0 <= j < i ==> self.assignment(candidates@, i as int).taken_for[j] == (
                    match #[trigger] assigned[j] {
                        Some(c) => Some(c as int),
                        None => None,
                    }),
                forall|j: int|
                    0 <= j < i ==> (#[trigger] assigned[j] matches Some(c) ==> c < candidates.len()),
                found@ == taken(candidates@, self.assignment(candidates@, i as int).taken_for),
            decreases n - i,
        {
            let best: Option<usize> = self.find_best(
                candidates,
                &used,
                &self.find_place(i),
                median_radius,
            );
            let ghost now = self.assignment(candidates@, i as int);
            let ghost next = self.assignment(candidates@, i as int + 1);
            assert(next.taken_for.drop_last() =~= now.taken_for);
            if let Some(c) = best {
                used.set(c, true);
                found.push(candidates[c]);
            }
            assigned.push(best);
            i = i + 1;
        }
        let radius: i64 = if found.len() == 0 {
            median_radius
        } else {
            find_median(&radii_of(&found))
        };
        let y: i64 = if found.len() == 0 {
            self.prior_y
        } else {
            find_median(&heights_of(&found))
        };
        let mut knobs: Vec<Knob> = Vec::new();
        let mut j: usize = 0;
        let ghost taken_for = self.assignment(candidates@, n as int).taken_for;
        while j < n
            invariant
                n == self.expected_count,
                j <= n,
                assigned.len() == n,
                knobs.len() == j,
                radius == self.common_radius(candidates@),
                y == self.common_y(candidates@),
                taken_for == self.assignment(candidates@, n as int).taken_for,
                taken_for.len() == n,
                forall|j: int|
                    0 <= j < n ==> taken_for[j] == (match #[trigger] assigned[j] {
                        Some(c) => Some(c as int),
                        None => None,
                    }),
                forall|j: int|
                    0 <= j < n ==> (#[trigger] assigned[j] matches Some(c) ==> c < candidates.len()),
                forall|i: int| 0 <= i < j ==> #[trigger] knobs[i] == self.detected(candidates@)[i],
            decreases n - j,
        {
            let place: i64 = self.find_place_x(j);
            let knob: Knob = match assigned[j] {
                Some(c) => {
                    Knob {
                        x: floor_div(place as i128 + candidates[c].x as i128, 2) as i64,
                        y,
                        radius,
                        slot: j,
                        synthetic: false,
                    }
                },
                None => Knob { x: place, y, radius, slot: j, synthetic: true },
            };
            knobs.push(knob);
            j = j + 1;
        }
        assert(knobs@ =~= self.detected(candidates@));
        knobs
    }
}

/// The candidate taken for a place is one that can be taken, and none that can be taken fits
/// better; where none is taken, none can be.
pub proof fn the_best_candidate_is_taken(
    candidates: Seq<Knob>,
    used: Seq<bool>,
    place: Place,
    capture: int,
    median_radius: int,
    upto: int,
)
    ensures
        match best_for_place(candidates, used, place, capture, median_radius, upto) {
            Some(b) => {
                &&& 0 <= b < upto
                &&& is_eligible(candidates, used, place, capture, b)
                &&& forall|i: int|
                    0 <= i < upto && #[trigger] is_eligible(candidates, used, place, capture, i)
                        ==> fits_as_well(
                        candidates[b],
                        candidates[i],
                        place,
                        capture,
                        median_radius,
                    )
            },
            None => forall|i: int|
                0 <= i < upto ==> !(#[trigger] is_eligible(candidates, used, place, capture, i)),
        },
    decreases upto,
{
    if upto > 0 {
        the_best_candidate_is_taken(candidates, used, place, capture, median_radius, upto - 1);
        let unit = max(median_radius, 1_000_000);
        let last = candidates[upto - 1];
        let c = unit * unit * square_distance(last, place);
        let r = capture * place.parts * abs(last.radius - median_radius);
        scaled_distances_are_not_negative(last, place, unit);
        sums_are_comparable(c, r, c, r);
        if let Some(b) = best_for_place(
            candidates,
            used,
            place,
            capture,
            median_radius,
            upto - 1,
        ) {
            let had = candidates[b];
            let a = unit * unit * square_distance(had, place);
            let p = capture * place.parts * abs(had.radius - median_radius);
            scaled_distances_are_not_negative(had, place, unit);
            sums_are_comparable(a, p, c, r);
            if !fits_as_well(had, last, place, capture, median_radius) {
                assert forall|i: int|
                    0 <= i < upto - 1 && #[trigger] is_eligible(
                        candidates,
                        used,
                        place,
                        capture,
                        i,
                    ) implies fits_as_well(
                    last,
                    candidates[i],
                    place,
                    capture,
                    median_radius,
                ) by {
                    scaled_distances_are_not_negative(candidates[i], place, unit);
                    sums_are_ordered(
                        c,
                        r,
                        a,
                        p,
                        unit * unit * square_distance(candidates[i], place),
                        capture * place.parts * abs(candidates[i].radius - median_radius),
                    );
                }
            }
        }
    }
}

impl Detect {
    /// Where a single knob is expected its place lies nowhere, so no candidate is taken for it.
    pub proof fn a_single_place_stays_empty(&self, candidates: Seq<Knob>)
        requires
            self.expected_count == 1,
        ensures
            self.detected(candidates).len() == 1,
            self.detected(candidates)[0].synthetic,
            self.detected(candidates)[0].x == 0,
    {
        let place = self.place(0);
        assert(place.parts == 0 && place.x == 0) by (nonlinear_arith)
            requires
                place == self.place(0),
                self.expected_count == 1,
        ;
        let used = self.assignment(candidates, 0).used;
        let capture = self.slot_capture_radius as int;
        let radius = self.typical_radius(candidates);
        let n = candidates.len() as int;
        the_best_candidate_is_taken(candidates, used, place, capture, radius, n);
        assert forall|i: int| 0 <= i < n implies !(#[trigger] is_eligible(
            candidates,
            used,
            place,
            capture,
            i,
        )) by {
            let c = candidates[i];
            assert(c.x * place.parts == 0 && (c.y - place.y) * place.parts == 0 && capture
                * place.parts == 0) by (nonlinear_arith)
                requires
                    place.parts == 0,
            ;
        }
        assert(best_for_place(candidates, used, place, capture, radius, n) is None);
        assert(self.assignment(candidates, 1).taken_for[0] is None);
    }

    /// No candidate is taken for two places.
    pub proof fn candidates_are_taken_once(&self, candidates: Seq<Knob>, upto: int, i: int, j: int)
        requires
            0 <= i < j < upto,
        ensures
            self.assignment(candidates, upto).taken_for[i] matches Some(c) ==> self.assignment(
                candidates,
                upto,
            ).taken_for[j] != Some(c),
    {
        self.taken_candidates_are_used(candidates, upto);
        self.assignments_only_grow(candidates, j, upto);
        self.assignments_only_grow(candidates, j + 1, upto);
        self.taken_candidates_are_used(candidates, j);
        let before = self.assignment(candidates, j);
        the_best_candidate_is_taken(
            candidates,
            before.used,
            self.place(j),
            self.slot_capture_radius as int,
            self.typical_radius(candidates),
            candidates.len() as int,
        );
        assert(before.taken_for[i] == self.assignment(candidates, upto).taken_for[i]);
        assert(self.assignment(candidates, j + 1).taken_for[j] == self.assignment(
            candidates,
            upto,
        ).taken_for[j]);
    }

    proof fn taken_candidates_are_used(&self, candidates: Seq<Knob>, upto: int)
        requires
            upto >= 0,
        ensures
            self.assignment(candidates, upto).taken_for.len() == upto,
            self.assignment(candidates, upto).used.len() == candidates.len(),
            forall|i: int|
                0 <= i < upto ==> (#[trigger] self.assignment(candidates, upto).taken_for[i] matches Some(
                    c,
                ) ==> 0 <= c < candidates.len() && self.assignment(candidates, upto).used[c]),
        decreases upto,
    {
        if upto > 0 {
            self.taken_candidates_are_used(candidates, upto - 1);
            let before = self.assignment(candidates, upto - 1);
            the_best_candidate_is_taken(
                candidates,
                before.used,
                self.place(upto - 1),
                self.slot_capture_radius as int,
                self.typical_radius(candidates),
                candidates.len() as int,
            );
            let now = self.assignment(candidates, upto);
            assert forall|i: int| 0 <= i < upto implies (#[trigger] now.taken_for[i] matches Some(c)
                ==> 0 <= c < candidates.len() && now.used[c]) by {
                if i < upto - 1 {
                    assert(now.taken_for[i] == before.taken_for[i]);
                }
            }
        }
    }

    proof fn assignments_only_grow(&self, candidates: Seq<Knob>, a: int, b: int)
        requires
            0 <= a <= b,
        ensures
            forall|i: int|
                0 <= i < a ==> #[trigger] self.assignment(candidates, a).taken_for[i]
                    == self.assignment(candidates, b).taken_for[i],
        decreases b,
    {
        self.taken_candidates_are_used(candidates, a);
        if a < b {
            self.assignments_only_grow(candidates, a, b - 1);
            self.taken_candidates_are_used(candidates, b - 1);
        }
    }
}

/// An outline can be a knob's exactly if it has five points and its length lies between half the
/// circumference of the smallest knob and two and a half times that of the largest.
pub proof fn outlines_are_as_long_as_knobs_are_round(d: Detect, points: int, perimeter: int)
    ensures
        ({
            let least = 6_283_185_307_179_586 * d.min_radius;
            let most = 6_283_185_307_179_586 * d.max_radius;
            d.is_outline(points, perimeter) <==> points > 4 && 2 * (perimeter * 1_000_000_000) >= least
                && 2 * (perimeter * 1_000_000_000) <= 5 * most
        }),
{
    assert(5 * 3_141_592_653_589_793 * d.max_radius == 15_707_963_267_948_965 * d.max_radius)
        by (nonlinear_arith);
}

/// An ellipse is taken for a knob exactly if its mean radius is at least six tenths of the smallest
/// and at most one and a half times the largest, its center lies in the band of heights, and its
/// longer side is at most two and a half times the shorter one. The knob has its center and its
/// mean radius.
pub proof fn knobs_are_made_of_round_ellipses_in_the_band(d: Detect, e: Ellipse, image_height: int)
    ensures
        ({
            let four_radii = e.width + e.height;
            let fits = {
                &&& 5 * four_radii >= 4 * (3_000_000 * d.min_radius)
                &&& four_radii <= 6_000_000 * d.max_radius
                &&& d.y_band_top * image_height <= e.center_y <= d.y_band_bottom * image_height
                &&& e.width > 0 && e.height > 0 ==> 2 * e.width <= 5 * e.height && 2 * e.height <= 5
                    * e.width
            };
            match d.candidate_of(e, image_height) {
                Some(k) => fits && k.x == e.center_x && k.y == e.center_y && 4 * k.radius
                    <= four_radii < 4 * k.radius + 4 && !k.synthetic,
                None => !fits,
            }
        }),
{
}

/// The distance of a candidate from a place that lies at whole units is the usual one, and it can
/// be taken for the place exactly if it is free and lies nearer than the capture radius.
pub proof fn candidates_are_caught_within_the_radius(
    candidates: Seq<Knob>,
    used: Seq<bool>,
    x: int,
    y: int,
    parts: int,
    capture: int,
    i: int,
)
    requires
        0 <= i < candidates.len(),
        used.len() == candidates.len(),
        parts > 0,
        capture > 0,
    ensures
        ({
            let place = Place { x: x * parts, parts, y };
            let (dx, dy) = (candidates[i].x - x, candidates[i].y - y);
            &&& square_distance(candidates[i], place) == (parts * parts) * (dx * dx + dy * dy)
            &&& is_eligible(candidates, used, place, capture, i) <==> !used[i] && dx * dx + dy * dy
                < capture * capture
        }),
{
    let c = candidates[i];
    let (dx, dy) = (c.x - x, c.y - y);
    let m = parts * parts;
    let (a, b) = (dx * dx + dy * dy, capture * capture);
    let u = c.x * parts - x * parts;
    let v = dy * parts;
    assert(u == dx * parts) by (nonlinear_arith)
        requires
            u == c.x * parts - x * parts,
            dx == c.x - x,
    ;
    assert(u * u + v * v == m * a) by (nonlinear_arith)
        requires
            u == dx * parts,
            v == dy * parts,
            m == parts * parts,
            a == dx * dx + dy * dy,
    ;
    assert(m > 0) by (nonlinear_arith)
        requires
            m == parts * parts,
            parts > 0,
    ;
    let reach = capture * parts;
    assert(reach * reach == m * b) by (nonlinear_arith)
        requires
            reach == capture * parts,
            m == parts * parts,
            b == capture * capture,
    ;
    assert(m * a < m * b <==> a < b) by (nonlinear_arith)
        requires
            m > 0,
    ;
}

/// Where the distances of two candidates from a place are whole, `far_a` and `far_b` in the parts
/// of the place, they are weighed against each other by the distance in capture radii and the
/// difference from the median radius in median radii, together.
pub proof fn distance_and_size_are_weighed(
    a: Knob,
    b: Knob,
    place: Place,
    capture: int,
    median_radius: int,
    far_a: int,
    far_b: int,
)
    requires
        far_a >= 0,
        far_b >= 0,
        square_distance(a, place) == far_a * far_a,
        square_distance(b, place) == far_b * far_b,
        capture > 0,
        place.parts > 0,
        median_radius >= 1_000_000,
    ensures
        fits_as_well(a, b, place, capture, median_radius) <==> median_radius * far_a + capture
            * place.parts * abs(a.radius - median_radius) <= median_radius * far_b + capture
            * place.parts * abs(b.radius - median_radius),
{
    let m = median_radius;
    let (x, y) = (m * far_a, m * far_b);
    let p = capture * place.parts * abs(a.radius - m);
    let q = capture * place.parts * abs(b.radius - m);
    assert(m * m * (far_a * far_a) == x * x && m * m * (far_b * far_b) == y * y) by (nonlinear_arith)
        requires
            x == m * far_a,
            y == m * far_b,
    ;
    assert(x >= 0 && y >= 0) by (nonlinear_arith)
        requires
            x == m * far_a,
            y == m * far_b,
            m > 0,
            far_a >= 0,
            far_b >= 0,
    ;
    let k = q - p;
    let l = -k;
    assert(k * k == l * l) by (nonlinear_arith)
        requires
            l == -k,
    ;
    if k >= 0 {
        crate::surd::squares_compare_by_their_roots(x, y, k);
    } else {
        crate::surd::squares_compare_by_their_roots(y, x, l);
    }
}

impl Detect {
    /// The first place lies at the start, the last one at the end, and the others divide the
    /// stretch between them evenly, up to what is lost by rounding down.
    pub proof fn places_divide_the_stretch(&self, i: int)
        requires
            self.expected_count > 1,
            0 <= i < self.expected_count,
        ensures
            self.place_x(0) == self.prior_x_start,
            self.place_x(self.expected_count - 1) == self.prior_x_end,
            ({
                let m = self.expected_count - 1;
                let exact = self.prior_x_start * (m - i) + self.prior_x_end * i;
                &&& m * self.place_x(i) <= exact < m * self.place_x(i) + m
                &&& self.place(i) == (Place { x: exact, parts: m, y: self.prior_y as int })
            }),
    {
        let m = self.expected_count - 1;
        let d = self.prior_x_end - self.prior_x_start;
        let s = self.prior_x_start as int;
        assert(0 * d == 0) by (nonlinear_arith);
        vstd::arithmetic::div_mod::lemma_div_multiples_vanish(d, m);
        vstd::arithmetic::div_mod::lemma_fundamental_div_mod(i * d, m);
        vstd::arithmetic::div_mod::lemma_mod_bound(i * d, m);
        let q = i * d / m;
        assert(m * (s + q) == m * s + m * q) by (nonlinear_arith);
        assert(s * (m - i) + self.prior_x_end * i == s * m + i * d) by (nonlinear_arith)
            requires
                d == self.prior_x_end - s,
        ;
        assert(m * s == s * m) by (nonlinear_arith);
    }

    /// The candidates that were taken, in the order of the places that they were taken for.
    pub open spec fn found(&self, candidates: Seq<Knob>) -> Seq<Knob> {
        self.assignment(candidates, self.expected_count as int).taken_for.filter(
            |c: Option<int>| c is Some,
        ).map_values(|c: Option<int>| candidates[c->0])
    }

    proof fn real_knobs_are_those_found(&self, candidates: Seq<Knob>)
        ensures
            self.real_knobs(candidates) == self.found(candidates),
    {
        taken_candidates_are_listed(
            candidates,
            self.assignment(candidates, self.expected_count as int).taken_for,
        );
    }

    /// All knobs stand at one height and have one radius. Where a candidate was taken for a place
    /// the height is that of one of those taken, at most half of them lie higher in the image and
    /// fewer than half lower, and the radius likewise; candidates that were not taken count for
    /// nothing. Where none was taken the height is the expected one.
    pub proof fn knobs_stand_as_those_that_were_found(&self, candidates: Seq<Knob>)
        requires
            candidates.len() <= usize::MAX,
        ensures
            ({
                let knobs = self.detected(candidates);
                let found = self.found(candidates);
                let ys = found.map_values(|k: Knob| k.y);
                let rs = found.map_values(|k: Knob| k.radius);
                &&& knobs.len() == self.expected_count
                &&& forall|i: int, j: int|
                    0 <= i < knobs.len() && 0 <= j < knobs.len() ==> (#[trigger] knobs[i]).y == (
                    #[trigger] knobs[j]).y && knobs[i].radius == knobs[j].radius
                &&& found.len() == 0 && knobs.len() > 0 ==> knobs[0].y == self.prior_y
                &&& found.len() > 0 ==> {
                    let (y, r) = (knobs[0].y, knobs[0].radius);
                    &&& knobs.len() > 0
                    &&& ys.contains(y)
                    &&& 2 * places_below(ys, y as int).len() <= found.len()
                    &&& 2 * places_above(ys, y as int).len() < found.len()
                    &&& rs.contains(r)
                    &&& 2 * places_below(rs, r as int).len() <= found.len()
                    &&& 2 * places_above(rs, r as int).len() < found.len()
                }
            }),
    {
        self.real_knobs_are_those_found(candidates);
        let found = self.found(candidates);
        let all = self.assignment(candidates, self.expected_count as int).taken_for;
        self.taken_candidates_are_used(candidates, self.expected_count as int);
        taken_candidates_are_few(candidates, all);
        let ys = found.map_values(|k: Knob| k.y);
        let rs = found.map_values(|k: Knob| k.radius);
        assert(ys =~= heights(found));
        assert(rs =~= radii(found));
        if found.len() > 0 {
            medians_lie_in_the_middle(ys);
            medians_lie_in_the_middle(rs);
        }
    }

    /// A candidate more that is taken for no place, and that changes nothing in what is taken for
    /// the places, changes no knob, as long as one was found.
    pub proof fn candidates_that_are_not_taken_do_not_count(&self, candidates: Seq<Knob>, more: Knob)
        requires
            self.assignment(candidates.push(more), self.expected_count as int).taken_for
                == self.assignment(candidates, self.expected_count as int).taken_for,
            self.found(candidates).len() > 0,
        ensures
            self.detected(candidates.push(more)) == self.detected(candidates),
    {
        let n = self.expected_count as int;
        let longer = candidates.push(more);
        let all = self.assignment(candidates, n).taken_for;
        self.taken_candidates_are_used(candidates, n);
        self.real_knobs_are_those_found(candidates);
        self.real_knobs_are_those_found(longer);
        assert forall|i: int| 0 <= i < all.len() implies (#[trigger] all[i] matches Some(c) ==> longer[c]
            == candidates[c]) by {
            assert(self.assignment(candidates, n).taken_for[i] == all[i]);
        }
        same_candidates_are_taken(candidates, longer, all);
        assert(self.detected(longer) =~= self.detected(candidates));
    }

    /// Where no candidate was taken the radius is the median of all candidates, or lies halfway
    /// between the smallest and the largest one where there are none.
    pub proof fn the_radius_is_expected_where_none_is_found(&self, candidates: Seq<Knob>, i: int)
        requires
            candidates.len() <= usize::MAX,
            self.found(candidates).len() == 0,
            0 <= i < self.expected_count,
        ensures
            ({
                let r = self.detected(candidates)[i].radius;
                let rs = candidates.map_values(|k: Knob| k.radius);
                &&& self.detected(candidates)[i].synthetic
                &&& candidates.len() == 0 ==> 2 * r == (self.min_radius + self.max_radius) * 1_000_000
                &&& candidates.len() > 0 ==> rs.contains(r) && 2 * places_below(rs, r as int).len()
                    <= candidates.len() && 2 * places_above(rs, r as int).len() < candidates.len()
            }),
    {
        self.real_knobs_are_those_found(candidates);
        let all = self.assignment(candidates, self.expected_count as int).taken_for;
        self.taken_candidates_are_used(candidates, self.expected_count as int);
        if all[i] is Some {
            taken_candidates_count(candidates, all, i);
        }
        let rs = candidates.map_values(|k: Knob| k.radius);
        assert(rs =~= radii(candidates));
        if candidates.len() > 0 {
            medians_lie_in_the_middle(rs);
        }
    }

    /// A knob that was found stands halfway between its expected place and the candidate that was
    /// taken for it, rounded down; one that was not stands at its expected place. The knobs come
    /// in the order of the places.
    pub proof fn knobs_stand_halfway_to_their_places(&self, candidates: Seq<Knob>, i: int)
        requires
            self.expected_count > 1,
            0 <= i < self.expected_count,
        ensures
            ({
                let k = self.detected(candidates)[i];
                let c = self.assignment(candidates, self.expected_count as int).taken_for[i];
                &&& k.slot == i
                &&& k.synthetic <==> c is None
                &&& c is None ==> k.x == self.place_x(i)
                &&& c matches Some(c) ==> 2 * k.x <= self.place_x(i) + candidates[c].x < 2 * k.x + 2
            }),
    {
        let (d, m) = (self.prior_x_end - self.prior_x_start, self.expected_count - 1);
        places_lie_between(i, d, m);
    }

    /// A candidate counts as used exactly if it was taken for one of the places before.
    pub proof fn used_candidates_were_taken(&self, candidates: Seq<Knob>, upto: int, c: int)
        requires
            upto >= 0,
            0 <= c < candidates.len(),
        ensures
            self.assignment(candidates, upto).used[c] <==> exists|i: int|
                0 <= i < upto && #[trigger] self.assignment(candidates, upto).taken_for[i] == Some(c),
        decreases upto,
    {
        if upto > 0 {
            self.used_candidates_were_taken(candidates, upto - 1, c);
            self.taken_candidates_are_used(candidates, upto);
            self.taken_candidates_are_used(candidates, upto - 1);
            let before = self.assignment(candidates, upto - 1);
            let now = self.assignment(candidates, upto);
            the_best_candidate_is_taken(
                candidates,
                before.used,
                self.place(upto - 1),
                self.slot_capture_radius as int,
                self.typical_radius(candidates),
                candidates.len() as int,
            );
            if before.used[c] {
                let i = choose|i: int| 0 <= i < upto - 1 && #[trigger] before.taken_for[i] == Some(c);
                assert(now.taken_for[i] == Some(c));
            }
            if now.used[c] && !before.used[c] {
                assert(now.taken_for[upto - 1] == Some(c));
            }
        }
    }
}

proof fn taken_candidates_are_listed(candidates: Seq<Knob>, all: Seq<Option<int>>)
    ensures
        taken(candidates, all) == all.filter(|c: Option<int>| c is Some).map_values(
            |c: Option<int>| candidates[c->0],
        ),
    decreases all.len(),
{
    reveal(Seq::filter);
    let f = |c: Option<int>| c is Some;
    let g = |c: Option<int>| candidates[c->0];
    if all.len() > 0 {
        let rest = all.drop_last();
        taken_candidates_are_listed(candidates, rest);
        if all.last() is Some {
            assert(all.filter(f) =~= rest.filter(f).push(all.last()));
            assert(all.filter(f).map_values(g) =~= rest.filter(f).map_values(g).push(
                g(all.last()),
            ));
        }
    } else {
        assert(all.filter(f).map_values(g) =~= Seq::<Knob>::empty());
    }
}

proof fn taken_candidates_are_few(candidates: Seq<Knob>, all: Seq<Option<int>>)
    ensures
        taken(candidates, all).len() <= all.len(),
    decreases all.len(),
{
    if all.len() > 0 {
        taken_candidates_are_few(candidates, all.drop_last());
    }
}

proof fn taken_candidates_count(candidates: Seq<Knob>, all: Seq<Option<int>>, i: int)
    requires
        0 <= i < all.len(),
        all[i] is Some,
    ensures
        taken(candidates, all).len() > 0,
    decreases all.len(),
{
    if i < all.len() - 1 {
        assert(all.drop_last()[i] == all[i]);
        taken_candidates_count(candidates, all.drop_last(), i);
    }
}

proof fn same_candidates_are_taken(a: Seq<Knob>, b: Seq<Knob>, all: Seq<Option<int>>)
    requires
        forall|i: int| 0 <= i < all.len() ==> (#[trigger] all[i] matches Some(c) ==> b[c] == a[c]),
    ensures
        taken(a, all) == taken(b, all),
    decreases all.len(),
{
    if all.len() > 0 {
        let rest = all.drop_last();
        assert forall|i: int| 0 <= i < rest.len() implies (#[trigger] rest[i] matches Some(c) ==> b[c]
            == a[c]) by {
            assert(rest[i] == all[i]);
        }
        same_candidates_are_taken(a, b, rest);
        assert(all[all.len() - 1] == all.last());
    }
}


/// What is kept are the knobs that were made, in their order.
pub proof fn made_knobs_are_kept(made: Seq<Option<Knob>>)
    ensures
        kept(made) == made.filter(|k: Option<Knob>| k is Some).map_values(
            |k: Option<Knob>| k->Some_0,
        ),
    decreases made.len(),
{
    reveal(Seq::filter);
    let p = |k: Option<Knob>| k is Some;
    let f = |k: Option<Knob>| k->Some_0;
    if made.len() > 0 {
        made_knobs_are_kept(made.drop_last());
    }
    assert(kept(made) =~= made.filter(p).map_values(f));
}


/// Of candidates that fit a place equally well the first is taken: none before it that can be taken
/// fits as well.
pub proof fn the_first_of_equal_candidates_is_taken(
    candidates: Seq<Knob>,
    used: Seq<bool>,
    place: Place,
    capture: int,
    median_radius: int,
    upto: int,
    i: int,
)
    requires
        best_for_place(candidates, used, place, capture, median_radius, upto) matches Some(b) && 0 <= i
            < b,
        is_eligible(candidates, used, place, capture, i),
    ensures
        !fits_as_well(
            candidates[i],
            candidates[best_for_place(
                candidates,
                used,
                place,
                capture,
                median_radius,
                upto,
            )->Some_0],
            place,
            capture,
            median_radius,
        ),
    decreases upto,
{
    the_best_candidate_is_taken(candidates, used, place, capture, median_radius, upto);
    the_best_candidate_is_taken(candidates, used, place, capture, median_radius, upto - 1);
    let now = best_for_place(candidates, used, place, capture, median_radius, upto);
    let before = best_for_place(candidates, used, place, capture, median_radius, upto - 1);
    if upto > 0 {
        if before == now {
            the_first_of_equal_candidates_is_taken(
                candidates,
                used,
                place,
                capture,
                median_radius,
                upto - 1,
                i,
            );
        } else {
            let (last, had, other) = (
                candidates[upto - 1],
                candidates[before->Some_0],
                candidates[i],
            );
            let unit = max(median_radius, 1_000_000);
            scaled_distances_are_not_negative(last, place, unit);
            scaled_distances_are_not_negative(had, place, unit);
            scaled_distances_are_not_negative(other, place, unit);
            if fits_as_well(other, last, place, capture, median_radius) {
                sums_are_ordered(
                    unit * unit * square_distance(had, place),
                    capture * place.parts * abs(had.radius - median_radius),
                    unit * unit * square_distance(other, place),
                    capture * place.parts * abs(other.radius - median_radius),
                    unit * unit * square_distance(last, place),
                    capture * place.parts * abs(last.radius - median_radius),
                );
            }
        }
    }
}

} // verus!
