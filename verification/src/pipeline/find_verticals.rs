//! Finding the left and the right edge of the stove panel.
//!
//! The left edge goes from a light cabinet to the dark stove, the right one from the stove to a
//! light wall. Both show as peaks of the horizontal gradient, which are looked for at three
//! sizes of the image.

use vstd::prelude::*;
use vstd::string::*;

use super::stage::{
    is_exhausted, Line, LinePair, PipelineState, StageDescriptor, StageOutcome, StateView,
    VerticalPair,
};
use super::ImageOutput;
use crate::draw::{bgr, draw_line, drawing, line_shape, Color, Shape};
use crate::fixed::{
    abs, abs_exec, clamp_to_fixed, clamped, max, min, nearest_pixel, to_nearest_pixel,
};
use crate::order::{
    ascending_order, at_places, fractions_are_ordered, is_weak_order, rank_all, ranks,
    sort_ascending, take_places,
};
use crate::surd::{
    does_exceed_sum, does_reach_sum, exceeds_sum, is_at_most, reaches_sum, sums_are_comparable,
    sums_are_ordered,
};
use crate::text::{decimal, fixed_decimal, push_fixed, push_number};
use crate::wide::Integer;

verus! {

/// The attempts of the stage.
pub const MAX_RETRIES: u32 = 15;

/// The peaks that are kept of each side at each size.
pub const PEAKS_PER_SCALE: usize = 2;

/// How far around a peak no other one is looked for, in columns of the scaled image.
pub const SUPPRESS_RADIUS: usize = 40;

/// How far around a peak weaker ones of other sizes are dropped.
pub const NMS_RADIUS: i64 = 30_000_000;

/// The least distance of the two edges.
pub const MIN_SEPARATION: i64 = 150_000_000;

/// What the stage says of itself.
pub fn descriptor() -> (r: StageDescriptor)
    ensures
        r.name@ == "FindVerticals"@,
        r.label@ == "S3:FindVerticals"@,
        r.fallback matches Some(f) && f@ == "FindLines"@,
{
    StageDescriptor {
        name: "FindVerticals",
        label: "S3:FindVerticals",
        fallback: Some("FindLines"),
    }
}

/// A peak of the gradient.
#[derive(Debug, Clone, Copy, PartialEq, Eq, Structural)]
pub struct PeakCandidate {
    /// The column in the full image.
    pub x_orig: i64,
    /// The sum of the gradients without its sign.
    pub size: i64,
    /// How many gradients it is the sum of.
    pub rows: u32,
    /// The sum at the steepest peak of the same side and image size.
    pub strongest: i64,
}

/// The part of a scaled image that is looked at: its size, and the rows of the band.
#[derive(Debug, Clone, Copy, PartialEq, Eq, Structural)]
pub struct ScaledBand {
    pub width: u32,
    pub height: u32,
    pub y_start: u32,
    pub y_end: u32,
}

/// Whether the stage can run at all on an image of this size.
pub fn check_source(crop_known: bool, width: u32, height: u32) -> (r: Option<StageOutcome>)
    ensures
        if !crop_known {
            r matches Some(o) && is_exhausted(o, "no crop region from Stage 1"@)
        } else if width < 50 || height < 50 {
            r matches Some(o) && is_exhausted(o, "source image too small"@)
        } else {
            r is None
        },
{
    if !crop_known {
        Some(StageOutcome::Exhausted(String::from_str("no crop region from Stage 1")))
    } else if width < 50 || height < 50 {
        Some(StageOutcome::Exhausted(String::from_str("source image too small")))
    } else {
        None
    }
}

/// The band of an image scaled down by `divisor`: the rows between 15 and 85 percent of its
/// height. There is none in an image that gets too small.
pub fn scaled_band(width: u32, height: u32, divisor: u32) -> (r: Option<ScaledBand>)
    requires
        divisor > 0,
    ensures
        ({
            let w = width / divisor;
            let h = height / divisor;
            let top = h * 15 / 100;
            let bottom = h * 85 / 100;
            if w < 20 || h < 20 || bottom <= top + 5 {
                r is None
            } else {
                r matches Some(b) && b.width == w && b.height == h && b.y_start == top && b.y_end
                    == bottom
            }
        }),
        r matches Some(b) ==> {
            &&& b.width >= 20 && b.height >= 20 && b.y_end - b.y_start > 5
            &&& 0 <= 3 * b.height - 20 * b.y_start < 20
            &&& 0 <= 17 * b.height - 20 * b.y_end < 20
        },
{
    let w: u32 = width / divisor;
    let h: u32 = height / divisor;
    if w < 20 || h < 20 {
        return None;
    }
    let top: u64 = h as u64 * 15 / 100;
    let bottom: u64 = h as u64 * 85 / 100;
    if bottom <= top + 5 {
        return None;
    }
    Some(ScaledBand { width: w, height: h, y_start: top as u32, y_end: bottom as u32 })
}

/// The sum of the first `rows` entries of column `x`.
pub open spec fn column_sum(gradients: Seq<i16>, width: int, x: int, rows: int) -> int
    decreases rows,
{
    if rows <= 0 {
        0
    } else {
        column_sum(gradients, width, x, rows - 1) + gradients[(rows - 1) * width + x]
    }
}

/// The sums of the columns.
pub open spec fn profile(gradients: Seq<i16>, width: int, rows: int) -> Seq<i64> {
    Seq::new(width as nat, |x: int| column_sum(gradients, width, x, rows) as i64)
}

/// Sums up the gradients of each column, given row by row.
pub fn column_profile(gradients: &Vec<i16>, width: u32, rows: u32) -> (r: Vec<i64>)
    requires
        gradients.len() == width * rows,
    ensures
        r@ == profile(gradients@, width as int, rows as int),
        forall|x: int| 0 <= x < width ==> -32768 * rows <= #[trigger] r[x] <= 32768 * rows,
{
    let mut r: Vec<i64> = Vec::with_capacity(width as usize);
    let mut x: u32 = 0;
    while x < width
        invariant
            gradients.len() == width * rows,
            x <= width,
            r.len() == x,
            forall|i: int|
                0 <= i < x ==> #[trigger] r[i] == column_sum(
                    gradients@,
                    width as int,
                    i,
                    rows as int,
                ),
            forall|i: int| 0 <= i < x ==> -32768 * rows <= #[trigger] r[i] <= 32768 * rows,
        decreases width - x,
    {
        let mut sum: i64 = 0;
        let mut y: u32 = 0;
        while y < rows
            invariant
                gradients.len() == width * rows,
                x < width,
                y <= rows,
                sum == column_sum(gradients@, width as int, x as int, y as int),
                -32768 * y <= sum <= 32768 * y,
            decreases rows - y,
        {
            proof {
                assert(y * width + x < width * rows) by (nonlinear_arith)
                    requires
                        0 <= y < rows,
                        0 <= x < width,
                ;
                assert(0 <= y * width) by (nonlinear_arith);
            }
            sum = sum + gradients[y as usize * width as usize + x as usize] as i64;
            y = y + 1;
        }
        r.push(sum);
        x = x + 1;
    }
    assert(r@ =~= profile(gradients@, width as int, rows as int));
    r
}

/// A column that a peak may be taken from: not suppressed, and steeper than five per row in the
/// direction that is looked for. `sign` is 1 for falling gradients and -1 for rising ones.
pub open spec fn is_steep(p: Seq<i64>, off: Seq<bool>, sign: int, rows: int, x: int) -> bool {
    !off[x] && sign * p[x] < -5 * rows
}

/// The steepest of the first `upto` columns, the first of equally steep ones.
pub open spec fn steepest(p: Seq<i64>, off: Seq<bool>, sign: int, rows: int, upto: int) -> Option<int>
    decreases upto,
{
    if upto <= 0 {
        None
    } else {
        let best = steepest(p, off, sign, rows, upto - 1);
        if !is_steep(p, off, sign, rows, upto - 1) {
            best
        } else {
            match best {
                Some(b) if sign * p[b] <= sign * p[upto - 1] => Some(b),
                _ => Some(upto - 1),
            }
        }
    }
}

/// The columns with those around `x` suppressed as well.
pub open spec fn suppressed_around(off: Seq<bool>, x: int, radius: int) -> Seq<bool> {
    Seq::new(off.len(), |i: int| off[i] || abs(i - x) <= radius)
}

/// Up to `n` peaks, the steepest first; around each of them no other one is taken.
pub open spec fn top_peaks(
    p: Seq<i64>,
    off: Seq<bool>,
    sign: int,
    rows: int,
    radius: int,
    n: nat,
) -> Seq<int>
    decreases n,
{
    if n == 0 {
        Seq::empty()
    } else {
        match steepest(p, off, sign, rows, p.len() as int) {
            None => Seq::empty(),
            Some(x) => seq![x] + top_peaks(
                p,
                suppressed_around(off, x, radius),
                sign,
                rows,
                radius,
                (n - 1) as nat,
            ),
        }
    }
}

fn find_steepest(p: &Vec<i64>, off: &Vec<bool>, falling: bool, rows: u32) -> (r: Option<usize>)
    requires
        off.len() == p.len(),
        forall|x: int| 0 <= x < p.len() ==> -32768 * rows <= #[trigger] p[x] <= 32768 * rows,
    ensures
        steepest(
            p@,
            off@,
            if falling {
                1
            } else {
                -1
            },
            rows as int,
            p.len() as int,
        ) == (match r {
            Some(x) => Some(x as int),
            None => None,
        }),
        r matches Some(x) ==> x < p.len(),
{
    let ghost sign: int = if falling {
        1
    } else {
        -1
    };
    let mut best: Option<usize> = None;
    let mut i: usize = 0;
    while i < p.len()
        invariant
            off.len() == p.len(),
            forall|x: int| 0 <= x < p.len() ==> -32768 * rows <= #[trigger] p[x] <= 32768 * rows,
            i <= p.len(),
            sign == (if falling {
                1int
            } else {
                -1int
            }),
            steepest(p@, off@, sign, rows as int, i as int) == (match best {
                Some(x) => Some(x as int),
                None => None,
            }),
            best matches Some(x) ==> x < i,
        decreases p.len() - i,
    {
        let v: i64 = if falling {
            p[i]
        } else {
            -p[i]
        };
        assert(sign * p[i as int] == v) by (nonlinear_arith)
            requires
                (sign == 1 && v == p[i as int]) || (sign == -1 && v == -p[i as int]),
        ;
        if !off[i] && v < -(5 * (rows as i64)) {
            let better: bool = match best {
                None => true,
                Some(b) => {
                    let w: i64 = if falling {
                        p[b]
                    } else {
                        -p[b]
                    };
                    assert(sign * p[b as int] == w) by (nonlinear_arith)
                        requires
                            (sign == 1 && w == p[b as int]) || (sign == -1 && w == -p[b as int]),
                    ;
                    w > v
                },
            };
            if better {
                best = Some(i);
            }
        }
        i = i + 1;
    }
    best
}

/// Extracts up to `n` peaks of a profile of column sums over `rows` rows: the most negative
/// ones where `is_min` is set, and otherwise the most positive ones. Returns their columns.
pub fn extract_top_peaks(
    p: &Vec<i64>,
    rows: u32,
    n: usize,
    suppress_radius: usize,
    is_min: bool,
) -> (r: Vec<usize>)
    requires
        forall|x: int| 0 <= x < p.len() ==> -32768 * rows <= #[trigger] p[x] <= 32768 * rows,
    ensures
        r@.map_values(|x: usize| x as int) == top_peaks(
            p@,
            Seq::new(p.len() as nat, |i: int| false),
            if is_min {
                1
            } else {
                -1
            },
            rows as int,
            suppress_radius as int,
            n as nat,
        ),
        forall|i: int| 0 <= i < r.len() ==> #[trigger] r[i] < p.len(),
{
    let ghost sign: int = if is_min {
        1
    } else {
        -1
    };
    let mut off: Vec<bool> = Vec::new();
    let mut k: usize = 0;
    while k < p.len()
        invariant
            k <= p.len(),
            off.len() == k,
            forall|i: int| 0 <= i < k ==> !(#[trigger] off[i]),
        decreases p.len() - k,
    {
        off.push(false);
        k = k + 1;
    }
    let ghost none = Seq::new(p.len() as nat, |i: int| false);
    assert(off@ =~= none);
    let mut r: Vec<usize> = Vec::new();
    let mut left: usize = n;
    let ghost mut found: Seq<int> = Seq::empty();
    assert(found + top_peaks(p@, off@, sign, rows as int, suppress_radius as int, left as nat)
        =~= top_peaks(p@, none, sign, rows as int, suppress_radius as int, n as nat));
    while left > 0
        invariant
            forall|x: int| 0 <= x < p.len() ==> -32768 * rows <= #[trigger] p[x] <= 32768 * rows,
            off.len() == p.len(),
            left <= n,
            sign == (if is_min {
                1int
            } else {
                -1int
            }),
            none == Seq::new(p.len() as nat, |i: int| false),
            found.len() == r.len(),
            forall|i: int| 0 <= i < r.len() ==> #[trigger] found[i] == r[i],
            forall|i: int| 0 <= i < r.len() ==> #[trigger] r[i] < p.len(),
            found + top_peaks(p@, off@, sign, rows as int, suppress_radius as int, left as nat)
                == top_peaks(p@, none, sign, rows as int, suppress_radius as int, n as nat),
        decreases left,
    {
        let ghost rest = top_peaks(
            p@,
            off@,
            sign,
            rows as int,
            suppress_radius as int,
            left as nat,
        );
        match find_steepest(p, &off, is_min, rows) {
            None => {
                assert(rest =~= Seq::<int>::empty());
                assert(found + rest =~= found);
                assert(r@.map_values(|x: usize| x as int) =~= found);
                return r;
            },
            Some(x) => {
                r.push(x);
                let ghost before = off@;
                let lo: usize = if x < suppress_radius {
                    0
                } else {
                    x - suppress_radius
                };
                let hi: usize = if p.len() - x <= suppress_radius {
                    p.len()
                } else {
                    x + suppress_radius + 1
                };
                let mut i: usize = lo;
                while i < hi
                    invariant
                        lo <= i <= hi <= p.len(),
                        off.len() == p.len(),
                        before.len() == p.len(),
                        forall|j: int|
                            0 <= j < p.len() ==> #[trigger] off[j] == (before[j] || (lo <= j < i)),
                    decreases hi - i,
                {
                    off.set(i, true);
                    i = i + 1;
                }
                assert(off@ =~= suppressed_around(before, x as int, suppress_radius as int));
                proof {
                    let next = top_peaks(
                        p@,
                        off@,
                        sign,
                        rows as int,
                        suppress_radius as int,
                        (left - 1) as nat,
                    );
                    assert(rest == seq![x as int] + next);
                    assert(found + rest =~= found.push(x as int) + next);
                    found = found.push(x as int);
                }
                left = left - 1;
            },
        }
    }
    assert(found + Seq::<int>::empty() =~= found);
    assert(r@.map_values(|x: usize| x as int) =~= found);
    r
}

/// The steepest column is one that a peak may be taken from, and no such column is steeper.
proof fn steepest_is_steep(p: Seq<i64>, off: Seq<bool>, sign: int, rows: int, upto: int)
    ensures
        match steepest(p, off, sign, rows, upto) {
            Some(b) => {
                &&& 0 <= b < upto
                &&& is_steep(p, off, sign, rows, b)
                &&& forall|i: int|
                    0 <= i < upto && #[trigger] is_steep(p, off, sign, rows, i) ==> sign * p[b] <= sign
                        * p[i]
            },
            None => forall|i: int| 0 <= i < upto ==> !(#[trigger] is_steep(p, off, sign, rows, i)),
        },
    decreases upto,
{
    if upto > 0 {
        steepest_is_steep(p, off, sign, rows, upto - 1);
    }
}

/// Every peak is steeper than five per row, the first one is the steepest, and any two of them
/// lie more than the suppression radius apart.
pub proof fn peaks_are_steep_and_apart(
    p: Seq<i64>,
    off: Seq<bool>,
    sign: int,
    rows: int,
    radius: int,
    n: nat,
)
    requires
        off.len() == p.len(),
    ensures
        ({
            let peaks = top_peaks(p, off, sign, rows, radius, n);
            &&& peaks.len() <= n
            &&& forall|i: int|
                0 <= i < peaks.len() ==> 0 <= #[trigger] peaks[i] < p.len() && is_steep(
                    p,
                    off,
                    sign,
                    rows,
                    peaks[i],
                ) && sign * p[peaks[0]] <= sign * p[peaks[i]]
            &&& forall|i: int, j: int|
                0 <= i < j < peaks.len() ==> abs(#[trigger] peaks[j] - #[trigger] peaks[i]) > radius
        }),
    decreases n,
{
    steepest_is_steep(p, off, sign, rows, p.len() as int);
    let peaks = top_peaks(p, off, sign, rows, radius, n);
    if n > 0 && steepest(p, off, sign, rows, p.len() as int) is Some {
        let x = steepest(p, off, sign, rows, p.len() as int)->Some_0;
        let less = suppressed_around(off, x, radius);
        let rest = top_peaks(p, less, sign, rows, radius, (n - 1) as nat);
        peaks_are_steep_and_apart(p, less, sign, rows, radius, (n - 1) as nat);
        assert(peaks =~= seq![x] + rest);
        assert forall|i: int| 0 <= i < peaks.len() implies 0 <= #[trigger] peaks[i] < p.len()
            && is_steep(p, off, sign, rows, peaks[i]) && sign * p[peaks[0]] <= sign * p[peaks[i]] by {
            if i > 0 {
                assert(peaks[i] == rest[i - 1]);
                assert(is_steep(p, less, sign, rows, rest[i - 1]));
                assert(is_steep(p, off, sign, rows, peaks[i]));
            }
        }
        assert forall|i: int, j: int| 0 <= i < j < peaks.len() implies abs(
            #[trigger] peaks[j] - #[trigger] peaks[i],
        ) > radius by {
            assert(peaks[j] == rest[j - 1]);
            assert(is_steep(p, less, sign, rows, rest[j - 1]));
            if i > 0 {
                assert(peaks[i] == rest[i - 1]);
            }
        }
    }
}

/// The candidate for a peak at column `x` of an image that is scaled down by `divisor`, where
/// `strongest` is the steepest gradient of its side.
pub open spec fn peak_candidate(
    column: int,
    sum: int,
    strongest: int,
    rows: int,
    divisor: int,
) -> PeakCandidate {
    PeakCandidate {
        x_orig: (column * divisor * 1_000_000) as i64,
        size: abs(sum) as i64,
        rows: rows as u32,
        strongest: strongest as i64,
    }
}

/// The candidates of one side of a profile, which is the part of it from `from` on.
pub open spec fn side_candidates(
    p: Seq<i64>,
    from: int,
    sign: int,
    rows: int,
    divisor: int,
) -> Seq<PeakCandidate> {
    let peaks = top_peaks(p, Seq::new(p.len(), |i: int| false), sign, rows, 40, 2);
    Seq::new(
        peaks.len(),
        |i: int|
            peak_candidate(
                from + peaks[i],
                p[peaks[i]] as int,
                abs(p[peaks[0]] as int),
                rows,
                divisor,
            ),
    )
}

fn find_side_candidates(p: &Vec<i64>, from: usize, is_min: bool, rows: u32, divisor: u32) -> (r: Vec<
    PeakCandidate,
>)
    requires
        rows > 0,
        0 < divisor <= 4,
        from + p.len() <= 0xffff_ffff,
        forall|x: int| 0 <= x < p.len() ==> -32768 * rows <= #[trigger] p[x] <= 32768 * rows,
    ensures
        r@ == side_candidates(
            p@,
            from as int,
            if is_min {
                1
            } else {
                -1
            },
            rows as int,
            divisor as int,
        ),
        forall|i: int|
            0 <= i < r.len() ==> 0 <= (#[trigger] r[i]).size && 0 < r[i].rows && 0
                < r[i].strongest,
        r.len() <= 2,
{
    let ghost sign: int = if is_min {
        1
    } else {
        -1
    };
    let peaks: Vec<usize> = extract_top_peaks(p, rows, PEAKS_PER_SCALE, SUPPRESS_RADIUS, is_min);
    let ghost none = Seq::new(p.len() as nat, |i: int| false);
    let ghost found = top_peaks(p@, none, sign, rows as int, 40, 2);
    proof {
        peaks_are_steep_and_apart(p@, none, sign, rows as int, 40, 2);
        assert forall|i: int| 0 <= i < peaks.len() implies #[trigger] peaks[i] == found[i] by {
            assert(peaks@.map_values(|x: usize| x as int)[i] == found[i]);
        }
        assert(peaks.len() == found.len());
    }
    let mut r: Vec<PeakCandidate> = Vec::new();
    let mut i: usize = 0;
    while i < peaks.len()
        invariant
            rows > 0,
            0 < divisor <= 4,
            from + p.len() <= 0xffff_ffff,
            forall|x: int| 0 <= x < p.len() ==> -32768 * rows <= #[trigger] p[x] <= 32768 * rows,
            sign == 1 || sign == -1,
            i <= peaks.len(),
            peaks.len() == found.len(),
            forall|i: int| 0 <= i < peaks.len() ==> #[trigger] peaks[i] == found[i],
            forall|i: int|
                0 <= i < found.len() ==> 0 <= #[trigger] found[i] < p.len() && is_steep(
                    p@,
                    none,
                    sign,
                    rows as int,
                    found[i],
                ) && sign * p@[found[0]] <= sign * p@[found[i]],
            r.len() == i,
            forall|j: int|
                0 <= j < i ==> #[trigger] r[j] == peak_candidate(
                    from + found[j],
                    p@[found[j]] as int,
                    abs(p@[found[0]] as int),
                    rows as int,
                    divisor as int,
                ),
            forall|j: int|
                0 <= j < i ==> 0 <= (#[trigger] r[j]).size && 0 < r[j].rows && 0
                    < r[j].strongest,
        decreases peaks.len() - i,
    {
        let x: usize = peaks[i];
        assert(peaks[i as int] == found[i as int]);
        assert(peaks[0] == found[0]);
        assert(is_steep(p@, none, sign, rows as int, found[i as int]));
        assert(is_steep(p@, none, sign, rows as int, found[0]));
        let size: i128 = abs_exec(p[x] as i128);
        let strongest: i128 = abs_exec(p[peaks[0]] as i128);
        proof {
            let a = p@[found[i as int]] as int;
            let b = p@[found[0]] as int;
            assert(0 < abs(a) <= abs(b)) by (nonlinear_arith)
                requires
                    sign == 1 || sign == -1,
                    sign * b <= sign * a,
                    sign * a < -5 * rows,
                    rows > 0,
                    abs(a) == (if a < 0 {
                        -a
                    } else {
                        a
                    }),
                    abs(b) == (if b < 0 {
                        -b
                    } else {
                        b
                    }),
            ;
        }
        let column: i64 = (from + x) as i64;
        proof {
            let c = column as int;
            let d = divisor as int;
            assert(0 <= c * d <= 0xffff_ffff * 4) by (nonlinear_arith)
                requires
                    0 <= c <= 0xffff_ffff,
                    0 < d <= 4,
            ;
        }
        r.push(
            PeakCandidate {
                x_orig: column * divisor as i64 * 1_000_000,
                size: size as i64,
                rows,
                strongest: strongest as i64,
            },
        );
        i = i + 1;
    }
    assert(r@ =~= side_candidates(p@, from as int, sign, rows as int, divisor as int));
    r
}

fn copy_part(p: &Vec<i64>, from: usize, to: usize) -> (r: Vec<i64>)
    requires
        from <= to <= p.len(),
    ensures
        r@ == p@.subrange(from as int, to as int),
{
    let mut r: Vec<i64> = Vec::with_capacity(to - from);
    let mut i: usize = from;
    while i < to
        invariant
            from <= i <= to <= p.len(),
            r@ == p@.subrange(from as int, i as int),
        decreases to - i,
    {
        r.push(p[i]);
        i = i + 1;
        assert(r@ =~= p@.subrange(from as int, i as int));
    }
    r
}

/// The candidates for both edges in the profile of one image size: falling gradients in the
/// left 40 percent of the columns, and rising ones in the right 40 percent.
pub fn edge_candidates(p: &Vec<i64>, rows: u32, divisor: u32) -> (r: (
    Vec<PeakCandidate>,
    Vec<PeakCandidate>,
))
    requires
        rows > 0,
        0 < divisor <= 4,
        p.len() <= 0xffff_ffff,
        forall|x: int| 0 <= x < p.len() ==> -32768 * rows <= #[trigger] p[x] <= 32768 * rows,
    ensures
        r.0@ == side_candidates(
            p@.subrange(0, p.len() * 40 / 100),
            0,
            1,
            rows as int,
            divisor as int,
        ),
        r.1@ == side_candidates(
            p@.subrange(p.len() * 60 / 100, p.len() as int),
            p.len() * 60 / 100,
            -1,
            rows as int,
            divisor as int,
        ),
        are_measured(r.0@),
        are_measured(r.1@),
        r.0.len() <= 2,
        r.1.len() <= 2,
{
    let n: usize = p.len();
    let left_end: usize = (n as u64 * 40 / 100) as usize;
    let right_start: usize = (n as u64 * 60 / 100) as usize;
    let left_part: Vec<i64> = copy_part(p, 0, left_end);
    let right_part: Vec<i64> = copy_part(p, right_start, n);
    assert forall|x: int| 0 <= x < left_part.len() implies -32768 * rows <= #[trigger] left_part[x]
        <= 32768 * rows by {
        assert(left_part[x] == p[x]);
    }
    assert forall|x: int| 0 <= x < right_part.len() implies -32768 * rows <= #[trigger] right_part[x]
        <= 32768 * rows by {
        assert(right_part[x] == p[x + right_start]);
    }
    let left: Vec<PeakCandidate> = find_side_candidates(&left_part, 0, true, rows, divisor);
    let right: Vec<PeakCandidate> = find_side_candidates(
        &right_part,
        right_start,
        false,
        rows,
        divisor,
    );
    (left, right)
}

/// The candidates have rows and a strongest gradient to be measured by.
pub open spec fn are_measured(c: Seq<PeakCandidate>) -> bool {
    forall|i: int|
        0 <= i < c.len() ==> 0 <= (#[trigger] c[i]).size && 0 < c[i].rows && 0 < c[i].strongest
}

/// The mean gradient of `a` is steeper than that of `b`.
pub open spec fn is_stronger(a: PeakCandidate, b: PeakCandidate) -> bool {
    a.size * b.rows > b.size * a.rows
}

/// Which of two candidates is stronger.
pub open spec fn by_strength(c: Seq<PeakCandidate>) -> spec_fn(int, int) -> bool {
    |i: int, j: int| is_stronger(c[i], c[j])
}

/// The candidates from the strongest to the weakest.
pub open spec fn strongest_first(c: Seq<PeakCandidate>) -> Seq<PeakCandidate> {
    at_places(c, ascending_order(ranks(by_strength(c), c.len())))
}

/// Candidates are ordered by their strength.
pub proof fn strengths_are_ordered(c: Seq<PeakCandidate>)
    requires
        are_measured(c),
    ensures
        is_weak_order(by_strength(c), c.len() as int),
{
    let before = by_strength(c);
    assert forall|i: int, j: int, k: int|
        0 <= i < c.len() && 0 <= j < c.len() && 0 <= k < c.len() && #[trigger] before(
            i,
            j,
        ) implies before(i, k) || #[trigger] before(k, j) by {
        assert(0 <= c[i].size && 0 <= c[j].size && 0 <= c[k].size);
        fractions_are_ordered(
            c[i].size as int,
            c[i].rows as int,
            c[j].size as int,
            c[j].rows as int,
            c[k].size as int,
            c[k].rows as int,
        );
    }
}

/// `c` lies nearer than `radius` to one of `kept`.
pub open spec fn is_beside_one(c: PeakCandidate, kept: Seq<PeakCandidate>, radius: int) -> bool {
    exists|i: int| 0 <= i < kept.len() && abs((#[trigger] kept[i]).x_orig - c.x_orig) < radius
}

/// The candidates that lie nearer than `radius` to none that is kept before them.
pub open spec fn kept_peaks(c: Seq<PeakCandidate>, radius: int) -> Seq<PeakCandidate>
    decreases c.len(),
{
    if c.len() == 0 {
        Seq::empty()
    } else {
        let kept = kept_peaks(c.drop_last(), radius);
        if is_beside_one(c.last(), kept, radius) {
            kept
        } else {
            kept.push(c.last())
        }
    }
}

fn exceeds(a: &PeakCandidate, b: &PeakCandidate) -> (r: bool)
    ensures
        r == is_stronger(*a, *b),
{
    let left: Integer = Integer::new(a.size as i128).times(&Integer::new(b.rows as i128));
    let right: Integer = Integer::new(b.size as i128).times(&Integer::new(a.rows as i128));
    right.is_less(&left)
}

/// Merges the candidates of all sizes: of those within `radius` of each other the strongest is
/// kept.
pub fn nms_peaks(candidates: &Vec<PeakCandidate>, radius: i64) -> (r: Vec<PeakCandidate>)
    ensures
        r@ == kept_peaks(strongest_first(candidates@), radius as int),
        are_measured(candidates@) ==> are_measured(r@),
        r.len() <= candidates.len(),
{
    let stronger = |i: usize, j: usize| -> (r: bool)
        requires
            i < candidates.len(),
            j < candidates.len(),
        ensures
            r == is_stronger(candidates@[i as int], candidates@[j as int]),
        { exceeds(&candidates[i], &candidates[j]) };
    let keys: Vec<i128> = rank_all(candidates.len(), &stronger, Ghost(by_strength(candidates@)));
    let ranked: Vec<PeakCandidate> = take_places(candidates, &sort_ascending(&keys));
    assert(are_measured(candidates@) ==> are_measured(ranked@));
    let mut kept: Vec<PeakCandidate> = Vec::new();
    let mut i: usize = 0;
    assert(ranked@.take(0) =~= Seq::empty());
    while i < ranked.len()
        invariant
            i <= ranked.len(),
            kept.len() <= i,
            kept@ == kept_peaks(ranked@.take(i as int), radius as int),
            are_measured(ranked@) ==> are_measured(kept@),
        decreases ranked.len() - i,
    {
        let c: PeakCandidate = ranked[i];
        let mut dominated: bool = false;
        let mut j: usize = 0;
        while j < kept.len()
            invariant
                j <= kept.len(),
                dominated == exists|q: int|
                    0 <= q < j && abs((#[trigger] kept[q]).x_orig - c.x_orig) < radius,
            decreases kept.len() - j,
        {
            if abs_exec(kept[j].x_orig as i128 - c.x_orig as i128) < radius as i128 {
                assert(abs(kept[j as int].x_orig - c.x_orig) < radius);
                dominated = true;
            }
            j = j + 1;
        }
        assert(dominated == is_beside_one(c, kept@, radius as int));
        assert(ranked@.take(i as int + 1).drop_last() =~= ranked@.take(i as int));
        if !dominated {
            kept.push(c);
        }
        i = i + 1;
    }
    assert(ranked@.take(i as int) =~= ranked@);
    kept
}

/// A left and a right edge.
#[derive(Debug, Clone, Copy, PartialEq, Eq, Structural)]
pub struct EdgePair {
    pub left: PeakCandidate,
    pub right: PeakCandidate,
}

/// The pairs of one left edge with right edges that are far enough away.
pub open spec fn pairs_with(left: PeakCandidate, right: Seq<PeakCandidate>) -> Seq<EdgePair>
    decreases right.len(),
{
    if right.len() == 0 {
        Seq::empty()
    } else {
        let before = pairs_with(left, right.drop_last());
        if right.last().x_orig - left.x_orig >= 150_000_000 {
            before.push(EdgePair { left, right: right.last() })
        } else {
            before
        }
    }
}

/// All pairs of a left and a right edge that are far enough apart.
pub open spec fn all_pairs(left: Seq<PeakCandidate>, right: Seq<PeakCandidate>) -> Seq<EdgePair>
    decreases left.len(),
{
    if left.len() == 0 {
        Seq::empty()
    } else {
        all_pairs(left.drop_last(), right) + pairs_with(left.last(), right)
    }
}

/// The gradients of a pair as shares of the strongest at their sizes, together, as a fraction.
pub open spec fn pair_strength(p: EdgePair) -> (int, int) {
    (
        p.left.size * p.right.strongest + p.right.size * p.left.strongest,
        p.left.strongest * p.right.strongest,
    )
}

/// The edges of `p` are together stronger than those of `q`.
pub open spec fn is_stronger_pair(p: EdgePair, q: EdgePair) -> bool {
    pair_strength(p).0 * pair_strength(q).1 > pair_strength(q).0 * pair_strength(p).1
}

/// Which of two pairs is stronger.
pub open spec fn by_pair_strength(pairs: Seq<EdgePair>) -> spec_fn(int, int) -> bool {
    |i: int, j: int| is_stronger_pair(pairs[i], pairs[j])
}

/// The pairs from the strongest to the weakest.
pub open spec fn strongest_pairs(pairs: Seq<EdgePair>) -> Seq<EdgePair> {
    at_places(pairs, ascending_order(ranks(by_pair_strength(pairs), pairs.len())))
}

/// Pairs are ordered by their strength.
pub proof fn pair_strengths_are_ordered(pairs: Seq<EdgePair>)
    requires
        forall|i: int|
            0 <= i < pairs.len() ==> (#[trigger] pairs[i]).left.strongest > 0
                && pairs[i].right.strongest > 0,
    ensures
        is_weak_order(by_pair_strength(pairs), pairs.len() as int),
{
    let before = by_pair_strength(pairs);
    assert forall|i: int, j: int, k: int|
        0 <= i < pairs.len() && 0 <= j < pairs.len() && 0 <= k < pairs.len() && #[trigger] before(
            i,
            j,
        ) implies before(i, k) || #[trigger] before(k, j) by {
        let (p, q, r) = (pair_strength(pairs[i]), pair_strength(pairs[j]), pair_strength(pairs[k]));
        shares_have_positive_parts(pairs[i]);
        shares_have_positive_parts(pairs[j]);
        shares_have_positive_parts(pairs[k]);
        fractions_are_ordered(p.0, p.1, q.0, q.1, r.0, r.1);
    }
}

proof fn shares_have_positive_parts(p: EdgePair)
    requires
        p.left.strongest > 0,
        p.right.strongest > 0,
    ensures
        pair_strength(p).1 > 0,
{
    assert(p.left.strongest * p.right.strongest > 0) by (nonlinear_arith)
        requires
            p.left.strongest > 0,
            p.right.strongest > 0,
    ;
}

fn pair_strength_of(p: &EdgePair) -> (r: (Integer, Integer))
    ensures
        (r.0@, r.1@) == pair_strength(*p),
{
    let left: Integer = Integer::new(p.left.strongest as i128);
    let right: Integer = Integer::new(p.right.strongest as i128);
    let over: Integer = Integer::new(p.left.size as i128).times(&right).plus(
        &Integer::new(p.right.size as i128).times(&left),
    );
    (over, left.times(&right))
}

fn exceeds_pair(p: &EdgePair, q: &EdgePair) -> (r: bool)
    ensures
        r == is_stronger_pair(*p, *q),
{
    let (a, x): (Integer, Integer) = pair_strength_of(p);
    let (b, y): (Integer, Integer) = pair_strength_of(q);
    b.times(&x).is_less(&a.times(&y))
}

fn find_pairs(left: &Vec<PeakCandidate>, right: &Vec<PeakCandidate>) -> (r: Vec<EdgePair>)
    ensures
        r@ == all_pairs(left@, right@),
{
    let mut r: Vec<EdgePair> = Vec::new();
    let mut i: usize = 0;
    assert(left@.take(0) =~= Seq::empty());
    while i < left.len()
        invariant
            i <= left.len(),
            r@ == all_pairs(left@.take(i as int), right@),
        decreases left.len() - i,
    {
        let l: PeakCandidate = left[i];
        let ghost before = r@;
        assert(left@.take(i as int + 1).drop_last() =~= left@.take(i as int));
        let mut j: usize = 0;
        assert(right@.take(0) =~= Seq::empty());
        assert(r@ =~= before + pairs_with(l, right@.take(0)));
        while j < right.len()
            invariant
                j <= right.len(),
                r@ == before + pairs_with(l, right@.take(j as int)),
            decreases right.len() - j,
        {
            let q: PeakCandidate = right[j];
            assert(right@.take(j as int + 1).drop_last() =~= right@.take(j as int));
            if q.x_orig as i128 - l.x_orig as i128 >= MIN_SEPARATION as i128 {
                let ghost had = pairs_with(l, right@.take(j as int));
                r.push(EdgePair { left: l, right: q });
                assert(r@ =~= before + had.push(EdgePair { left: l, right: q }));
            }
            j = j + 1;
        }
        assert(right@.take(j as int) =~= right@);
        i = i + 1;
    }
    assert(left@.take(i as int) =~= left@);
    r
}

/// Whether `r` names the columns of the two edges: the pairs of candidates are tried from the
/// strongest to the weakest, one in each attempt.
pub open spec fn is_edge_choice(
    left_candidates: Seq<PeakCandidate>,
    right_candidates: Seq<PeakCandidate>,
    iteration: int,
    r: Result<(i32, i32), StageOutcome>,
) -> bool {
    let left = kept_peaks(strongest_first(left_candidates), 30_000_000);
    let right = kept_peaks(strongest_first(right_candidates), 30_000_000);
    let pairs = strongest_pairs(all_pairs(left, right));
    if left.len() == 0 || right.len() == 0 {
        r matches Err(o) && is_exhausted(o, "no gradient peaks found at any scale"@)
    } else if all_pairs(left, right).len() == 0 {
        r matches Err(o) && is_exhausted(o, "no valid left/right pair meets separation"@)
    } else if iteration >= pairs.len() {
        r matches Err(o) && is_exhausted(
            o,
            "all "@ + decimal(pairs.len() as int) + " candidate pairs exhausted"@,
        )
    } else {
        r matches Ok(xs) && xs.0 == nearest_pixel(pairs[iteration].left.x_orig as int) && xs.1
            == nearest_pixel(pairs[iteration].right.x_orig as int)
    }
}

/// Chooses the columns of the two edges among some candidates.
pub fn choose_edges(
    left_candidates: &Vec<PeakCandidate>,
    right_candidates: &Vec<PeakCandidate>,
    iteration: u32,
) -> (r: Result<(i32, i32), StageOutcome>)
    ensures
        is_edge_choice(left_candidates@, right_candidates@, iteration as int, r),
{
    let left: Vec<PeakCandidate> = nms_peaks(left_candidates, NMS_RADIUS);
    let right: Vec<PeakCandidate> = nms_peaks(right_candidates, NMS_RADIUS);
    if left.len() == 0 || right.len() == 0 {
        return Err(
            StageOutcome::Exhausted(String::from_str("no gradient peaks found at any scale")),
        );
    }
    let pairs: Vec<EdgePair> = find_pairs(&left, &right);
    if pairs.len() == 0 {
        return Err(
            StageOutcome::Exhausted(String::from_str("no valid left/right pair meets separation")),
        );
    }
    let stronger = |i: usize, j: usize| -> (r: bool)
        requires
            i < pairs.len(),
            j < pairs.len(),
        ensures
            r == is_stronger_pair(pairs@[i as int], pairs@[j as int]),
        { exceeds_pair(&pairs[i], &pairs[j]) };
    let keys: Vec<i128> = rank_all(pairs.len(), &stronger, Ghost(by_pair_strength(pairs@)));
    let ranked: Vec<EdgePair> = take_places(&pairs, &sort_ascending(&keys));
    let idx: usize = iteration as usize;
    if idx >= ranked.len() {
        let mut s: String = String::from_str("all ");
        push_number(&mut s, ranked.len() as u128);
        s.append(" candidate pairs exhausted");
        return Err(StageOutcome::Exhausted(s));
    }
    let pair: EdgePair = ranked[idx];
    Ok((to_nearest_pixel(pair.left.x_orig), to_nearest_pixel(pair.right.x_orig)))
}

/// The numbers that the image is scaled down by, one after the other.
pub fn scale_divisors() -> (r: Vec<u32>)
    ensures
        r@ == seq![1u32, 2, 4],
{
    vec![1, 2, 4]
}

/// The horizontal gradients of the band of an image that was scaled down, row by row.
pub struct ScaledGradients {
    pub gradients: Vec<i16>,
    pub width: u32,
    pub rows: u32,
    pub divisor: u32,
}

impl ScaledGradients {
    /// There is a gradient for every pixel of the band, and the image was scaled down by one of
    /// the numbers that there are.
    pub open spec fn wf(&self) -> bool {
        &&& self.rows > 0
        &&& 0 < self.divisor <= 4
        &&& self.gradients@.len() == self.width * self.rows
    }

    /// The candidates for the left edge.
    pub open spec fn left_candidates(&self) -> Seq<PeakCandidate> {
        let p = profile(self.gradients@, self.width as int, self.rows as int);
        side_candidates(
            p.subrange(0, self.width * 40 / 100),
            0,
            1,
            self.rows as int,
            self.divisor as int,
        )
    }

    /// The candidates for the right edge.
    pub open spec fn right_candidates(&self) -> Seq<PeakCandidate> {
        let p = profile(self.gradients@, self.width as int, self.rows as int);
        side_candidates(
            p.subrange(self.width * 60 / 100, self.width as int),
            self.width * 60 / 100,
            -1,
            self.rows as int,
            self.divisor as int,
        )
    }
}

/// The candidates for the left edge in all bands.
pub open spec fn all_left_candidates(bands: Seq<ScaledGradients>) -> Seq<PeakCandidate>
    decreases bands.len(),
{
    if bands.len() == 0 {
        Seq::empty()
    } else {
        all_left_candidates(bands.drop_last()) + bands.last().left_candidates()
    }
}

/// The candidates for the right edge in all bands.
pub open spec fn all_right_candidates(bands: Seq<ScaledGradients>) -> Seq<PeakCandidate>
    decreases bands.len(),
{
    if bands.len() == 0 {
        Seq::empty()
    } else {
        all_right_candidates(bands.drop_last()) + bands.last().right_candidates()
    }
}

fn append_all(to: &mut Vec<PeakCandidate>, more: &Vec<PeakCandidate>)
    requires
        are_measured(old(to)@),
        are_measured(more@),
    ensures
        final(to)@ == old(to)@ + more@,
        are_measured(final(to)@),
{
    let ghost before = to@;
    let mut i: usize = 0;
    while i < more.len()
        invariant
            i <= more.len(),
            are_measured(before),
            are_measured(more@),
            to@ == before + more@.take(i as int),
        decreases more.len() - i,
    {
        to.push(more[i]);
        i = i + 1;
        assert(to@ =~= before + more@.take(i as int));
    }
    assert(more@.take(i as int) =~= more@);
    assert forall|k: int| 0 <= k < to@.len() implies 0 <= (#[trigger] to@[k]).size && 0
        < to@[k].rows && 0 < to@[k].strongest by {
        if k < before.len() {
            assert(to@[k] == before[k]);
        } else {
            assert(to@[k] == more@[k - before.len()]);
        }
    }
}

/// Finds the columns of the two edges in the bands of the image at all its sizes.
pub fn find_edges(bands: &Vec<ScaledGradients>, iteration: u32) -> (r: Result<
    (i32, i32),
    StageOutcome,
>)
    requires
        forall|i: int| 0 <= i < bands@.len() ==> (#[trigger] bands@[i]).wf(),
    ensures
        is_edge_choice(
            all_left_candidates(bands@),
            all_right_candidates(bands@),
            iteration as int,
            r,
        ),
{
    let mut left: Vec<PeakCandidate> = Vec::new();
    let mut right: Vec<PeakCandidate> = Vec::new();
    let mut i: usize = 0;
    assert(bands@.take(0) =~= Seq::empty());
    while i < bands.len()
        invariant
            forall|i: int| 0 <= i < bands@.len() ==> (#[trigger] bands@[i]).wf(),
            i <= bands.len(),
            left@ == all_left_candidates(bands@.take(i as int)),
            right@ == all_right_candidates(bands@.take(i as int)),
            are_measured(left@),
            are_measured(right@),
        decreases bands.len() - i,
    {
        let band: &ScaledGradients = &bands[i];
        assert(bands@[i as int].wf());
        let p: Vec<i64> = column_profile(&band.gradients, band.width, band.rows);
        let found: (Vec<PeakCandidate>, Vec<PeakCandidate>) = edge_candidates(
            &p,
            band.rows,
            band.divisor,
        );
        append_all(&mut left, &found.0);
        append_all(&mut right, &found.1);
        assert(bands@.take(i as int + 1).drop_last() =~= bands@.take(i as int));
        i = i + 1;
    }
    assert(bands@.take(i as int) =~= bands@);
    choose_edges(&left, &right, iteration)
}

proof fn pairs_are_separated(left: Seq<PeakCandidate>, right: Seq<PeakCandidate>)
    ensures
        forall|i: int|
            0 <= i < all_pairs(left, right).len() ==> (#[trigger] all_pairs(left, right)[i]).right.x_orig
                - all_pairs(left, right)[i].left.x_orig >= 150_000_000,
    decreases left.len(),
{
    if left.len() > 0 {
        pairs_are_separated(left.drop_last(), right);
        pairs_with_are_separated(left.last(), right);
        let before = all_pairs(left.drop_last(), right);
        let row = pairs_with(left.last(), right);
        assert forall|i: int| 0 <= i < all_pairs(left, right).len() implies (
        #[trigger] all_pairs(left, right)[i]).right.x_orig - all_pairs(left, right)[i].left.x_orig
            >= 150_000_000 by {
            if i < before.len() {
                assert(all_pairs(left, right)[i] == before[i]);
            } else {
                assert(all_pairs(left, right)[i] == row[i - before.len()]);
            }
        }
    }
}

proof fn pairs_with_are_separated(left: PeakCandidate, right: Seq<PeakCandidate>)
    ensures
        forall|i: int|
            0 <= i < pairs_with(left, right).len() ==> (#[trigger] pairs_with(
                left,
                right,
            )[i]).right.x_orig - pairs_with(left, right)[i].left.x_orig >= 150_000_000,
    decreases right.len(),
{
    if right.len() > 0 {
        pairs_with_are_separated(left, right.drop_last());
        let before = pairs_with(left, right.drop_last());
        let all = pairs_with(left, right);
        assert forall|i: int| 0 <= i < all.len() implies (#[trigger] all[i]).right.x_orig
            - all[i].left.x_orig >= 150_000_000 by {
            if i < before.len() {
                assert(all[i] == before[i]);
            }
        }
    }
}

/// Whatever pair is chosen, the right edge lies at least 150 pixels to the right of the left
/// one.
pub proof fn chosen_edges_are_separated(
    left: Seq<PeakCandidate>,
    right: Seq<PeakCandidate>,
    i: int,
)
    requires
        all_pairs(left, right).len() <= usize::MAX,
        0 <= i < strongest_pairs(all_pairs(left, right)).len(),
    ensures
        strongest_pairs(all_pairs(left, right))[i].right.x_orig - strongest_pairs(
            all_pairs(left, right),
        )[i].left.x_orig >= 150_000_000,
{
    let pairs = all_pairs(left, right);
    pairs_are_separated(left, right);
    let keys = ranks(by_pair_strength(pairs), pairs.len());
    crate::order::ascending_order_exists(keys);
    assert(ascending_order(keys)[i] < pairs.len());
}

/// Where no pair of edges is left, none is left in any later attempt, for the same reason; and no
/// attempt asks for another one.
pub proof fn exhausted_edges_stay_exhausted(
    left: Seq<PeakCandidate>,
    right: Seq<PeakCandidate>,
    iteration: int,
    r: Result<(i32, i32), StageOutcome>,
    later: int,
    s: Result<(i32, i32), StageOutcome>,
)
    requires
        iteration <= later,
        is_edge_choice(left, right, iteration, r),
        is_edge_choice(left, right, later, s),
    ensures
        r matches Err(o) ==> o is Exhausted,
        r matches Err(StageOutcome::Exhausted(a)) ==> s matches Err(StageOutcome::Exhausted(b)) && a@
            == b@,
{
}

/// A piece of a line that was found in an edge's surroundings.
#[derive(Debug, Clone, Copy, PartialEq, Eq, Structural)]
pub struct Segment {
    pub x1: i32,
    pub y1: i32,
    pub x2: i32,
    pub y2: i32,
}

/// The columns within 25 pixels of a column, as far as they lie in the image: the first one, and
/// their number. There are none where they are fewer than ten.
pub open spec fn strip(center_x: int, image_width: int) -> Option<(i32, i32)> {
    let x0 = max(center_x - 25, 0);
    let x1 = min(center_x + 25, image_width);
    if x1 - x0 < 10 {
        None
    } else {
        Some((x0 as i32, (x1 - x0) as i32))
    }
}

/// The columns around an edge that are searched for lines: 25 to each side, as far as they lie
/// in the image, given as the first one and their number. Fewer than ten are not searched.
pub fn strip_around(center_x: i32, image_width: i32) -> (r: Option<(i32, i32)>)
    requires
        image_width >= 0,
    ensures
        r == strip(center_x as int, image_width as int),
{
    let x0: i64 = crate::fixed::max_exec(center_x as i64 - 25, 0);
    let x1: i64 = crate::fixed::min_exec(center_x as i64 + 25, image_width as i64);
    if x1 - x0 < 10 {
        None
    } else {
        Some((x0 as i32, (x1 - x0) as i32))
    }
}

/// The segment from its upper to its lower end.
pub open spec fn downward(s: Segment) -> Segment {
    if s.y1 <= s.y2 {
        s
    } else {
        Segment { x1: s.x2, y1: s.y2, x2: s.x1, y2: s.y1 }
    }
}

/// The segment leans to the side of its edge: the left edge leans left going down, and the right
/// one right.
pub open spec fn leans(s: Segment, to_left: bool) -> bool {
    if to_left {
        s.x2 <= s.x1
    } else {
        s.x2 >= s.x1
    }
}

/// The segments that lean to the side of their edge, each from its upper to its lower end.
pub open spec fn leaning(segments: Seq<Segment>, to_left: bool) -> Seq<Segment>
    decreases segments.len(),
{
    if segments.len() == 0 {
        Seq::empty()
    } else {
        let before = leaning(segments.drop_last(), to_left);
        let s = downward(segments.last());
        if leans(s, to_left) {
            before.push(s)
        } else {
            before
        }
    }
}

/// The segments that lean to the side of their edge, each from its upper to its lower end.
pub fn leaning_segments(segments: &Vec<Segment>, is_negative: bool) -> (r: Vec<Segment>)
    ensures
        r@ == leaning(segments@, is_negative),
{
    let mut r: Vec<Segment> = Vec::new();
    let mut i: usize = 0;
    assert(segments@.take(0) =~= Seq::empty());
    while i < segments.len()
        invariant
            i <= segments.len(),
            r@ == leaning(segments@.take(i as int), is_negative),
        decreases segments.len() - i,
    {
        assert(segments@.take(i as int + 1).drop_last() =~= segments@.take(i as int));
        let g: Segment = segments[i];
        let s: Segment = if g.y1 <= g.y2 {
            g
        } else {
            Segment { x1: g.x2, y1: g.y2, x2: g.x1, y2: g.y1 }
        };
        let keep: bool = if is_negative {
            s.x2 <= s.x1
        } else {
            s.x2 >= s.x1
        };
        if keep {
            r.push(s);
        }
        i = i + 1;
    }
    assert(segments@.take(i as int) =~= segments@);
    r
}

/// The square of the length of a segment.
pub open spec fn square_length(s: Segment) -> int {
    (s.x2 - s.x1) * (s.x2 - s.x1) + (s.y2 - s.y1) * (s.y2 - s.y1)
}

/// The square of the length of the longest segment, which counts as at least one pixel.
pub open spec fn longest_square(segments: Seq<Segment>) -> int
    decreases segments.len(),
{
    if segments.len() == 0 {
        1
    } else {
        max(longest_square(segments.drop_last()), square_length(segments.last()))
    }
}

/// How far an angle is off the expected one, twenty degrees at most.
pub open spec fn turn_off(angle: int, expected: int) -> int {
    min(abs(angle - expected), 20_000_000)
}

/// Segment `s` fits an edge better than `t`. A segment gets six tenths for an angle near the
/// expected one, falling to nothing at twenty degrees, and four tenths for its length as a share
/// of that of the longest, whose square is `longest`.
pub open spec fn fits_better(
    s: Segment,
    angle: int,
    t: Segment,
    other_angle: int,
    expected: int,
    longest: int,
) -> bool {
    let unit = 40_000_000 * 40_000_000;
    let q = 3 * (turn_off(angle, expected) - turn_off(other_angle, expected));
    let x = unit * square_length(s);
    let y = unit * square_length(t);
    let z = q * q * longest;
    if q >= 0 {
        exceeds_sum(x, y, z)
    } else {
        !reaches_sum(y, x, z)
    }
}

/// The place of the best of the first `upto` segments, the first of equally good ones.
pub open spec fn best_segment(
    segments: Seq<Segment>,
    angles: Seq<i64>,
    expected: int,
    longest: int,
    upto: int,
) -> int
    decreases upto,
{
    if upto <= 1 {
        0
    } else {
        let best = best_segment(segments, angles, expected, longest, upto - 1);
        if fits_better(
            segments[upto - 1],
            angles[upto - 1] as int,
            segments[best],
            angles[best] as int,
            expected,
            longest,
        ) {
            upto - 1
        } else {
            best
        }
    }
}

fn square_length_of(s: &Segment) -> (r: i128)
    ensures
        r == square_length(*s),
        0 <= r <= 0x2_0000_0000_0000_0000,
{
    let dx: i128 = s.x2 as i128 - s.x1 as i128;
    let dy: i128 = s.y2 as i128 - s.y1 as i128;
    assert(0 <= dx * dx <= 0x1_0000_0000 * 0x1_0000_0000) by (nonlinear_arith)
        requires
            -0x1_0000_0000 <= dx <= 0x1_0000_0000,
    ;
    assert(0 <= dy * dy <= 0x1_0000_0000 * 0x1_0000_0000) by (nonlinear_arith)
        requires
            -0x1_0000_0000 <= dy <= 0x1_0000_0000,
    ;
    dx * dx + dy * dy
}

fn turned_off(angle: i64, expected: i64) -> (r: i128)
    ensures
        r == turn_off(angle as int, expected as int),
        0 <= r <= 20_000_000,
{
    let d: i128 = abs_exec(angle as i128 - expected as i128);
    if d < 20_000_000 {
        d
    } else {
        20_000_000
    }
}

fn does_fit_better(
    s: &Segment,
    angle: i64,
    t: &Segment,
    other_angle: i64,
    expected: i64,
    longest: i128,
) -> (r: bool)
    ensures
        r == fits_better(
            *s,
            angle as int,
            *t,
            other_angle as int,
            expected as int,
            longest as int,
        ),
{
    let unit: Integer = Integer::new(40_000_000 * 40_000_000);
    let q: i128 = 3 * (turned_off(angle, expected) - turned_off(other_angle, expected));
    let wide: Integer = Integer::new(q);
    let x: Integer = unit.times(&Integer::new(square_length_of(s)));
    let y: Integer = unit.times(&Integer::new(square_length_of(t)));
    let z: Integer = wide.times(&wide).times(&Integer::new(longest));
    if q >= 0 {
        does_exceed_sum(&x, &y, &z)
    } else {
        !does_reach_sum(&y, &x, &z)
    }
}

/// How far an angle is off depends only on its difference from the expected one: it is nothing
/// exactly where the two are the same, turning both changes nothing, it does not matter to which
/// side, and it grows with the difference up to twenty degrees and no further.
pub proof fn turns_count_from_the_expected_angle(angle: int, other: int, expected: int, turn: int)
    ensures
        turn_off(angle, expected) == 0 <==> angle == expected,
        turn_off(angle + turn, expected + turn) == turn_off(angle, expected),
        turn_off(expected + turn, expected) == turn_off(expected - turn, expected),
        0 <= turn <= 20_000_000 ==> turn_off(expected + turn, expected) == turn,
        turn >= 20_000_000 ==> turn_off(expected + turn, expected) == 20_000_000,
{
}

/// What a segment is worth by its length and its angle, as a root and a number that are added: it
/// fits better than another exactly where it is worth more.
spec fn worth(s: Segment, angle: int, expected: int, longest: int) -> (int, int) {
    (
        40_000_000 * 40_000_000 * square_length(s) * longest,
        -(3 * turn_off(angle, expected) * longest),
    )
}

proof fn lengths_are_not_negative(s: Segment)
    ensures
        square_length(s) >= 0,
{
    assert((s.x2 - s.x1) * (s.x2 - s.x1) >= 0 && (s.y2 - s.y1) * (s.y2 - s.y1) >= 0)
        by (nonlinear_arith);
}

proof fn worths_are_not_negative(s: Segment, angle: int, expected: int, longest: int)
    requires
        longest > 0,
    ensures
        worth(s, angle, expected, longest).0 >= 0,
{
    lengths_are_not_negative(s);
    let n = square_length(s);
    assert(40_000_000 * 40_000_000 * n * longest >= 0) by (nonlinear_arith)
        requires
            n >= 0,
            longest > 0,
    ;
}

/// Roots of sums are compared alike in every unit.
proof fn units_do_not_matter(x: int, y: int, z: int, k: int)
    requires
        k > 0,
    ensures
        exceeds_sum(x * k, y * k, z * k) == exceeds_sum(x, y, z),
        reaches_sum(x * k, y * k, z * k) == reaches_sum(x, y, z),
{
    let t = x - y - z;
    let u = x * k - y * k - z * k;
    assert(u == t * k) by (nonlinear_arith)
        requires
            u == x * k - y * k - z * k,
            t == x - y - z,
    ;
    assert(u > 0 <==> t > 0) by (nonlinear_arith)
        requires
            u == t * k,
            k > 0,
    ;
    assert(u >= 0 <==> t >= 0) by (nonlinear_arith)
        requires
            u == t * k,
            k > 0,
    ;
    let a = t * t;
    let b = 4 * (y * z);
    let m = k * k;
    assert(m > 0) by (nonlinear_arith)
        requires
            m == k * k,
            k > 0,
    ;
    assert(u * u == a * m && 4 * ((y * k) * (z * k)) == b * m) by (nonlinear_arith)
        requires
            u == t * k,
            a == t * t,
            b == 4 * (y * z),
            m == k * k,
    ;
    assert(a * m > b * m <==> a > b) by (nonlinear_arith)
        requires
            m > 0,
    ;
    assert(a * m >= b * m <==> a >= b) by (nonlinear_arith)
        requires
            m > 0,
    ;
}

proof fn better_segments_are_worth_more(
    s: Segment,
    angle: int,
    t: Segment,
    other_angle: int,
    expected: int,
    longest: int,
)
    requires
        longest > 0,
    ensures
        ({
            let a = worth(s, angle, expected, longest);
            let b = worth(t, other_angle, expected, longest);
            fits_better(s, angle, t, other_angle, expected, longest) == !is_at_most(
                a.0,
                a.1,
                b.0,
                b.1,
            )
        }),
{
    let unit = 40_000_000int * 40_000_000;
    let q = 3 * (turn_off(angle, expected) - turn_off(other_angle, expected));
    let x = unit * square_length(s);
    let y = unit * square_length(t);
    let z = q * q * longest;
    let a = worth(s, angle, expected, longest);
    let b = worth(t, other_angle, expected, longest);
    let k = b.1 - a.1;
    let (ds, dt) = (turn_off(angle, expected), turn_off(other_angle, expected));
    assert(k == q * longest) by (nonlinear_arith)
        requires
            k == -(3 * dt * longest) + 3 * ds * longest,
            q == 3 * (ds - dt),
    ;
    assert(z * longest == k * k) by (nonlinear_arith)
        requires
            z == q * q * longest,
            k == q * longest,
    ;
    assert(k >= 0 <==> q >= 0) by (nonlinear_arith)
        requires
            k == q * longest,
            longest > 0,
    ;
    assert(a.0 == x * longest && b.0 == y * longest);
    units_do_not_matter(x, y, z, longest);
    units_do_not_matter(y, x, z, longest);
}

proof fn the_best_segment_is_worth_most(
    segments: Seq<Segment>,
    angles: Seq<i64>,
    expected: int,
    longest: int,
    upto: int,
)
    requires
        longest > 0,
        1 <= upto <= segments.len(),
        segments.len() == angles.len(),
    ensures
        ({
            let best = best_segment(segments, angles, expected, longest, upto);
            let b = worth(segments[best], angles[best] as int, expected, longest);
            &&& 0 <= best < upto
            &&& forall|i: int|
                0 <= i < upto ==> is_at_most(
                    worth(#[trigger] segments[i], angles[i] as int, expected, longest).0,
                    worth(segments[i], angles[i] as int, expected, longest).1,
                    b.0,
                    b.1,
                )
        }),
    decreases upto,
{
    let best = best_segment(segments, angles, expected, longest, upto);
    let b = worth(segments[best], angles[best] as int, expected, longest);
    worths_are_not_negative(segments[best], angles[best] as int, expected, longest);
    sums_are_comparable(b.0, b.1, b.0, b.1);
    if upto > 1 {
        the_best_segment_is_worth_most(segments, angles, expected, longest, upto - 1);
        let had = best_segment(segments, angles, expected, longest, upto - 1);
        let h = worth(segments[had], angles[had] as int, expected, longest);
        let l = worth(segments[upto - 1], angles[upto - 1] as int, expected, longest);
        worths_are_not_negative(segments[had], angles[had] as int, expected, longest);
        worths_are_not_negative(segments[upto - 1], angles[upto - 1] as int, expected, longest);
        better_segments_are_worth_more(
            segments[upto - 1],
            angles[upto - 1] as int,
            segments[had],
            angles[had] as int,
            expected,
            longest,
        );
        sums_are_comparable(l.0, l.1, h.0, h.1);
        assert(is_at_most(h.0, h.1, b.0, b.1));
        assert forall|i: int| 0 <= i < upto implies is_at_most(
            worth(#[trigger] segments[i], angles[i] as int, expected, longest).0,
            worth(segments[i], angles[i] as int, expected, longest).1,
            b.0,
            b.1,
        ) by {
            if i < upto - 1 {
                let w = worth(segments[i], angles[i] as int, expected, longest);
                worths_are_not_negative(segments[i], angles[i] as int, expected, longest);
                sums_are_ordered(w.0, w.1, h.0, h.1, b.0, b.1);
            }
        }
    }
}

proof fn the_longest_is_no_shorter(segments: Seq<Segment>)
    ensures
        longest_square(segments) >= 1,
        forall|i: int|
            0 <= i < segments.len() ==> square_length(#[trigger] segments[i]) <= longest_square(
                segments,
            ),
        longest_square(segments) == 1 || exists|i: int|
            0 <= i < segments.len() && square_length(#[trigger] segments[i]) == longest_square(
                segments,
            ),
    decreases segments.len(),
{
    if segments.len() > 0 {
        let rest = segments.drop_last();
        the_longest_is_no_shorter(rest);
        assert forall|i: int| 0 <= i < segments.len() implies square_length(#[trigger] segments[i])
            <= longest_square(segments) by {
            if i < rest.len() {
                assert(rest[i] == segments[i]);
            }
        }
        if longest_square(segments) != 1 {
            if longest_square(rest) >= square_length(segments.last()) {
                let i = choose|i: int|
                    0 <= i < rest.len() && square_length(#[trigger] rest[i]) == longest_square(rest);
                assert(segments[i] == rest[i]);
            } else {
                assert(segments[segments.len() - 1] == segments.last());
            }
        }
    }
}

/// Of some segments the edge is one that no other outdoes. None that is as long lies nearer to the
/// expected angle, as far as twenty degrees off; none that lies as near is longer; and so a segment
/// that has exactly the expected angle gives way to a longer one alone.
pub proof fn edges_follow_the_expected_angle(
    segments: Seq<Segment>,
    angles: Seq<i64>,
    expected: int,
    i: int,
)
    requires
        segments.len() == angles.len(),
        0 <= i < segments.len(),
    ensures
        ({
            let best = best_segment(
                segments,
                angles,
                expected,
                longest_square(segments),
                segments.len() as int,
            );
            let (b, s) = (segments[best], segments[i]);
            let long = (b.x2 - b.x1) * (b.x2 - b.x1) + (b.y2 - b.y1) * (b.y2 - b.y1);
            let other = (s.x2 - s.x1) * (s.x2 - s.x1) + (s.y2 - s.y1) * (s.y2 - s.y1);
            let off = abs(angles[best] - expected);
            let other_off = abs(angles[i] - expected);
            &&& 0 <= best < segments.len()
            &&& other >= long ==> off <= other_off || other_off >= 20_000_000
            &&& other_off <= off ==> other <= long
            &&& angles[i] == expected && other >= long ==> angles[best] == expected
        }),
{
    let longest = longest_square(segments);
    the_longest_is_no_shorter(segments);
    the_best_segment_is_worth_most(segments, angles, expected, longest, segments.len() as int);
    let best = best_segment(segments, angles, expected, longest, segments.len() as int);
    let b = worth(segments[best], angles[best] as int, expected, longest);
    let w = worth(segments[i], angles[i] as int, expected, longest);
    let (l, o) = (square_length(segments[best]), square_length(segments[i]));
    let (d, e) = (turn_off(angles[best] as int, expected), turn_off(angles[i] as int, expected));
    let k = b.1 - w.1;
    assert(k == 3 * (e - d) * longest) by (nonlinear_arith)
        requires
            k == -(3 * d * longest) + 3 * e * longest,
    ;
    assert(is_at_most(w.0, w.1, b.0, b.1));
    worths_are_not_negative(segments[best], angles[best] as int, expected, longest);
    worths_are_not_negative(segments[i], angles[i] as int, expected, longest);
    let unit = 40_000_000int * 40_000_000;
    assert(o >= l ==> w.0 >= b.0) by (nonlinear_arith)
        requires
            w.0 == unit * o * longest,
            b.0 == unit * l * longest,
            longest > 0,
            unit > 0,
    ;
    assert(o > l ==> w.0 > b.0) by (nonlinear_arith)
        requires
            w.0 == unit * o * longest,
            b.0 == unit * l * longest,
            longest > 0,
            unit > 0,
    ;
    if o >= l && d > e {
        assert(k < 0) by (nonlinear_arith)
            requires
                k == 3 * (e - d) * longest,
                d > e,
                longest > 0,
        ;
        assert(k * k > 0) by (nonlinear_arith)
            requires
                k < 0,
        ;
        assert(false);
    }
    if e <= d && o > l {
        assert(k <= 0) by (nonlinear_arith)
            requires
                k == 3 * (e - d) * longest,
                d >= e,
                longest > 0,
        ;
        assert(k * k >= 0) by (nonlinear_arith);
        if k == 0 {
            let t = w.0 - b.0;
            assert(k * k == 0 && b.0 * (k * k) == 0 && t * t > 0) by (nonlinear_arith)
                requires
                    k == 0,
                    t > 0,
            ;
            assert(exceeds_sum(w.0, b.0, k * k));
        }
        assert(false);
    }
}

/// A vertical line through the whole height of the image.
pub open spec fn upright(x: int, image_height: int) -> Line {
    Line {
        x1: (x * 1_000_000) as i64,
        y1: 0,
        x2: (x * 1_000_000) as i64,
        y2: (image_height * 1_000_000) as i64,
    }
}

/// A vertical line through the whole height of the image.
pub fn upright_line(x: i32, image_height: i32) -> (r: Line)
    ensures
        r == upright(x as int, image_height as int),
{
    Line {
        x1: x as i64 * 1_000_000,
        y1: 0,
        x2: x as i64 * 1_000_000,
        y2: image_height as i64 * 1_000_000,
    }
}

/// The edge near column `center_x`: the best of the leaning segments, which were found in the
/// strip that begins at column `strip_x`, or an upright line where there is none. `angles` holds
/// the angle of each segment from the vertical.
pub open spec fn edge_of(
    center_x: int,
    image_height: int,
    strip_x: int,
    segments: Seq<Segment>,
    angles: Seq<i64>,
    expected_perp: int,
) -> Line {
    if segments.len() == 0 {
        upright(center_x, image_height)
    } else {
        let s = segments[best_segment(
            segments,
            angles,
            expected_perp,
            longest_square(segments),
            segments.len() as int,
        )];
        Line {
            x1: ((s.x1 + strip_x) * 1_000_000) as i64,
            y1: (s.y1 * 1_000_000) as i64,
            x2: ((s.x2 + strip_x) * 1_000_000) as i64,
            y2: (s.y2 * 1_000_000) as i64,
        }
    }
}

/// The edge near a column, of these leaning segments in the strip around it.
pub fn best_edge(
    center_x: i32,
    image_height: i32,
    strip_x: i32,
    segments: &Vec<Segment>,
    angles: &Vec<i64>,
    expected_perp: i64,
) -> (r: Line)
    requires
        angles.len() == segments.len(),
    ensures
        r == edge_of(
            center_x as int,
            image_height as int,
            strip_x as int,
            segments@,
            angles@,
            expected_perp as int,
        ),
{
    if segments.len() == 0 {
        return upright_line(center_x, image_height);
    }
    let mut longest: i128 = 1;
    let mut i: usize = 0;
    assert(segments@.take(0) =~= Seq::empty());
    while i < segments.len()
        invariant
            i <= segments.len(),
            longest == longest_square(segments@.take(i as int)),
        decreases segments.len() - i,
    {
        assert(segments@.take(i as int + 1).drop_last() =~= segments@.take(i as int));
        let length: i128 = square_length_of(&segments[i]);
        if longest < length {
            longest = length;
        }
        i = i + 1;
    }
    assert(segments@.take(i as int) =~= segments@);
    let mut best: usize = 0;
    let mut j: usize = 1;
    while j < segments.len()
        invariant
            angles.len() == segments.len(),
            1 <= j <= segments.len(),
            best < j,
            best == best_segment(
                segments@,
                angles@,
                expected_perp as int,
                longest as int,
                j as int,
            ),
        decreases segments.len() - j,
    {
        if does_fit_better(
            &segments[j],
            angles[j],
            &segments[best],
            angles[best],
            expected_perp,
            longest,
        ) {
            best = j;
        }
        j = j + 1;
    }
    let s: Segment = segments[best];
    Line {
        x1: (s.x1 as i64 + strip_x as i64) * 1_000_000,
        y1: s.y1 as i64 * 1_000_000,
        x2: (s.x2 as i64 + strip_x as i64) * 1_000_000,
        y2: s.y2 as i64 * 1_000_000,
    }
}

/// The edge near a column may be this one, where the segments in the strip around it were found.
pub open spec fn may_be_edge<A: Fn(&Segment) -> i64>(
    angle_of: A,
    center_x: int,
    is_negative: bool,
    image_height: int,
    strip_x: int,
    found: Seq<Segment>,
    expected_perp: int,
    line: Line,
) -> bool {
    let segments = leaning(found, is_negative);
    exists|angles: Seq<i64>| #[trigger]
        are_angles_of(angle_of, segments, angles) && line == edge_of(
            center_x,
            image_height,
            strip_x,
            segments,
            angles,
            expected_perp,
        )
}

/// `angle_of` may give these angles for the segments.
pub open spec fn are_angles_of<A: Fn(&Segment) -> i64>(
    angle_of: A,
    segments: Seq<Segment>,
    angles: Seq<i64>,
) -> bool {
    &&& angles.len() == segments.len()
    &&& forall|i: int|
        0 <= i < angles.len() ==> call_ensures(angle_of, (&segments[i],), #[trigger] angles[i])
}

/// The edge near column `center_x` of an image: an upright line where there is no strip around
/// the column or no segment in it leans to the side of the edge, and otherwise the best of those
/// that do. `search` gives the segments in a strip, and `angle_of` the angle of a segment from
/// the vertical.
pub fn refine_boundary_slope<
    E,
    S: Fn(i32, i32) -> Result<Vec<Segment>, E>,
    A: Fn(&Segment) -> i64,
>(
    center_x: i32,
    is_negative: bool,
    image_width: i32,
    image_height: i32,
    expected_perp: i64,
    search: &S,
    angle_of: &A,
) -> (r: Result<Line, E>)
    requires
        image_width >= 0,
        forall|x: i32, width: i32| #[trigger] call_requires(*search, (x, width)),
        forall|s: &Segment| #[trigger] call_requires(*angle_of, (s,)),
    ensures
        match strip(center_x as int, image_width as int) {
            None => r == Ok::<Line, E>(upright(center_x as int, image_height as int)),
            Some((x, width)) => match r {
                Ok(line) => exists|found: Vec<Segment>|
                    #![trigger call_ensures(*search, (x, width), Ok(found))]
                    call_ensures(*search, (x, width), Ok(found)) && may_be_edge(
                        *angle_of,
                        center_x as int,
                        is_negative,
                        image_height as int,
                        x as int,
                        found@,
                        expected_perp as int,
                        line,
                    ),
                Err(e) => call_ensures(*search, (x, width), Err(e)),
            },
        },
{
    let (x, width): (i32, i32) = match strip_around(center_x, image_width) {
        Some(strip) => strip,
        None => return Ok(upright_line(center_x, image_height)),
    };
    let found: Vec<Segment> = match search(x, width) {
        Ok(found) => found,
        Err(e) => return Err(e),
    };
    let segments: Vec<Segment> = leaning_segments(&found, is_negative);
    let mut angles: Vec<i64> = Vec::new();
    let mut i: usize = 0;
    while i < segments.len()
        invariant
            i <= segments.len(),
            angles.len() == i,
            forall|s: &Segment| #[trigger] call_requires(*angle_of, (s,)),
            forall|j: int|
                0 <= j < i ==> call_ensures(*angle_of, (&segments[j],), #[trigger] angles[j]),
        decreases segments.len() - i,
    {
        angles.push(angle_of(&segments[i]));
        i = i + 1;
    }
    assert(are_angles_of(*angle_of, segments@, angles@));
    Ok(best_edge(center_x, image_height, x, &segments, &angles, expected_perp))
}

/// The angle from the vertical that the edges are expected to have beside these lines.
pub open spec fn perpendicular(lines: Option<LinePair>) -> int {
    match lines {
        Some(l) => clamped(l.avg_theta - 90_000_000),
        None => 0,
    }
}

/// The angle from the vertical that the edges are expected to have: the reference lines are
/// perpendicular to it.
pub fn expected_perpendicular(lines: &Option<LinePair>) -> (r: i64)
    ensures
        r == perpendicular(*lines),
{
    match lines {
        Some(l) => clamp_to_fixed(l.avg_theta as i128 - 90_000_000),
        None => 0,
    }
}

/// Every band has all its gradients.
pub open spec fn bands_are_whole(bands: Seq<ScaledGradients>) -> bool {
    forall|i: int| 0 <= i < bands.len() ==> (#[trigger] bands[i]).wf()
}

/// `pair` is what `edge` may give for the two columns.
pub open spec fn may_be_edges<C, E, L: Fn(&C, i32, bool, i64) -> Result<Line, E>>(
    edge: L,
    image: C,
    columns: (i32, i32),
    angle: i64,
    pair: VerticalPair,
) -> bool {
    &&& call_ensures(edge, (&image, columns.0, true, angle), Ok(pair.left))
    &&& call_ensures(edge, (&image, columns.1, false, angle), Ok(pair.right))
}

/// `edge` may fail so for the two columns: near the left one, or near the right one once there is
/// an edge near the left one.
pub open spec fn edges_may_fail<C, E, L: Fn(&C, i32, bool, i64) -> Result<Line, E>>(
    edge: L,
    image: C,
    columns: (i32, i32),
    angle: i64,
    error: E,
) -> bool {
    ||| call_ensures(edge, (&image, columns.0, true, angle), Err(error))
    ||| exists|left: Line|
        #![trigger call_ensures(edge, (&image, columns.0, true, angle), Ok(left))]
        call_ensures(edge, (&image, columns.0, true, angle), Ok(left)) && call_ensures(
            edge,
            (&image, columns.1, false, angle),
            Err(error),
        )
}

/// The search for the edges may fail so: in `prepare`, or for the columns that are chosen among
/// the bands that it gives.
pub open spec fn attempt_may_fail<
    C,
    E,
    B: Fn() -> Result<(Vec<ScaledGradients>, C), E>,
    L: Fn(&C, i32, bool, i64) -> Result<Line, E>,
>(before: StateView, iteration: int, prepare: B, edge: L, error: E) -> bool {
    ||| call_ensures(prepare, (), Err(error))
    ||| exists|bands: Vec<ScaledGradients>, image: C, columns: (i32, i32)|
        #![trigger call_ensures(prepare, (), Ok((bands, image))),
            edges_may_fail(
                edge,
                image,
                columns,
                perpendicular(before.lines) as i64,
                error,
            )]
        call_ensures(prepare, (), Ok((bands, image))) && is_edge_choice(
            all_left_candidates(bands@),
            all_right_candidates(bands@),
            iteration,
            Ok(columns),
        ) && edges_may_fail(edge, image, columns, perpendicular(before.lines) as i64, error)
}

/// An attempt goes on from the gradients in these bands to this outcome.
pub open spec fn settles_edges<C, E, L: Fn(&C, i32, bool, i64) -> Result<Line, E>>(
    edge: L,
    before: StateView,
    iteration: int,
    bands: Seq<ScaledGradients>,
    image: C,
    choice: Result<(i32, i32), StageOutcome>,
    after: StateView,
    outcome: StageOutcome,
) -> bool {
    &&& is_edge_choice(all_left_candidates(bands), all_right_candidates(bands), iteration, choice)
    &&& match choice {
        Err(o) => outcome == o && after == before,
        Ok(columns) => {
            &&& outcome is Success
            &&& after.verticals matches Some(pair) && may_be_edges(
                edge,
                image,
                columns,
                perpendicular(before.lines) as i64,
                pair,
            )
            &&& after == (StateView { verticals: after.verticals, ..before })
        },
    }
}

/// What an attempt may do and return on an image of this size, where `prepare` gives the bands
/// and `edge` the edge near a column.
pub open spec fn is_attempt<
    C,
    E,
    B: Fn() -> Result<(Vec<ScaledGradients>, C), E>,
    L: Fn(&C, i32, bool, i64) -> Result<Line, E>,
>(
    before: StateView,
    width: int,
    height: int,
    iteration: int,
    prepare: B,
    edge: L,
    after: StateView,
    r: Result<(StageOutcome, ImageOutput), E>,
) -> bool {
    if before.crop is None {
        &&& r matches Ok(x) && x.1 is Passthrough && is_exhausted(
            x.0,
            "no crop region from Stage 1"@,
        )
        &&& after == before
    } else if width < 50 || height < 50 {
        &&& r matches Ok(x) && x.1 is Passthrough && is_exhausted(x.0, "source image too small"@)
        &&& after == before
    } else {
        match r {
            Ok((outcome, output)) => {
                &&& output is Passthrough
                &&& exists|
                    bands: Vec<ScaledGradients>,
                    image: C,
                    choice: Result<(i32, i32), StageOutcome>,
                |
                    #![trigger settles_edges(
                        edge,
                        before,
                        iteration,
                        bands@,
                        image,
                        choice,
                        after,
                        outcome,
                    )]
                    call_ensures(prepare, (), Ok((bands, image))) && settles_edges(
                        edge,
                        before,
                        iteration,
                        bands@,
                        image,
                        choice,
                        after,
                        outcome,
                    )
            },
            Err(e) => {
                &&& after == before
                &&& attempt_may_fail(before, iteration, prepare, edge, e)
            },
        }
    }
}

/// The stage that finds the edges.
#[derive(Debug, Clone, Copy, PartialEq, Eq, Structural)]
pub struct FindVerticals;

impl FindVerticals {
    /// An attempt of the stage on an image of this size. `prepare` gives the gradients in the bands,
    /// and the image that `edge` needs; `edge` gives the edge near a column, the left one where it
    /// is asked for, with the angle from the vertical that the edges are expected to have. A failed
    /// attempt leaves the state as it was; one that succeeds changes the edges alone. No attempt
    /// changes the image.
    pub fn run<
        C,
        E,
        B: Fn() -> Result<(Vec<ScaledGradients>, C), E>,
        L: Fn(&C, i32, bool, i64) -> Result<Line, E>,
    >(
        &self,
        state: &mut PipelineState,
        width: u32,
        height: u32,
        iteration: u32,
        prepare: &B,
        edge: &L,
    ) -> (r: Result<(StageOutcome, ImageOutput), E>)
        requires
            call_requires(*prepare, ()),
            forall|bands: Vec<ScaledGradients>, image: C|
                #[trigger] call_ensures(*prepare, (), Ok((bands, image))) ==> bands_are_whole(bands@),
            forall|image: &C, x: i32, is_left: bool, angle: i64| #[trigger]
                call_requires(*edge, (image, x, is_left, angle)),
        ensures
            is_attempt(
                old(state)@,
                width as int,
                height as int,
                iteration as int,
                *prepare,
                *edge,
                final(state)@,
                r,
            ),
            match r {
                Ok((StageOutcome::Success, _)) => final(state)@ == (StateView {
                    verticals: final(state)@.verticals,
                    ..old(state)@
                }),
                _ => final(state)@ == old(state)@,
            },
    {
        if let Some(outcome) = check_source(state.crop.is_some(), width, height) {
            return Ok((outcome, ImageOutput::Passthrough));
        }
        let angle: i64 = expected_perpendicular(&state.lines);
        assert(angle == perpendicular(old(state)@.lines) as i64);
        match prepare() {
            Err(e) => Err(e),
            Ok((bands, image)) => {
                let choice: Result<(i32, i32), StageOutcome> = find_edges(&bands, iteration);
                match choice {
                    Err(o) => {
                        assert(settles_edges(
                            *edge,
                            old(state)@,
                            iteration as int,
                            bands@,
                            image,
                            choice,
                            state@,
                            o,
                        ));
                        Ok((o, ImageOutput::Passthrough))
                    },
                    Ok(columns) => {
                        let left: Line = match edge(&image, columns.0, true, angle) {
                            Ok(line) => line,
                            Err(e) => {
                                assert(edges_may_fail(*edge, image, columns, angle, e));
                                return Err(e);
                            },
                        };
                        let right: Line = match edge(&image, columns.1, false, angle) {
                            Ok(line) => line,
                            Err(e) => {
                                assert(call_ensures(*edge, (&image, columns.0, true, angle), Ok(left)));
                                assert(edges_may_fail(*edge, image, columns, angle, e));
                                return Err(e);
                            },
                        };
                        state.verticals = Some(VerticalPair { left, right });
                        assert(settles_edges(
                            *edge,
                            old(state)@,
                            iteration as int,
                            bands@,
                            image,
                            choice,
                            state@,
                            StageOutcome::Success,
                        ));
                        Ok((StageOutcome::Success, ImageOutput::Passthrough))
                    },
                }
            },
        }
    }
}

/// An attempt that comes to an end leaves the image as it is and succeeds or is exhausted: it
/// never asks for another attempt. An exhausted one leaves the state as it was, and without a
/// crop or on a small image it is exhausted; one that succeeds has found both edges and changed
/// nothing else.
pub proof fn attempts_succeed_or_are_exhausted<
    C,
    E,
    B: Fn() -> Result<(Vec<ScaledGradients>, C), E>,
    L: Fn(&C, i32, bool, i64) -> Result<Line, E>,
>(
    before: StateView,
    width: int,
    height: int,
    iteration: int,
    prepare: B,
    edge: L,
    after: StateView,
    r: Result<(StageOutcome, ImageOutput), E>,
)
    requires
        is_attempt(before, width, height, iteration, prepare, edge, after, r),
    ensures
        r matches Ok((outcome, output)) ==> {
            &&& output is Passthrough
            &&& outcome is Success || outcome is Exhausted
            &&& outcome is Exhausted ==> after == before
            &&& outcome is Success ==> after.verticals is Some && after == (StateView {
                verticals: after.verticals,
                ..before
            })
        },
        r is Err ==> after == before,
        before.crop is None || width < 50 || height < 50 ==> (r matches Ok(x) && x.0 is Exhausted),
{
}

/// The two lists of bands hold the same gradients.
pub open spec fn same_gradients(a: Seq<ScaledGradients>, b: Seq<ScaledGradients>) -> bool {
    &&& a.len() == b.len()
    &&& forall|i: int|
        0 <= i < a.len() ==> {
            &&& (#[trigger] a[i]).gradients@ == b[i].gradients@
            &&& a[i].width == b[i].width
            &&& a[i].rows == b[i].rows
            &&& a[i].divisor == b[i].divisor
        }
}

proof fn same_gradients_have_the_same_candidates(a: Seq<ScaledGradients>, b: Seq<ScaledGradients>)
    requires
        same_gradients(a, b),
    ensures
        all_left_candidates(a) == all_left_candidates(b),
        all_right_candidates(a) == all_right_candidates(b),
    decreases a.len(),
{
    if a.len() > 0 {
        let (x, y) = (a.drop_last(), b.drop_last());
        assert forall|i: int| 0 <= i < x.len() implies {
            &&& (#[trigger] x[i]).gradients@ == y[i].gradients@
            &&& x[i].width == y[i].width
            &&& x[i].rows == y[i].rows
            &&& x[i].divisor == y[i].divisor
        } by {
            assert(x[i] == a[i] && y[i] == b[i]);
        }
        same_gradients_have_the_same_candidates(x, y);
        assert(a[a.len() - 1].gradients@ == b[a.len() - 1].gradients@);
    }
}

/// Whenever `prepare` succeeds it gives the same gradients, as it does of one image.
pub open spec fn prepares_one_image<C, E, B: Fn() -> Result<(Vec<ScaledGradients>, C), E>>(
    prepare: B,
) -> bool {
    forall|a: Vec<ScaledGradients>, x: C, b: Vec<ScaledGradients>, y: C|
        #![trigger call_ensures(prepare, (), Ok((a, x))), call_ensures(prepare, (), Ok((b, y)))]
        call_ensures(prepare, (), Ok((a, x))) && call_ensures(prepare, (), Ok((b, y)))
            ==> same_gradients(a@, b@)
}

/// Once an attempt is exhausted, every later one on the same image and from the same state is
/// exhausted, for the same reason.
pub proof fn exhausted_attempts_stay_exhausted<
    C,
    E,
    B: Fn() -> Result<(Vec<ScaledGradients>, C), E>,
    L: Fn(&C, i32, bool, i64) -> Result<Line, E>,
>(
    before: StateView,
    width: int,
    height: int,
    prepare: B,
    edge: L,
    iteration: int,
    after: StateView,
    r: Result<(StageOutcome, ImageOutput), E>,
    later: int,
    later_after: StateView,
    s: Result<(StageOutcome, ImageOutput), E>,
)
    requires
        prepares_one_image(prepare),
        iteration <= later,
        is_attempt(before, width, height, iteration, prepare, edge, after, r),
        is_attempt(before, width, height, later, prepare, edge, later_after, s),
        r matches Ok((o, _)) && o is Exhausted,
        s is Ok,
    ensures
        s matches Ok((o, _)) && is_exhausted(o, r->Ok_0.0->Exhausted_0@),
        later_after == before,
{
    if before.crop is Some && width >= 50 && height >= 50 {
        let o = r->Ok_0.0;
        let p = s->Ok_0.0;
        let (a, x, c) = choose|
            a: Vec<ScaledGradients>,
            x: C,
            c: Result<(i32, i32), StageOutcome>,
        |
            #![trigger settles_edges(edge, before, iteration, a@, x, c, after, o)]
            call_ensures(prepare, (), Ok((a, x))) && settles_edges(
                edge,
                before,
                iteration,
                a@,
                x,
                c,
                after,
                o,
            );
        let (b, y, d) = choose|
            b: Vec<ScaledGradients>,
            y: C,
            d: Result<(i32, i32), StageOutcome>,
        |
            #![trigger settles_edges(edge, before, later, b@, y, d, later_after, p)]
            call_ensures(prepare, (), Ok((b, y))) && settles_edges(
                edge,
                before,
                later,
                b@,
                y,
                d,
                later_after,
                p,
            );
        same_gradients_have_the_same_candidates(a@, b@);
        exhausted_edges_stay_exhausted(
            all_left_candidates(a@),
            all_right_candidates(a@),
            iteration,
            c,
            later,
            d,
        );
    }
}

/// The debug picture of the edges: the left one in magenta, the right one in cyan.
pub fn debug_shapes(verticals: &VerticalPair) -> (r: (String, Vec<Shape>))
    ensures
        r.0@ == "S3:FindVerticals_L"@ + fixed_decimal(verticals.left.x1 as int, 0) + "_R"@
            + fixed_decimal(verticals.right.x1 as int, 0),
        drawing(r.1@) == seq![
            line_shape(verticals.left, bgr(255, 0, 255)),
            line_shape(verticals.right, bgr(255, 255, 0)),
        ],
{
    let mut label: String = String::from_str("S3:FindVerticals_L");
    push_fixed(&mut label, verticals.left.x1 as i128, 0);
    label.append("_R");
    push_fixed(&mut label, verticals.right.x1 as i128, 0);
    let mut shapes: Vec<Shape> = Vec::new();
    shapes.push(draw_line(&verticals.left, Color { blue: 255, green: 0, red: 255 }));
    shapes.push(draw_line(&verticals.right, Color { blue: 255, green: 255, red: 0 }));
    assert(drawing(shapes@) =~= seq![
        line_shape(verticals.left, bgr(255, 0, 255)),
        line_shape(verticals.right, bgr(255, 255, 0)),
    ]);
    (label, shapes)
}

/// The profile of a column is the sum of all its gradients.
pub proof fn profiles_add_up_columns(gradients: Seq<i16>, width: int, x: int, rows: int)
    requires
        rows >= 0,
    ensures
        column_sum(gradients, width, x, rows) == crate::stats::sum(
            Seq::new(rows as nat, |y: int| gradients[y * width + x] as i128),
        ),
    decreases rows,
{
    if rows > 0 {
        profiles_add_up_columns(gradients, width, x, rows - 1);
        let all = Seq::new(rows as nat, |y: int| gradients[y * width + x] as i128);
        let before = Seq::new((rows - 1) as nat, |y: int| gradients[y * width + x] as i128);
        assert(all.drop_last() =~= before);
    }
}

/// The peaks of one side are columns whose mean gradient is steeper than five: falling ones on the
/// left, rising ones on the right. The first is the steepest of all, and every steep column lies
/// within the suppression radius of a peak, unless as many were taken as are wanted.
pub proof fn steep_columns_are_near_peaks(
    p: Seq<i64>,
    off: Seq<bool>,
    sign: int,
    rows: int,
    radius: int,
    n: nat,
    x: int,
)
    requires
        off.len() == p.len(),
        radius >= 0,
        0 <= x < p.len(),
        !off[x],
        sign * p[x] < -5 * rows,
    ensures
        ({
            let peaks = top_peaks(p, off, sign, rows, radius, n);
            &&& n > 0 ==> peaks.len() > 0 && sign * p[peaks[0]] <= sign * p[x]
            &&& peaks.len() == n || exists|i: int|
                0 <= i < peaks.len() && peaks[i] - radius <= x <= #[trigger] peaks[i] + radius
        }),
    decreases n,
{
    steepest_is_steep(p, off, sign, rows, p.len() as int);
    assert(is_steep(p, off, sign, rows, x));
    if n > 0 {
        let peaks = top_peaks(p, off, sign, rows, radius, n);
        let b = steepest(p, off, sign, rows, p.len() as int)->Some_0;
        let less = suppressed_around(off, b, radius);
        let rest = top_peaks(p, less, sign, rows, radius, (n - 1) as nat);
        assert(peaks =~= seq![b] + rest);
        assert(peaks[0] == b);
        if !(b - radius <= x <= b + radius) {
            steep_columns_are_near_peaks(p, less, sign, rows, radius, (n - 1) as nat, x);
            if rest.len() != n - 1 {
                let i = choose|i: int|
                    0 <= i < rest.len() && rest[i] - radius <= x <= #[trigger] rest[i] + radius;
                assert(peaks[i + 1] == rest[i]);
            }
        }
    }
}

/// The candidates of a band for the left edge lie in the left two fifths of the image, where its
/// profile falls by more than five per row; those for the right edge in the right two fifths, where
/// it rises so. Each keeps its column in the image at full size, how steep its profile is, and how
/// steep the steepest of its side.
pub proof fn edges_are_sought_on_their_sides(band: ScaledGradients, i: int)
    requires
        band.wf(),
    ensures
        ({
            let p = profile(band.gradients@, band.width as int, band.rows as int);
            let w = band.width as int;
            let left = band.left_candidates();
            let right = band.right_candidates();
            &&& left.len() <= 2 && right.len() <= 2
            &&& 0 <= i < left.len() ==> exists|x: int|
                {
                    &&& 0 <= x < w * 40 / 100
                    &&& #[trigger] p[x] < -5 * band.rows
                    &&& left[i].x_orig == x * band.divisor * 1_000_000
                    &&& left[i].size == -p[x]
                    &&& left[i].rows == band.rows
                    &&& left[i].strongest == left[0].size
                    &&& left[0].size >= left[i].size
                }
            &&& 0 <= i < right.len() ==> exists|x: int|
                {
                    &&& w * 60 / 100 <= x < w
                    &&& #[trigger] p[x] > 5 * band.rows
                    &&& right[i].x_orig == x * band.divisor * 1_000_000
                    &&& right[i].size == p[x]
                    &&& right[i].rows == band.rows
                    &&& right[i].strongest == right[0].size
                    &&& right[0].size >= right[i].size
                }
        }),
{
    let p = profile(band.gradients@, band.width as int, band.rows as int);
    let w = band.width as int;
    let (a, b) = (w * 40 / 100, w * 60 / 100);
    let (l, r) = (p.subrange(0, a), p.subrange(b, w));
    let rows = band.rows as int;
    let (none_l, none_r) = (
        Seq::new(l.len(), |i: int| false),
        Seq::new(r.len(), |i: int| false),
    );
    peaks_are_steep_and_apart(l, none_l, 1, rows, 40, 2);
    peaks_are_steep_and_apart(r, none_r, -1, rows, 40, 2);
    let (pl, pr) = (
        top_peaks(l, none_l, 1, rows, 40, 2),
        top_peaks(r, none_r, -1, rows, 40, 2),
    );
    let (left, right) = (band.left_candidates(), band.right_candidates());
    assert forall|x: int| 0 <= x < w implies -0x8000_0000_0000_0000 < (#[trigger] p[x]) by {
        column_sums_are_bounded(band.gradients@, w, x, rows);
        assert(-32_768 * rows > -0x8000_0000_0000_0000);
    }
    if 0 <= i < left.len() {
        let x = pl[i];
        assert(is_steep(l, none_l, 1, rows, pl[i]));
        assert(is_steep(l, none_l, 1, rows, pl[0]));
        assert(l[x] == p[x] && l[pl[0]] == p[pl[0]]);
        columns_fit(x, band.divisor as int, w);
        assert(left[i].x_orig == x * band.divisor * 1_000_000);
        assert(left[i].size == -p[x]);
    }
    if 0 <= i < right.len() {
        let x = b + pr[i];
        assert(is_steep(r, none_r, -1, rows, pr[i]));
        assert(is_steep(r, none_r, -1, rows, pr[0]));
        assert(r[pr[i]] == p[x] && r[pr[0]] == p[b + pr[0]]);
        columns_fit(x, band.divisor as int, w);
        assert(right[i].x_orig == x * band.divisor * 1_000_000);
        assert(right[i].size == p[x]);
    }
}

proof fn columns_fit(x: int, divisor: int, width: int)
    requires
        0 <= x < width <= u32::MAX,
        0 < divisor <= 4,
    ensures
        0 <= x * divisor * 1_000_000 <= i64::MAX,
{
    assert(0 <= x * divisor <= 0xffff_ffff * 4) by (nonlinear_arith)
        requires
            0 <= x <= 0xffff_ffff,
            0 < divisor <= 4,
    ;
}

proof fn column_sums_are_bounded(gradients: Seq<i16>, width: int, x: int, rows: int)
    requires
        rows >= 0,
    ensures
        -32_768 * rows <= column_sum(gradients, width, x, rows) <= 32_767 * rows,
    decreases rows,
{
    if rows > 0 {
        column_sums_are_bounded(gradients, width, x, rows - 1);
    }
}

/// In the order of their strength no candidate stands behind one whose mean gradient is less steep,
/// and all are there.
pub proof fn stronger_candidates_come_first(c: Seq<PeakCandidate>, a: int, b: int)
    requires
        are_measured(c),
        c.len() <= usize::MAX,
        0 <= a < b < c.len(),
    ensures
        strongest_first(c).len() == c.len(),
        strongest_first(c)[a].size * strongest_first(c)[b].rows >= strongest_first(c)[b].size
            * strongest_first(c)[a].rows,
        strongest_first(c).contains(c[a]),
        strongest_first(c).contains(c[b]),
{
    strengths_are_ordered(c);
    crate::order::ranked_items_are_in_order(by_strength(c), c.len(), a, b);
    crate::order::ordered_items_are_the_items(c, ranks(by_strength(c), c.len()));
}

/// The candidates that are kept lie apart, and every candidate is kept or lies within the radius of
/// one that is kept and stood before it.
pub proof fn kept_candidates_stand_for_all(c: Seq<PeakCandidate>, radius: int, i: int)
    requires
        radius > 0,
        0 <= i < c.len(),
    ensures
        forall|a: int, b: int|
            0 <= a < b < kept_peaks(c, radius).len() ==> abs(
                (#[trigger] kept_peaks(c, radius)[a]).x_orig - (
                #[trigger] kept_peaks(c, radius)[b]).x_orig,
            ) >= radius,
        exists|j: int|
            0 <= j <= i && kept_peaks(c, radius).contains(#[trigger] c[j]) && abs(
                c[j].x_orig - c[i].x_orig,
            ) < radius,
    decreases c.len(),
{
    let rest = c.drop_last();
    let kept = kept_peaks(rest, radius);
    let all = kept_peaks(c, radius);
    kept_candidates_lie_apart(c, radius);
    if i < rest.len() {
        kept_candidates_stand_for_all(rest, radius, i);
        let j = choose|j: int|
            0 <= j <= i && kept.contains(#[trigger] rest[j]) && abs(rest[j].x_orig - rest[i].x_orig)
                < radius;
        let k = choose|k: int| 0 <= k < kept.len() && kept[k] == rest[j];
        assert(all[k] == c[j]);
        assert(all.contains(c[j]));
    } else if is_beside_one(c.last(), kept, radius) {
        let k = choose|k: int| 0 <= k < kept.len() && abs((#[trigger] kept[k]).x_orig - c.last().x_orig)
            < radius;
        kept_candidates_are_candidates(rest, radius, k);
        let j = choose|j: int| 0 <= j < rest.len() && rest[j] == kept[k];
        assert(all[k] == c[j]);
        assert(all.contains(c[j]));
    } else {
        assert(all[all.len() - 1] == c[i]);
        assert(all.contains(c[i]));
    }
}

proof fn kept_candidates_are_candidates(c: Seq<PeakCandidate>, radius: int, k: int)
    requires
        0 <= k < kept_peaks(c, radius).len(),
    ensures
        c.contains(kept_peaks(c, radius)[k]),
    decreases c.len(),
{
    let rest = c.drop_last();
    let kept = kept_peaks(rest, radius);
    if k < kept.len() {
        kept_candidates_are_candidates(rest, radius, k);
        let j = choose|j: int| 0 <= j < rest.len() && rest[j] == kept[k];
        assert(c[j] == kept[k]);
    } else {
        assert(c[c.len() - 1] == kept_peaks(c, radius)[k]);
    }
}

proof fn kept_candidates_lie_apart(c: Seq<PeakCandidate>, radius: int)
    ensures
        forall|a: int, b: int|
            0 <= a < b < kept_peaks(c, radius).len() ==> abs(
                (#[trigger] kept_peaks(c, radius)[a]).x_orig - (
                #[trigger] kept_peaks(c, radius)[b]).x_orig,
            ) >= radius,
    decreases c.len(),
{
    if c.len() > 0 {
        let rest = c.drop_last();
        let kept = kept_peaks(rest, radius);
        let all = kept_peaks(c, radius);
        kept_candidates_lie_apart(rest, radius);
        assert forall|a: int, b: int| 0 <= a < b < all.len() implies abs(
            (#[trigger] all[a]).x_orig - (#[trigger] all[b]).x_orig,
        ) >= radius by {
            assert(all[a] == kept[a]);
            if b < kept.len() {
                assert(all[b] == kept[b]);
            }
        }
    }
}

/// Two candidates form a pair exactly if the right one lies at least 150 pixels to the right of the
/// left one.
pub proof fn far_candidates_form_pairs(
    left: Seq<PeakCandidate>,
    right: Seq<PeakCandidate>,
    i: int,
    j: int,
)
    requires
        0 <= i < left.len(),
        0 <= j < right.len(),
        right[j].x_orig - left[i].x_orig >= 150_000_000,
    ensures
        all_pairs(left, right).contains(EdgePair { left: left[i], right: right[j] }),
    decreases left.len(),
{
    let before = all_pairs(left.drop_last(), right);
    let more = pairs_with(left.last(), right);
    let all = all_pairs(left, right);
    let p = EdgePair { left: left[i], right: right[j] };
    if i == left.len() - 1 {
        far_candidates_pair_with(left.last(), right, j);
        let k = choose|k: int| 0 <= k < more.len() && more[k] == p;
        assert(all[before.len() + k] == p);
    } else {
        assert(left.drop_last()[i] == left[i]);
        far_candidates_form_pairs(left.drop_last(), right, i, j);
        let k = choose|k: int| 0 <= k < before.len() && before[k] == p;
        assert(all[k] == p);
    }
}

proof fn far_candidates_pair_with(left: PeakCandidate, right: Seq<PeakCandidate>, j: int)
    requires
        0 <= j < right.len(),
        right[j].x_orig - left.x_orig >= 150_000_000,
    ensures
        pairs_with(left, right).contains(EdgePair { left, right: right[j] }),
    decreases right.len(),
{
    let before = pairs_with(left, right.drop_last());
    let all = pairs_with(left, right);
    let p = EdgePair { left, right: right[j] };
    if j == right.len() - 1 {
        assert(all[all.len() - 1] == p);
    } else {
        assert(right.drop_last()[j] == right[j]);
        far_candidates_pair_with(left, right.drop_last(), j);
        let k = choose|k: int| 0 <= k < before.len() && before[k] == p;
        assert(all[k] == p);
    }
}

/// A pair is stronger for a stronger edge on either side: with the same right edge the one whose
/// left edge is steeper, as a share of the steepest on its side, is the stronger one, and likewise
/// with the same left edge. Both sides count alike.
pub proof fn both_edges_make_a_pair_strong(
    l: PeakCandidate,
    m: PeakCandidate,
    r: PeakCandidate,
    s: PeakCandidate,
)
    requires
        l.strongest > 0,
        m.strongest > 0,
        r.strongest > 0,
        s.strongest > 0,
    ensures
        is_stronger_pair(EdgePair { left: l, right: r }, EdgePair { left: m, right: r }) <==> l.size
            * m.strongest > m.size * l.strongest,
        is_stronger_pair(EdgePair { left: l, right: r }, EdgePair { left: l, right: s }) <==> r.size
            * s.strongest > s.size * r.strongest,
        !is_stronger_pair(EdgePair { left: l, right: r }, EdgePair { left: r, right: l }),
{
    let (a, x) = (l.size as int, l.strongest as int);
    let (b, y) = (m.size as int, m.strongest as int);
    let (c, z) = (r.size as int, r.strongest as int);
    let (d, w) = (s.size as int, s.strongest as int);
    shares_compare(a, x, b, y, c, z);
    shares_compare(c, z, d, w, a, x);
    assert((a * z + c * x) * (y * z) == (c * x + a * z) * (z * y)) by (nonlinear_arith);
    assert((c * x + a * z) * (w * x) == (a * z + c * x) * (x * w)) by (nonlinear_arith);
    assert((d * x + a * w) * (z * x) == (a * w + d * x) * (x * z)) by (nonlinear_arith);
    assert((a * z + c * x) * (z * x) == (c * x + a * z) * (x * z)) by (nonlinear_arith);
}

/// Adding the same share to two fractions does not change which is larger.
proof fn shares_compare(a: int, x: int, b: int, y: int, c: int, z: int)
    requires
        x > 0,
        y > 0,
        z > 0,
    ensures
        (a * z + c * x) * (y * z) > (b * z + c * y) * (x * z) <==> a * y > b * x,
{
    let m = z * z;
    assert(m > 0) by (nonlinear_arith)
        requires
            m == z * z,
            z > 0,
    ;
    let (u, v) = (a * y, b * x);
    assert((a * z + c * x) * (y * z) == u * m + c * x * (y * z)) by (nonlinear_arith)
        requires
            u == a * y,
            m == z * z,
    ;
    assert((b * z + c * y) * (x * z) == v * m + c * y * (x * z)) by (nonlinear_arith)
        requires
            v == b * x,
            m == z * z,
    ;
    assert(c * x * (y * z) == c * y * (x * z)) by (nonlinear_arith);
    assert((u - v) * m == u * m - v * m) by (nonlinear_arith);
    assert((u - v) * m > 0 <==> u > v) by (nonlinear_arith)
        requires
            m > 0,
    ;
}

/// In the order in which the pairs are tried none stands behind a weaker one, and all are there.
pub proof fn stronger_pairs_come_first(pairs: Seq<EdgePair>, a: int, b: int)
    requires
        forall|i: int|
            0 <= i < pairs.len() ==> (#[trigger] pairs[i]).left.strongest > 0
                && pairs[i].right.strongest > 0,
        pairs.len() <= usize::MAX,
        0 <= a < b < pairs.len(),
    ensures
        strongest_pairs(pairs).len() == pairs.len(),
        !is_stronger_pair(strongest_pairs(pairs)[b], strongest_pairs(pairs)[a]),
        strongest_pairs(pairs).contains(pairs[a]),
        strongest_pairs(pairs).contains(pairs[b]),
{
    pair_strengths_are_ordered(pairs);
    crate::order::ranked_items_are_in_order(by_pair_strength(pairs), pairs.len(), a, b);
    crate::order::ordered_items_are_the_items(pairs, ranks(by_pair_strength(pairs), pairs.len()));
}

/// The strip around a column holds every column of the image that lies within 25 pixels of it, and
/// no other; there is none exactly if these are fewer than ten.
pub proof fn strips_lie_around_their_columns(center_x: int, image_width: int, x: int)
    requires
        i32::MIN <= center_x <= i32::MAX,
        0 <= image_width <= i32::MAX,
    ensures
        match strip(center_x, image_width) {
            Some((first, count)) => {
                &&& count >= 10
                &&& first <= x < first + count <==> 0 <= x < image_width && center_x - 25 <= x < center_x
                    + 25
            },
            None => !(0 <= x && x + 9 < image_width && center_x - 25 <= x && x + 9 < center_x + 25),
        },
{
}

/// The segments that count for an edge are those that, followed down the image, go to the left for
/// the left edge, and to the right for the right one; upright ones count for both.
pub proof fn segments_lean_to_their_side(segments: Seq<Segment>, to_left: bool)
    ensures
        leaning(segments, to_left) == segments.map_values(
            |s: Segment|
                if s.y2 < s.y1 {
                    Segment { x1: s.x2, y1: s.y2, x2: s.x1, y2: s.y1 }
                } else {
                    s
                },
        ).filter(
            |s: Segment|
                if to_left {
                    s.x1 >= s.x2
                } else {
                    s.x1 <= s.x2
                },
        ),
    decreases segments.len(),
{
    reveal(Seq::filter);
    let f = |s: Segment|
        if s.y2 < s.y1 {
            Segment { x1: s.x2, y1: s.y2, x2: s.x1, y2: s.y1 }
        } else {
            s
        };
    if segments.len() > 0 {
        segments_lean_to_their_side(segments.drop_last(), to_left);
        assert(segments.map_values(f).drop_last() =~= segments.drop_last().map_values(f));
    }
}

/// Where lengths are whole, `a` and `b` of a longest one of `l`, two segments are compared by six
/// tenths for the angle and four tenths for the length.
pub proof fn angle_and_length_are_weighed(
    s: Segment,
    angle: int,
    t: Segment,
    other_angle: int,
    expected: int,
    a: int,
    b: int,
    l: int,
)
    requires
        a >= 0,
        b >= 0,
        l > 0,
        square_length(s) == a * a,
        square_length(t) == b * b,
    ensures
        ({
            let off = min(abs(angle - expected), 20_000_000);
            let other_off = min(abs(other_angle - expected), 20_000_000);
            fits_better(s, angle, t, other_angle, expected, l * l) <==> 6 * ((20_000_000 - off) * l)
                + 80_000_000 * a > 6 * ((20_000_000 - other_off) * l) + 80_000_000 * b
        }),
{
    let (d, e) = (turn_off(angle, expected), turn_off(other_angle, expected));
    let q = 3 * (d - e);
    let k = q * l;
    let (x, y) = (40_000_000 * a, 40_000_000 * b);
    assert(40_000_000 * 40_000_000 * (a * a) == x * x && 40_000_000 * 40_000_000 * (b * b) == y * y)
        by (nonlinear_arith)
        requires
            x == 40_000_000 * a,
            y == 40_000_000 * b,
    ;
    assert(q * q * (l * l) == k * k) by (nonlinear_arith)
        requires
            k == q * l,
    ;
    assert(k >= 0 <==> q >= 0) by (nonlinear_arith)
        requires
            k == q * l,
            l > 0,
    ;
    let m = -k;
    assert(k * k == m * m) by (nonlinear_arith)
        requires
            m == -k,
    ;
    if k >= 0 {
        crate::surd::squares_compare_by_their_roots(x, y, k);
    } else {
        crate::surd::squares_compare_by_their_roots(y, x, m);
    }
    assert(fits_better(s, angle, t, other_angle, expected, l * l) <==> x > y + k);
    let off = min(abs(angle - expected), 20_000_000);
    let other_off = min(abs(other_angle - expected), 20_000_000);
    assert((20_000_000 - off) * l == 20_000_000 * l - off * l) by (nonlinear_arith);
    assert((20_000_000 - other_off) * l == 20_000_000 * l - other_off * l) by (nonlinear_arith);
    assert(k == 3 * (off * l) - 3 * (other_off * l)) by (nonlinear_arith)
        requires
            k == 3 * (off - other_off) * l,
    ;
}

/// Level reference lines make upright edges expected, and turning them turns these as far.
pub proof fn edges_turn_with_the_lines(lines: LinePair, turned: LinePair, turn: int)
    requires
        turned.avg_theta == lines.avg_theta + turn,
        lines.avg_theta >= i64::MIN + 90_000_000,
        turned.avg_theta >= i64::MIN + 90_000_000,
    ensures
        lines.avg_theta == 90_000_000 ==> perpendicular(Some(lines)) == 0,
        perpendicular(Some(turned)) == perpendicular(Some(lines)) + turn,
        perpendicular(None) == 0,
{
}

/// The edge is one of the segments, moved by where its strip begins in the image and as a line in
/// it; without any segment it stands upright in its column, from the top of the image to its bottom.
pub proof fn edges_are_segments_of_their_strip(
    center_x: int,
    image_height: int,
    strip_x: int,
    segments: Seq<Segment>,
    angles: Seq<i64>,
    expected: int,
)
    requires
        segments.len() == angles.len(),
        i32::MIN <= center_x <= i32::MAX,
        i32::MIN <= strip_x <= i32::MAX,
        i32::MIN <= image_height <= i32::MAX,
    ensures
        ({
            let r = edge_of(center_x, image_height, strip_x, segments, angles, expected);
            &&& segments.len() == 0 ==> r.x1 == center_x * 1_000_000 && r.x2 == r.x1 && r.y1 == 0
                && r.y2 == image_height * 1_000_000
            &&& segments.len() > 0 ==> exists|i: int|
                {
                    &&& 0 <= i < segments.len()
                    &&& r.x1 - strip_x * 1_000_000 == (#[trigger] segments[i]).x1 * 1_000_000
                    &&& r.x2 - strip_x * 1_000_000 == segments[i].x2 * 1_000_000
                    &&& r.y1 == segments[i].y1 * 1_000_000
                    &&& r.y2 == segments[i].y2 * 1_000_000
                }
        }),
{
    if segments.len() > 0 {
        the_longest_is_no_shorter(segments);
        let longest = longest_square(segments);
        the_best_segment_is_worth_most(segments, angles, expected, longest, segments.len() as int);
        let i = best_segment(segments, angles, expected, longest, segments.len() as int);
        assert(0 <= i < segments.len());
        let s = segments[i];
    }
}


/// Of equally steep columns the first is the peak.
pub proof fn the_first_of_equally_steep_columns_is_taken(
    p: Seq<i64>,
    off: Seq<bool>,
    sign: int,
    rows: int,
    upto: int,
)
    ensures
        steepest(p, off, sign, rows, upto) matches Some(b) ==> 0 <= b < upto && forall|i: int|
            0 <= i < b && #[trigger] is_steep(p, off, sign, rows, i) ==> sign * p[b] < sign * p[i],
    decreases upto,
{
    if upto > 0 {
        the_first_of_equally_steep_columns_is_taken(p, off, sign, rows, upto - 1);
        steepest_is_steep(p, off, sign, rows, upto - 1);
    }
}

/// Of equally good segments the first is taken: it fits better than every one before it.
pub proof fn the_first_of_equal_segments_is_taken(
    segments: Seq<Segment>,
    angles: Seq<i64>,
    expected: int,
    longest: int,
    upto: int,
    j: int,
)
    requires
        longest > 0,
        1 <= upto <= segments.len(),
        segments.len() == angles.len(),
        0 <= j < best_segment(segments, angles, expected, longest, upto),
    ensures
        ({
            let best = best_segment(segments, angles, expected, longest, upto);
            best < upto && fits_better(
                segments[best],
                angles[best] as int,
                segments[j],
                angles[j] as int,
                expected,
                longest,
            )
        }),
    decreases upto,
{
    let best = best_segment(segments, angles, expected, longest, upto);
    let had = best_segment(segments, angles, expected, longest, upto - 1);
    the_best_segment_is_worth_most(segments, angles, expected, longest, upto - 1);
    if best == had {
        the_first_of_equal_segments_is_taken(segments, angles, expected, longest, upto - 1, j);
    } else {
        let b = worth(segments[best], angles[best] as int, expected, longest);
        let h = worth(segments[had], angles[had] as int, expected, longest);
        let w = worth(segments[j], angles[j] as int, expected, longest);
        worths_are_not_negative(segments[best], angles[best] as int, expected, longest);
        worths_are_not_negative(segments[had], angles[had] as int, expected, longest);
        worths_are_not_negative(segments[j], angles[j] as int, expected, longest);
        better_segments_are_worth_more(
            segments[best],
            angles[best] as int,
            segments[had],
            angles[had] as int,
            expected,
            longest,
        );
        better_segments_are_worth_more(
            segments[best],
            angles[best] as int,
            segments[j],
            angles[j] as int,
            expected,
            longest,
        );
        assert(is_at_most(w.0, w.1, h.0, h.1));
        if is_at_most(b.0, b.1, w.0, w.1) {
            sums_are_ordered(b.0, b.1, w.0, w.1, h.0, h.1);
        }
    }
}

} // verus!
