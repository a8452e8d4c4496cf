//! The perspective correction: the four corners where the reference lines and the panel's edges
//! cross become a rectangle.

use vstd::prelude::*;
use vstd::string::*;

use super::stage::{
    is_exhausted, is_retry, CropRegion, Line, LinePair, PerspectiveCorrection, PipelineState,
    StageDescriptor, StageOutcome, StateView, TransformMatrix, VerticalPair,
};
use super::ImageOutput;
use crate::draw::{bgr, drawing, Color, Shape, ShapeView};
use crate::fixed::{abs, abs_exec, as_signed, min, min_exec, pixel, root, to_signed};
use crate::text::{decimal, push_number, push_signed, signed_decimal};
use crate::wide::Integer;

verus! {

/// The attempts of the stage.
pub const MAX_RETRIES: u32 = 30;

/// What the stage says of itself.
pub fn descriptor() -> (r: StageDescriptor)
    ensures
        r.name@ == "Perspective"@,
        r.label@ == "S4:Perspective"@,
        r.fallback matches Some(f) && f@ == "FindVerticals"@,
{
    StageDescriptor {
        name: "Perspective",
        label: "S4:Perspective",
        fallback: Some("FindVerticals"),
    }
}

/// How far the corners are moved in an attempt: not at all in the first, and by steps of one and
/// a half pixels up and down in turn in the others, up to fifteen steps.
pub open spec fn jitter(iteration: int) -> int {
    let size = min((iteration + 1) / 2 * 1_500_000, 22_500_000);
    if iteration == 0 {
        0
    } else if iteration % 2 == 0 {
        size
    } else {
        -size
    }
}

/// How far the corners are moved in an attempt.
pub fn jitter_for_iteration(iteration: u32) -> (r: i64)
    ensures
        r == jitter(iteration as int),
        -22_500_000 <= r <= 22_500_000,
{
    if iteration == 0 {
        return 0;
    }
    let size: i64 = min_exec((iteration as i64 + 1) / 2 * 1_500_000, 22_500_000);
    if iteration % 2 == 0 {
        size
    } else {
        -size
    }
}

/// How far two lines are from being parallel.
pub open spec fn cross(a: Line, b: Line) -> int {
    (a.x1 - a.x2) * (b.y1 - b.y2) - (a.y1 - a.y2) * (b.x1 - b.x2)
}

/// How far along `a` its crossing with `b` lies, times the cross product.
pub open spec fn along(a: Line, b: Line) -> int {
    (a.x1 - b.x1) * (b.y1 - b.y2) - (a.y1 - b.y1) * (b.x1 - b.x2)
}

/// `n / d` rounded down, whatever the sign of `d`.
pub open spec fn quotient(n: int, d: int) -> int {
    if d > 0 {
        n / d
    } else {
        (-n) / (-d)
    }
}

/// Where two lines cross.
pub open spec fn crossing(a: Line, b: Line) -> (int, int) {
    (
        a.x1 + quotient(along(a, b) * (a.x2 - a.x1), cross(a, b)),
        a.y1 + quotient(along(a, b) * (a.y2 - a.y1), cross(a, b)),
    )
}

/// A point where two lines cross. It can lie far outside the image.
#[derive(Debug)]
pub struct Crossing {
    pub x: Integer,
    pub y: Integer,
}

impl View for Crossing {
    type V = (int, int);

    open spec fn view(&self) -> (int, int) {
        (self.x@, self.y@)
    }
}

/// Where two lines cross, unless they are parallel.
pub open spec fn intersection(a: Line, b: Line) -> Option<(int, int)> {
    if abs(cross(a, b)) < 100 {
        None
    } else {
        Some(crossing(a, b))
    }
}

/// The point where two lines cross, before it is divided by the cross product and rounded, lies
/// on both lines.
pub proof fn crossing_lies_on_both_lines(a: Line, b: Line)
    ensures
        ({
            let c = cross(a, b);
            let t = along(a, b);
            let x = c * a.x1 + t * (a.x2 - a.x1);
            let y = c * a.y1 + t * (a.y2 - a.y1);
            &&& (x - c * a.x1) * (a.y2 - a.y1) == (y - c * a.y1) * (a.x2 - a.x1)
            &&& (x - c * b.x1) * (b.y2 - b.y1) == (y - c * b.y1) * (b.x2 - b.x1)
        }),
{
    let c = cross(a, b);
    let t = along(a, b);
    let (ux, uy) = (a.x2 - a.x1, a.y2 - a.y1);
    let (vx, vy) = (b.x2 - b.x1, b.y2 - b.y1);
    let (wx, wy) = (a.x1 - b.x1, a.y1 - b.y1);
    let x = c * a.x1 + t * ux;
    let y = c * a.y1 + t * uy;
    assert((x - c * a.x1) * uy == (y - c * a.y1) * ux) by (nonlinear_arith)
        requires
            x - c * a.x1 == t * ux,
            y - c * a.y1 == t * uy,
    ;
    assert(c == ux * vy - uy * vx) by (nonlinear_arith)
        requires
            c == (a.x1 - a.x2) * (b.y1 - b.y2) - (a.y1 - a.y2) * (b.x1 - b.x2),
            ux == a.x2 - a.x1,
            uy == a.y2 - a.y1,
            vx == b.x2 - b.x1,
            vy == b.y2 - b.y1,
    ;
    assert(t == wy * vx - wx * vy) by (nonlinear_arith)
        requires
            t == wx * (b.y1 - b.y2) - wy * (b.x1 - b.x2),
            vx == b.x2 - b.x1,
            vy == b.y2 - b.y1,
    ;
    assert(x - c * b.x1 == c * wx + t * ux) by (nonlinear_arith)
        requires
            x == c * a.x1 + t * ux,
            wx == a.x1 - b.x1,
    ;
    assert(y - c * b.y1 == c * wy + t * uy) by (nonlinear_arith)
        requires
            y == c * a.y1 + t * uy,
            wy == a.y1 - b.y1,
    ;
    assert((c * wx + t * ux) * vy == c * (wx * vy) + t * (ux * vy)) by (nonlinear_arith);
    assert((c * wy + t * uy) * vx == c * (wy * vx) + t * (uy * vx)) by (nonlinear_arith);
    assert(c * (wx * vy) + t * (ux * vy) == c * (wy * vx) + t * (uy * vx)) by (nonlinear_arith)
        requires
            c == ux * vy - uy * vx,
            t == wy * vx - wx * vy,
    ;
}

proof fn quotients_move_along(v: int, n: int, d: int)
    requires
        d != 0,
    ensures
        v + quotient(n, d) == quotient(d * v + n, d),
{
    let (m, e) = if d > 0 {
        (n, d)
    } else {
        (-n, -d)
    };
    assert((e * v + m) / e == v + m / e) by {
        vstd::arithmetic::div_mod::lemma_fundamental_div_mod(m, e);
        assert(e * v + m == e * (v + m / e) + m % e) by (nonlinear_arith)
            requires
                m == e * (m / e) + m % e,
        ;
        vstd::arithmetic::div_mod::lemma_div_multiples_vanish_fancy(v + m / e, m % e, e);
    }
    assert(-(d * v + n) == (-d) * v + (-n)) by (nonlinear_arith);
}

proof fn areas_cancel(ux: int, uy: int, vx: int, vy: int, wx: int, wy: int)
    ensures
        (ux * vy - uy * vx) * wx + (wy * vx - wx * vy) * ux + (wx * uy - wy * ux) * vx == 0,
        (ux * vy - uy * vx) * wy + (wy * vx - wx * vy) * uy + (wx * uy - wy * ux) * vy == 0,
{
    assert((ux * vy - uy * vx) * wx == ux * vy * wx - uy * vx * wx) by (nonlinear_arith);
    assert((wy * vx - wx * vy) * ux == wy * vx * ux - wx * vy * ux) by (nonlinear_arith);
    assert((wx * uy - wy * ux) * vx == wx * uy * vx - wy * ux * vx) by (nonlinear_arith);
    assert(ux * vy * wx == wx * vy * ux) by (nonlinear_arith);
    assert(uy * vx * wx == wx * uy * vx) by (nonlinear_arith);
    assert(wy * vx * ux == wy * ux * vx) by (nonlinear_arith);
    assert((ux * vy - uy * vx) * wy == ux * vy * wy - uy * vx * wy) by (nonlinear_arith);
    assert((wy * vx - wx * vy) * uy == wy * vx * uy - wx * vy * uy) by (nonlinear_arith);
    assert((wx * uy - wy * ux) * vy == wx * uy * vy - wy * ux * vy) by (nonlinear_arith);
    assert(ux * vy * wy == wy * ux * vy) by (nonlinear_arith);
    assert(uy * vx * wy == wy * vx * uy) by (nonlinear_arith);
    assert(wx * vy * uy == wx * uy * vy) by (nonlinear_arith);
}

/// The point where two lines cross does not depend on which of them comes first.
pub proof fn crossings_are_mutual(a: Line, b: Line)
    ensures
        intersection(a, b) == intersection(b, a),
        abs(cross(a, b)) >= 100 ==> crossing(a, b) == crossing(b, a),
{
    let (ux, uy) = (a.x2 - a.x1, a.y2 - a.y1);
    let (vx, vy) = (b.x2 - b.x1, b.y2 - b.y1);
    let (wx, wy) = (a.x1 - b.x1, a.y1 - b.y1);
    let c = ux * vy - uy * vx;
    let t = wy * vx - wx * vy;
    let s = wx * uy - wy * ux;
    assert(cross(a, b) == c && cross(b, a) == -c) by (nonlinear_arith)
        requires
            cross(a, b) == (-ux) * (-vy) - (-uy) * (-vx),
            cross(b, a) == (-vx) * (-uy) - (-vy) * (-ux),
            c == ux * vy - uy * vx,
    ;
    assert(along(a, b) == t) by (nonlinear_arith)
        requires
            along(a, b) == wx * (-vy) - wy * (-vx),
            t == wy * vx - wx * vy,
    ;
    assert(along(b, a) == s) by (nonlinear_arith)
        requires
            along(b, a) == (-wx) * (-uy) - (-wy) * (-ux),
            s == wx * uy - wy * ux,
    ;
    if abs(c) >= 100 {
        quotients_move_along(a.x1 as int, t * ux, c);
        quotients_move_along(a.y1 as int, t * uy, c);
        quotients_move_along(b.x1 as int, s * vx, -c);
        quotients_move_along(b.y1 as int, s * vy, -c);
        assert((-c) * b.x1 + s * vx == -(c * a.x1 + t * ux)) by {
            areas_cancel(ux, uy, vx, vy, wx, wy);
            assert(c * a.x1 - c * b.x1 == c * wx) by (nonlinear_arith)
                requires
                    wx == a.x1 - b.x1,
            ;
            assert((-c) * b.x1 == -(c * b.x1)) by (nonlinear_arith);
        }
        assert((-c) * b.y1 + s * vy == -(c * a.y1 + t * uy)) by {
            areas_cancel(ux, uy, vx, vy, wx, wy);
            assert(c * a.y1 - c * b.y1 == c * wy) by (nonlinear_arith)
                requires
                    wy == a.y1 - b.y1,
            ;
            assert((-c) * b.y1 == -(c * b.y1)) by (nonlinear_arith);
        }
    }
}

/// `(a - b) * (c - d)`.
fn product(a: i64, b: i64, c: i64, d: i64) -> (r: Integer)
    ensures
        r@ == (a - b) * (c - d),
{
    Integer::new(a as i128 - b as i128).times(&Integer::new(c as i128 - d as i128))
}

fn quotient_of(n: &Integer, d: &Integer) -> (r: Integer)
    requires
        d@ != 0,
    ensures
        r@ == quotient(n@, d@),
{
    if d.is_negative() {
        n.opposite().over(&d.opposite())
    } else {
        n.over(d)
    }
}

/// Where two lines cross, unless they are parallel.
pub fn line_intersection(a: &Line, b: &Line) -> (r: Option<Crossing>)
    ensures
        match r {
            Some(p) => intersection(*a, *b) == Some(p@) && p@ == crossing(*a, *b),
            None => intersection(*a, *b) is None,
        },
        r is None <==> abs(cross(*a, *b)) < 100,
{
    let denom: Integer = product(a.x1, a.x2, b.y1, b.y2).minus(
        &product(a.y1, a.y2, b.x1, b.x2),
    );
    let limit: Integer = Integer::new(100);
    if denom.is_less(&limit) && limit.opposite().is_less(&denom) {
        return None;
    }
    let t: Integer = product(a.x1, b.x1, b.y1, b.y2).minus(&product(a.y1, b.y1, b.x1, b.x2));
    let right: Integer = Integer::new(a.x2 as i128 - a.x1 as i128);
    let down: Integer = Integer::new(a.y2 as i128 - a.y1 as i128);
    let x: Integer = Integer::new(a.x1 as i128).plus(&quotient_of(&t.times(&right), &denom));
    let y: Integer = Integer::new(a.y1 as i128).plus(&quotient_of(&t.times(&down), &denom));
    Some(Crossing { x, y })
}

/// The distance of two points.
pub open spec fn distance(a: (int, int), b: (int, int)) -> int {
    root((b.0 - a.0) * (b.0 - a.0) + (b.1 - a.1) * (b.1 - a.1))
}

fn distance_of(a: &Crossing, b: &Crossing) -> (r: Integer)
    ensures
        r@ == distance(a@, b@),
{
    let dx: Integer = b.x.minus(&a.x);
    let dy: Integer = b.y.minus(&a.y);
    assert(dx@ * dx@ >= 0 && dy@ * dy@ >= 0) by (nonlinear_arith);
    dx.times(&dx).plus(&dy.times(&dy)).square_root()
}

/// The four corners of the panel.
#[derive(Debug)]
pub struct Corners {
    pub top_left: Crossing,
    pub top_right: Crossing,
    pub bottom_left: Crossing,
    pub bottom_right: Crossing,
}

/// Where [`Corners`] lie.
pub struct CornersView {
    pub top_left: (int, int),
    pub top_right: (int, int),
    pub bottom_left: (int, int),
    pub bottom_right: (int, int),
}

impl View for Corners {
    type V = CornersView;

    open spec fn view(&self) -> CornersView {
        CornersView {
            top_left: self.top_left@,
            top_right: self.top_right@,
            bottom_left: self.bottom_left@,
            bottom_right: self.bottom_right@,
        }
    }
}

/// The corners, if all four lines cross.
pub open spec fn corners_of(lines: LinePair, verticals: VerticalPair) -> Option<CornersView> {
    match (
        intersection(lines.top, verticals.left),
        intersection(lines.top, verticals.right),
        intersection(lines.bottom, verticals.left),
        intersection(lines.bottom, verticals.right),
    ) {
        (Some(top_left), Some(top_right), Some(bottom_left), Some(bottom_right)) => Some(
            CornersView { top_left, top_right, bottom_left, bottom_right },
        ),
        _ => None,
    }
}

/// The distances of the reference lines along the panel's two edges, together.
pub open spec fn corner_distances(c: CornersView) -> int {
    distance(c.top_left, c.bottom_left) + distance(c.top_right, c.bottom_right)
}

/// How the crop is warped: four points, where they go, both clockwise from the top left, and the
/// size of the result.
#[derive(Debug)]
pub struct PerspectivePlan {
    pub src: [Crossing; 4],
    pub dst: [Crossing; 4],
    pub width: i32,
    pub height: i32,
}

/// Where some points lie.
pub open spec fn places_of(points: Seq<Crossing>) -> Seq<(int, int)> {
    points.map_values(|p: Crossing| p@)
}

/// The four points of the crop in an attempt: the corners, moved apart or together.
pub open spec fn source_points(c: CornersView, shift: int) -> Seq<(int, int)> {
    seq![
        (c.top_left.0, c.top_left.1 + shift),
        (c.top_right.0, c.top_right.1 + shift),
        (c.bottom_right.0, c.bottom_right.1 - shift),
        (c.bottom_left.0, c.bottom_left.1 - shift),
    ]
}

/// Where the corners go: to a rectangle at their mean horizontal positions, half the mean distance
/// of the lines below the top.
pub open spec fn target_points(c: CornersView) -> Seq<(int, int)> {
    let left = (c.top_left.0 + c.bottom_left.0) / 2;
    let right = (c.top_right.0 + c.bottom_right.0) / 2;
    let top = corner_distances(c) / 4;
    let bottom = corner_distances(c) * 3 / 4;
    seq![(left, top), (right, top), (right, bottom), (left, bottom)]
}

/// The height of the result: half the mean distance of the lines above them, and eight times that
/// distance below them.
pub open spec fn output_height(c: CornersView) -> int {
    pixel(corner_distances(c) * 19 / 4)
}

fn find_corners(lines: &LinePair, verticals: &VerticalPair) -> (r: Option<Corners>)
    ensures
        match r {
            Some(c) => corners_of(*lines, *verticals) == Some(c@),
            None => corners_of(*lines, *verticals) is None,
        },
{
    match (
        line_intersection(&lines.top, &verticals.left),
        line_intersection(&lines.top, &verticals.right),
        line_intersection(&lines.bottom, &verticals.left),
        line_intersection(&lines.bottom, &verticals.right),
    ) {
        (Some(top_left), Some(top_right), Some(bottom_left), Some(bottom_right)) => Some(
            Corners { top_left, top_right, bottom_left, bottom_right },
        ),
        _ => None,
    }
}

/// `n * factor / 4`, rounded down.
fn quarters(n: &Integer, factor: i128) -> (r: Integer)
    ensures
        r@ == n@ * factor / 4,
{
    n.times(&Integer::new(factor)).over(&Integer::new(4))
}

fn middle(a: &Integer, b: &Integer) -> (r: Integer)
    ensures
        r@ == (a@ + b@) / 2,
{
    a.plus(b).over(&Integer::new(2))
}

fn moved(p: &Crossing, shift: &Integer) -> (r: Crossing)
    ensures
        r@ == (p@.0, p@.1 + shift@),
{
    Crossing { x: p.x.clone(), y: p.y.plus(shift) }
}

fn point(x: &Integer, y: &Integer) -> (r: Crossing)
    ensures
        r@ == (x@, y@),
{
    Crossing { x: x.clone(), y: y.clone() }
}

/// How an attempt decides to warp the crop.
pub open spec fn is_warp_plan(
    crop: Option<CropRegion>,
    lines: Option<LinePair>,
    verticals: Option<VerticalPair>,
    iteration: int,
    r: Result<PerspectivePlan, StageOutcome>,
) -> bool {
    match (crop, lines, verticals) {
        (Some(c), Some(l), Some(v)) => match corners_of(l, v) {
            None => r matches Err(o) && is_retry(
                o,
                "horizontal and vertical lines are parallel — no intersection"@,
            ),
            Some(corners) => {
                let w = as_signed(c.width as int);
                let h = output_height(corners);
                if w <= 0 || h <= 0 {
                    r matches Err(o) && is_retry(
                        o,
                        "invalid output dimensions: "@ + signed_decimal(w) + "x"@
                            + signed_decimal(h),
                    )
                } else {
                    r matches Ok(p) && places_of(p.src@) == source_points(
                        corners,
                        jitter(iteration),
                    ) && places_of(p.dst@) == target_points(corners) && p.width == w && p.height
                        == h
                }
            },
        },
        _ => r matches Err(o) && is_exhausted(
            o,
            "missing crop, lines, or verticals from previous stages"@,
        ),
    }
}

/// Decides how an attempt warps the crop.
pub fn plan_warp(
    crop: &Option<CropRegion>,
    lines: &Option<LinePair>,
    verticals: &Option<VerticalPair>,
    iteration: u32,
) -> (r: Result<PerspectivePlan, StageOutcome>)
    ensures
        is_warp_plan(*crop, *lines, *verticals, iteration as int, r),
{
    let (c, l, v): (&CropRegion, &LinePair, &VerticalPair) = match (crop, lines, verticals) {
        (Some(c), Some(l), Some(v)) => (c, l, v),
        _ => {
            return Err(
                StageOutcome::Exhausted(
                    String::from_str("missing crop, lines, or verticals from previous stages"),
                ),
            );
        },
    };
    let k: Corners = match find_corners(l, v) {
        Some(k) => k,
        None => {
            return Err(
                StageOutcome::Retry(
                    String::from_str("horizontal and vertical lines are parallel — no intersection"),
                ),
            );
        },
    };
    let shift: Integer = Integer::new(jitter_for_iteration(iteration) as i128);
    let back: Integer = shift.opposite();
    let d: Integer = distance_of(&k.top_left, &k.bottom_left).plus(
        &distance_of(&k.top_right, &k.bottom_right),
    );
    let w: i32 = to_signed(c.width);
    let h: i32 = quarters(&d, 19).to_pixel();
    if w <= 0 || h <= 0 {
        let mut s: String = String::from_str("invalid output dimensions: ");
        push_signed(&mut s, w as i64);
        s.append("x");
        push_signed(&mut s, h as i64);
        return Err(StageOutcome::Retry(s));
    }
    let left: Integer = middle(&k.top_left.x, &k.bottom_left.x);
    let right: Integer = middle(&k.top_right.x, &k.bottom_right.x);
    let top: Integer = quarters(&d, 1);
    let bottom: Integer = quarters(&d, 3);
    let p = PerspectivePlan {
        src: [
            moved(&k.top_left, &shift),
            moved(&k.top_right, &shift),
            moved(&k.bottom_right, &back),
            moved(&k.bottom_left, &back),
        ],
        dst: [
            point(&left, &top),
            point(&right, &top),
            point(&right, &bottom),
            point(&left, &bottom),
        ],
        width: w,
        height: h,
    };
    assert(places_of(p.src@) =~= source_points(k@, jitter(iteration as int)));
    assert(places_of(p.dst@) =~= target_points(k@));
    Ok(p)
}

/// The error for a warp without a result.
pub fn empty_warp() -> (r: StageOutcome)
    ensures
        is_retry(r, "warp produced empty image"@),
{
    StageOutcome::Retry(String::from_str("warp produced empty image"))
}

/// Notes the transform of a plan.
pub fn note_warp(state: &mut PipelineState, plan: &PerspectivePlan, matrix: TransformMatrix)
    requires
        plan.width >= 0,
        plan.height >= 0,
    ensures
        final(state)@ == (StateView {
            perspective: Some(
                PerspectiveCorrection {
                    matrix,
                    output_width: plan.width as u32,
                    output_height: plan.height as u32,
                },
            ),
            ..old(state)@
        }),
{
    state.perspective = Some(
        PerspectiveCorrection {
            matrix,
            output_width: plan.width as u32,
            output_height: plan.height as u32,
        },
    );
}

/// The stage that corrects the perspective.
#[derive(Debug, Clone, Copy, PartialEq, Eq, Structural)]
pub struct Perspective;

impl Perspective {
    /// What an attempt may decide on how to warp the crop.
    pub open spec fn may_plan(
        before: StateView,
        iteration: int,
        r: Result<PerspectivePlan, StageOutcome>,
    ) -> bool {
        is_warp_plan(before.crop, before.lines, before.verticals, iteration, r)
    }

    /// An attempt may succeed with this image and this correction.
    pub open spec fn may_succeed<
        I,
        E,
        W: Fn(&PerspectivePlan) -> Result<Option<(I, TransformMatrix)>, E>,
    >(
        before: StateView,
        iteration: int,
        warp: W,
        image: I,
        correction: PerspectiveCorrection,
    ) -> bool {
        exists|plan: PerspectivePlan|
            #![trigger call_ensures(warp, (&plan,), Ok(Some((image, correction.matrix))))]
            Self::may_plan(before, iteration, Ok(plan)) && call_ensures(
                warp,
                (&plan,),
                Ok(Some((image, correction.matrix))),
            ) && correction.output_width == plan.width && correction.output_height == plan.height
    }

    /// An attempt may come to this end without success.
    pub open spec fn may_stop<
        I,
        E,
        W: Fn(&PerspectivePlan) -> Result<Option<(I, TransformMatrix)>, E>,
    >(before: StateView, iteration: int, warp: W, outcome: StageOutcome) -> bool {
        ||| Self::may_plan(before, iteration, Err(outcome))
        ||| is_retry(outcome, "warp produced empty image"@) && exists|plan: PerspectivePlan|
            #![trigger call_ensures(warp, (&plan,), Ok(None))]
            Self::may_plan(before, iteration, Ok(plan)) && call_ensures(warp, (&plan,), Ok(None))
    }

    /// An attempt may fail with this error: that of the warp.
    pub open spec fn may_fail<
        I,
        E,
        W: Fn(&PerspectivePlan) -> Result<Option<(I, TransformMatrix)>, E>,
    >(before: StateView, iteration: int, warp: W, error: E) -> bool {
        exists|plan: PerspectivePlan|
            #![trigger call_ensures(warp, (&plan,), Err(error))]
            Self::may_plan(before, iteration, Ok(plan)) && call_ensures(warp, (&plan,), Err(error))
    }

    /// An attempt of the stage; `warp` gives the warped crop with the transform, or nothing where
    /// the warp is empty. A failed attempt leaves the state and the image as they were; one that
    /// succeeds changes the correction alone.
    pub fn run<I, E, W: Fn(&PerspectivePlan) -> Result<Option<(I, TransformMatrix)>, E>>(
        &self,
        state: &mut PipelineState,
        dst: &mut I,
        iteration: u32,
        warp: &W,
    ) -> (r: Result<(StageOutcome, ImageOutput), E>)
        requires
            forall|plan: &PerspectivePlan| #[trigger] call_requires(*warp, (plan,)),
        ensures
            ({
                let before = old(state)@;
                let after = final(state)@;
                match r {
                    Ok((outcome, output)) => match outcome {
                        StageOutcome::Success => {
                            &&& output is Transformed
                            &&& after.perspective matches Some(p) && Self::may_succeed(
                                before,
                                iteration as int,
                                *warp,
                                *final(dst),
                                p,
                            )
                            &&& after == (StateView { perspective: after.perspective, ..before })
                        },
                        _ => {
                            &&& output is Passthrough
                            &&& Self::may_stop(before, iteration as int, *warp, outcome)
                            &&& after == before
                            &&& *final(dst) == *old(dst)
                        },
                    },
                    Err(e) => {
                        &&& Self::may_fail(before, iteration as int, *warp, e)
                        &&& after == before
                        &&& *final(dst) == *old(dst)
                    },
                }
            }),
    {
        let plan: PerspectivePlan = match plan_warp(
            &state.crop,
            &state.lines,
            &state.verticals,
            iteration,
        ) {
            Ok(plan) => plan,
            Err(outcome) => return Ok((outcome, ImageOutput::Passthrough)),
        };
        assert(Self::may_plan(old(state)@, iteration as int, Ok(plan)));
        match warp(&plan) {
            Ok(Some((image, matrix))) => {
                *dst = image;
                note_warp(state, &plan, matrix);
                Ok((StageOutcome::Success, ImageOutput::Transformed))
            },
            Ok(None) => Ok((empty_warp(), ImageOutput::Passthrough)),
            Err(e) => Err(e),
        }
    }
}

/// The distance of the reference lines along one edge: between their crossings with it, or at
/// that end where they do not cross it.
pub open spec fn edge_distance(lines: LinePair, edge: Line, at_end: int) -> int {
    match (intersection(lines.top, edge), intersection(lines.bottom, edge)) {
        (Some(t), Some(b)) => distance(t, b),
        _ => at_end,
    }
}

/// The distances of the reference lines along the two edges, together.
pub open spec fn guide_distances(lines: LinePair, verticals: VerticalPair) -> int {
    edge_distance(lines, verticals.left, abs(lines.bottom.y1 - lines.top.y1)) + edge_distance(
        lines,
        verticals.right,
        abs(lines.bottom.y2 - lines.top.y2),
    )
}

fn find_edge_distance(lines: &LinePair, edge: &Line, at_end: i128) -> (r: Integer)
    ensures
        r@ == edge_distance(*lines, *edge, at_end as int),
{
    match (line_intersection(&lines.top, edge), line_intersection(&lines.bottom, edge)) {
        (Some(t), Some(b)) => distance_of(&t, &b),
        _ => Integer::new(at_end),
    }
}

/// A green line across the whole width.
pub open spec fn guide(y: int, width: int) -> ShapeView {
    ShapeView::Line { x1: 0, y1: y, x2: width, y2: y, color: bgr(0, 255, 0), thickness: 1 }
}

/// The debug picture of the warp, if all of it is known: green lines where the trim should now
/// be level.
pub fn debug_shapes(state: &PipelineState) -> (r: Option<(String, Vec<Shape>)>)
    ensures
        match (state.crop, state.lines, state.verticals, state.perspective) {
            (Some(_), Some(l), Some(v), Some(p)) => {
                let d = guide_distances(l, v);
                let w = min(p.output_width as int, i32::MAX as int);
                &&& r matches Some(s)
                &&& s.0@ == "S4:Perspective_"@ + decimal(p.output_width as int) + "x"@ + decimal(
                    p.output_height as int,
                )
                &&& drawing(s.1@) == seq![
                    guide(pixel(d / 4), w),
                    guide(pixel(d * 3 / 4), w),
                ]
            },
            _ => r is None,
        },
{
    match (&state.crop, &state.lines, &state.verticals, &state.perspective) {
        (Some(_), Some(l), Some(v), Some(p)) => {
            let at_left: i128 = abs_exec(l.bottom.y1 as i128 - l.top.y1 as i128);
            let at_right: i128 = abs_exec(l.bottom.y2 as i128 - l.top.y2 as i128);
            let d: Integer = find_edge_distance(l, &v.left, at_left).plus(
                &find_edge_distance(l, &v.right, at_right),
            );
            let w: i32 = min_exec(p.output_width as i64, 0x7fff_ffff) as i32;
            let top: i32 = quarters(&d, 1).to_pixel();
            let bottom: i32 = quarters(&d, 3).to_pixel();
            let green: Color = Color { blue: 0, green: 255, red: 0 };
            let mut label: String = String::from_str("S4:Perspective_");
            push_number(&mut label, p.output_width as u128);
            label.append("x");
            push_number(&mut label, p.output_height as u128);
            let mut shapes: Vec<Shape> = Vec::new();
            shapes.push(Shape::Line { x1: 0, y1: top, x2: w, y2: top, color: green, thickness: 1 });
            shapes.push(
                Shape::Line { x1: 0, y1: bottom, x2: w, y2: bottom, color: green, thickness: 1 },
            );
            assert(drawing(shapes@) =~= seq![
                guide(top as int, w as int),
                guide(bottom as int, w as int),
            ]);
            Some((label, shapes))
        },
        _ => None,
    }
}


/// The attempts try the corners where they are, and then move them, by turns outwards and inwards,
/// by one and a half pixels more each time, up to 22.5 pixels.
pub proof fn attempts_move_by_turns(k: int)
    requires
        k >= 1,
    ensures
        jitter(0) == 0,
        jitter(2 * k - 1) == -jitter(2 * k),
        k <= 15 ==> jitter(2 * k) == 1_500_000 * k,
        k >= 15 ==> jitter(2 * k) == 22_500_000,
{
    assert((2 * k - 1 + 1) / 2 == k);
    assert((2 * k + 1) / 2 == k);
}

/// The distance of two points is the root of the sum of the squares, down to the millionth, and the
/// same in both directions.
pub proof fn distances_are_those_of_the_plane(a: (int, int), b: (int, int))
    ensures
        ({
            let (dx, dy) = (a.0 - b.0, a.1 - b.1);
            let d = distance(a, b);
            &&& d >= 0
            &&& d * d <= dx * dx + dy * dy < (d + 1) * (d + 1)
            &&& d == distance(b, a)
        }),
{
    let (dx, dy) = (a.0 - b.0, a.1 - b.1);
    let (ex, ey) = (b.0 - a.0, b.1 - a.1);
    assert(dx * dx == ex * ex && dy * dy == ey * ey && dx * dx >= 0 && dy * dy >= 0)
        by (nonlinear_arith)
        requires
            dx == -ex,
            dy == -ey,
    ;
    crate::fixed::roots_exist(dx * dx + dy * dy);
}

/// There are corners exactly if no line of the one pair is parallel to one of the other, and each is
/// the crossing of the two lines that it is named after.
pub proof fn corners_are_crossings(lines: LinePair, verticals: VerticalPair)
    ensures
        match corners_of(lines, verticals) {
            Some(c) => {
                &&& intersection(lines.top, verticals.left) == Some(c.top_left)
                &&& intersection(lines.top, verticals.right) == Some(c.top_right)
                &&& intersection(lines.bottom, verticals.left) == Some(c.bottom_left)
                &&& intersection(lines.bottom, verticals.right) == Some(c.bottom_right)
            },
            None => {
                ||| -100 < cross(lines.top, verticals.left) < 100
                ||| -100 < cross(lines.top, verticals.right) < 100
                ||| -100 < cross(lines.bottom, verticals.left) < 100
                ||| -100 < cross(lines.bottom, verticals.right) < 100
            },
        },
{
}

/// Moving the corners leaves them in their columns, and moves the upper ones down as far as the
/// lower ones up. Unmoved they go around from the top left.
pub proof fn corners_move_towards_each_other(c: CornersView, shift: int)
    ensures
        ({
            let s = source_points(c, shift);
            &&& s.len() == 4
            &&& source_points(c, 0) == seq![c.top_left, c.top_right, c.bottom_right, c.bottom_left]
            &&& forall|i: int| 0 <= i < 4 ==> (#[trigger] s[i]).0 == source_points(c, 0)[i].0
            &&& s[0].1 == c.top_left.1 + shift
            &&& s[1].1 == c.top_right.1 + shift
            &&& s[0].1 + s[3].1 == c.top_left.1 + c.bottom_left.1
            &&& s[1].1 + s[2].1 == c.top_right.1 + c.bottom_right.1
        }),
{
    assert(source_points(c, 0) =~= seq![c.top_left, c.top_right, c.bottom_right, c.bottom_left]);
}

/// The corners go to those of an upright rectangle. Each side of it stands in the middle between the
/// two corners of that side. Its upper edge lies half the mean distance of the lines below the top,
/// its lower edge one and a half, and the image is nine and a half such distances high.
pub proof fn corners_go_to_a_rectangle(c: CornersView)
    ensures
        ({
            let t = target_points(c);
            let both = distance(c.top_left, c.bottom_left) + distance(c.top_right, c.bottom_right);
            &&& t.len() == 4
            &&& t[0].0 == t[3].0 && t[1].0 == t[2].0 && t[0].1 == t[1].1 && t[2].1 == t[3].1
            &&& 0 <= c.top_left.0 + c.bottom_left.0 - 2 * t[0].0 < 2
            &&& 0 <= c.top_right.0 + c.bottom_right.0 - 2 * t[1].0 < 2
            &&& 0 <= both - 4 * t[0].1 < 4
            &&& 0 <= 3 * both - 4 * t[2].1 < 4
            &&& output_height(c) == pixel(19 * both / 4)
        }),
{
}


/// Where there are corners the guides lie as far apart as these.
pub proof fn guides_lie_as_far_apart_as_the_corners(lines: LinePair, verticals: VerticalPair)
    ensures
        corners_of(lines, verticals) matches Some(c) ==> guide_distances(lines, verticals)
            == distance(c.top_left, c.bottom_left) + distance(c.top_right, c.bottom_right),
{
}

} // verus!
