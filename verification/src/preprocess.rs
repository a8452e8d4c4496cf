//! Prepares a color frame for detection: gray, spread contrast, no specks.

use vstd::prelude::*;

use crate::fixed::max;
use crate::fixed::min;
use crate::frame::GrayFrame;
use crate::frame::RgbFrame;

verus! {

/// The gray levels that `image` gives to the pixels of a color image.
pub uninterp spec fn luma(width: int, height: int, pixels: Seq<u8>) -> Seq<u8>;

/// The gray levels that `imageproc` puts in place of these when it spreads them.
pub uninterp spec fn equalized(pixels: Seq<u8>) -> Seq<u8>;

/// The gray image of the frame, by `image::DynamicImage::to_luma8`.
///
/// Taken on trust: the image keeps its size, and its gray levels depend on
/// the frame alone.
#[verifier::external_body]
fn to_luma(frame: &RgbFrame) -> (r: GrayFrame)
    requires
        frame.is_whole(),
    ensures
        r.width == frame.width,
        r.height == frame.height,
        r.is_whole(),
        r.pixels@ == luma(frame.width as int, frame.height as int, frame.pixels@),
{
    let rgb = image::RgbImage::from_raw(frame.width, frame.height, frame.pixels.clone()).unwrap();
    let gray = image::DynamicImage::ImageRgb8(rgb).to_luma8();
    GrayFrame { width: gray.width(), height: gray.height(), pixels: gray.into_raw() }
}

/// The image with its gray levels spread, by
/// `imageproc::contrast::equalize_histogram`.
///
/// Taken on trust: the image keeps its size, and its gray levels depend on
/// those before alone. The pixels are counted in 32 bits, so there may be no
/// more of them.
#[verifier::external_body]
fn equalize(frame: &GrayFrame) -> (r: GrayFrame)
    requires
        frame.is_whole(),
        frame.pixels@.len() <= u32::MAX,
    ensures
        r.width == frame.width,
        r.height == frame.height,
        r.is_whole(),
        r.pixels@ == equalized(frame.pixels@),
{
    let gray = image::GrayImage::from_raw(frame.width, frame.height, frame.pixels.clone()).unwrap();
    let spread = imageproc::contrast::equalize_histogram(&gray);
    GrayFrame { width: spread.width(), height: spread.height(), pixels: spread.into_raw() }
}

/// The place nearest to `v` in a row of `n`.
pub open spec fn nearest_place(v: int, n: int) -> int {
    max(0, min(v, n - 1))
}

/// The `k`-th of the gray levels around the pixel at `x`, `y`, row after row;
/// beyond the border, the image goes on as it ends.
pub open spec fn kernel_level(
    frame: &GrayFrame,
    x: int,
    y: int,
    x_radius: int,
    y_radius: int,
    k: int,
) -> u8 {
    let side = 2 * x_radius + 1;
    let column = nearest_place(x - x_radius + k % side, frame.width as int);
    let row = nearest_place(y - y_radius + k / side, frame.height as int);
    frame.pixels@[row * frame.width + column]
}

/// How many of the first `n` gray levels around the pixel are at most `level`.
pub open spec fn levels_up_to(
    frame: &GrayFrame,
    x: int,
    y: int,
    x_radius: int,
    y_radius: int,
    level: int,
    n: nat,
) -> nat
    decreases n,
{
    if n == 0 {
        0
    } else {
        levels_up_to(frame, x, y, x_radius, y_radius, level, (n - 1) as nat) + if kernel_level(
            frame,
            x,
            y,
            x_radius,
            y_radius,
            n - 1,
        ) <= level {
            1nat
        } else {
            0nat
        }
    }
}

/// Whether `level` is the median of the gray levels around the pixel: the
/// least one that at least half of them do not exceed.
pub open spec fn is_kernel_median(
    frame: &GrayFrame,
    x: int,
    y: int,
    x_radius: int,
    y_radius: int,
    level: u8,
) -> bool {
    let n = ((2 * x_radius + 1) * (2 * y_radius + 1)) as nat;
    &&& 2 * levels_up_to(frame, x, y, x_radius, y_radius, level as int, n) >= n
    &&& 2 * levels_up_to(frame, x, y, x_radius, y_radius, level - 1, n) < n
}

/// Whether every pixel of `out` is the median of those around it in `frame`.
pub open spec fn is_median_of(out: &GrayFrame, frame: &GrayFrame, x_radius: int, y_radius: int) -> bool {
    &&& out.width == frame.width
    &&& out.height == frame.height
    &&& out.is_whole()
    &&& forall|i: int|
        0 <= i < out.pixels@.len() ==> is_kernel_median(
            frame,
            i % (out.width as int),
            i / (out.width as int),
            x_radius,
            y_radius,
            #[trigger] out.pixels@[i],
        )
}

/// The image whose pixels are the medians of those around them, by
/// `imageproc::filter::median_filter`.
///
/// Taken on trust: each pixel becomes the median of the
/// `(2 * x_radius + 1) * (2 * y_radius + 1)` pixels around it, where the
/// image goes on beyond its border as it ends. The call panics on an image
/// whose side and radius together exceed 31 bits.
#[verifier::external_body]
fn median_filter(frame: &GrayFrame, x_radius: u32, y_radius: u32) -> (r: GrayFrame)
    requires
        frame.is_whole(),
        x_radius <= 255,
        y_radius <= 255,
        frame.width + x_radius <= i32::MAX,
        frame.height + y_radius <= i32::MAX,
    ensures
        is_median_of(&r, frame, x_radius as int, y_radius as int),
{
    let gray = image::GrayImage::from_raw(frame.width, frame.height, frame.pixels.clone()).unwrap();
    let filtered = imageproc::filter::median_filter(&gray, x_radius, y_radius);
    GrayFrame { width: filtered.width(), height: filtered.height(), pixels: filtered.into_raw() }
}

/// Whether `r` is the frame made ready.
pub open spec fn is_preprocessed(r: &GrayFrame, frame: &RgbFrame) -> bool {
    exists|spread: GrayFrame|
        {
            &&& spread.width == frame.width
            &&& spread.height == frame.height
            &&& spread.is_whole()
            &&& spread.pixels@ == equalized(
                luma(frame.width as int, frame.height as int, frame.pixels@),
            )
            &&& #[trigger] is_median_of(r, &spread, 2, 2)
        }
}

/// The frame in gray, with its levels spread and single specks removed.
pub fn preprocess(frame: &RgbFrame) -> (r: GrayFrame)
    requires
        frame.is_whole(),
        frame.width + 2 <= i32::MAX,
        frame.height + 2 <= i32::MAX,
        frame.width * frame.height <= u32::MAX,
    ensures
        is_preprocessed(&r, frame),
{
    let gray: GrayFrame = to_luma(frame);
    let spread: GrayFrame = equalize(&gray);
    let r: GrayFrame = median_filter(&spread, 2, 2);
    assert(is_median_of(&r, &spread, 2, 2));
    r
}

proof fn more_levels_up_to_more(
    frame: &GrayFrame,
    x: int,
    y: int,
    x_radius: int,
    y_radius: int,
    low: int,
    high: int,
    n: nat,
)
    requires
        low <= high,
    ensures
        levels_up_to(frame, x, y, x_radius, y_radius, low, n) <= levels_up_to(
            frame,
            x,
            y,
            x_radius,
            y_radius,
            high,
            n,
        ),
    decreases n,
{
    if n > 0 {
        more_levels_up_to_more(frame, x, y, x_radius, y_radius, low, high, (n - 1) as nat);
    }
}

/// An image has one median image for each size of the surroundings.
pub proof fn medians_are_unique(a: &GrayFrame, b: &GrayFrame, frame: &GrayFrame, x_radius: int, y_radius: int)
    requires
        is_median_of(a, frame, x_radius, y_radius),
        is_median_of(b, frame, x_radius, y_radius),
    ensures
        a.width == b.width,
        a.height == b.height,
        a.pixels@ == b.pixels@,
{
    let n = ((2 * x_radius + 1) * (2 * y_radius + 1)) as nat;
    assert forall|i: int| 0 <= i < a.pixels@.len() implies a.pixels@[i] == b.pixels@[i] by {
        let x = i % (a.width as int);
        let y = i / (a.width as int);
        let p = a.pixels@[i];
        let q = b.pixels@[i];
        if p < q {
            more_levels_up_to_more(frame, x, y, x_radius, y_radius, p as int, q - 1, n);
        } else if q < p {
            more_levels_up_to_more(frame, x, y, x_radius, y_radius, q as int, p - 1, n);
        }
    }
}


/// Of the kernel around a pixel, the level so many columns and rows away is that of the pixel there,
/// or of the nearest at the edge of the frame.
pub proof fn kernels_reach_to_both_sides(
    frame: &GrayFrame,
    x: int,
    y: int,
    x_radius: int,
    y_radius: int,
    dx: int,
    dy: int,
)
    requires
        -x_radius <= dx <= x_radius,
        -y_radius <= dy <= y_radius,
        0 <= x < frame.width,
        0 <= y < frame.height,
    ensures
        ({
            let k = (dy + y_radius) * (2 * x_radius + 1) + (dx + x_radius);
            let column = if x + dx < 0 {
                0
            } else if x + dx >= frame.width {
                frame.width - 1
            } else {
                x + dx
            };
            let row = if y + dy < 0 {
                0
            } else if y + dy >= frame.height {
                frame.height - 1
            } else {
                y + dy
            };
            &&& 0 <= k < (2 * x_radius + 1) * (2 * y_radius + 1)
            &&& kernel_level(frame, x, y, x_radius, y_radius, k) == frame.pixels@[row * frame.width
                + column]
        }),
{
    let side = 2 * x_radius + 1;
    let (u, v) = (dx + x_radius, dy + y_radius);
    let k = v * side + u;
    assert(0 <= k < side * (2 * y_radius + 1)) by (nonlinear_arith)
        requires
            k == v * side + u,
            0 <= u < side,
            0 <= v < 2 * y_radius + 1,
    ;
    vstd::arithmetic::div_mod::lemma_fundamental_div_mod_converse(k, side, v, u);
}

/// The places of the kernel whose level is at most `level`.
pub open spec fn places_up_to(
    frame: &GrayFrame,
    x: int,
    y: int,
    x_radius: int,
    y_radius: int,
    level: int,
    n: nat,
) -> Set<int> {
    Set::new(|k: int| 0 <= k < n && kernel_level(frame, x, y, x_radius, y_radius, k) <= level)
}

proof fn levels_count_places(
    frame: &GrayFrame,
    x: int,
    y: int,
    x_radius: int,
    y_radius: int,
    level: int,
    n: nat,
)
    ensures
        places_up_to(frame, x, y, x_radius, y_radius, level, n).finite(),
        places_up_to(frame, x, y, x_radius, y_radius, level, n).len() == levels_up_to(
            frame,
            x,
            y,
            x_radius,
            y_radius,
            level,
            n,
        ),
    decreases n,
{
    let all = places_up_to(frame, x, y, x_radius, y_radius, level, n);
    if n == 0 {
        assert(all =~= Set::<int>::empty());
    } else {
        let m = (n - 1) as nat;
        levels_count_places(frame, x, y, x_radius, y_radius, level, m);
        let before = places_up_to(frame, x, y, x_radius, y_radius, level, m);
        if kernel_level(frame, x, y, x_radius, y_radius, n - 1) <= level {
            assert(all =~= before.insert(n - 1));
        } else {
            assert(all =~= before);
        }
    }
}

/// In a median every level is one that half of the kernel does not exceed, and that fewer than half
/// of it lie below.
pub proof fn medians_halve_the_kernel(
    frame: &GrayFrame,
    out: &GrayFrame,
    x_radius: int,
    y_radius: int,
    x: int,
    y: int,
)
    requires
        is_median_of(out, frame, x_radius, y_radius),
        0 <= x < frame.width,
        0 <= y < frame.height,
        x_radius >= 0,
        y_radius >= 0,
    ensures
        ({
            let n = ((2 * x_radius + 1) * (2 * y_radius + 1)) as nat;
            let level = out.pixels@[y * frame.width + x];
            &&& 2 * places_up_to(frame, x, y, x_radius, y_radius, level as int, n).len() >= n
            &&& 2 * places_up_to(frame, x, y, x_radius, y_radius, level - 1, n).len() < n
        }),
{
    let n = ((2 * x_radius + 1) * (2 * y_radius + 1)) as nat;
    let w = frame.width as int;
    let i = y * w + x;
    assert(0 <= i < w * frame.height) by (nonlinear_arith)
        requires
            i == y * w + x,
            0 <= x < w,
            0 <= y < frame.height,
    ;
    vstd::arithmetic::div_mod::lemma_fundamental_div_mod_converse(i, w, y, x);
    let level = out.pixels@[i];
    assert(is_kernel_median(frame, x, y, x_radius, y_radius, level));
    levels_count_places(frame, x, y, x_radius, y_radius, level as int, n);
    levels_count_places(frame, x, y, x_radius, y_radius, level - 1, n);
}

/// A frame is brought to grey, its contrast is equalized, and each level becomes the median of the
/// five by five levels around it.
pub proof fn frames_are_smoothed_five_by_five(r: &GrayFrame, frame: &RgbFrame, x: int, y: int)
    requires
        is_preprocessed(r, frame),
        0 <= x < frame.width,
        0 <= y < frame.height,
    ensures
        r.width == frame.width,
        r.height == frame.height,
        exists|spread: GrayFrame|
            {
                let level = r.pixels@[y * frame.width + x];
                &&& spread.width == frame.width && spread.height == frame.height
                &&& #[trigger] spread.pixels@ == equalized(
                    luma(frame.width as int, frame.height as int, frame.pixels@),
                )
                &&& places_up_to(&spread, x, y, 2, 2, level as int, 25).len() >= 13
                &&& places_up_to(&spread, x, y, 2, 2, level - 1, 25).len() <= 12
            },
{
    let spread = choose|spread: GrayFrame|
        {
            &&& spread.width == frame.width
            &&& spread.height == frame.height
            &&& spread.is_whole()
            &&& spread.pixels@ == equalized(
                luma(frame.width as int, frame.height as int, frame.pixels@),
            )
            &&& #[trigger] is_median_of(r, &spread, 2, 2)
        };
    medians_halve_the_kernel(&spread, r, 2, 2, x, y);
    let level = r.pixels@[y * frame.width + x];
    assert((2 * 2 + 1) * (2 * 2 + 1) == 25int) by (nonlinear_arith);
    assert(2 * places_up_to(&spread, x, y, 2, 2, level as int, 25).len() >= 25);
    assert(2 * places_up_to(&spread, x, y, 2, 2, level - 1, 25).len() < 25);
    assert(spread.pixels@ == equalized(luma(frame.width as int, frame.height as int, frame.pixels@)));
}

} // verus!
