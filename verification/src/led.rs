//! Reads the lamps by their color.
//!
//! Hues are in degrees, saturations and values run from 0 to 255; all are
//! held in millionths.

use vstd::prelude::*;

use crate::config::LedConfig;
use crate::fixed::floor_div;
use crate::fixed::max;
use crate::fixed::min;
use crate::frame::RgbFrame;
use crate::types::LedReading;
use crate::types::LedState;

verus! {

/// The hue of a color whose greatest part is `top` and whose parts differ by `delta`.
pub open spec fn hue(r: int, g: int, b: int, top: int, delta: int) -> int {
    let h = if top == r {
        60_000_000 * (g - b) / delta
    } else if top == g {
        60_000_000 * (b - r) / delta + 120_000_000
    } else {
        60_000_000 * (r - g) / delta + 240_000_000
    };
    if h < 0 {
        h + 360_000_000
    } else {
        h
    }
}

/// Hue, saturation and value of a color.
pub open spec fn hsv(r: int, g: int, b: int) -> (int, int, int) {
    let top = max(max(r, g), b);
    let delta = top - min(min(r, g), b);
    if top == 0 {
        (0, 0, 0)
    } else if delta == 0 {
        (0, 0, top * 1_000_000)
    } else {
        (hue(r, g, b, top, delta), 255_000_000 * delta / top, top * 1_000_000)
    }
}

/// Every hue is an angle below a full turn, and saturation and value stay in their range.
pub proof fn hsv_is_in_range(r: u8, g: u8, b: u8)
    ensures
        0 <= hsv(r as int, g as int, b as int).0 < 360_000_000,
        0 <= hsv(r as int, g as int, b as int).1 <= 255_000_000,
        0 <= hsv(r as int, g as int, b as int).2 <= 255_000_000,
{
    let top = max(max(r as int, g as int), b as int);
    let delta = top - min(min(r as int, g as int), b as int);
    if top != 0 && delta != 0 {
        assert forall|d: int| -delta <= d <= delta implies -60_000_000 <= #[trigger] (60_000_000 * d)
            / delta <= 60_000_000 by {
            quotient_bounds(d, delta);
        }
        assert(0 <= 255_000_000 * delta / top <= 255_000_000) by (nonlinear_arith)
            requires
                0 < delta <= top,
        ;
        if top != r && top != g {
            assert(60_000_000 * (r - g) / delta <= 60_000_000);
        }
    }
}

proof fn quotient_bounds(d: int, delta: int)
    requires
        0 < delta,
        -delta <= d <= delta,
    ensures
        -60_000_000 <= (60_000_000 * d) / delta <= 60_000_000,
{
    let n = 60_000_000 * d;
    let q = n / delta;
    assert(n == delta * q + n % delta && 0 <= n % delta < delta) by {
        vstd::arithmetic::div_mod::lemma_fundamental_div_mod(n, delta);
        vstd::arithmetic::div_mod::lemma_mod_bound(n, delta);
    }
    assert(-60_000_000 <= q <= 60_000_000) by (nonlinear_arith)
        requires
            n == 60_000_000 * d,
            -delta <= d <= delta,
            0 < delta,
            n == delta * q + n % delta,
            0 <= n % delta < delta,
    ;
}

/// Hue, saturation and value of a color.
pub fn rgb_to_hsv(r: u8, g: u8, b: u8) -> (x: (i64, i64, i64))
    ensures
        (x.0 as int, x.1 as int, x.2 as int) == hsv(r as int, g as int, b as int),
        0 <= x.0 < 360_000_000,
        0 <= x.1 <= 255_000_000,
        0 <= x.2 <= 255_000_000,
{
    proof {
        hsv_is_in_range(r, g, b);
    }
    let (rf, gf, bf): (i128, i128, i128) = (r as i128, g as i128, b as i128);
    let mut top: i128 = rf;
    if top < gf {
        top = gf;
    }
    if top < bf {
        top = bf;
    }
    let mut low: i128 = rf;
    if gf < low {
        low = gf;
    }
    if bf < low {
        low = bf;
    }
    let delta: i128 = top - low;
    let v: i64 = (top * 1_000_000) as i64;
    if top == 0 {
        return (0, 0, 0);
    }
    if delta == 0 {
        return (0, 0, v);
    }
    let s: i64 = floor_div(255_000_000 * delta, top) as i64;
    let d: i128 = if top == rf {
        gf - bf
    } else if top == gf {
        bf - rf
    } else {
        rf - gf
    };
    proof {
        quotient_bounds(d as int, delta as int);
    }
    let slope: i128 = floor_div(60_000_000 * d, delta);
    let mut h: i128 = if top == rf {
        slope
    } else if top == gf {
        slope + 120_000_000
    } else {
        slope + 240_000_000
    };
    if h < 0 {
        h = h + 360_000_000;
    }
    (h as i64, s, v)
}

/// What a lamp of this mean color shows: dark or pale lamps are off, green
/// ones heat, orange ones are on.
pub open spec fn led_state(h: int, s: int, v: int) -> LedState {
    if v < 50_000_000 || s < 50_000_000 {
        LedState::Off
    } else if 110_000_000 <= h <= 160_000_000 {
        LedState::Heating
    } else if 10_000_000 <= h <= 60_000_000 {
        LedState::On
    } else {
        LedState::Off
    }
}

/// What a lamp of this mean hue, saturation and value shows.
pub fn classify_led(h: i64, s: i64, v: i64) -> (r: LedState)
    ensures
        r == led_state(h as int, s as int, v as int),
{
    if v < 50_000_000 || s < 50_000_000 {
        return LedState::Off;
    }
    if 110_000_000 <= h && h <= 160_000_000 {
        return LedState::Heating;
    }
    if 10_000_000 <= h && h <= 60_000_000 {
        return LedState::On;
    }
    LedState::Off
}

/// How much of `size` pixels from `at` on lies before `end`.
pub open spec fn visible(at: int, size: int, end: int) -> int {
    max(min(at + size, end) - at, 0)
}

/// The pixels of the frame that lie in the lamp's region, row after row.
pub open spec fn region(frame: &RgbFrame, x: int, y: int, columns: int, rows: int) -> Seq<
    (u8, u8, u8),
> {
    Seq::new(
        (columns * rows) as nat,
        |k: int| frame.pixel(x + k % columns, y + k / columns),
    )
}

/// The pixels that show the lamp.
pub open spec fn led_pixels(frame: &RgbFrame, cfg: &LedConfig) -> Seq<(u8, u8, u8)> {
    region(
        frame,
        cfg.x as int,
        cfg.y as int,
        visible(cfg.x as int, cfg.width as int, frame.width as int),
        visible(cfg.y as int, cfg.height as int, frame.height as int),
    )
}

pub open spec fn pixel_hsv(p: (u8, u8, u8)) -> (int, int, int) {
    hsv(p.0 as int, p.1 as int, p.2 as int)
}

/// The sum of the saturations.
pub open spec fn saturation_sum(pixels: Seq<(u8, u8, u8)>) -> int
    decreases pixels.len(),
{
    if pixels.len() == 0 {
        0
    } else {
        saturation_sum(pixels.drop_last()) + pixel_hsv(pixels.last()).1
    }
}

/// The sum of the values.
pub open spec fn value_sum(pixels: Seq<(u8, u8, u8)>) -> int
    decreases pixels.len(),
{
    if pixels.len() == 0 {
        0
    } else {
        value_sum(pixels.drop_last()) + pixel_hsv(pixels.last()).2
    }
}

/// The colors of a lamp: each hue, and the means of saturation and value.
#[derive(Debug, PartialEq, Eq)]
pub struct LedSample {
    pub hues: Vec<i64>,
    pub mean_saturation: i64,
    pub mean_value: i64,
}

impl LedSample {
    /// Whether this is the sample of these pixels.
    pub open spec fn is_of(&self, pixels: Seq<(u8, u8, u8)>) -> bool {
        &&& self.hues@.len() == pixels.len()
        &&& forall|k: int|
            0 <= k < pixels.len() ==> #[trigger] self.hues@[k] == pixel_hsv(pixels[k]).0
        &&& self.mean_saturation == saturation_sum(pixels) / pixels.len() as int
        &&& self.mean_value == value_sum(pixels) / pixels.len() as int
    }
}

fn visible_part(at: u32, size: u32, end: u32) -> (r: u32)
    requires
        at + size <= u32::MAX,
    ensures
        r == visible(at as int, size as int, end as int),
        r > 0 ==> at + r <= end,
{
    let mut stop: u32 = at + size;
    if end < stop {
        stop = end;
    }
    if stop > at {
        stop - at
    } else {
        0
    }
}

/// The colors of the lamp, if any of its pixels lies in the frame.
pub fn sample_led(frame: &RgbFrame, cfg: &LedConfig) -> (r: Option<LedSample>)
    requires
        frame.is_whole(),
        cfg.x + cfg.width <= u32::MAX,
        cfg.y + cfg.height <= u32::MAX,
    ensures
        match r {
            Some(sample) => led_pixels(frame, cfg).len() > 0 && sample.is_of(led_pixels(frame, cfg)),
            None => led_pixels(frame, cfg).len() == 0,
        },
{
    let columns: u32 = visible_part(cfg.x, cfg.width, frame.width);
    let rows: u32 = visible_part(cfg.y, cfg.height, frame.height);
    let ghost pixels = led_pixels(frame, cfg);
    assert(columns * rows >= 0) by (nonlinear_arith);
    assert(columns * rows == 0 <==> columns == 0 || rows == 0) by (nonlinear_arith);
    if columns == 0 || rows == 0 {
        return None;
    }
    assert(columns * rows <= frame.width * frame.height) by (nonlinear_arith)
        requires
            columns <= frame.width,
            rows <= frame.height,
    ;
    assert(3 * frame.width * frame.height == 3 * (frame.width * frame.height)) by (nonlinear_arith);
    let size: usize = frame.pixels.len();
    assert(columns * rows <= size);
    let count: usize = (columns as usize) * (rows as usize);
    let mut hues: Vec<i64> = Vec::new();
    let mut sum_s: i128 = 0;
    let mut sum_v: i128 = 0;
    let mut k: usize = 0;
    assert(pixels.take(0) =~= Seq::<(u8, u8, u8)>::empty());
    while k < count
        invariant
            frame.is_whole(),
            count == columns * rows,
            columns > 0,
            cfg.x + columns <= frame.width,
            cfg.y + rows <= frame.height,
            pixels == region(frame, cfg.x as int, cfg.y as int, columns as int, rows as int),
            pixels.len() == count,
            k <= count,
            hues@.len() == k,
            forall|j: int| 0 <= j < k ==> #[trigger] hues@[j] == pixel_hsv(pixels[j]).0,
            sum_s == saturation_sum(pixels.take(k as int)),
            sum_v == value_sum(pixels.take(k as int)),
            0 <= sum_s <= 255_000_000 * k,
            0 <= sum_v <= 255_000_000 * k,
        decreases count - k,
    {
        let column: usize = k % (columns as usize);
        let row: usize = k / (columns as usize);
        assert(row < rows) by (nonlinear_arith)
            requires
                row == k as int / columns as int,
                k < columns * rows,
                columns > 0,
        ;
        let p: (u8, u8, u8) = frame.get_pixel(cfg.x + column as u32, cfg.y + row as u32);
        assert(p == pixels[k as int]);
        let (h, s, v): (i64, i64, i64) = rgb_to_hsv(p.0, p.1, p.2);
        hues.push(h);
        sum_s = sum_s + s as i128;
        sum_v = sum_v + v as i128;
        assert(pixels.take(k as int + 1).drop_last() =~= pixels.take(k as int));
        k = k + 1;
    }
    assert(pixels.take(count as int) =~= pixels);
    let mean_s: i128 = floor_div(sum_s, count as i128);
    let mean_v: i128 = floor_div(sum_v, count as i128);
    assert(0 <= mean_s <= 255_000_000) by (nonlinear_arith)
        requires
            mean_s == sum_s as int / count as int,
            0 <= sum_s <= 255_000_000 * count,
            count > 0,
    ;
    assert(0 <= mean_v <= 255_000_000) by (nonlinear_arith)
        requires
            mean_v == sum_v as int / count as int,
            0 <= sum_v <= 255_000_000 * count,
            count > 0,
    ;
    Some(LedSample { hues, mean_saturation: mean_s as i64, mean_value: mean_v as i64 })
}

/// Whether `mean_hue` gives one mean for one list of hues.
pub open spec fn depends_on_hues<F: Fn(&Vec<i64>) -> i64>(mean_hue: F) -> bool {
    forall|a: &Vec<i64>, b: &Vec<i64>, x: i64, y: i64|
        #![trigger call_ensures(mean_hue, (a,), x), call_ensures(mean_hue, (b,), y)]
        a@ == b@ && call_ensures(mean_hue, (a,), x) && call_ensures(mean_hue, (b,), y) ==> x == y
}

/// `mean_hue` may give this mean for these hues.
pub open spec fn is_mean_of<F: Fn(&Vec<i64>) -> i64>(
    mean_hue: F,
    hues: Seq<i64>,
    mean: i64,
) -> bool {
    exists|list: Vec<i64>|
        #![trigger call_ensures(mean_hue, (&list,), mean)]
        list@ == hues && call_ensures(mean_hue, (&list,), mean)
}

/// The mean of these hues, as `mean_hue` gives it.
pub open spec fn mean_of<F: Fn(&Vec<i64>) -> i64>(mean_hue: F, hues: Seq<i64>) -> i64 {
    choose|mean: i64| is_mean_of(mean_hue, hues, mean)
}

/// The hues of some pixels.
pub open spec fn hues_of(pixels: Seq<(u8, u8, u8)>) -> Seq<i64> {
    pixels.map_values(|p: (u8, u8, u8)| pixel_hsv(p).0 as i64)
}

/// What a lamp with these pixels shows: without any it is off.
pub open spec fn shown<F: Fn(&Vec<i64>) -> i64>(
    mean_hue: F,
    pixels: Seq<(u8, u8, u8)>,
) -> LedState {
    if pixels.len() == 0 {
        LedState::Off
    } else {
        led_state(
            mean_of(mean_hue, hues_of(pixels)) as int,
            saturation_sum(pixels) / pixels.len() as int,
            value_sum(pixels) / pixels.len() as int,
        )
    }
}

/// Whether `r` holds what these lamps show: one reading for each, in their order.
pub open spec fn are_readings<F: Fn(&Vec<i64>) -> i64>(
    frame: &RgbFrame,
    led_configs: Seq<LedConfig>,
    mean_hue: F,
    r: Seq<LedReading>,
) -> bool {
    &&& r.len() == led_configs.len()
    &&& forall|i: int|
        0 <= i < r.len() ==> (#[trigger] r[i]).label@ == led_configs[i].label@ && r[i].state
            == shown(mean_hue, led_pixels(frame, &led_configs[i]))
}

/// The reading of a lamp depends on its own pixels alone: two lamps with the same pixels are read
/// alike, in whatever frames and among whatever other lamps, and one without pixels is off.
pub proof fn readings_depend_on_the_own_pixels<F: Fn(&Vec<i64>) -> i64>(
    frame: &RgbFrame,
    led_configs: Seq<LedConfig>,
    r: Seq<LedReading>,
    i: int,
    other_frame: &RgbFrame,
    other_configs: Seq<LedConfig>,
    other: Seq<LedReading>,
    j: int,
    mean_hue: F,
)
    requires
        are_readings(frame, led_configs, mean_hue, r),
        are_readings(other_frame, other_configs, mean_hue, other),
        0 <= i < led_configs.len(),
        0 <= j < other_configs.len(),
        led_pixels(frame, &led_configs[i]) == led_pixels(other_frame, &other_configs[j]),
    ensures
        r[i].state == other[j].state,
        led_pixels(frame, &led_configs[i]).len() == 0 ==> r[i].state == LedState::Off,
{
}

/// A lamp is read alike alone and among others.
pub proof fn lamps_are_read_alike_alone<F: Fn(&Vec<i64>) -> i64>(
    frame: &RgbFrame,
    led_configs: Seq<LedConfig>,
    r: Seq<LedReading>,
    i: int,
    alone: Seq<LedReading>,
    mean_hue: F,
)
    requires
        are_readings(frame, led_configs, mean_hue, r),
        0 <= i < led_configs.len(),
        are_readings(frame, seq![led_configs[i]], mean_hue, alone),
    ensures
        alone.len() == 1,
        alone[0].label@ == r[i].label@,
        alone[0].state == r[i].state,
{
}

/// What each lamp shows. `mean_hue` gives the mean of a list of hues, one mean for one list.
pub fn detect_leds<F: Fn(&Vec<i64>) -> i64>(
    frame: &RgbFrame,
    led_configs: &Vec<LedConfig>,
    mean_hue: &F,
) -> (r: Vec<LedReading>)
    requires
        frame.is_whole(),
        forall|i: int|
            0 <= i < led_configs@.len() ==> (#[trigger] led_configs@[i]).x + led_configs@[i].width
                <= u32::MAX && led_configs@[i].y + led_configs@[i].height <= u32::MAX,
        forall|hues: &Vec<i64>| #[trigger] call_requires(*mean_hue, (hues,)),
        depends_on_hues(*mean_hue),
    ensures
        are_readings(frame, led_configs@, *mean_hue, r@),
{
    let mut r: Vec<LedReading> = Vec::new();
    let mut i: usize = 0;
    while i < led_configs.len()
        invariant
            i <= led_configs@.len(),
            frame.is_whole(),
            forall|j: int|
                0 <= j < led_configs@.len() ==> (#[trigger] led_configs@[j]).x
                    + led_configs@[j].width <= u32::MAX && led_configs@[j].y
                    + led_configs@[j].height <= u32::MAX,
            forall|hues: &Vec<i64>| #[trigger] call_requires(*mean_hue, (hues,)),
            depends_on_hues(*mean_hue),
            r@.len() == i,
            forall|j: int|
                0 <= j < r@.len() ==> (#[trigger] r@[j]).label@ == led_configs@[j].label@
                    && r@[j].state == shown(*mean_hue, led_pixels(frame, &led_configs@[j])),
        decreases led_configs@.len() - i,
    {
        let cfg: &LedConfig = &led_configs[i];
        let ghost pixels = led_pixels(frame, cfg);
        let state: LedState = match sample_led(frame, cfg) {
            None => LedState::Off,
            Some(sample) => {
                let h: i64 = mean_hue(&sample.hues);
                proof {
                    assert(sample.hues@ =~= hues_of(pixels));
                    assert(is_mean_of(*mean_hue, hues_of(pixels), h));
                    let mean = mean_of(*mean_hue, hues_of(pixels));
                    let list = choose|list: Vec<i64>|
                        #![trigger call_ensures(*mean_hue, (&list,), mean)]
                        list@ == hues_of(pixels) && call_ensures(*mean_hue, (&list,), mean);
                    assert(call_ensures(*mean_hue, (&list,), mean));
                    assert(mean == h);
                }
                classify_led(h, sample.mean_saturation, sample.mean_value)
            },
        };
        r.push(LedReading { label: cfg.label.clone(), state });
        i = i + 1;
    }
    r
}

/// Turning the parts of a color on, from red to green to blue, turns its hue by a third of the
/// circle and keeps saturation and value, where one part is the greatest.
pub proof fn hues_turn_with_the_parts(r: u8, g: u8, b: u8)
    requires
        r > g,
        r > b,
    ensures
        ({
            let x = hsv(r as int, g as int, b as int);
            let y = hsv(b as int, r as int, g as int);
            let z = hsv(g as int, b as int, r as int);
            &&& g >= b ==> 0 <= x.0 <= 60_000_000
            &&& g < b ==> 300_000_000 <= x.0 < 360_000_000
            &&& y.0 == if g >= b {
                x.0 + 120_000_000
            } else {
                x.0 - 240_000_000
            }
            &&& z.0 == if g >= b {
                x.0 + 240_000_000
            } else {
                x.0 - 120_000_000
            }
            &&& (y.1, y.2) == (x.1, x.2)
            &&& (z.1, z.2) == (x.1, x.2)
        }),
{
    let top = r as int;
    let delta = top - min(g as int, b as int);
    quotient_bounds(g - b, delta);
    let n = 60_000_000 * (g - b);
    let q = n / delta;
    assert(n == delta * q + n % delta && 0 <= n % delta < delta) by {
        vstd::arithmetic::div_mod::lemma_fundamental_div_mod(n, delta);
        vstd::arithmetic::div_mod::lemma_mod_bound(n, delta);
    }
    if g >= b {
        assert(q >= 0) by (nonlinear_arith)
            requires
                n >= 0,
                n == delta * q + n % delta,
                0 <= n % delta < delta,
        ;
    } else {
        assert(q < 0) by (nonlinear_arith)
            requires
                n < 0,
                n == delta * q + n % delta,
                0 <= n % delta < delta,
        ;
    }
}

/// Among colors with red as their greatest part the hue grows with green from the least part on,
/// in proportion: it says which share of a sixth of the circle green has of the way from the least
/// to the greatest part, down to the millionth.
pub proof fn hues_divide_a_sixth_of_the_circle(r: u8, g: u8, b: u8)
    requires
        r >= g >= b,
        r > b,
    ensures
        ({
            let h = hsv(r as int, g as int, b as int).0;
            h * (r - b) <= 60_000_000 * (g - b) < (h + 1) * (r - b)
        }),
{
    let delta = r - b;
    let n = 60_000_000 * (g - b);
    let q = n / delta;
    assert(0 <= q && q * delta <= n < (q + 1) * delta) by (nonlinear_arith)
        requires
            0 < delta,
            n >= 0,
            q == n / delta,
    ;
}

/// The saturation says how far the least part lies below the greatest, as a share of the greatest,
/// and the value is the greatest part; grey has no saturation and no hue.
pub proof fn saturation_and_value_of_a_color(r: u8, g: u8, b: u8)
    ensures
        ({
            let x = hsv(r as int, g as int, b as int);
            let top = max(max(r as int, g as int), b as int);
            let least = min(min(r as int, g as int), b as int);
            &&& x.2 == top * 1_000_000
            &&& top > 0 ==> x.1 * top <= 255_000_000 * (top - least) < (x.1 + 1) * top
            &&& top == least ==> x.0 == 0 && x.1 == 0
        }),
{
    let top = max(max(r as int, g as int), b as int);
    let least = min(min(r as int, g as int), b as int);
    if top > least {
        floors_are_just_below(255_000_000 * (top - least), top);
    } else if top > 0 {
        assert(0 * top <= 0 < 1 * top);
    }
}

/// A lamp heats exactly if it is green, and is on exactly if it is orange, and both only where it is
/// neither dark nor pale.
pub proof fn lamps_show_by_hue_where_they_are_lit(h: int, s: int, v: int)
    ensures
        led_state(h, s, v) == LedState::Heating <==> 110_000_000 <= h <= 160_000_000 && s
            >= 50_000_000 && v >= 50_000_000,
        led_state(h, s, v) == LedState::On <==> 10_000_000 <= h <= 60_000_000 && s >= 50_000_000 && v
            >= 50_000_000,
        led_state(h, s, v) == LedState::Heating || led_state(h, s, v) == LedState::On || led_state(
            h,
            s,
            v,
        ) == LedState::Off,
{
}

/// A lamp has as many pixels as its region has in the frame, each of which is one of them.
pub proof fn lamps_show_all_their_pixels(frame: &RgbFrame, cfg: &LedConfig, x: int, y: int)
    requires
        cfg.x <= x < cfg.x + cfg.width,
        cfg.y <= y < cfg.y + cfg.height,
        x < frame.width,
        y < frame.height,
    ensures
        led_pixels(frame, cfg).contains(frame.pixel(x, y)),
        led_pixels(frame, cfg).len() == (min(cfg.x + cfg.width, frame.width as int) - cfg.x) * (min(
            cfg.y + cfg.height,
            frame.height as int,
        ) - cfg.y),
{
    let columns = visible(cfg.x as int, cfg.width as int, frame.width as int);
    let rows = visible(cfg.y as int, cfg.height as int, frame.height as int);
    let (u, v) = (x - cfg.x, y - cfg.y);
    let k = v * columns + u;
    assert(0 <= k < columns * rows) by (nonlinear_arith)
        requires
            k == v * columns + u,
            0 <= u < columns,
            0 <= v < rows,
    ;
    vstd::arithmetic::div_mod::lemma_fundamental_div_mod_converse(k, columns, v, u);
    assert(led_pixels(frame, cfg)[k] == frame.pixel(x, y));
}

/// The sums over pixels add up.
pub proof fn sums_of_pixels_add_up(a: Seq<(u8, u8, u8)>, b: Seq<(u8, u8, u8)>)
    ensures
        saturation_sum(a + b) == saturation_sum(a) + saturation_sum(b),
        value_sum(a + b) == value_sum(a) + value_sum(b),
        a.len() == 1 ==> saturation_sum(a) == hsv(a[0].0 as int, a[0].1 as int, a[0].2 as int).1,
        a.len() == 1 ==> value_sum(a) == hsv(a[0].0 as int, a[0].1 as int, a[0].2 as int).2,
        a.len() == 0 ==> saturation_sum(a) == 0 && value_sum(a) == 0,
    decreases b.len(),
{
    reveal_with_fuel(saturation_sum, 2);
    reveal_with_fuel(value_sum, 2);
    if b.len() == 0 {
        assert(a + b =~= a);
    } else {
        sums_of_pixels_add_up(a, b.drop_last());
        assert((a + b).drop_last() =~= a + b.drop_last());
        assert((a + b).last() == b.last());
    }
}

/// The sample of a lamp has the hue of each pixel, and the means of their saturations and values
/// down to the millionth.
pub proof fn samples_hold_the_means(sample: LedSample, pixels: Seq<(u8, u8, u8)>, k: int)
    requires
        sample.is_of(pixels),
        0 <= k < pixels.len(),
    ensures
        sample.hues@.len() == pixels.len(),
        sample.hues@[k] == hsv(pixels[k].0 as int, pixels[k].1 as int, pixels[k].2 as int).0,
        sample.mean_saturation * pixels.len() <= saturation_sum(pixels) < (sample.mean_saturation + 1)
            * pixels.len(),
        sample.mean_value * pixels.len() <= value_sum(pixels) < (sample.mean_value + 1)
            * pixels.len(),
{
    let n = pixels.len() as int;
    floors_are_just_below(saturation_sum(pixels), n);
    floors_are_just_below(value_sum(pixels), n);
}

proof fn floors_are_just_below(a: int, n: int)
    requires
        n > 0,
    ensures
        (a / n) * n <= a < (a / n + 1) * n,
{
    vstd::arithmetic::div_mod::lemma_fundamental_div_mod(a, n);
    vstd::arithmetic::div_mod::lemma_mod_bound(a, n);
    let q = a / n;
    assert(q * n == n * q && (q + 1) * n == n * q + n) by (nonlinear_arith);
}


/// A lamp heats or is on exactly where the mean of its hues says so and both its saturations and its
/// values are fifty or more on the mean.
pub proof fn lamps_show_by_their_means<F: Fn(&Vec<i64>) -> i64>(
    mean_hue: F,
    pixels: Seq<(u8, u8, u8)>,
)
    requires
        pixels.len() > 0,
    ensures
        ({
            let h = mean_of(
                mean_hue,
                Seq::new(
                    pixels.len(),
                    |k: int| hsv(pixels[k].0 as int, pixels[k].1 as int, pixels[k].2 as int).0 as i64,
                ),
            );
            let is_lit = saturation_sum(pixels) >= 50_000_000 * pixels.len() && value_sum(pixels)
                >= 50_000_000 * pixels.len();
            &&& shown(mean_hue, pixels) == LedState::Heating <==> is_lit && 110_000_000 <= h
                <= 160_000_000
            &&& shown(mean_hue, pixels) == LedState::On <==> is_lit && 10_000_000 <= h <= 60_000_000
        }),
{
    let n = pixels.len() as int;
    let hues = Seq::new(
        pixels.len(),
        |k: int| hsv(pixels[k].0 as int, pixels[k].1 as int, pixels[k].2 as int).0 as i64,
    );
    assert(hues_of(pixels) =~= hues);
    means_are_fifty(saturation_sum(pixels), n);
    means_are_fifty(value_sum(pixels), n);
}

proof fn means_are_fifty(a: int, n: int)
    requires
        n > 0,
    ensures
        a / n >= 50_000_000 <==> a >= 50_000_000 * n,
{
    floors_are_just_below(a, n);
    let q = a / n;
    assert(q >= 50_000_000 <==> a >= 50_000_000 * n) by (nonlinear_arith)
        requires
            n > 0,
            q * n <= a < (q + 1) * n,
    ;
}

} // verus!
