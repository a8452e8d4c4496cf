//! Draws the readings onto a frame.

use vstd::prelude::*;

use crate::config::DialConfig;
use crate::config::LedConfig;
use crate::detect::DialReading;
use crate::detect::DialState;
use crate::detect::HeatLevel;
use crate::draw::bgr;
use crate::draw::drawing;
use crate::draw::Color;
use crate::draw::Shape;
use crate::draw::ShapeView;
use crate::fixed::div_to_zero;
use crate::fixed::quotient_to_zero;
use crate::types::LedReading;
use crate::types::LedState;

verus! {

/// The color of the dot above a dial.
pub open spec fn dial_color(state: DialState) -> Color {
    match state {
        DialState::Off => bgr(0, 255, 0),
        DialState::On(HeatLevel::Low) => bgr(0, 255, 255),
        DialState::On(HeatLevel::Medium) => bgr(0, 255, 255),
        DialState::On(HeatLevel::High) => bgr(0, 165, 255),
        DialState::On(HeatLevel::Max) => bgr(50, 50, 255),
        DialState::Unavailable => bgr(255, 255, 255),
    }
}

/// The color of the dot on a lamp.
pub open spec fn led_color(state: LedState) -> Color {
    match state {
        LedState::Off => bgr(255, 255, 255),
        LedState::On => bgr(255, 255, 0),
        LedState::Heating => bgr(0, 255, 0),
    }
}

/// How far a pointer of length `r` reaches in a direction whose cosine or
/// sine, in billionths, is `share`.
pub open spec fn reach(r: int, share: int) -> int {
    quotient_to_zero(r * share, 1_000_000_000)
}

/// The circle around a dial.
pub open spec fn dial_circle(cfg: &DialConfig) -> ShapeView {
    ShapeView::Circle {
        x: cfg.center_x as int,
        y: cfg.center_y as int,
        radius: cfg.radius as int,
        color: bgr(0, 255, 0),
        thickness: 1,
        smooth: false,
    }
}

/// The pointer of a dial, in the direction with this cosine and sine.
pub open spec fn dial_pointer(cfg: &DialConfig, direction: (i64, i64)) -> ShapeView {
    ShapeView::Line {
        x1: cfg.center_x as int,
        y1: cfg.center_y as int,
        x2: cfg.center_x + reach(cfg.radius as int, direction.0 as int),
        y2: cfg.center_y + reach(cfg.radius as int, direction.1 as int),
        color: bgr(0, 0, 255),
        thickness: 1,
    }
}

/// The dot above a dial that shows its state.
pub open spec fn dial_dot(cfg: &DialConfig, state: DialState) -> ShapeView {
    ShapeView::Circle {
        x: cfg.center_x as int,
        y: cfg.center_y - cfg.radius - 12,
        radius: 5,
        color: dial_color(state),
        thickness: -1,
        smooth: false,
    }
}

/// The bar above a dial that shows the confidence.
pub open spec fn dial_bar(cfg: &DialConfig, confidence: int) -> ShapeView {
    ShapeView::Line {
        x1: cfg.center_x - cfg.radius,
        y1: cfg.center_y - cfg.radius - 4,
        x2: cfg.center_x - cfg.radius + reach(2 * cfg.radius, confidence),
        y2: cfg.center_y - cfg.radius - 4,
        color: if confidence < 250_000_000 {
            bgr(50, 50, 255)
        } else {
            bgr(0, 255, 0)
        },
        thickness: 1,
    }
}

/// What is drawn for a dial.
pub open spec fn dial_shapes(reading: &DialReading, cfg: &DialConfig, direction: (i64, i64)) -> Seq<
    ShapeView,
> {
    let pointer = match reading.angle_deg {
        Some(_) => seq![dial_pointer(cfg, direction)],
        None => Seq::empty(),
    };
    seq![dial_circle(cfg)] + pointer + seq![dial_dot(cfg, reading.state)] + seq![
        dial_bar(cfg, reading.confidence as int),
    ]
}

/// What is drawn for a lamp.
pub open spec fn led_shapes(reading: &LedReading, cfg: &LedConfig) -> Seq<ShapeView> {
    seq![
        ShapeView::Rectangle {
            x: cfg.x as int,
            y: cfg.y as int,
            width: cfg.width as int,
            height: cfg.height as int,
            color: bgr(255, 0, 255),
            thickness: 1,
        },
        ShapeView::Circle {
            x: cfg.x + 6,
            y: cfg.y + 6,
            radius: 4,
            color: led_color(reading.state),
            thickness: -1,
            smooth: false,
        },
    ]
}

/// Whether all points of a dial's shapes are pixels that the machine can number.
pub open spec fn dial_is_drawable(reading: &DialReading, cfg: &DialConfig, direction: (i64, i64)) -> bool {
    &&& cfg.center_x <= i32::MAX
    &&& cfg.center_y <= i32::MAX
    &&& cfg.radius <= i32::MAX
    &&& i32::MIN <= cfg.center_y - cfg.radius - 12
    &&& i32::MIN <= cfg.center_x - cfg.radius + reach(2 * cfg.radius, reading.confidence as int)
        <= i32::MAX
    &&& reading.angle_deg is Some ==> {
        &&& i32::MIN <= cfg.center_x + reach(cfg.radius as int, direction.0 as int) <= i32::MAX
        &&& i32::MIN <= cfg.center_y + reach(cfg.radius as int, direction.1 as int) <= i32::MAX
    }
}

/// Whether all points of a lamp's shapes are pixels that the machine can number.
pub open spec fn led_is_drawable(cfg: &LedConfig) -> bool {
    &&& cfg.x + 6 <= i32::MAX
    &&& cfg.y + 6 <= i32::MAX
    &&& cfg.width <= i32::MAX
    &&& cfg.height <= i32::MAX
}

/// How far a pointer of length `r` reaches in a direction whose cosine or
/// sine, in billionths, is `share`.
pub fn reach_of(r: i64, share: i64) -> (x: i128)
    requires
        -0xffff_ffff <= r <= 0xffff_ffff,
    ensures
        x == reach(r as int, share as int),
        -0x8000_0000_0000_0000 * 0xffff_ffff <= x <= 0x8000_0000_0000_0000 * 0xffff_ffff,
{
    assert(-0x8000_0000_0000_0000 * 0xffff_ffff <= r * share <= 0x8000_0000_0000_0000 * 0xffff_ffff)
        by (nonlinear_arith)
        requires
            -0xffff_ffff <= r <= 0xffff_ffff,
            -0x8000_0000_0000_0000 <= share <= 0x7fff_ffff_ffff_ffff,
    ;
    let product: i128 = (r as i128) * (share as i128);
    div_to_zero(product, 1_000_000_000)
}

/// Whether all points of a dial's shapes are pixels that the machine can number.
pub fn can_draw_dial(reading: &DialReading, cfg: &DialConfig, direction: (i64, i64)) -> (r: bool)
    ensures
        r == dial_is_drawable(reading, cfg, direction),
{
    let most: i128 = i32::MAX as i128;
    let least: i128 = i32::MIN as i128;
    let (cx, cy, r): (i128, i128, i128) = (
        cfg.center_x as i128,
        cfg.center_y as i128,
        cfg.radius as i128,
    );
    if cx > most || cy > most || r > most {
        return false;
    }
    let bar: i128 = cx - r + reach_of(2 * (cfg.radius as i64), reading.confidence);
    if cy - r - 12 < least || bar < least || bar > most {
        return false;
    }
    if reading.angle_deg.is_some() {
        let x: i128 = cx + reach_of(cfg.radius as i64, direction.0);
        let y: i128 = cy + reach_of(cfg.radius as i64, direction.1);
        least <= x && x <= most && least <= y && y <= most
    } else {
        true
    }
}

fn color(blue: u8, green: u8, red: u8) -> (r: Color)
    ensures
        r == bgr(blue, green, red),
{
    Color { blue, green, red }
}

fn annotate_dial(shapes: &mut Vec<Shape>, reading: &DialReading, cfg: &DialConfig, direction: (i64, i64))
    requires
        dial_is_drawable(reading, cfg, direction),
    ensures
        drawing(final(shapes)@) == drawing(old(shapes)@) + dial_shapes(reading, cfg, direction),
{
    let (cx, cy, r): (i32, i32, i32) = (cfg.center_x as i32, cfg.center_y as i32, cfg.radius as i32);
    shapes.push(
        Shape::Circle { x: cx, y: cy, radius: r, color: color(0, 255, 0), thickness: 1, smooth: false },
    );
    let ghost with_circle = drawing(old(shapes)@) + seq![dial_circle(cfg)];
    assert(drawing(shapes@) =~= with_circle);
    let ghost pointer = match reading.angle_deg {
        Some(_) => seq![dial_pointer(cfg, direction)],
        None => Seq::empty(),
    };
    if reading.angle_deg.is_some() {
        let x2: i32 = (cx as i128 + reach_of(cfg.radius as i64, direction.0)) as i32;
        let y2: i32 = (cy as i128 + reach_of(cfg.radius as i64, direction.1)) as i32;
        shapes.push(
            Shape::Line { x1: cx, y1: cy, x2, y2, color: color(0, 0, 255), thickness: 1 },
        );
    }
    assert(drawing(shapes@) =~= with_circle + pointer);
    let dot: Color = match reading.state {
        DialState::Off => color(0, 255, 0),
        DialState::On(HeatLevel::Low) => color(0, 255, 255),
        DialState::On(HeatLevel::Medium) => color(0, 255, 255),
        DialState::On(HeatLevel::High) => color(0, 165, 255),
        DialState::On(HeatLevel::Max) => color(50, 50, 255),
        DialState::Unavailable => color(255, 255, 255),
    };
    shapes.push(
        Shape::Circle { x: cx, y: cy - r - 12, radius: 5, color: dot, thickness: -1, smooth: false },
    );
    let bar_end: i32 = ((cx - r) as i128 + reach_of(2 * (cfg.radius as i64), reading.confidence)) as i32;
    let bar: Color = if reading.confidence < 250_000_000 {
        color(50, 50, 255)
    } else {
        color(0, 255, 0)
    };
    shapes.push(
        Shape::Line {
            x1: cx - r,
            y1: cy - r - 4,
            x2: bar_end,
            y2: cy - r - 4,
            color: bar,
            thickness: 1,
        },
    );
    assert(drawing(shapes@) =~= drawing(old(shapes)@) + dial_shapes(reading, cfg, direction));
}

fn annotate_led(shapes: &mut Vec<Shape>, reading: &LedReading, cfg: &LedConfig)
    requires
        led_is_drawable(cfg),
    ensures
        drawing(final(shapes)@) == drawing(old(shapes)@) + led_shapes(reading, cfg),
{
    let (x, y): (i32, i32) = (cfg.x as i32, cfg.y as i32);
    shapes.push(
        Shape::Rectangle {
            x,
            y,
            width: cfg.width as i32,
            height: cfg.height as i32,
            color: color(255, 0, 255),
            thickness: 1,
        },
    );
    let dot: Color = match reading.state {
        LedState::Off => color(255, 255, 255),
        LedState::On => color(255, 255, 0),
        LedState::Heating => color(0, 255, 0),
    };
    shapes.push(
        Shape::Circle { x: x + 6, y: y + 6, radius: 4, color: dot, thickness: -1, smooth: false },
    );
    assert(drawing(shapes@) =~= drawing(old(shapes)@) + led_shapes(reading, cfg));
}

/// What is drawn for the first `n` dials.
pub open spec fn dials_drawing(
    readings: Seq<DialReading>,
    configs: Seq<DialConfig>,
    directions: Seq<(i64, i64)>,
    n: nat,
) -> Seq<ShapeView>
    decreases n,
{
    if n == 0 {
        Seq::empty()
    } else {
        let k = (n - 1) as nat;
        dials_drawing(readings, configs, directions, k) + dial_shapes(
            &readings[k as int],
            &configs[k as int],
            directions[k as int],
        )
    }
}

/// What is drawn for the first `n` lamps.
pub open spec fn leds_drawing(readings: Seq<LedReading>, configs: Seq<LedConfig>, n: nat) -> Seq<
    ShapeView,
>
    decreases n,
{
    if n == 0 {
        Seq::empty()
    } else {
        let k = (n - 1) as nat;
        leds_drawing(readings, configs, k) + led_shapes(&readings[k as int], &configs[k as int])
    }
}

/// The smaller of two lengths: as many items as both lists have.
pub open spec fn pairs(a: nat, b: nat) -> nat {
    if a < b {
        a
    } else {
        b
    }
}

/// What is drawn onto a frame: for each dial with a reading its circle, its
/// pointer, its state and the confidence; for each lamp with a reading its
/// region and its state. `directions` holds the cosine and sine of each
/// dial's angle in billionths.
pub fn annotate_frame(
    dial_readings: &Vec<DialReading>,
    led_readings: &Vec<LedReading>,
    dial_configs: &Vec<DialConfig>,
    led_configs: &Vec<LedConfig>,
    directions: &Vec<(i64, i64)>,
) -> (r: Vec<Shape>)
    requires
        directions@.len() == dial_readings@.len(),
        forall|i: int|
            0 <= i < dial_readings@.len() && i < dial_configs@.len() ==> dial_is_drawable(
                &#[trigger] dial_readings@[i],
                &dial_configs@[i],
                directions@[i],
            ),
        forall|i: int|
            0 <= i < led_readings@.len() && i < led_configs@.len() ==> led_is_drawable(
                &#[trigger] led_configs@[i],
            ),
    ensures
        drawing(r@) == dials_drawing(
            dial_readings@,
            dial_configs@,
            directions@,
            pairs(dial_readings@.len(), dial_configs@.len()),
        ) + leds_drawing(
            led_readings@,
            led_configs@,
            pairs(led_readings@.len(), led_configs@.len()),
        ),
{
    let mut r: Vec<Shape> = Vec::new();
    let mut i: usize = 0;
    assert(drawing(r@) =~= Seq::<ShapeView>::empty());
    while i < dial_readings.len() && i < dial_configs.len()
        invariant
            directions@.len() == dial_readings@.len(),
            forall|j: int|
                0 <= j < dial_readings@.len() && j < dial_configs@.len() ==> dial_is_drawable(
                    &#[trigger] dial_readings@[j],
                    &dial_configs@[j],
                    directions@[j],
                ),
            i <= dial_readings@.len(),
            i <= dial_configs@.len(),
            drawing(r@) == dials_drawing(dial_readings@, dial_configs@, directions@, i as nat),
        decreases dial_readings@.len() - i,
    {
        annotate_dial(&mut r, &dial_readings[i], &dial_configs[i], directions[i]);
        i = i + 1;
    }
    let ghost dials = drawing(r@);
    let mut k: usize = 0;
    assert(drawing(r@) =~= dials + leds_drawing(led_readings@, led_configs@, 0));
    while k < led_readings.len() && k < led_configs.len()
        invariant
            forall|j: int|
                0 <= j < led_readings@.len() && j < led_configs@.len() ==> led_is_drawable(
                    &#[trigger] led_configs@[j],
                ),
            k <= led_readings@.len(),
            k <= led_configs@.len(),
            drawing(r@) == dials + leds_drawing(led_readings@, led_configs@, k as nat),
        decreases led_readings@.len() - k,
    {
        annotate_led(&mut r, &led_readings[k], &led_configs[k]);
        k = k + 1;
        assert(drawing(r@) =~= dials + leds_drawing(led_readings@, led_configs@, k as nat));
    }
    r
}


/// A share of a length, in billionths, is cut off towards zero: a whole share is the length itself,
/// and a share in the opposite direction goes as far.
pub proof fn shares_of_a_length(r: int, share: int)
    requires
        r >= 0,
    ensures
        reach(r, 1_000_000_000) == r,
        reach(r, 0) == 0,
        reach(r, -share) == -reach(r, share),
        share >= 0 ==> 0 <= r * share - 1_000_000_000 * reach(r, share) < 1_000_000_000,
{
    assert(r * -share == -(r * share) && r * 0 == 0) by (nonlinear_arith);
    assert(share >= 0 ==> r * share >= 0) by (nonlinear_arith)
        requires
            r >= 0,
    ;
}

/// The bar above a dial starts above its left edge; full confidence reaches to above its right edge,
/// none leaves it empty, and less than a quarter makes it red in place of green. It lies four pixels
/// above the dial and the dot twelve, over its center.
pub proof fn bars_show_the_confidence(cfg: &DialConfig, confidence: int, state: DialState)
    ensures
        dial_bar(cfg, confidence) matches ShapeView::Line { x1, y1, x2, y2, color, .. } && {
            &&& x1 == cfg.center_x - cfg.radius
            &&& confidence == 1_000_000_000 ==> x2 == cfg.center_x + cfg.radius
            &&& confidence == 0 ==> x2 == x1
            &&& y1 == y2 && y1 + 4 == cfg.center_y - cfg.radius
            &&& color == if confidence < 250_000_000 {
                bgr(50, 50, 255)
            } else {
                bgr(0, 255, 0)
            }
        },
        dial_dot(cfg, state) matches ShapeView::Circle { x, y, color, .. } && x == cfg.center_x && y + 12
            == cfg.center_y - cfg.radius && color == dial_color(state),
{
    shares_of_a_length(2 * cfg.radius, confidence);
    assert(2 * cfg.radius * confidence == (2 * cfg.radius) * confidence);
}

/// The pointer goes from the center towards its direction, and never out of the dial in either
/// coordinate; opposite directions point opposite ways.
pub proof fn pointers_start_in_the_center(cfg: &DialConfig, d: (i64, i64))
    requires
        -1_000_000_000 <= d.0 <= 1_000_000_000,
        -1_000_000_000 <= d.1 <= 1_000_000_000,
    ensures
        dial_pointer(cfg, d) matches ShapeView::Line { x1, y1, x2, y2, .. } && {
            &&& x1 == cfg.center_x && y1 == cfg.center_y
            &&& -cfg.radius <= x2 - x1 <= cfg.radius
            &&& -cfg.radius <= y2 - y1 <= cfg.radius
            &&& d.0 >= 0 ==> x2 >= x1
            &&& d.0 <= 0 ==> x2 <= x1
            &&& d.1 >= 0 ==> y2 >= y1
            &&& d.1 <= 0 ==> y2 <= y1
            &&& d.0 == 1_000_000_000 ==> x2 - x1 == cfg.radius
            &&& d.1 == 1_000_000_000 ==> y2 - y1 == cfg.radius
        },
{
    let r = cfg.radius as int;
    shares_of_a_length(r, d.0 as int);
    shares_of_a_length(r, d.1 as int);
    shares_of_a_length(r, -d.0);
    shares_of_a_length(r, -d.1);
    assert(-1_000_000_000 * r <= r * d.0 <= 1_000_000_000 * r && -1_000_000_000 * r <= r * d.1
        <= 1_000_000_000 * r) by (nonlinear_arith)
        requires
            r >= 0,
            -1_000_000_000 <= d.0 <= 1_000_000_000,
            -1_000_000_000 <= d.1 <= 1_000_000_000,
    ;
    assert((d.0 >= 0 ==> r * d.0 >= 0) && (d.0 <= 0 ==> r * d.0 <= 0) && (d.1 >= 0 ==> r * d.1 >= 0)
        && (d.1 <= 0 ==> r * d.1 <= 0)) by (nonlinear_arith)
        requires
            r >= 0,
    ;
}


/// Dials are drawn one after the other, each from its own reading.
pub proof fn dials_are_drawn_in_turn(
    readings: Seq<DialReading>,
    configs: Seq<DialConfig>,
    directions: Seq<(i64, i64)>,
    m: nat,
    n: nat,
)
    requires
        m <= n <= readings.len(),
        n <= configs.len(),
        n <= directions.len(),
    ensures
        dials_drawing(readings, configs, directions, n) == dials_drawing(
            readings,
            configs,
            directions,
            m,
        ) + dials_drawing(
            readings.skip(m as int),
            configs.skip(m as int),
            directions.skip(m as int),
            (n - m) as nat,
        ),
        n > 0 ==> dials_drawing(readings, configs, directions, 1) == dial_shapes(
            &readings[0],
            &configs[0],
            directions[0],
        ),
    decreases n,
{
    if n > 0 {
        assert(dials_drawing(readings, configs, directions, 0) =~= Seq::empty());
        assert(dials_drawing(readings, configs, directions, 1) =~= dial_shapes(
            &readings[0],
            &configs[0],
            directions[0],
        ));
    }
    if m < n {
        dials_are_drawn_in_turn(readings, configs, directions, m, (n - 1) as nat);
        assert(readings.skip(m as int)[n - 1 - m] == readings[n - 1]);
        assert(configs.skip(m as int)[n - 1 - m] == configs[n - 1]);
        assert(directions.skip(m as int)[n - 1 - m] == directions[n - 1]);
        assert((n - m - 1) as nat == ((n - 1) - m) as nat);
    }
    assert(dials_drawing(readings, configs, directions, n) =~= dials_drawing(
        readings,
        configs,
        directions,
        m,
    ) + dials_drawing(
        readings.skip(m as int),
        configs.skip(m as int),
        directions.skip(m as int),
        (n - m) as nat,
    ));
}

/// Lamps are drawn one after the other, each from its own reading.
pub proof fn lamps_are_drawn_in_turn(
    readings: Seq<LedReading>,
    configs: Seq<LedConfig>,
    m: nat,
    n: nat,
)
    requires
        m <= n <= readings.len(),
        n <= configs.len(),
    ensures
        leds_drawing(readings, configs, n) == leds_drawing(readings, configs, m) + leds_drawing(
            readings.skip(m as int),
            configs.skip(m as int),
            (n - m) as nat,
        ),
        n > 0 ==> leds_drawing(readings, configs, 1) == led_shapes(&readings[0], &configs[0]),
    decreases n,
{
    if n > 0 {
        assert(leds_drawing(readings, configs, 0) =~= Seq::empty());
        assert(leds_drawing(readings, configs, 1) =~= led_shapes(&readings[0], &configs[0]));
    }
    if m < n {
        lamps_are_drawn_in_turn(readings, configs, m, (n - 1) as nat);
        assert(readings.skip(m as int)[n - 1 - m] == readings[n - 1]);
        assert(configs.skip(m as int)[n - 1 - m] == configs[n - 1]);
        assert((n - m - 1) as nat == ((n - 1) - m) as nat);
    }
    assert(leds_drawing(readings, configs, n) =~= leds_drawing(readings, configs, m) + leds_drawing(
        readings.skip(m as int),
        configs.skip(m as int),
        (n - m) as nat,
    ));
}

/// A lamp is framed where it is, with a dot six pixels from its upper left corner in the color of its
/// state; a dial has a circle of its own size, a pointer exactly if it has an angle, a dot and a bar.
pub proof fn shapes_of_dials_and_lamps(
    led: &LedReading,
    lamp: &LedConfig,
    dial: &DialReading,
    cfg: &DialConfig,
    direction: (i64, i64),
)
    ensures
        led_shapes(led, lamp).len() == 2,
        led_shapes(led, lamp)[0] matches ShapeView::Rectangle { x, y, width, height, .. } && x
            == lamp.x && y == lamp.y && width == lamp.width && height == lamp.height,
        led_shapes(led, lamp)[1] matches ShapeView::Circle { x, y, color, .. } && x - lamp.x == 6 && y
            - lamp.y == 6 && color == led_color(led.state),
        dial_shapes(dial, cfg, direction).len() == if dial.angle_deg is Some {
            4nat
        } else {
            3nat
        },
        dial_shapes(dial, cfg, direction)[0] matches ShapeView::Circle { x, y, radius, .. } && x
            == cfg.center_x && y == cfg.center_y && radius == cfg.radius,
        dial.angle_deg is Some ==> dial_shapes(dial, cfg, direction)[1] == dial_pointer(cfg, direction),
        dial_shapes(dial, cfg, direction).last() == dial_bar(cfg, dial.confidence as int),
        ({
            let s = dial_shapes(dial, cfg, direction);
            s[s.len() - 2] == dial_dot(cfg, dial.state)
        }),
{
}

/// The dot is green where a dial is off, yellow to red where it is on, the hotter the less green, and
/// white where nothing is known. A lamp's is green where it heats, cyan where it is on and white where
/// it is off.
pub proof fn colors_tell_the_heat(level: HeatLevel)
    ensures
        dial_color(DialState::Off) == (Color { blue: 0, green: 255, red: 0 }),
        dial_color(DialState::On(level)).red == 255,
        dial_color(DialState::On(HeatLevel::Low)) == dial_color(DialState::On(HeatLevel::Medium)),
        dial_color(DialState::On(HeatLevel::Max)).green < dial_color(
            DialState::On(HeatLevel::High),
        ).green,
        dial_color(DialState::On(HeatLevel::High)).green < dial_color(
            DialState::On(HeatLevel::Medium),
        ).green,
        dial_color(DialState::Unavailable) == (Color { blue: 255, green: 255, red: 255 }),
        led_color(LedState::Off) == (Color { blue: 255, green: 255, red: 255 }),
        led_color(LedState::On) == (Color { blue: 255, green: 255, red: 0 }),
        led_color(LedState::Heating) == (Color { blue: 0, green: 255, red: 0 }),
{
}

} // verus!
