//! The calibration of the dials: the command line, the layout of the stove
//! and the file that is written.

use vstd::prelude::*;
use vstd::string::*;

use crate::config::DialConfig;
use crate::config::LedConfig;
use crate::detect::config_views;
use crate::detect::DialConfigView;
use crate::text::decimal;
use crate::text::fixed_decimal;
use crate::text::push_fixed;
use crate::text::push_number;
use crate::text::same_text;
use crate::text::texts;

verus! {

/// Where a frame is fetched from unless told otherwise.
pub const DEFAULT_URL: &'static str = "http://192.168.2.52:1984/api/frame.jpeg?src=kitchen";

/// What the calibration is asked to do.
#[derive(Debug, PartialEq, Eq)]
pub struct Args {
    /// Where the frame is fetched from.
    pub url: String,
    /// The file that is written, instead of the standard output.
    pub output: Option<String>,
    /// The file that keeps the frame.
    pub reference_path: String,
}

/// What [`Args`] asks for.
#[verifier::ext_equal]
pub struct ArgsView {
    pub url: Seq<char>,
    pub output: Option<Seq<char>>,
    pub reference_path: Seq<char>,
}

impl View for Args {
    type V = ArgsView;

    open spec fn view(&self) -> ArgsView {
        ArgsView {
            url: self.url@,
            output: match self.output {
                Some(o) => Some(o@),
                None => None,
            },
            reference_path: self.reference_path@,
        }
    }
}

/// What a command line asks for.
#[derive(Debug, PartialEq, Eq)]
pub enum Request {
    Help,
    Calibrate(Args),
}

/// What a [`Request`] is, or why there is none.
#[verifier::ext_equal]
pub enum RequestView {
    Help,
    Calibrate(ArgsView),
    Refused(Seq<char>),
}

pub open spec fn request_view(r: Result<Request, String>) -> RequestView {
    match r {
        Ok(Request::Help) => RequestView::Help,
        Ok(Request::Calibrate(args)) => RequestView::Calibrate(args@),
        Err(text) => RequestView::Refused(text@),
    }
}

/// What is asked for without arguments.
pub open spec fn default_args() -> ArgsView {
    ArgsView {
        url: DEFAULT_URL@,
        output: None,
        reference_path: "calibration_reference.jpg"@,
    }
}

/// What the arguments from the place `at` on ask for, where those before ask for `so_far`.
pub open spec fn parsed(args: Seq<Seq<char>>, at: nat, so_far: ArgsView) -> RequestView
    decreases args.len() - at,
{
    if at >= args.len() {
        RequestView::Calibrate(so_far)
    } else {
        let arg = args[at as int];
        let has_value = at + 1 < args.len();
        let value = args[at as int + 1];
        if arg == "--help"@ || arg == "-h"@ {
            RequestView::Help
        } else if arg == "--url"@ {
            if has_value {
                parsed(args, at + 2, ArgsView { url: value, ..so_far })
            } else {
                RequestView::Refused("--url requires a value"@)
            }
        } else if arg == "--output"@ {
            if has_value {
                parsed(args, at + 2, ArgsView { output: Some(value), ..so_far })
            } else {
                RequestView::Refused("--output requires a value"@)
            }
        } else if arg == "--reference"@ {
            if has_value {
                parsed(args, at + 2, ArgsView { reference_path: value, ..so_far })
            } else {
                RequestView::Refused("--reference requires a value"@)
            }
        } else {
            RequestView::Refused("unknown argument: "@ + arg)
        }
    }
}

/// What the arguments, without the program's name, ask for.
pub fn parse_args(args: &Vec<String>) -> (r: Result<Request, String>)
    ensures
        request_view(r) == parsed(texts(args@), 0, default_args()),
{
    let ghost all = texts(args@);
    let mut r: Args = Args {
        url: DEFAULT_URL.to_owned(),
        output: None,
        reference_path: String::from_str("calibration_reference.jpg"),
    };
    let mut i: usize = 0;
    assert(r@ == default_args());
    while i < args.len()
        invariant
            all == texts(args@),
            i <= args@.len(),
            parsed(all, i as nat, r@) == parsed(all, 0, default_args()),
        decreases args@.len() - i,
    {
        let arg: &str = args[i].as_str();
        assert(all[i as int] == arg@);
        if same_text(arg, "--help") || same_text(arg, "-h") {
            return Ok(Request::Help);
        }
        if same_text(arg, "--url") {
            if i + 1 >= args.len() {
                return Err(String::from_str("--url requires a value"));
            }
            r.url = args[i + 1].clone();
            assert(all[i + 1] == r.url@);
        } else if same_text(arg, "--output") {
            if i + 1 >= args.len() {
                return Err(String::from_str("--output requires a value"));
            }
            let value: String = args[i + 1].clone();
            assert(all[i + 1] == value@);
            r.output = Some(value);
        } else if same_text(arg, "--reference") {
            if i + 1 >= args.len() {
                return Err(String::from_str("--reference requires a value"));
            }
            r.reference_path = args[i + 1].clone();
            assert(all[i + 1] == r.reference_path@);
        } else {
            let mut s: String = String::from_str("unknown argument: ");
            s.append(arg);
            return Err(s);
        }
        i = i + 2;
    }
    Ok(Request::Calibrate(r))
}

pub open spec fn dial_at(label: Seq<char>, x: u32, y: u32, radius: u32, tolerance: i64) -> DialConfigView {
    DialConfigView {
        label,
        center_x: x,
        center_y: y,
        radius,
        off_angle_deg: 0,
        off_tolerance_deg: tolerance,
    }
}

/// The dials of the stove in a frame of 2560 by 1440 pixels, from left to right.
pub open spec fn stove_dials() -> Seq<DialConfigView> {
    seq![
        dial_at("oven_left_mode"@, 1430, 1059, 10, 25_000_000),
        dial_at("burner_top_left"@, 1491, 1097, 14, 25_000_000),
        dial_at("burner_bottom_left"@, 1551, 1112, 14, 25_000_000),
        dial_at("oven_left_temp"@, 1609, 1103, 14, 25_000_000),
        dial_at("burner_top_center"@, 1677, 1101, 14, 25_000_000),
        dial_at("burner_bottom_center"@, 1753, 1116, 9, 25_000_000),
        dial_at("burner_top_right"@, 1844, 1077, 14, 25_000_000),
        dial_at("burner_bottom_right"@, 1893, 1077, 14, 25_000_000),
        dial_at("oven_right_temp"@, 1965, 1085, 28, 20_000_000),
        dial_at("oven_right_mode"@, 2030, 1085, 28, 20_000_000),
    ]
}

fn dial(label: &str, x: u32, y: u32, radius: u32, tolerance: i64) -> (r: DialConfig)
    ensures
        r@ == dial_at(label@, x, y, radius, tolerance),
{
    DialConfig {
        label: label.to_owned(),
        center_x: x,
        center_y: y,
        radius,
        off_angle_deg: 0,
        off_tolerance_deg: tolerance,
    }
}

/// The dials of the stove in a frame of 2560 by 1440 pixels, from left to right.
pub fn default_dials() -> (r: Vec<DialConfig>)
    ensures
        config_views(r@) == stove_dials(),
{
    let mut r: Vec<DialConfig> = Vec::new();
    r.push(dial("oven_left_mode", 1430, 1059, 10, 25_000_000));
    r.push(dial("burner_top_left", 1491, 1097, 14, 25_000_000));
    r.push(dial("burner_bottom_left", 1551, 1112, 14, 25_000_000));
    r.push(dial("oven_left_temp", 1609, 1103, 14, 25_000_000));
    r.push(dial("burner_top_center", 1677, 1101, 14, 25_000_000));
    r.push(dial("burner_bottom_center", 1753, 1116, 9, 25_000_000));
    r.push(dial("burner_top_right", 1844, 1077, 14, 25_000_000));
    r.push(dial("burner_bottom_right", 1893, 1077, 14, 25_000_000));
    r.push(dial("oven_right_temp", 1965, 1085, 28, 20_000_000));
    r.push(dial("oven_right_mode", 2030, 1085, 28, 20_000_000));
    assert(config_views(r@) =~= stove_dials());
    r
}

/// The lamps of the stove in a frame of 2560 by 1440 pixels.
pub fn default_leds() -> (r: Vec<LedConfig>)
    ensures
        r@.len() == 2,
        r@[0].label@ == "oven_left_led"@,
        r@[0].x == 1860 && r@[0].y == 1010 && r@[0].width == 20 && r@[0].height == 15,
        r@[1].label@ == "oven_right_led"@,
        r@[1].x == 1995 && r@[1].y == 1010 && r@[1].width == 20 && r@[1].height == 15,
{
    let mut r: Vec<LedConfig> = Vec::new();
    r.push(
        LedConfig {
            label: String::from_str("oven_left_led"),
            x: 1860,
            y: 1010,
            width: 20,
            height: 15,
        },
    );
    r.push(
        LedConfig {
            label: String::from_str("oven_right_led"),
            x: 1995,
            y: 1010,
            width: 20,
            height: 15,
        },
    );
    r
}

/// The dial with the angle at which it was found to be off.
pub fn with_off_angle(dial: &DialConfig, off_angle_deg: i64) -> (r: DialConfig)
    ensures
        r@ == (DialConfigView { off_angle_deg, ..dial@ }),
{
    DialConfig {
        label: dial.label.clone(),
        center_x: dial.center_x,
        center_y: dial.center_y,
        radius: dial.radius,
        off_angle_deg,
        off_tolerance_deg: dial.off_tolerance_deg,
    }
}

/// A dial in the calibration file.
pub open spec fn dial_yaml(d: DialConfigView) -> Seq<char> {
    "  - label: \""@ + d.label + "\"\n    center_x: "@ + decimal(d.center_x as int)
        + "\n    center_y: "@ + decimal(d.center_y as int) + "\n    radius: "@ + decimal(
        d.radius as int,
    ) + "\n    off_angle_deg: "@ + fixed_decimal(d.off_angle_deg as int, 1)
        + "\n    off_tolerance_deg: "@ + fixed_decimal(d.off_tolerance_deg as int, 1) + "\n"@
}

/// A lamp in the calibration file.
pub open spec fn led_yaml(l: LedConfig) -> Seq<char> {
    "  - label: \""@ + l.label@ + "\"\n    x: "@ + decimal(l.x as int) + "\n    y: "@ + decimal(
        l.y as int,
    ) + "\n    width: "@ + decimal(l.width as int) + "\n    height: "@ + decimal(l.height as int)
        + "\n"@
}

pub open spec fn dials_yaml(dials: Seq<DialConfig>) -> Seq<char>
    decreases dials.len(),
{
    if dials.len() == 0 {
        Seq::empty()
    } else {
        dials_yaml(dials.drop_last()) + dial_yaml(dials.last()@)
    }
}

pub open spec fn leds_yaml(leds: Seq<LedConfig>) -> Seq<char>
    decreases leds.len(),
{
    if leds.len() == 0 {
        Seq::empty()
    } else {
        leds_yaml(leds.drop_last()) + led_yaml(leds.last())
    }
}

/// The calibration file.
pub open spec fn yaml(url: Seq<char>, dials: Seq<DialConfig>, leds: Seq<LedConfig>) -> Seq<char> {
    "go2rtc_url: \""@ + url
        + "\"\n\nmqtt:\n  host: mosquitto.home\n  port: 1883\n\npoll_interval_secs: 5\n\ndials:\n"@
        + dials_yaml(dials) + "\nleds:\n"@ + leds_yaml(leds)
}

fn push_dial(s: &mut String, d: &DialConfig)
    ensures
        final(s)@ == old(s)@ + dial_yaml(d@),
{
    s.append("  - label: \"");
    s.append(d.label.as_str());
    s.append("\"\n    center_x: ");
    push_number(s, d.center_x as u128);
    s.append("\n    center_y: ");
    push_number(s, d.center_y as u128);
    s.append("\n    radius: ");
    push_number(s, d.radius as u128);
    s.append("\n    off_angle_deg: ");
    push_fixed(s, d.off_angle_deg as i128, 1);
    s.append("\n    off_tolerance_deg: ");
    push_fixed(s, d.off_tolerance_deg as i128, 1);
    s.append("\n");
    assert(s@ =~= old(s)@ + dial_yaml(d@));
}

fn push_led(s: &mut String, l: &LedConfig)
    ensures
        final(s)@ == old(s)@ + led_yaml(*l),
{
    s.append("  - label: \"");
    s.append(l.label.as_str());
    s.append("\"\n    x: ");
    push_number(s, l.x as u128);
    s.append("\n    y: ");
    push_number(s, l.y as u128);
    s.append("\n    width: ");
    push_number(s, l.width as u128);
    s.append("\n    height: ");
    push_number(s, l.height as u128);
    s.append("\n");
    assert(s@ =~= old(s)@ + led_yaml(*l));
}

/// The calibration file for these dials and lamps.
pub fn build_yaml(url: &str, dials: &Vec<DialConfig>, leds: &Vec<LedConfig>) -> (r: String)
    ensures
        r@ == yaml(url@, dials@, leds@),
{
    let mut s: String = String::from_str("go2rtc_url: \"");
    s.append(url);
    s.append(
        "\"\n\nmqtt:\n  host: mosquitto.home\n  port: 1883\n\npoll_interval_secs: 5\n\ndials:\n",
    );
    let ghost start = s@;
    let mut i: usize = 0;
    assert(s@ =~= start + dials_yaml(dials@.take(0)));
    while i < dials.len()
        invariant
            i <= dials@.len(),
            s@ == start + dials_yaml(dials@.take(i as int)),
        decreases dials@.len() - i,
    {
        push_dial(&mut s, &dials[i]);
        assert(dials@.take(i as int + 1).drop_last() =~= dials@.take(i as int));
        assert(s@ =~= start + dials_yaml(dials@.take(i as int + 1)));
        i = i + 1;
    }
    assert(dials@.take(i as int) =~= dials@);
    s.append("\nleds:\n");
    let ghost middle = s@;
    let mut k: usize = 0;
    assert(s@ =~= middle + leds_yaml(leds@.take(0)));
    while k < leds.len()
        invariant
            k <= leds@.len(),
            s@ == middle + leds_yaml(leds@.take(k as int)),
        decreases leds@.len() - k,
    {
        push_led(&mut s, &leds[k]);
        assert(leds@.take(k as int + 1).drop_last() =~= leds@.take(k as int));
        assert(s@ =~= middle + leds_yaml(leds@.take(k as int + 1)));
        k = k + 1;
    }
    assert(leds@.take(k as int) =~= leds@);
    s
}


proof fn arguments_are_read_from_where_they_are(args: Seq<Seq<char>>, at: nat, so_far: ArgsView)
    requires
        at <= args.len(),
    ensures
        parsed(args, at, so_far) == parsed(args.skip(at as int), 0, so_far),
    decreases args.len() - at,
{
    let rest = args.skip(at as int);
    if at < args.len() {
        assert(rest[0] == args[at as int]);
        if at + 1 < args.len() {
            assert(rest[1] == args[at as int + 1]);
            let value = args[at as int + 1];
            let url = ArgsView { url: value, ..so_far };
            let output = ArgsView { output: Some(value), ..so_far };
            let reference = ArgsView { reference_path: value, ..so_far };
            assert(rest.skip(2) =~= args.skip(at as int + 2));
            arguments_are_read_from_where_they_are(args, at + 2, url);
            arguments_are_read_from_where_they_are(args, at + 2, output);
            arguments_are_read_from_where_they_are(args, at + 2, reference);
            arguments_are_read_from_where_they_are(rest, 2, url);
            arguments_are_read_from_where_they_are(rest, 2, output);
            arguments_are_read_from_where_they_are(rest, 2, reference);
        }
    }
}

/// Each flag sets its own value and leaves the others as they are, so that the last one counts where
/// a flag is given twice; without its value it is refused. Help is given without a look at what
/// follows.
pub proof fn flags_set_their_own_value(value: Seq<char>, rest: Seq<Seq<char>>, so_far: ArgsView)
    ensures
        parsed(seq!["--url"@, value] + rest, 0, so_far) == parsed(
            rest,
            0,
            (ArgsView { url: value, ..so_far }),
        ),
        parsed(seq!["--output"@, value] + rest, 0, so_far) == parsed(
            rest,
            0,
            (ArgsView { output: Some(value), ..so_far }),
        ),
        parsed(seq!["--reference"@, value] + rest, 0, so_far) == parsed(
            rest,
            0,
            (ArgsView { reference_path: value, ..so_far }),
        ),
        parsed(seq!["--help"@] + rest, 0, so_far) == RequestView::Help,
        parsed(seq!["-h"@] + rest, 0, so_far) == RequestView::Help,
        parsed(seq!["--url"@], 0, so_far) is Refused,
        parsed(seq!["--output"@], 0, so_far) is Refused,
        parsed(seq!["--reference"@], 0, so_far) is Refused,
        parsed(Seq::empty(), 0, so_far) == RequestView::Calibrate(so_far),
{
    reveal_strlit("--url");
    reveal_strlit("--output");
    reveal_strlit("--reference");
    reveal_strlit("--help");
    reveal_strlit("-h");
    let url = seq!["--url"@, value] + rest;
    let output = seq!["--output"@, value] + rest;
    let reference = seq!["--reference"@, value] + rest;
    assert(url.skip(2) =~= rest && output.skip(2) =~= rest && reference.skip(2) =~= rest);
    assert("--url"@.len() == 5 && "--help"@.len() == 6 && "-h"@.len() == 2 && "--output"@.len() == 8
        && "--reference"@.len() == 11);
    arguments_are_read_from_where_they_are(url, 2, ArgsView { url: value, ..so_far });
    arguments_are_read_from_where_they_are(output, 2, ArgsView { output: Some(value), ..so_far });
    arguments_are_read_from_where_they_are(
        reference,
        2,
        ArgsView { reference_path: value, ..so_far },
    );
    assert(url[0] == "--url"@ && url[1] == value);
    assert(output[0] == "--output"@ && output[1] == value);
    assert(reference[0] == "--reference"@ && reference[1] == value);
    assert((seq!["--help"@] + rest)[0] == "--help"@);
    assert((seq!["-h"@] + rest)[0] == "-h"@);
}


/// Dials are written one after the other.
pub proof fn dials_are_written_in_turn(a: Seq<DialConfig>, b: Seq<DialConfig>)
    ensures
        dials_yaml(a + b) == dials_yaml(a) + dials_yaml(b),
        a.len() == 1 ==> dials_yaml(a) == dial_yaml(a[0]@),
    decreases b.len(),
{
    if a.len() == 1 {
        assert(dials_yaml(a.drop_last()) =~= Seq::empty());
        assert(dials_yaml(a) =~= dial_yaml(a[0]@));
    }
    if b.len() == 0 {
        assert(a + b =~= a);
    } else {
        dials_are_written_in_turn(a, b.drop_last());
        assert((a + b).drop_last() =~= a + b.drop_last());
        assert((a + b).last() == b.last());
    }
    assert(dials_yaml(a + b) =~= dials_yaml(a) + dials_yaml(b));
}

/// Lamps are written one after the other.
pub proof fn lamps_are_written_in_turn(a: Seq<LedConfig>, b: Seq<LedConfig>)
    ensures
        leds_yaml(a + b) == leds_yaml(a) + leds_yaml(b),
        a.len() == 1 ==> leds_yaml(a) == led_yaml(a[0]),
    decreases b.len(),
{
    if a.len() == 1 {
        assert(leds_yaml(a.drop_last()) =~= Seq::empty());
        assert(leds_yaml(a) =~= led_yaml(a[0]));
    }
    if b.len() == 0 {
        assert(a + b =~= a);
    } else {
        lamps_are_written_in_turn(a, b.drop_last());
        assert((a + b).drop_last() =~= a + b.drop_last());
        assert((a + b).last() == b.last());
    }
    assert(leds_yaml(a + b) =~= leds_yaml(a) + leds_yaml(b));
}

} // verus!
