//! Reading the dials: which way each knob points, and what that means.
//!
//! A dial's reading only changes once several frames in a row agree, so that noise in single
//! frames does not show.

use vstd::prelude::*;
use vstd::string::*;

use crate::config::DialConfig;
use crate::fixed::{abs, abs_exec, floor_div, max, max_exec, min, min_exec, rounded};
use crate::pipeline::stage::{CircleFeature, DetectedFeatures};
use crate::text::{decimal, fixed_decimal, push_fixed, push_number, push_ratio, ratio_decimal};
use crate::wide::Integer;

verus! {

/// Coarse heat level bands.
#[derive(Debug, Clone, Copy, PartialEq, Eq, Structural)]
pub enum HeatLevel {
    Low,
    Medium,
    High,
    Max,
}

/// The state of a single dial.
#[derive(Debug, Clone, Copy, PartialEq, Eq, Structural)]
pub enum DialState {
    Off,
    On(HeatLevel),
    Unavailable,
}

/// What was read of one dial in a frame. The confidence is in billionths.
#[derive(Debug, PartialEq, Eq)]
pub struct DialReading {
    pub label: String,
    pub state: DialState,
    pub angle_deg: Option<i64>,
    pub confidence: i64,
}

/// What a single frame says of a dial.
#[derive(Debug, Clone, Copy, PartialEq, Eq, Structural)]
pub struct RawReading {
    pub state: DialState,
    pub angle_deg: Option<i64>,
    pub confidence: i64,
}

/// How many frames in a row have to agree before a dial's state changes.
pub const HYSTERESIS_FRAMES: u32 = 3;

/// The signed angle from `b` to `a`, from -180 to 180 degrees.
pub open spec fn turn(a: int, b: int) -> int {
    (a - b + 180_000_000) % 360_000_000 - 180_000_000
}

/// The state of a dial at an angle: off within the tolerance of the off angle, and otherwise on,
/// in four equal bands from there to half a turn away.
pub open spec fn state_at(angle: int, off_angle: int, tolerance: int) -> DialState {
    let d = abs(turn(angle, off_angle));
    let beyond = d - tolerance;
    let range = 180_000_000 - tolerance;
    if d <= tolerance {
        DialState::Off
    } else if 4 * beyond < range {
        DialState::On(HeatLevel::Low)
    } else if 2 * beyond < range {
        DialState::On(HeatLevel::Medium)
    } else if 4 * beyond < 3 * range {
        DialState::On(HeatLevel::High)
    } else {
        DialState::On(HeatLevel::Max)
    }
}

/// The signed angle from `b` to `a`, from -180 to 180 degrees.
pub fn angular_distance(a: i64, b: i64) -> (r: i64)
    ensures
        r == turn(a as int, b as int),
        -180_000_000 <= r < 180_000_000,
{
    let d: i128 = a as i128 - b as i128 + 180_000_000;
    let turns: i128 = floor_div(d, 360_000_000);
    proof {
        vstd::arithmetic::div_mod::lemma_fundamental_div_mod(d as int, 360_000_000);
    }
    (d - turns * 360_000_000 - 180_000_000) as i64
}

/// Tells the state of a dial from its angle, given its angle when off and how much that may vary.
pub fn classify_dial(angle_deg: i64, off_angle_deg: i64, off_tolerance_deg: i64) -> (r: DialState)
    ensures
        r == state_at(angle_deg as int, off_angle_deg as int, off_tolerance_deg as int),
{
    let d: i128 = abs_exec(angular_distance(angle_deg, off_angle_deg) as i128);
    let tolerance: i128 = off_tolerance_deg as i128;
    if d <= tolerance {
        return DialState::Off;
    }
    let beyond: i128 = d - tolerance;
    let range: i128 = 180_000_000 - tolerance;
    if 4 * beyond < range {
        DialState::On(HeatLevel::Low)
    } else if 2 * beyond < range {
        DialState::On(HeatLevel::Medium)
    } else if 4 * beyond < 3 * range {
        DialState::On(HeatLevel::High)
    } else {
        DialState::On(HeatLevel::Max)
    }
}

/// How hot a state is.
pub open spec fn heat(state: DialState) -> int {
    match state {
        DialState::Off => 0,
        DialState::On(HeatLevel::Low) => 1,
        DialState::On(HeatLevel::Medium) => 2,
        DialState::On(HeatLevel::High) => 3,
        DialState::On(HeatLevel::Max) => 4,
        DialState::Unavailable => -1,
    }
}

/// Turning a dial farther from its off angle never lowers its heat.
pub proof fn turning_farther_is_hotter(a: int, b: int, off_angle: int, tolerance: int)
    requires
        abs(turn(a, off_angle)) <= abs(turn(b, off_angle)),
    ensures
        heat(state_at(a, off_angle, tolerance)) <= heat(state_at(b, off_angle, tolerance)),
{
}

/// Whole turns do not matter, and neither does the direction of a turn.
pub proof fn states_repeat_and_mirror(angle: int, off_angle: int, tolerance: int, turns: int)
    ensures
        state_at(angle + turns * 360_000_000, off_angle, tolerance) == state_at(
            angle,
            off_angle,
            tolerance,
        ),
        state_at(off_angle + angle, off_angle, tolerance) == state_at(
            off_angle - angle,
            off_angle,
            tolerance,
        ),
{
    let d = angle - off_angle + 180_000_000;
    assert((d + turns * 360_000_000) % 360_000_000 == d % 360_000_000) by {
        vstd::arithmetic::div_mod::lemma_mod_multiples_vanish(turns, d, 360_000_000);
    }
    let p = angle + 180_000_000;
    let m = -angle + 180_000_000;
    let (q, rest) = (p / 360_000_000, p % 360_000_000);
    vstd::arithmetic::div_mod::lemma_fundamental_div_mod(p, 360_000_000);
    if rest == 0 {
        vstd::arithmetic::div_mod::lemma_fundamental_div_mod_converse(m, 360_000_000, 1 - q, 0);
    } else {
        vstd::arithmetic::div_mod::lemma_fundamental_div_mod_converse(
            m,
            360_000_000,
            -q,
            360_000_000 - rest,
        );
    }
    assert(abs(turn(off_angle + angle, off_angle)) == abs(turn(off_angle - angle, off_angle)));
}

/// A full half turn from the off angle is the hottest, whatever the tolerance below it.
pub proof fn a_half_turn_is_the_hottest(off_angle: int, tolerance: int)
    requires
        tolerance < 180_000_000,
    ensures
        state_at(off_angle + 180_000_000, off_angle, tolerance) == DialState::On(HeatLevel::Max),
{
}

impl HeatLevel {
    /// The level in words.
    pub open spec fn spec_text(self) -> Seq<char> {
        match self {
            HeatLevel::Low => "low"@,
            HeatLevel::Medium => "medium"@,
            HeatLevel::High => "high"@,
            HeatLevel::Max => "max"@,
        }
    }

    /// The level in words.
    pub fn text(self) -> (r: &'static str)
        ensures
            r@ == self.spec_text(),
    {
        match self {
            HeatLevel::Low => "low",
            HeatLevel::Medium => "medium",
            HeatLevel::High => "high",
            HeatLevel::Max => "max",
        }
    }
}

impl DialState {
    /// The state in words.
    pub open spec fn spec_text(self) -> Seq<char> {
        match self {
            DialState::Off => "off"@,
            DialState::On(HeatLevel::Low) => "on (Low)"@,
            DialState::On(HeatLevel::Medium) => "on (Medium)"@,
            DialState::On(HeatLevel::High) => "on (High)"@,
            DialState::On(HeatLevel::Max) => "on (Max)"@,
            DialState::Unavailable => "unavailable"@,
        }
    }

    /// The state in words.
    pub fn text(self) -> (r: &'static str)
        ensures
            r@ == self.spec_text(),
    {
        match self {
            DialState::Off => "off",
            DialState::On(HeatLevel::Low) => "on (Low)",
            DialState::On(HeatLevel::Medium) => "on (Medium)",
            DialState::On(HeatLevel::High) => "on (High)",
            DialState::On(HeatLevel::Max) => "on (Max)",
            DialState::Unavailable => "unavailable",
        }
    }
}

impl DialReading {
    /// The reading in words.
    pub open spec fn spec_text(&self) -> Seq<char> {
        let start = self.label@ + ": "@ + self.state.spec_text();
        let sure = ratio_decimal(self.confidence as int, 1_000_000_000, 2);
        match self.angle_deg {
            Some(a) => start + " (angle="@ + fixed_decimal(a as int, 1) + ", confidence="@ + sure
                + ")"@,
            None => start + " (confidence="@ + sure + ")"@,
        }
    }

    /// The reading in words.
    pub fn text(&self) -> (r: String)
        ensures
            r@ == self.spec_text(),
    {
        let mut s: String = self.label.clone();
        s.append(": ");
        s.append(self.state.text());
        match self.angle_deg {
            Some(a) => {
                s.append(" (angle=");
                push_fixed(&mut s, a as i128, 1);
                s.append(", confidence=");
            },
            None => {
                s.append(" (confidence=");
            },
        }
        push_ratio(
            &mut s,
            &Integer::new(self.confidence as i128),
            &Integer::new(1_000_000_000),
            2,
        );
        s.append(")");
        s
    }
}

/// Whether a state is off, on or unavailable: heat levels do not matter for hysteresis.
pub open spec fn category(state: DialState) -> int {
    match state {
        DialState::Off => 0,
        DialState::On(_) => 1,
        DialState::Unavailable => 2,
    }
}

/// Whether a state is off, on or unavailable.
pub fn state_category(state: DialState) -> (r: u8)
    ensures
        r == category(state),
{
    match state {
        DialState::Off => 0,
        DialState::On(_) => 1,
        DialState::Unavailable => 2,
    }
}

/// What is remembered of one dial: its confirmed state, the state that is about to replace it,
/// and how many frames in a row have shown that one.
#[derive(Debug, Clone, Copy, PartialEq, Eq, Structural)]
pub struct DialTrack {
    pub confirmed: DialState,
    pub candidate: DialState,
    pub transition_count: u32,
}

/// A dial before its first frame.
pub open spec fn fresh_track() -> DialTrack {
    DialTrack { confirmed: DialState::Off, candidate: DialState::Off, transition_count: 0 }
}

/// A frame has shown the dial in the state `raw`.
pub open spec fn observed(t: DialTrack, raw: DialState) -> DialTrack {
    if category(raw) == category(t.confirmed) {
        DialTrack { transition_count: 0, ..t }
    } else if category(raw) == category(t.candidate) {
        if t.transition_count + 1 >= 3 {
            DialTrack { confirmed: raw, transition_count: 0, ..t }
        } else {
            DialTrack { transition_count: (t.transition_count + 1) as u32, ..t }
        }
    } else {
        DialTrack { candidate: raw, transition_count: 1, ..t }
    }
}

/// What is remembered of a dial after some frames.
pub open spec fn track_after(raws: Seq<DialState>) -> DialTrack
    decreases raws.len(),
{
    if raws.len() == 0 {
        fresh_track()
    } else {
        observed(track_after(raws.drop_last()), raws.last())
    }
}

/// The last `n` frames have all shown a state of this category.
pub open spec fn last_agree(raws: Seq<DialState>, n: int, c: int) -> bool {
    &&& 0 <= n <= raws.len()
    &&& forall|i: int| raws.len() - n <= i < raws.len() ==> category(#[trigger] raws[i]) == c
}

/// What every dial keeps: fewer than three frames are counted, and they are the last ones and
/// agree with each other but not with the confirmed state.
pub proof fn counted_frames_agree(raws: Seq<DialState>)
    ensures
        track_after(raws).transition_count < 3,
        last_agree(
            raws,
            track_after(raws).transition_count as int,
            category(track_after(raws).candidate),
        ),
        track_after(raws).transition_count > 0 ==> category(track_after(raws).candidate) != category(
            track_after(raws).confirmed,
        ),
    decreases raws.len(),
{
    if raws.len() > 0 {
        let before = raws.drop_last();
        counted_frames_agree(before);
        let t = track_after(before);
        let u = track_after(raws);
        assert forall|i: int| raws.len() - u.transition_count <= i < raws.len() implies category(
            #[trigger] raws[i],
        ) == category(u.candidate) by {
            if i < raws.len() - 1 {
                assert(raws[i] == before[i]);
            }
        }
    }
}

/// A dial only changes between off, on and unavailable when the last three frames agree on the
/// new state.
pub proof fn changes_need_three_agreeing_frames(raws: Seq<DialState>, raw: DialState)
    requires
        category(track_after(raws.push(raw)).confirmed) != category(track_after(raws).confirmed),
    ensures
        last_agree(raws.push(raw), 3, category(track_after(raws.push(raw)).confirmed)),
{
    let all = raws.push(raw);
    assert(all.drop_last() =~= raws);
    counted_frames_agree(raws);
    assert forall|i: int| all.len() - 3 <= i < all.len() implies category(#[trigger] all[i])
        == category(track_after(all).confirmed) by {
        if i < raws.len() {
            assert(all[i] == raws[i]);
        }
    }
}

/// Three frames in a row that agree always get their way.
pub proof fn three_agreeing_frames_are_believed(raws: Seq<DialState>, a: DialState, b: DialState, c: DialState)
    requires
        category(a) == category(b),
        category(b) == category(c),
    ensures
        category(track_after(raws.push(a).push(b).push(c)).confirmed) == category(c),
{
    let one = raws.push(a);
    let two = one.push(b);
    let three = two.push(c);
    assert(one.drop_last() =~= raws);
    assert(two.drop_last() =~= one);
    assert(three.drop_last() =~= two);
    counted_frames_agree(raws);
    counted_frames_agree(one);
    counted_frames_agree(two);
}

proof fn agreeing_frames_are_counted(raws: Seq<DialState>, n: int, c: int)
    requires
        0 < n < 3,
        last_agree(raws, n, c),
        c != category(track_after(raws).confirmed),
    ensures
        category(track_after(raws).candidate) == c,
        track_after(raws).transition_count >= n,
    decreases n,
{
    let before = raws.drop_last();
    let t = track_after(before);
    assert(category(raws[raws.len() - 1]) == c);
    if n > 1 {
        assert forall|i: int| before.len() - (n - 1) <= i < before.len() implies category(
            #[trigger] before[i],
        ) == c by {
            assert(before[i] == raws[i]);
        }
        if c != category(t.confirmed) {
            agreeing_frames_are_counted(before, n - 1, c);
        }
    }
    counted_frames_agree(before);
}

/// The confirmed state of a dial changes exactly when this frame and the two before it agree on
/// one category that is not its own, and then it becomes what this frame shows. So it stays what
/// it is while only the heat changes.
pub proof fn confirmed_states_change_exactly_so(raws: Seq<DialState>, raw: DialState)
    ensures
        ({
            let before = track_after(raws).confirmed;
            track_after(raws.push(raw)).confirmed == (if last_agree(
                raws.push(raw),
                3,
                category(raw),
            ) && category(raw) != category(before) {
                raw
            } else {
                before
            })
        }),
{
    let all = raws.push(raw);
    let c = category(raw);
    let before = track_after(raws).confirmed;
    assert(all.drop_last() =~= raws);
    counted_frames_agree(raws);
    if c != category(before) {
        if last_agree(all, 3, c) {
            assert forall|i: int| raws.len() - 2 <= i < raws.len() implies category(
                #[trigger] raws[i],
            ) == c by {
                assert(all[i] == raws[i]);
            }
            agreeing_frames_are_counted(raws, 2, c);
        } else if track_after(all).confirmed != before {
            assert forall|i: int| all.len() - 3 <= i < all.len() implies category(#[trigger] all[i])
                == c by {
                if i < raws.len() {
                    assert(all[i] == raws[i]);
                }
            }
        }
    }
}

/// What is remembered of `n` dials after frames that each have shown one of them.
pub open spec fn tracks_after(n: int, shown: Seq<(int, DialState)>) -> Seq<DialTrack>
    decreases shown.len(),
{
    if shown.len() == 0 {
        Seq::new(n as nat, |i: int| fresh_track())
    } else {
        let before = tracks_after(n, shown.drop_last());
        let (i, raw) = shown.last();
        before.update(i, observed(before[i], raw))
    }
}

/// What the frames have shown of dial `i`.
pub open spec fn shown_of(shown: Seq<(int, DialState)>, i: int) -> Seq<DialState>
    decreases shown.len(),
{
    if shown.len() == 0 {
        Seq::empty()
    } else {
        let before = shown_of(shown.drop_last(), i);
        if shown.last().0 == i {
            before.push(shown.last().1)
        } else {
            before
        }
    }
}

/// Each dial follows what was shown of it, whatever was shown of the others in between.
pub proof fn each_dial_follows_its_own_frames(n: int, shown: Seq<(int, DialState)>, i: int)
    requires
        0 <= i < n,
        forall|k: int| 0 <= k < shown.len() ==> 0 <= (#[trigger] shown[k]).0 < n,
    ensures
        tracks_after(n, shown).len() == n,
        tracks_after(n, shown)[i] == track_after(shown_of(shown, i)),
    decreases shown.len(),
{
    if shown.len() > 0 {
        let before = shown.drop_last();
        assert forall|k: int| 0 <= k < before.len() implies 0 <= (#[trigger] before[k]).0 < n by {
            assert(before[k] == shown[k]);
        }
        each_dial_follows_its_own_frames(n, before, i);
        assert(0 <= shown[shown.len() - 1].0 < n);
        if shown.last().0 == i {
            assert(shown_of(shown, i).drop_last() =~= shown_of(before, i));
        }
    }
}

/// After whatever was shown of `n` dials, one more frame of dial `i` changes its confirmed state
/// exactly when this frame and the two before it that showed the dial agree on one category that
/// is not its own. The state then becomes what this frame shows. No other dial changes.
pub proof fn dials_change_exactly_so(n: int, shown: Seq<(int, DialState)>, i: int, raw: DialState)
    requires
        0 <= i < n,
        forall|k: int| 0 <= k < shown.len() ==> 0 <= (#[trigger] shown[k]).0 < n,
    ensures
        ({
            let before = tracks_after(n, shown);
            let after = tracks_after(n, shown.push((i, raw)));
            &&& after == before.update(i, observed(before[i], raw))
            &&& after[i].confirmed == (if last_agree(
                shown_of(shown, i).push(raw),
                3,
                category(raw),
            ) && category(raw) != category(before[i].confirmed) {
                raw
            } else {
                before[i].confirmed
            })
            &&& forall|j: int| 0 <= j < n && j != i ==> #[trigger] after[j] == before[j]
        }),
{
    let all = shown.push((i, raw));
    assert(all.drop_last() =~= shown);
    each_dial_follows_its_own_frames(n, shown, i);
    let raws = shown_of(shown, i);
    assert(raws.push(raw).drop_last() =~= raws);
    confirmed_states_change_exactly_so(raws, raw);
}

/// A single frame that disagrees with those around it changes nothing.
pub proof fn single_outliers_are_ignored(raws: Seq<DialState>, odd: DialState, next: DialState)
    requires
        track_after(raws).transition_count == 0,
        category(next) == category(track_after(raws).confirmed),
    ensures
        track_after(raws.push(odd).push(next)).confirmed == track_after(raws).confirmed,
{
    let one = raws.push(odd);
    let two = one.push(next);
    assert(one.drop_last() =~= raws);
    assert(two.drop_last() =~= one);
    assert(track_after(one) == observed(track_after(raws), odd));
    assert(track_after(two) == observed(track_after(one), next));
}

/// A dial's configuration without its label's storage.
#[verifier::ext_equal]
pub struct DialConfigView {
    pub label: Seq<char>,
    pub center_x: u32,
    pub center_y: u32,
    pub radius: u32,
    pub off_angle_deg: i64,
    pub off_tolerance_deg: i64,
}

impl View for DialConfig {
    type V = DialConfigView;

    open spec fn view(&self) -> DialConfigView {
        DialConfigView {
            label: self.label@,
            center_x: self.center_x,
            center_y: self.center_y,
            radius: self.radius,
            off_angle_deg: self.off_angle_deg,
            off_tolerance_deg: self.off_tolerance_deg,
        }
    }
}

/// What a list of configurations holds.
pub open spec fn config_views(configs: Seq<DialConfig>) -> Seq<DialConfigView> {
    configs.map_values(|c: DialConfig| c@)
}

/// The default labels, in the order of the stove.
pub open spec fn spec_default_label(i: int) -> Seq<char> {
    if i == 0 {
        "oven_left_mode"@
    } else if i == 1 {
        "burner_top_left"@
    } else if i == 2 {
        "burner_bottom_left"@
    } else if i == 3 {
        "oven_left_temp"@
    } else if i == 4 {
        "burner_top_center"@
    } else if i == 5 {
        "burner_bottom_center"@
    } else if i == 6 {
        "burner_top_right"@
    } else if i == 7 {
        "burner_bottom_right"@
    } else if i == 8 {
        "oven_right_temp"@
    } else if i == 9 {
        "oven_right_mode"@
    } else {
        "dial_"@ + decimal(i + 1)
    }
}

/// The default label of dial `i`: that of the stove's layout, or a number.
pub fn default_label(i: usize) -> (r: String)
    ensures
        r@ == spec_default_label(i as int),
{
    match i {
        0 => String::from_str("oven_left_mode"),
        1 => String::from_str("burner_top_left"),
        2 => String::from_str("burner_bottom_left"),
        3 => String::from_str("oven_left_temp"),
        4 => String::from_str("burner_top_center"),
        5 => String::from_str("burner_bottom_center"),
        6 => String::from_str("burner_top_right"),
        7 => String::from_str("burner_bottom_right"),
        8 => String::from_str("oven_right_temp"),
        9 => String::from_str("oven_right_mode"),
        _ => {
            let mut s: String = String::from_str("dial_");
            push_number(&mut s, i as u128 + 1);
            s
        },
    }
}

/// The nearest whole number to a fixed-point number that an unsigned number can hold.
pub open spec fn whole_unsigned(v: int) -> int {
    max(min(rounded(v), u32::MAX as int), 0)
}

fn to_unsigned(v: i64) -> (r: u32)
    ensures
        r == whole_unsigned(v as int),
{
    max_exec(min_exec(crate::fixed::round_to_whole(v), 0xffff_ffff), 0) as u32
}

/// The configuration of knob `i` of some features.
pub open spec fn config_of(
    knob: CircleFeature,
    off_angles: Seq<i64>,
    labels: Option<Seq<Seq<char>>>,
    i: int,
) -> DialConfigView {
    DialConfigView {
        label: match labels {
            Some(l) if i < l.len() => l[i],
            _ => spec_default_label(i),
        },
        center_x: whole_unsigned(knob.center_x as int) as u32,
        center_y: whole_unsigned(knob.center_y as int) as u32,
        radius: max(whole_unsigned(knob.radius as int), 1) as u32,
        off_angle_deg: if i < off_angles.len() {
            off_angles[i]
        } else {
            0
        },
        off_tolerance_deg: 25_000_000,
    }
}

/// Reads dials frame by frame, with hysteresis.
pub struct DialDetector {
    configs: Vec<DialConfig>,
    tracks: Vec<DialTrack>,
    latest_angle: Vec<Option<i64>>,
    latest_confidence: Vec<i64>,
}

impl DialDetector {
    /// The configurations of the dials.
    pub closed spec fn dials(&self) -> Seq<DialConfigView> {
        config_views(self.configs@)
    }

    /// What is remembered of each dial.
    pub closed spec fn tracks(&self) -> Seq<DialTrack> {
        self.tracks@
    }

    /// The latest angle of each dial.
    pub closed spec fn angles(&self) -> Seq<Option<i64>> {
        self.latest_angle@
    }

    /// The latest confidence of each dial.
    pub closed spec fn confidences(&self) -> Seq<i64> {
        self.latest_confidence@
    }

    /// There is one of everything for each dial, and fewer frames are counted than change a
    /// state.
    pub open spec fn wf(&self) -> bool {
        &&& self.tracks().len() == self.dials().len()
        &&& self.angles().len() == self.dials().len()
        &&& self.confidences().len() == self.dials().len()
        &&& forall|i: int|
            0 <= i < self.tracks().len() ==> (#[trigger] self.tracks()[i]).transition_count < 3
    }

    /// Makes a detector for these dials, all of them off.
    pub fn new(configs: Vec<DialConfig>) -> (r: Self)
        ensures
            r.wf(),
            r.dials() == config_views(configs@),
            r.tracks() == Seq::new(configs@.len(), |i: int| fresh_track()),
            r.angles() == Seq::new(configs@.len(), |i: int| None::<i64>),
            r.confidences() == Seq::new(configs@.len(), |i: int| 0i64),
    {
        let n: usize = configs.len();
        let mut tracks: Vec<DialTrack> = Vec::new();
        let mut latest_angle: Vec<Option<i64>> = Vec::new();
        let mut latest_confidence: Vec<i64> = Vec::new();
        let mut i: usize = 0;
        while i < n
            invariant
                i <= n,
                tracks.len() == i,
                latest_angle.len() == i,
                latest_confidence.len() == i,
                forall|j: int| 0 <= j < i ==> #[trigger] tracks[j] == fresh_track(),
                forall|j: int| 0 <= j < i ==> (#[trigger] latest_angle[j]) is None,
                forall|j: int| 0 <= j < i ==> #[trigger] latest_confidence[j] == 0,
            decreases n - i,
        {
            tracks.push(
                DialTrack {
                    confirmed: DialState::Off,
                    candidate: DialState::Off,
                    transition_count: 0,
                },
            );
            latest_angle.push(None);
            latest_confidence.push(0);
            i = i + 1;
        }
        assert(tracks@ =~= Seq::new(configs@.len(), |i: int| fresh_track()));
        assert(latest_angle@ =~= Seq::new(configs@.len(), |i: int| None::<i64>));
        assert(latest_confidence@ =~= Seq::new(configs@.len(), |i: int| 0i64));
        DialDetector { configs, tracks, latest_angle, latest_confidence }
    }

    /// Makes a detector for the knobs that calibration found. Labels are taken from `labels` as
    /// far as it goes, and then from the stove's layout.
    pub fn from_features(features: &DetectedFeatures, labels: Option<&Vec<String>>) -> (r: Self)
        ensures
            r.wf(),
            r.dials() == Seq::new(
                features.knobs@.len(),
                |i: int|
                    config_of(
                        features.knobs@[i],
                        features.off_angles@,
                        match labels {
                            Some(l) => Some(crate::text::texts(l@)),
                            None => None,
                        },
                        i,
                    ),
            ),
            forall|i: int|
                0 <= i < r.tracks().len() ==> #[trigger] r.tracks()[i] == fresh_track(),
    {
        let ghost texts: Option<Seq<Seq<char>>> = match labels {
            Some(l) => Some(crate::text::texts(l@)),
            None => None,
        };
        let ghost wanted = Seq::new(
            features.knobs@.len(),
            |i: int| config_of(features.knobs@[i], features.off_angles@, texts, i),
        );
        let mut configs: Vec<DialConfig> = Vec::new();
        let mut i: usize = 0;
        while i < features.knobs.len()
            invariant
                i <= features.knobs.len(),
                texts == (match labels {
                    Some(l) => Some(crate::text::texts(l@)),
                    None => None,
                }),
                wanted == Seq::new(
                    features.knobs@.len(),
                    |i: int| config_of(features.knobs@[i], features.off_angles@, texts, i),
                ),
                configs.len() == i,
                forall|j: int| 0 <= j < i ==> (#[trigger] configs[j])@ == wanted[j],
            decreases features.knobs.len() - i,
        {
            let label: String = match labels {
                Some(l) => if i < l.len() {
                    l[i].clone()
                } else {
                    default_label(i)
                },
                None => default_label(i),
            };
            let knob: CircleFeature = features.knobs[i];
            let radius: u32 = to_unsigned(knob.radius);
            let off_angle_deg: i64 = if i < features.off_angles.len() {
                features.off_angles[i]
            } else {
                0
            };
            let config = DialConfig {
                label,
                center_x: to_unsigned(knob.center_x),
                center_y: to_unsigned(knob.center_y),
                radius: if radius < 1 {
                    1
                } else {
                    radius
                },
                off_angle_deg,
                off_tolerance_deg: 25_000_000,
            };
            assert(config@ =~= wanted[i as int]);
            configs.push(config);
            i = i + 1;
        }
        assert(config_views(configs@) =~= wanted);
        DialDetector::new(configs)
    }

    /// The configurations of the dials.
    pub fn configs(&self) -> (r: &Vec<DialConfig>)
        ensures
            config_views(r@) == self.dials(),
    {
        &self.configs
    }

    /// Takes note of what a frame has shown of dial `i`.
    pub fn apply_hysteresis(&mut self, i: usize, raw_state: DialState)
        requires
            old(self).wf(),
            i < old(self).dials().len(),
        ensures
            final(self).wf(),
            final(self).dials() == old(self).dials(),
            final(self).tracks() == old(self).tracks().update(
                i as int,
                observed(old(self).tracks()[i as int], raw_state),
            ),
            final(self).angles() == old(self).angles(),
            final(self).confidences() == old(self).confidences(),
    {
        let mut t: DialTrack = self.tracks[i];
        assert(self.tracks()[i as int].transition_count < 3);
        let raw: u8 = state_category(raw_state);
        if raw == state_category(t.confirmed) {
            t.transition_count = 0;
        } else if raw == state_category(t.candidate) {
            t.transition_count = t.transition_count + 1;
            if t.transition_count >= HYSTERESIS_FRAMES {
                t.confirmed = raw_state;
                t.transition_count = 0;
            }
        } else {
            t.candidate = raw_state;
            t.transition_count = 1;
        }
        let ghost before = self.tracks();
        self.tracks.set(i, t);
        assert forall|j: int| 0 <= j < self.tracks().len() implies (
        #[trigger] self.tracks()[j]).transition_count < 3 by {
            if j != i {
                assert(before[j].transition_count < 3);
            }
        }
    }

    /// Takes a frame's reading of dial `i` and returns the dial's reading: the confirmed state,
    /// with the angle and the confidence of the frame.
    pub fn observe(&mut self, i: usize, raw: &RawReading) -> (r: DialReading)
        requires
            old(self).wf(),
            i < old(self).dials().len(),
        ensures
            final(self).wf(),
            final(self).dials() == old(self).dials(),
            final(self).tracks() == old(self).tracks().update(
                i as int,
                observed(old(self).tracks()[i as int], raw.state),
            ),
            final(self).angles() == old(self).angles().update(i as int, raw.angle_deg),
            final(self).confidences() == old(self).confidences().update(
                i as int,
                raw.confidence,
            ),
            r.label@ == old(self).dials()[i as int].label,
            r.state == observed(old(self).tracks()[i as int], raw.state).confirmed,
            r.angle_deg == raw.angle_deg,
            r.confidence == raw.confidence,
    {
        self.latest_angle.set(i, raw.angle_deg);
        self.latest_confidence.set(i, raw.confidence);
        assert(self.wf()) by {
            assert forall|j: int| 0 <= j < self.tracks().len() implies (
            #[trigger] self.tracks()[j]).transition_count < 3 by {
                assert(old(self).tracks()[j].transition_count < 3);
            }
        }
        self.apply_hysteresis(i, raw.state);
        DialReading {
            label: self.configs[i].label.clone(),
            state: self.tracks[i].confirmed,
            angle_deg: self.latest_angle[i],
            confidence: self.latest_confidence[i],
        }
    }

    /// From `before` on the detector has taken in these readings of the first dials, and nothing
    /// of the others.
    pub open spec fn has_observed(&self, before: &Self, raws: Seq<RawReading>) -> bool {
        &&& self.wf()
        &&& self.dials() == before.dials()
        &&& forall|i: int|
            0 <= i < raws.len() ==> {
                &&& #[trigger] self.tracks()[i] == observed(before.tracks()[i], raws[i].state)
                &&& self.angles()[i] == raws[i].angle_deg
                &&& self.confidences()[i] == raws[i].confidence
            }
        &&& forall|i: int|
            raws.len() <= i < self.dials().len() ==> {
                &&& #[trigger] self.tracks()[i] == before.tracks()[i]
                &&& self.angles()[i] == before.angles()[i]
                &&& self.confidences()[i] == before.confidences()[i]
            }
    }

    /// The readings of the dials are the confirmed states, with the angles and the confidences of
    /// the frame.
    pub open spec fn are_readings(&self, raws: Seq<RawReading>, r: Seq<DialReading>) -> bool {
        &&& r.len() == raws.len()
        &&& forall|i: int|
            0 <= i < raws.len() ==> {
                &&& (#[trigger] r[i]).label@ == self.dials()[i].label
                &&& r[i].state == self.tracks()[i].confirmed
                &&& r[i].angle_deg == raws[i].angle_deg
                &&& r[i].confidence == raws[i].confidence
            }
    }

    /// A frame may show these readings of the first dials.
    pub open spec fn may_read_all<
        W,
        T,
        E,
        C: Fn(&DialWindow) -> Result<W, E>,
        R: Fn(i64) -> Result<(T, i32, i32), E>,
        S: Fn(&W, &T) -> Result<i64, E>,
    >(
        &self,
        image: (i32, i32),
        template: (i32, i32),
        cut: C,
        turn: R,
        score: S,
        raws: Seq<RawReading>,
    ) -> bool {
        forall|i: int|
            0 <= i < raws.len() ==> may_read_dial(
                self.dials()[i],
                image,
                template,
                cut,
                turn,
                score,
                Ok(#[trigger] raws[i]),
            )
    }

    /// Reads all dials of a frame by a template, one after the other. `cut` gives a part of the
    /// frame, `turn` the template turned by an angle, with its size, and `score` the best score
    /// of a turned template in a part. Where one dial fails, those before it have been taken in
    /// and the others have not.
    pub fn detect_all_template<
        W,
        T,
        E,
        C: Fn(&DialWindow) -> Result<W, E>,
        R: Fn(i64) -> Result<(T, i32, i32), E>,
        S: Fn(&W, &T) -> Result<i64, E>,
    >(
        &mut self,
        image: (i32, i32),
        template: (i32, i32),
        cut: &C,
        turn: &R,
        score: &S,
    ) -> (r: Result<Vec<DialReading>, E>)
        requires
            old(self).wf(),
            forall|i: int|
                0 <= i < old(self).dials().len() ==> is_placed(#[trigger] old(self).dials()[i]),
            image.0 >= 0,
            image.1 >= 0,
            template.0 >= 0,
            template.1 >= 0,
            forall|window: &DialWindow| #[trigger] call_requires(*cut, (window,)),
            forall|angle: i64| #[trigger] call_requires(*turn, (angle,)),
            forall|part: &W, turned: &T| #[trigger] call_requires(*score, (part, turned)),
        ensures
            exists|raws: Seq<RawReading>| #[trigger]
                final(self).has_observed(old(self), raws) && old(self).may_read_all(
                    image,
                    template,
                    *cut,
                    *turn,
                    *score,
                    raws,
                ) && match r {
                    Ok(readings) => raws.len() == old(self).dials().len()
                        && final(self).are_readings(raws, readings@),
                    Err(e) => raws.len() < old(self).dials().len() && may_read_dial(
                        old(self).dials()[raws.len() as int],
                        image,
                        template,
                        *cut,
                        *turn,
                        *score,
                        Err(e),
                    ),
                },
    {
        let mut results: Vec<DialReading> = Vec::new();
        let ghost mut raws: Seq<RawReading> = Seq::empty();
        let mut i: usize = 0;
        while i < self.configs.len()
            invariant
                i <= self.dials().len(),
                self.configs@.len() == self.dials().len(),
                raws.len() == i,
                self.has_observed(old(self), raws),
                old(self).may_read_all(image, template, *cut, *turn, *score, raws),
                self.are_readings(raws, results@),
                forall|i: int|
                    0 <= i < old(self).dials().len() ==> is_placed(
                        #[trigger] old(self).dials()[i],
                    ),
                image.0 >= 0,
                image.1 >= 0,
                template.0 >= 0,
                template.1 >= 0,
                forall|window: &DialWindow| #[trigger] call_requires(*cut, (window,)),
                forall|angle: i64| #[trigger] call_requires(*turn, (angle,)),
                forall|part: &W, turned: &T| #[trigger] call_requires(*score, (part, turned)),
            decreases self.dials().len() - i,
        {
            assert(self.configs@[i as int]@ == old(self).dials()[i as int]);
            assert(is_placed(old(self).dials()[i as int]));
            let raw: RawReading = match detect_single_template(
                &self.configs[i],
                image,
                template,
                cut,
                turn,
                score,
            ) {
                Ok(raw) => raw,
                Err(e) => return Err(e),
            };
            let ghost before = raws;
            let ghost shown = results@;
            let ghost had = *self;
            proof {
                raws = raws.push(raw);
            }
            let reading: DialReading = self.observe(i, &raw);
            results.push(reading);
            assert forall|j: int| 0 <= j < raws.len() implies {
                &&& #[trigger] self.tracks()[j] == observed(old(self).tracks()[j], raws[j].state)
                &&& self.angles()[j] == raws[j].angle_deg
                &&& self.confidences()[j] == raws[j].confidence
            } by {
                assert(had.tracks()[j] == (if j < i {
                    observed(old(self).tracks()[j], before[j].state)
                } else {
                    old(self).tracks()[j]
                }));
            }
            assert forall|j: int| raws.len() <= j < self.dials().len() implies {
                &&& #[trigger] self.tracks()[j] == old(self).tracks()[j]
                &&& self.angles()[j] == old(self).angles()[j]
                &&& self.confidences()[j] == old(self).confidences()[j]
            } by {
                assert(had.tracks()[j] == old(self).tracks()[j]);
            }
            assert forall|j: int| 0 <= j < raws.len() implies {
                &&& (#[trigger] results@[j]).label@ == self.dials()[j].label
                &&& results@[j].state == self.tracks()[j].confirmed
                &&& results@[j].angle_deg == raws[j].angle_deg
                &&& results@[j].confidence == raws[j].confidence
            } by {
                if j < i {
                    assert(results@[j] == shown[j]);
                    assert(had.tracks()[j] == self.tracks()[j]);
                }
            }
            i = i + 1;
        }
        Ok(results)
    }
}

/// The rotations of the template, in degrees: every twenty.
pub fn template_angles() -> (r: Vec<i64>)
    ensures
        r@ == rotations(),
{
    let mut r: Vec<i64> = Vec::new();
    let mut i: usize = 0;
    while i < 18
        invariant
            i <= 18,
            r.len() == i,
            forall|j: int| 0 <= j < i ==> #[trigger] r[j] == j * 20_000_000,
        decreases 18 - i,
    {
        r.push(i as i64 * 20_000_000);
        i = i + 1;
    }
    assert(r@ =~= rotations());
    r
}

/// The part of an image around a dial.
#[derive(Debug, Clone, Copy, PartialEq, Eq, Structural)]
pub struct DialWindow {
    pub x: i32,
    pub y: i32,
    pub width: i32,
    pub height: i32,
}

/// The part of an image around a dial: two radii to each side, as far as it lies in the image.
/// There is none where the template does not fit into it.
pub open spec fn window_around(
    c: DialConfigView,
    image_width: int,
    image_height: int,
    template_width: int,
    template_height: int,
) -> Option<DialWindow> {
    let margin = 2 * c.radius;
    let x0 = max(c.center_x - margin, 0);
    let y0 = max(c.center_y - margin, 0);
    let x1 = min(c.center_x + margin, image_width);
    let y1 = min(c.center_y + margin, image_height);
    if x1 - x0 < template_width || y1 - y0 < template_height {
        None
    } else {
        Some(
            DialWindow {
                x: x0 as i32,
                y: y0 as i32,
                width: (x1 - x0) as i32,
                height: (y1 - y0) as i32,
            },
        )
    }
}

/// The part around a dial ends on a pixel.
pub open spec fn is_placed(c: DialConfigView) -> bool {
    c.center_x + 2 * c.radius <= i32::MAX && c.center_y + 2 * c.radius <= i32::MAX
}

/// Whether the part around a dial ends on a pixel.
pub fn can_place(cfg: &DialConfig) -> (r: bool)
    ensures
        r == is_placed(cfg@),
{
    let margin: i64 = 2 * cfg.radius as i64;
    cfg.center_x as i64 + margin <= 0x7fff_ffff && cfg.center_y as i64 + margin <= 0x7fff_ffff
}

/// The part of an image around a dial.
pub fn dial_window(
    cfg: &DialConfig,
    image_width: i32,
    image_height: i32,
    template_width: i32,
    template_height: i32,
) -> (r: Option<DialWindow>)
    requires
        is_placed(cfg@),
        image_width >= 0,
        image_height >= 0,
        template_width >= 0,
        template_height >= 0,
    ensures
        r == window_around(
            cfg@,
            image_width as int,
            image_height as int,
            template_width as int,
            template_height as int,
        ),
{
    let margin: i64 = 2 * cfg.radius as i64;
    let x0: i64 = max_exec(cfg.center_x as i64 - margin, 0);
    let y0: i64 = max_exec(cfg.center_y as i64 - margin, 0);
    let x1: i64 = min_exec(cfg.center_x as i64 + margin, image_width as i64);
    let y1: i64 = min_exec(cfg.center_y as i64 + margin, image_height as i64);
    if x1 - x0 < template_width as i64 || y1 - y0 < template_height as i64 {
        return None;
    }
    Some(
        DialWindow {
            x: x0 as i32,
            y: y0 as i32,
            width: (x1 - x0) as i32,
            height: (y1 - y0) as i32,
        },
    )
}

/// The reading of a dial whose surroundings do not show it.
pub fn unavailable() -> (r: RawReading)
    ensures
        r == (RawReading { state: DialState::Unavailable, angle_deg: None, confidence: 0 }),
{
    RawReading { state: DialState::Unavailable, angle_deg: None, confidence: 0 }
}

/// The best score of the templates and its angle; a later one has to score higher. A template
/// without a score does not fit the window.
pub open spec fn best_rotation(angles: Seq<i64>, scores: Seq<Option<i64>>) -> (int, int)
    decreases scores.len(),
{
    if scores.len() == 0 {
        (0, -1_000_000_000)
    } else {
        let best = best_rotation(angles, scores.drop_last());
        match scores.last() {
            Some(s) if s > best.1 => (angles[scores.len() - 1] as int, s as int),
            _ => best,
        }
    }
}

/// What a frame says of a dial, given the score of each rotation of the template.
pub open spec fn reading_of(
    c: DialConfigView,
    angles: Seq<i64>,
    scores: Seq<Option<i64>>,
) -> RawReading {
    let (angle, score) = best_rotation(angles, scores);
    RawReading {
        state: state_at(angle, c.off_angle_deg as int, c.off_tolerance_deg as int),
        angle_deg: Some(angle as i64),
        confidence: max(score, 0) as i64,
    }
}

/// What a frame says of a dial, given the score of each rotation of the template.
pub fn read_dial(cfg: &DialConfig, angles: &Vec<i64>, scores: &Vec<Option<i64>>) -> (r: RawReading)
    requires
        angles.len() == scores.len(),
    ensures
        r == reading_of(cfg@, angles@, scores@),
{
    let mut best_angle: i64 = 0;
    let mut best_score: i64 = -1_000_000_000;
    let mut i: usize = 0;
    assert(scores@.take(0) =~= Seq::empty());
    while i < scores.len()
        invariant
            angles.len() == scores.len(),
            i <= scores.len(),
            best_rotation(angles@, scores@.take(i as int)) == (best_angle as int, best_score as int),
        decreases scores.len() - i,
    {
        assert(scores@.take(i as int + 1).drop_last() =~= scores@.take(i as int));
        if let Some(s) = scores[i] {
            if s > best_score {
                best_score = s;
                best_angle = angles[i];
            }
        }
        i = i + 1;
    }
    assert(scores@.take(i as int) =~= scores@);
    RawReading {
        state: classify_dial(best_angle, cfg.off_angle_deg, cfg.off_tolerance_deg),
        angle_deg: Some(best_angle),
        confidence: max_exec(best_score, 0),
    }
}

/// The score of one rotation in a part of a frame: there is none where the turned template does
/// not fit into it.
pub open spec fn may_score<
    W,
    T,
    E,
    R: Fn(i64) -> Result<(T, i32, i32), E>,
    S: Fn(&W, &T) -> Result<i64, E>,
>(
    turn: R,
    score: S,
    window: DialWindow,
    part: W,
    angle: i64,
    r: Result<Option<i64>, E>,
) -> bool {
    match r {
        Ok(s) => exists|turned: T, w: i32, h: i32|
            #![trigger call_ensures(turn, (angle,), Ok((turned, w, h)))]
            call_ensures(turn, (angle,), Ok((turned, w, h))) && if w <= window.width && h
                <= window.height {
                s matches Some(v) && call_ensures(score, (&part, &turned), Ok(v))
            } else {
                s is None
            },
        Err(e) => {
            ||| call_ensures(turn, (angle,), Err(e))
            ||| exists|turned: T, w: i32, h: i32|
                #![trigger call_ensures(turn, (angle,), Ok((turned, w, h)))]
                call_ensures(turn, (angle,), Ok((turned, w, h))) && w <= window.width && h
                    <= window.height && call_ensures(score, (&part, &turned), Err(e))
        },
    }
}

/// The scores of the first rotations, twenty degrees apart.
pub open spec fn may_score_all<
    W,
    T,
    E,
    R: Fn(i64) -> Result<(T, i32, i32), E>,
    S: Fn(&W, &T) -> Result<i64, E>,
>(turn: R, score: S, window: DialWindow, part: W, scores: Seq<Option<i64>>) -> bool {
    forall|i: int|
        0 <= i < scores.len() ==> may_score(
            turn,
            score,
            window,
            part,
            (i * 20_000_000) as i64,
            Ok(#[trigger] scores[i]),
        )
}

/// The rotations of the template.
pub open spec fn rotations() -> Seq<i64> {
    Seq::new(18, |i: int| (i * 20_000_000) as i64)
}

/// The reading of a dial in its part of a frame may be this one.
pub open spec fn may_read_part<
    W,
    T,
    E,
    R: Fn(i64) -> Result<(T, i32, i32), E>,
    S: Fn(&W, &T) -> Result<i64, E>,
>(
    c: DialConfigView,
    turn: R,
    score: S,
    window: DialWindow,
    part: W,
    r: Result<RawReading, E>,
) -> bool {
    match r {
        Ok(raw) => exists|scores: Seq<Option<i64>>| #[trigger]
            may_score_all(turn, score, window, part, scores) && scores.len() == 18 && raw
                == reading_of(c, rotations(), scores),
        Err(e) => exists|scores: Seq<Option<i64>>| #[trigger]
            may_score_all(turn, score, window, part, scores) && scores.len() < 18 && may_score(
                turn,
                score,
                window,
                part,
                (scores.len() * 20_000_000) as i64,
                Err(e),
            ),
    }
}

/// The reading of a dial in a frame may be this one: without a part of the frame around it the
/// dial is unavailable, and otherwise its scores in that part tell.
pub open spec fn may_read_dial<
    W,
    T,
    E,
    C: Fn(&DialWindow) -> Result<W, E>,
    R: Fn(i64) -> Result<(T, i32, i32), E>,
    S: Fn(&W, &T) -> Result<i64, E>,
>(
    c: DialConfigView,
    image: (i32, i32),
    template: (i32, i32),
    cut: C,
    turn: R,
    score: S,
    r: Result<RawReading, E>,
) -> bool {
    match window_around(
        c,
        image.0 as int,
        image.1 as int,
        template.0 as int,
        template.1 as int,
    ) {
        None => r == Ok::<RawReading, E>(
            RawReading { state: DialState::Unavailable, angle_deg: None, confidence: 0 },
        ),
        Some(window) => {
            ||| (r matches Err(e) && call_ensures(cut, (&window,), Err(e)))
            ||| exists|part: W|
                #![trigger call_ensures(cut, (&window,), Ok(part))]
                call_ensures(cut, (&window,), Ok(part)) && may_read_part(
                    c,
                    turn,
                    score,
                    window,
                    part,
                    r,
                )
        },
    }
}

fn score_rotation<
    W,
    T,
    E,
    R: Fn(i64) -> Result<(T, i32, i32), E>,
    S: Fn(&W, &T) -> Result<i64, E>,
>(window: &DialWindow, part: &W, angle: i64, turn: &R, score: &S) -> (r: Result<Option<i64>, E>)
    requires
        forall|angle: i64| #[trigger] call_requires(*turn, (angle,)),
        forall|part: &W, turned: &T| #[trigger] call_requires(*score, (part, turned)),
    ensures
        may_score(*turn, *score, *window, *part, angle, r),
{
    let (turned, w, h): (T, i32, i32) = match turn(angle) {
        Ok(turned) => turned,
        Err(e) => return Err(e),
    };
    assert(call_ensures(*turn, (angle,), Ok((turned, w, h))));
    if w > window.width || h > window.height {
        return Ok(None);
    }
    match score(part, &turned) {
        Ok(s) => Ok(Some(s)),
        Err(e) => Err(e),
    }
}

/// Reads a dial of a frame by a template. `cut` gives a part of the frame, `turn` the template
/// turned by an angle, with its size, and `score` the best score of a turned template in a part.
pub fn detect_single_template<
    W,
    T,
    E,
    C: Fn(&DialWindow) -> Result<W, E>,
    R: Fn(i64) -> Result<(T, i32, i32), E>,
    S: Fn(&W, &T) -> Result<i64, E>,
>(
    cfg: &DialConfig,
    image: (i32, i32),
    template: (i32, i32),
    cut: &C,
    turn: &R,
    score: &S,
) -> (r: Result<RawReading, E>)
    requires
        is_placed(cfg@),
        image.0 >= 0,
        image.1 >= 0,
        template.0 >= 0,
        template.1 >= 0,
        forall|window: &DialWindow| #[trigger] call_requires(*cut, (window,)),
        forall|angle: i64| #[trigger] call_requires(*turn, (angle,)),
        forall|part: &W, turned: &T| #[trigger] call_requires(*score, (part, turned)),
    ensures
        may_read_dial(cfg@, image, template, *cut, *turn, *score, r),
{
    let window: DialWindow = match dial_window(cfg, image.0, image.1, template.0, template.1) {
        Some(window) => window,
        None => return Ok(unavailable()),
    };
    let part: W = match cut(&window) {
        Ok(part) => part,
        Err(e) => return Err(e),
    };
    assert(call_ensures(*cut, (&window,), Ok(part)));
    let angles: Vec<i64> = template_angles();
    let mut scores: Vec<Option<i64>> = Vec::new();
    let mut i: usize = 0;
    while i < angles.len()
        invariant
            window_around(
                cfg@,
                image.0 as int,
                image.1 as int,
                template.0 as int,
                template.1 as int,
            ) == Some(window),
            call_ensures(*cut, (&window,), Ok(part)),
            angles@ == rotations(),
            i <= angles.len(),
            scores.len() == i,
            may_score_all(*turn, *score, window, part, scores@),
            forall|angle: i64| #[trigger] call_requires(*turn, (angle,)),
            forall|part: &W, turned: &T| #[trigger] call_requires(*score, (part, turned)),
        decreases angles.len() - i,
    {
        assert(angles[i as int] == i * 20_000_000);
        match score_rotation(&window, &part, angles[i], turn, score) {
            Ok(s) => {
                assert(may_score(*turn, *score, window, part, (i * 20_000_000) as i64, Ok(s)));
                scores.push(s);
            },
            Err(e) => {
                assert(may_read_part(cfg@, *turn, *score, window, part, Err(e)));
                return Err(e);
            },
        }
        i = i + 1;
    }
    let raw: RawReading = read_dial(cfg, &angles, &scores);
    assert(may_read_part::<W, T, E, R, S>(cfg@, *turn, *score, window, part, Ok(raw)));
    Ok(raw)
}


/// A dial that is turned on from its off angle, by `t` beyond the tolerance and no more than half a
/// turn in all, is as hot as the quarter of the way to the half turn that it has reached; within the
/// tolerance it is off.
pub proof fn heat_grows_by_quarters(off_angle: int, tolerance: int, t: int)
    requires
        0 <= tolerance < 180_000_000,
        -tolerance <= t <= 180_000_000 - tolerance,
    ensures
        ({
            let h = heat(state_at(off_angle + tolerance + t, off_angle, tolerance));
            let range = 180_000_000 - tolerance;
            &&& t <= 0 <==> h == 0
            &&& t > 0 ==> 1 <= h <= 4
            &&& h == 1 ==> 4 * t < range
            &&& h == 2 ==> range <= 4 * t < 2 * range
            &&& h == 3 ==> 2 * range <= 4 * t < 3 * range
            &&& h == 4 ==> 3 * range <= 4 * t
        }),
{
    let a = tolerance + t;
    assert((a + 180_000_000) % 360_000_000 == if a == 180_000_000 {
        0
    } else {
        a + 180_000_000
    });
}

/// The angle from one direction to another is what is left of their difference after whole turns,
/// and no more than half a turn.
pub proof fn turns_are_differences_within_half_a_turn(a: int, b: int)
    ensures
        -180_000_000 <= turn(a, b) < 180_000_000,
        exists|k: int| a - b == turn(a, b) + #[trigger] (360_000_000 * k),
{
    let d = a - b + 180_000_000;
    vstd::arithmetic::div_mod::lemma_fundamental_div_mod(d, 360_000_000);
    let k = d / 360_000_000;
    assert(a - b == turn(a, b) + 360_000_000 * k);
}

/// Template `i` has a score, no other scores higher, and none before it as high.
pub open spec fn leads(scores: Seq<Option<i64>>, i: int) -> bool {
    &&& 0 <= i < scores.len()
    &&& scores[i] is Some
    &&& forall|j: int|
        0 <= j < scores.len() && (#[trigger] scores[j]) is Some ==> scores[j]->Some_0
            <= scores[i]->Some_0
    &&& forall|j: int|
        0 <= j < i && (#[trigger] scores[j]) is Some ==> scores[j]->Some_0 < scores[i]->Some_0
}

/// The best rotation is the one whose score is the highest of all that have one, the first of equal
/// ones.
pub proof fn the_best_rotation_scores_highest(angles: Seq<i64>, scores: Seq<Option<i64>>)
    requires
        angles.len() >= scores.len(),
        exists|i: int| 0 <= i < scores.len() && scores[i] is Some,
        forall|i: int|
            0 <= i < scores.len() && (#[trigger] scores[i]) is Some ==> scores[i]->Some_0
                > -1_000_000_000,
    ensures
        exists|i: int| #[trigger]
            leads(scores, i) && best_rotation(angles, scores) == (
                angles[i] as int,
                scores[i]->Some_0 as int,
            ),
    decreases scores.len(),
{
    let rest = scores.drop_last();
    let n = rest.len() as int;
    if exists|i: int| 0 <= i < rest.len() && rest[i] is Some {
        assert forall|i: int| 0 <= i < n && (#[trigger] rest[i]) is Some implies rest[i]->Some_0
            > -1_000_000_000 by {
            assert(scores[i] == rest[i]);
        }
        the_best_rotation_scores_highest(angles, rest);
        let i = choose|i: int| #[trigger]
            leads(rest, i) && best_rotation(angles, rest) == (
                angles[i] as int,
                rest[i]->Some_0 as int,
            );
        assert(scores[i] == rest[i]);
        if scores[n] is Some && scores[n]->Some_0 > rest[i]->Some_0 {
            assert(leads(scores, n)) by {
                assert forall|j: int| 0 <= j < n && (#[trigger] scores[j]) is Some implies scores[j]->Some_0
                    < scores[n]->Some_0 by {
                    assert(rest[j] == scores[j]);
                }
            }
        } else {
            assert(leads(scores, i)) by {
                assert forall|j: int| 0 <= j < n && (#[trigger] scores[j]) is Some implies scores[j]->Some_0
                    <= scores[i]->Some_0 by {
                    assert(rest[j] == scores[j]);
                }
                assert forall|j: int| 0 <= j < i && (#[trigger] scores[j]) is Some implies scores[j]->Some_0
                    < scores[i]->Some_0 by {
                    assert(rest[j] == scores[j]);
                }
            }
        }
    } else {
        let i = choose|i: int| 0 <= i < scores.len() && scores[i] is Some;
        assert forall|j: int| 0 <= j < n implies (#[trigger] rest[j]) is None by {
            if rest[j] is Some {
                assert(exists|i: int| 0 <= i < rest.len() && rest[i] is Some);
            }
        }
        assert(i == n) by {
            if i < n {
                assert(rest[i] == scores[i]);
            }
        }
        no_scores_give_no_rotation(angles, rest);
        assert(leads(scores, n)) by {
            assert forall|j: int| 0 <= j < n implies (#[trigger] scores[j]) is None by {
                assert(rest[j] == scores[j]);
            }
        }
    }
}

/// Without any score there is no angle, at the lowest score.
pub proof fn no_scores_give_no_rotation(angles: Seq<i64>, scores: Seq<Option<i64>>)
    requires
        forall|i: int| 0 <= i < scores.len() ==> (#[trigger] scores[i]) is None,
    ensures
        best_rotation(angles, scores) == (0int, -1_000_000_000int),
    decreases scores.len(),
{
    if scores.len() > 0 {
        let rest = scores.drop_last();
        assert forall|i: int| 0 <= i < rest.len() implies (#[trigger] rest[i]) is None by {
            assert(scores[i] is None);
        }
        no_scores_give_no_rotation(angles, rest);
        assert(scores[scores.len() - 1] is None);
    }
}

/// The part around a dial holds the pixels of the image within two radii of its center, and there
/// is none exactly if the template is larger.
pub proof fn windows_reach_two_radii(
    c: DialConfigView,
    image_width: int,
    image_height: int,
    template_width: int,
    template_height: int,
    x: int,
    y: int,
)
    requires
        is_placed(c),
        0 <= image_width <= i32::MAX,
        0 <= image_height <= i32::MAX,
        template_width > 0,
        template_height > 0,
    ensures
        match window_around(c, image_width, image_height, template_width, template_height) {
            Some(w) => {
                &&& w.x <= x < w.x + w.width <==> 0 <= x < image_width && c.center_x - 2 * c.radius
                    <= x < c.center_x + 2 * c.radius
                &&& w.y <= y < w.y + w.height <==> 0 <= y < image_height && c.center_y - 2 * c.radius
                    <= y < c.center_y + 2 * c.radius
                &&& w.width >= template_width
                &&& w.height >= template_height
            },
            None => {
                ||| !(0 <= x && x + template_width <= image_width && c.center_x - 2 * c.radius <= x && x
                    + template_width <= c.center_x + 2 * c.radius)
                ||| !(0 <= y && y + template_height <= image_height && c.center_y - 2 * c.radius <= y
                    && y + template_height <= c.center_y + 2 * c.radius)
            },
        },
{
}

/// A dial is placed on the pixel nearest to its knob, with the whole radius nearest to the knob's
/// but at least one, and is off at its knob's own angle, give or take 25 degrees.
pub proof fn dials_are_placed_on_their_knobs(
    knob: CircleFeature,
    off_angles: Seq<i64>,
    labels: Option<Seq<Seq<char>>>,
    i: int,
)
    requires
        0 <= i,
        0 <= knob.center_x <= 0xffff_ffff * 1_000_000,
        0 <= knob.center_y <= 0xffff_ffff * 1_000_000,
        0 <= knob.radius <= 0xffff_ffff * 1_000_000,
    ensures
        ({
            let c = config_of(knob, off_angles, labels, i);
            &&& 2 * abs(c.center_x * 1_000_000 - knob.center_x) <= 1_000_000
            &&& 2 * abs(c.center_y * 1_000_000 - knob.center_y) <= 1_000_000
            &&& c.radius >= 1
            &&& c.radius > 1 ==> 2 * abs(c.radius * 1_000_000 - knob.radius) <= 1_000_000
            &&& c.radius == 1 ==> 2 * knob.radius <= 3_000_000
            &&& i < off_angles.len() ==> c.off_angle_deg == off_angles[i]
            &&& i >= off_angles.len() ==> c.off_angle_deg == 0
            &&& c.off_tolerance_deg == 25_000_000
            &&& labels is Some && i < labels->Some_0.len() ==> c.label == labels->Some_0[i]
            &&& !(labels is Some && i < labels->Some_0.len()) ==> c.label == spec_default_label(i)
        }),
{
    crate::fixed::whole_numbers_are_nearest(knob.center_x as int);
    crate::fixed::whole_numbers_are_nearest(knob.center_y as int);
    crate::fixed::whole_numbers_are_nearest(knob.radius as int);
}

/// What a frame says of a dial is the state at the best rotation's angle, and is the surer the better
/// that one scores.
pub proof fn dials_are_read_at_the_best_rotation(
    c: DialConfigView,
    angles: Seq<i64>,
    scores: Seq<Option<i64>>,
)
    requires
        angles.len() >= scores.len(),
        exists|i: int| 0 <= i < scores.len() && scores[i] is Some,
        forall|i: int|
            0 <= i < scores.len() && (#[trigger] scores[i]) is Some ==> scores[i]->Some_0
                > -1_000_000_000,
    ensures
        ({
            let r = reading_of(c, angles, scores);
            exists|i: int|
                {
                    &&& #[trigger] leads(scores, i)
                    &&& r.angle_deg == Some(angles[i])
                    &&& r.confidence == if scores[i]->Some_0 < 0 {
                        0
                    } else {
                        scores[i]->Some_0
                    }
                    &&& r.state == state_at(
                        angles[i] as int,
                        c.off_angle_deg as int,
                        c.off_tolerance_deg as int,
                    )
                }
        }),
{
    the_best_rotation_scores_highest(angles, scores);
    let i = choose|i: int| #[trigger]
        leads(scores, i) && best_rotation(angles, scores) == (
            angles[i] as int,
            scores[i]->Some_0 as int,
        );
    assert(leads(scores, i));
}


/// After a frame every dial that it showed has taken in its own reading, and the others are as they
/// were.
pub proof fn frames_reach_the_dials_they_show(
    after: DialDetector,
    before: DialDetector,
    raws: Seq<RawReading>,
    i: int,
)
    requires
        after.has_observed(&before, raws),
        0 <= i < after.dials().len(),
    ensures
        after.dials() == before.dials(),
        i < raws.len() ==> after.tracks()[i] == observed(before.tracks()[i], raws[i].state)
            && after.angles()[i] == raws[i].angle_deg && after.confidences()[i] == raws[i].confidence,
        i >= raws.len() ==> after.tracks()[i] == before.tracks()[i] && after.angles()[i]
            == before.angles()[i] && after.confidences()[i] == before.confidences()[i],
{
}

/// Every dial has a count, an angle and a confidence of its own.
pub proof fn dials_have_one_of_each(d: DialDetector)
    requires
        d.wf(),
    ensures
        d.tracks().len() == d.dials().len(),
        d.angles().len() == d.dials().len(),
        d.confidences().len() == d.dials().len(),
{
}

} // verus!
