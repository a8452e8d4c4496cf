//! Decides which frames are kept for a later look, and under which names.

use vstd::prelude::*;
use vstd::string::*;

use crate::detect::DialReading;
use crate::order::ascending_order;
use crate::order::ascending_order_exists;
use crate::order::at_places;
use crate::order::is_ascending_order;
use crate::order::precedes;
use crate::order::sort_ascending;
use crate::order::take_places;
use crate::text::padded;
use crate::text::padded_order;
use crate::text::push_padded;
use crate::text::same_text;
use crate::text::ten_to;
use crate::text::text_before;
use crate::text::text_less;
use crate::text::text_order_after_a_prefix;
use crate::text::text_order_is_irreflexive;
use crate::text::text_order_is_transitive;
use crate::text::text_order_of_prefixes;

verus! {

/// Keeps frames in which some dial was read with little confidence.
#[derive(Debug, PartialEq, Eq)]
pub struct CaptureStore {
    /// The directory that holds the frames.
    pub dir: String,
    /// How many frames it may hold.
    pub max_files: usize,
    /// How many seconds lie at least between two frames.
    pub min_interval_secs: u64,
    /// The confidence, in billionths, below which a frame is kept.
    pub confidence_threshold: i64,
    /// When the last frame was kept, in nanoseconds of a clock that never runs back.
    pub last_capture: Option<u64>,
}

/// Whether some dial was read with less than this confidence.
pub open spec fn has_low_confidence(readings: Seq<DialReading>, threshold: int) -> bool {
    exists|i: int| 0 <= i < readings.len() && (#[trigger] readings[i]).confidence < threshold
}

impl CaptureStore {
    /// A store that has kept no frame yet.
    pub fn new(dir: String, max_files: usize, min_interval_secs: u64, threshold: i64) -> (r: Self)
        ensures
            r.dir == dir,
            r.max_files == max_files,
            r.min_interval_secs == min_interval_secs,
            r.confidence_threshold == threshold,
            r.last_capture is None,
    {
        CaptureStore {
            dir,
            max_files,
            min_interval_secs,
            confidence_threshold: threshold,
            last_capture: None,
        }
    }

    /// Whether too little time has passed since the last frame was kept.
    pub open spec fn is_too_soon(&self, now: int) -> bool {
        match self.last_capture {
            Some(last) => crate::fixed::max(now - last, 0) < self.min_interval_secs
                * 1_000_000_000,
            None => false,
        }
    }

    /// The name under which the frame with these readings is kept at the time
    /// `now`, `epoch_secs` seconds after the start of 1970, if it is kept.
    pub fn maybe_capture(&self, readings: &Vec<DialReading>, now: u64, epoch_secs: u64) -> (r: Option<
        String,
    >)
        ensures
            match r {
                Some(name) => has_low_confidence(readings@, self.confidence_threshold as int)
                    && !self.is_too_soon(now as int) && is_capture_name(name@, epoch_secs as int),
                None => !has_low_confidence(readings@, self.confidence_threshold as int)
                    || self.is_too_soon(now as int),
            },
    {
        let mut low: bool = false;
        let mut i: usize = 0;
        while i < readings.len()
            invariant
                i <= readings@.len(),
                low == has_low_confidence(
                    readings@.take(i as int),
                    self.confidence_threshold as int,
                ),
            decreases readings@.len() - i,
        {
            let ghost before = readings@.take(i as int);
            let ghost after = readings@.take(i as int + 1);
            assert(forall|j: int| 0 <= j < i ==> before[j] == #[trigger] after[j]);
            assert(forall|j: int| 0 <= j < i ==> #[trigger] before[j] == after[j]);
            assert(after[i as int] == readings@[i as int]);
            if readings[i].confidence < self.confidence_threshold {
                low = true;
            }
            i = i + 1;
        }
        assert(readings@.take(i as int) =~= readings@);
        if !low {
            return None;
        }
        if let Some(last) = self.last_capture {
            let elapsed: u128 = if now > last {
                (now - last) as u128
            } else {
                0
            };
            if elapsed < (self.min_interval_secs as u128) * 1_000_000_000 {
                return None;
            }
        }
        Some(format_timestamp_filename(epoch_secs))
    }

    /// Notes that a frame was kept at the time `now`.
    pub fn note_capture(&mut self, now: u64)
        ensures
            *final(self) == (CaptureStore { last_capture: Some(now), ..*old(self) }),
    {
        self.last_capture = Some(now);
    }
}

/// Once a frame is kept, no other is until the interval has passed.
pub proof fn captures_keep_their_distance(before: CaptureStore, after: CaptureStore, first: u64, second: u64)
    requires
        after == (CaptureStore { last_capture: Some(first), ..before }),
        first <= second,
    ensures
        !after.is_too_soon(second as int) <==> second - first >= before.min_interval_secs
            * 1_000_000_000,
{
}

/// Whether the year has a 29th of February.
pub open spec fn is_leap_year(year: int) -> bool {
    (year % 4 == 0 && year % 100 != 0) || year % 400 == 0
}

/// Whether the year has a 29th of February.
pub fn is_leap(year: u64) -> (r: bool)
    ensures
        r == is_leap_year(year as int),
{
    (year % 4 == 0 && year % 100 != 0) || year % 400 == 0
}

pub open spec fn days_in_year(year: int) -> int {
    if is_leap_year(year) {
        366
    } else {
        365
    }
}

/// The days from the start of 1970 to the start of the year.
pub open spec fn days_before_year(year: int) -> int
    decreases year - 1970,
{
    if year <= 1970 {
        0
    } else {
        days_before_year(year - 1) + days_in_year(year - 1)
    }
}

pub open spec fn days_in_month(year: int, month: int) -> int {
    if month == 2 {
        if is_leap_year(year) {
            29
        } else {
            28
        }
    } else if month == 4 || month == 6 || month == 9 || month == 11 {
        30
    } else {
        31
    }
}

/// The days of the year before the month.
pub open spec fn days_before_month(year: int, month: int) -> int
    decreases month,
{
    if month <= 1 {
        0
    } else {
        days_before_month(year, month - 1) + days_in_month(year, month - 1)
    }
}

/// Whether there is such a day in or after 1970.
pub open spec fn is_date(year: int, month: int, day: int) -> bool {
    &&& 1970 <= year
    &&& 1 <= month <= 12
    &&& 1 <= day <= days_in_month(year, month)
}

/// The days from the first of January 1970 to the date.
pub open spec fn day_number(year: int, month: int, day: int) -> int {
    days_before_year(year) + days_before_month(year, month) + day - 1
}

/// The name of a frame that was kept on this date, so many seconds into the day.
pub open spec fn capture_name(year: int, month: int, day: int, second: int) -> Seq<char> {
    padded(year, 4) + "-"@ + padded(month, 2) + "-"@ + padded(day, 2) + "T"@ + padded(
        second / 3600,
        2,
    ) + "-"@ + padded(second / 60 % 60, 2) + "-"@ + padded(second % 60, 2)
        + "_low_confidence.jpg"@
}

/// Whether a frame that was kept on this date, so many seconds after the
/// start of 1970, has this name.
pub open spec fn is_name_on(name: Seq<char>, secs: int, year: int, month: int, day: int) -> bool {
    &&& is_date(year, month, day)
    &&& day_number(year, month, day) == secs / 86_400
    &&& name == capture_name(year, month, day, secs % 86_400)
}

/// Whether a frame that was kept so many seconds after the start of 1970 has this name.
pub open spec fn is_capture_name(name: Seq<char>, secs: int) -> bool {
    exists|year: int, month: int, day: int| #[trigger] is_name_on(name, secs, year, month, day)
}

proof fn months_make_a_year(year: int)
    ensures
        days_before_month(year, 13) == days_in_year(year),
{
    reveal_with_fuel(days_before_month, 13);
}

fn month_length(year: u64, month: u64) -> (r: u64)
    ensures
        r == days_in_month(year as int, month as int),
{
    if month == 2 {
        if is_leap(year) {
            29
        } else {
            28
        }
    } else if month == 4 || month == 6 || month == 9 || month == 11 {
        30
    } else {
        31
    }
}

/// The name of a frame that was kept so many seconds after the start of 1970,
/// such as `2026-04-02T12-30-45_low_confidence.jpg`.
pub fn format_timestamp_filename(epoch_secs: u64) -> (r: String)
    ensures
        is_capture_name(r@, epoch_secs as int),
{
    let days: u64 = epoch_secs / 86_400;
    let second: u64 = epoch_secs % 86_400;
    let mut remaining: u64 = days;
    let mut year: u64 = 1970;
    let mut length: u64 = 365;
    while remaining >= length
        invariant
            1970 <= year,
            length == days_in_year(year as int),
            days_before_year(year as int) + remaining == days,
            (year - 1970) + remaining <= days,
            days <= u64::MAX / 86_400,
        decreases remaining,
    {
        assert(days_before_year(year as int + 1) == days_before_year(year as int) + length);
        remaining = remaining - length;
        year = year + 1;
        length = if is_leap(year) {
            366
        } else {
            365
        };
    }
    let ghost of_year: u64 = remaining;
    let mut month: u64 = 1;
    proof {
        months_make_a_year(year as int);
    }
    while month < 12 && remaining >= month_length(year, month)
        invariant
            1 <= month <= 12,
            days_before_month(year as int, month as int) + remaining == of_year,
            of_year < days_in_year(year as int),
            days_before_month(year as int, 13) == days_in_year(year as int),
        decreases 12 - month,
    {
        assert(days_before_month(year as int, month as int + 1) == days_before_month(
            year as int,
            month as int,
        ) + days_in_month(year as int, month as int));
        remaining = remaining - month_length(year, month);
        month = month + 1;
    }
    assert(month == 12 ==> days_before_month(year as int, 13) == days_before_month(year as int, 12)
        + days_in_month(year as int, 12));
    let day: u64 = remaining + 1;
    let mut s: String = String::from_str("");
    proof {
        reveal_strlit("");
    }
    push_padded(&mut s, year as u128, 4);
    s.append("-");
    push_padded(&mut s, month as u128, 2);
    s.append("-");
    push_padded(&mut s, day as u128, 2);
    s.append("T");
    push_padded(&mut s, (second / 3600) as u128, 2);
    s.append("-");
    push_padded(&mut s, (second / 60 % 60) as u128, 2);
    s.append("-");
    push_padded(&mut s, (second % 60) as u128, 2);
    s.append("_low_confidence.jpg");
    assert(s@ =~= capture_name(year as int, month as int, day as int, second as int));
    assert(is_name_on(s@, epoch_secs as int, year as int, month as int, day as int));
    s
}

proof fn years_add_up(a: int, b: int)
    requires
        1970 <= a < b,
    ensures
        days_before_year(a) + days_in_year(a) <= days_before_year(b),
    decreases b - a,
{
    assert(days_before_year(b) == days_before_year(b - 1) + days_in_year(b - 1));
    if a < b - 1 {
        years_add_up(a, b - 1);
    }
}

proof fn months_add_up(year: int, a: int, b: int)
    requires
        1 <= a < b,
    ensures
        days_before_month(year, a) + days_in_month(year, a) <= days_before_month(year, b),
    decreases b - a,
{
    assert(days_before_month(year, b) == days_before_month(year, b - 1) + days_in_month(
        year,
        b - 1,
    ));
    if a < b - 1 {
        months_add_up(year, a, b - 1);
    }
}

/// Whether the first of two triples comes before the second, by the first part in which they differ.
pub open spec fn parts_less(y1: int, m1: int, d1: int, y2: int, m2: int, d2: int) -> bool {
    y1 < y2 || (y1 == y2 && (m1 < m2 || (m1 == m2 && d1 < d2)))
}

proof fn date_order_step(y1: int, m1: int, d1: int, y2: int, m2: int, d2: int)
    requires
        is_date(y1, m1, d1),
        is_date(y2, m2, d2),
        parts_less(y1, m1, d1, y2, m2, d2),
    ensures
        day_number(y1, m1, d1) < day_number(y2, m2, d2),
{
    if y1 < y2 {
        years_add_up(y1, y2);
        months_make_a_year(y1);
        months_add_up(y1, m1, 13);
        if m2 > 1 {
            months_add_up(y2, 1, m2);
        }
    } else if m1 < m2 {
        months_add_up(y1, m1, m2);
    }
}

/// Days are numbered in the order of their dates; no two dates share a number.
pub proof fn dates_are_in_order(y1: int, m1: int, d1: int, y2: int, m2: int, d2: int)
    requires
        is_date(y1, m1, d1),
        is_date(y2, m2, d2),
    ensures
        day_number(y1, m1, d1) < day_number(y2, m2, d2) <==> parts_less(y1, m1, d1, y2, m2, d2),
        day_number(y1, m1, d1) == day_number(y2, m2, d2) <==> (y1, m1, d1) == (y2, m2, d2),
{
    if parts_less(y1, m1, d1, y2, m2, d2) {
        date_order_step(y1, m1, d1, y2, m2, d2);
    } else if parts_less(y2, m2, d2, y1, m1, d1) {
        date_order_step(y2, m2, d2, y1, m1, d1);
    }
}

/// A moment has one name.
pub proof fn capture_names_are_unique(a: Seq<char>, b: Seq<char>, secs: int)
    requires
        is_capture_name(a, secs),
        is_capture_name(b, secs),
    ensures
        a == b,
{
    let (y1, m1, d1) = choose|y: int, m: int, d: int| #[trigger] is_name_on(a, secs, y, m, d);
    let (y2, m2, d2) = choose|y: int, m: int, d: int| #[trigger] is_name_on(b, secs, y, m, d);
    dates_are_in_order(y1, m1, d1, y2, m2, d2);
}

/// The order of two texts that start with numbers of the same width.
proof fn number_decides(a: int, b: int, width: nat, x: Seq<char>, y: Seq<char>)
    requires
        0 <= a < ten_to(width),
        0 <= b < ten_to(width),
        width > 0,
        a < b || (a == b && text_less(x, y)),
    ensures
        text_less(padded(a, width) + x, padded(b, width) + y),
{
    if a < b {
        padded_order(a, b, width);
        text_order_of_prefixes(padded(a, width), padded(b, width), x, y);
    } else {
        text_order_after_a_prefix(padded(a, width), x, y);
    }
}

/// What follows the date in a name.
spec fn name_of_second(second: int) -> Seq<char> {
    padded(second / 3600, 2) + ("-"@ + (padded(second / 60 % 60, 2) + ("-"@ + (padded(
        second % 60,
        2,
    ) + "_low_confidence.jpg"@))))
}

proof fn name_parts(year: int, month: int, day: int, second: int)
    ensures
        capture_name(year, month, day, second) == padded(year, 4) + ("-"@ + (padded(month, 2) + (
        "-"@ + (padded(day, 2) + ("T"@ + name_of_second(second)))))),
{
    assert(capture_name(year, month, day, second) =~= padded(year, 4) + ("-"@ + (padded(month, 2) + (
    "-"@ + (padded(day, 2) + ("T"@ + name_of_second(second)))))));
}

proof fn clock_order(a: int, b: int)
    requires
        0 <= a < b < 86_400,
    ensures
        0 <= a / 3600 <= b / 3600 < 24,
        0 <= a / 60 % 60 < 60,
        0 <= b / 60 % 60 < 60,
        0 <= a % 60 < 60,
        0 <= b % 60 < 60,
        a / 3600 == b / 3600 ==> a / 60 % 60 <= b / 60 % 60,
        a / 3600 == b / 3600 && a / 60 % 60 == b / 60 % 60 ==> a % 60 < b % 60,
{
    assert(a / 3600 == a / 60 / 60);
    assert(b / 3600 == b / 60 / 60);
    assert(a / 60 <= b / 60);
}

proof fn two_digits()
    ensures
        ten_to(2) == 100,
{
    reveal_with_fuel(ten_to, 3);
}

proof fn seconds_are_in_order(a: int, b: int)
    requires
        0 <= a < b < 86_400,
    ensures
        text_less(name_of_second(a), name_of_second(b)),
{
    two_digits();
    clock_order(a, b);
    hands_are_in_order(a / 3600, a / 60 % 60, a % 60, b / 3600, b / 60 % 60, b % 60);
}

proof fn hands_are_in_order(h1: int, m1: int, s1: int, h2: int, m2: int, s2: int)
    requires
        0 <= h1 < 100,
        0 <= m1 < 100,
        0 <= s1 < 100,
        0 <= h2 < 100,
        0 <= m2 < 100,
        0 <= s2 < 100,
        parts_less(h1, m1, s1, h2, m2, s2),
    ensures
        text_less(
            padded(h1, 2) + ("-"@ + (padded(m1, 2) + ("-"@ + (padded(s1, 2)
                + "_low_confidence.jpg"@)))),
            padded(h2, 2) + ("-"@ + (padded(m2, 2) + ("-"@ + (padded(s2, 2)
                + "_low_confidence.jpg"@)))),
        ),
{
    two_digits();
    let end = "_low_confidence.jpg"@;
    let (sa, sb) = (padded(s1, 2) + end, padded(s2, 2) + end);
    let (ma, mb) = (padded(m1, 2) + ("-"@ + sa), padded(m2, 2) + ("-"@ + sb));
    if h1 == h2 {
        if m1 == m2 {
            number_decides(s1, s2, 2, end, end);
            text_order_after_a_prefix("-"@, sa, sb);
        }
        number_decides(m1, m2, 2, "-"@ + sa, "-"@ + sb);
        text_order_after_a_prefix("-"@, ma, mb);
    }
    number_decides(h1, h2, 2, "-"@ + ma, "-"@ + mb);
}

/// Up to the year 9999, names sort in the order in which the frames were kept.
pub proof fn later_captures_sort_later(
    a: Seq<char>,
    b: Seq<char>,
    first: int,
    second: int,
    y1: int,
    m1: int,
    d1: int,
    y2: int,
    m2: int,
    d2: int,
)
    requires
        0 <= first < second,
        is_name_on(a, first, y1, m1, d1),
        is_name_on(b, second, y2, m2, d2),
        y2 <= 9999,
    ensures
        text_less(a, b),
{
    reveal_with_fuel(ten_to, 5);
    dates_are_in_order(y1, m1, d1, y2, m2, d2);
    name_parts(y1, m1, d1, first % 86_400);
    name_parts(y2, m2, d2, second % 86_400);
    let (sa, sb) = (name_of_second(first % 86_400), name_of_second(second % 86_400));
    let (da, db) = (padded(d1, 2) + ("T"@ + sa), padded(d2, 2) + ("T"@ + sb));
    let (ma, mb) = (padded(m1, 2) + ("-"@ + da), padded(m2, 2) + ("-"@ + db));
    assert(first / 86_400 <= second / 86_400);
    if y1 == y2 {
        if m1 == m2 {
            if d1 == d2 {
                seconds_are_in_order(first % 86_400, second % 86_400);
                text_order_after_a_prefix("T"@, sa, sb);
            }
            number_decides(d1, d2, 2, "T"@ + sa, "T"@ + sb);
            text_order_after_a_prefix("-"@, da, db);
        }
        number_decides(m1, m2, 2, "-"@ + da, "-"@ + db);
        text_order_after_a_prefix("-"@, ma, mb);
    }
    number_decides(y1, y2, 4, "-"@ + ma, "-"@ + mb);
}

/// Whether a file of this name is a frame: its extension is `jpg`.
pub open spec fn is_frame_name(name: Seq<char>) -> bool {
    name.len() > 4 && name.subrange(name.len() - 4, name.len() as int) == ".jpg"@
}

/// The places of the frames among the files.
pub open spec fn frame_places(names: Seq<Seq<char>>) -> Seq<usize>
    decreases names.len(),
{
    if names.len() == 0 {
        Seq::empty()
    } else {
        let before = frame_places(names.drop_last());
        if is_frame_name(names.last()) {
            before.push((names.len() - 1) as usize)
        } else {
            before
        }
    }
}

/// How many of the names come before `name`.
pub open spec fn names_before(names: Seq<Seq<char>>, name: Seq<char>) -> nat
    decreases names.len(),
{
    if names.len() == 0 {
        0
    } else {
        names_before(names.drop_last(), name) + if text_less(names.last(), name) {
            1nat
        } else {
            0nat
        }
    }
}

/// For each name, how many of them come before it.
pub open spec fn name_ranks(names: Seq<Seq<char>>) -> Seq<i128> {
    names.map_values(|name: Seq<char>| names_before(names, name) as i128)
}

/// The places of the frames among the files, in the order of their names.
pub open spec fn frames_by_name(names: Seq<Seq<char>>) -> Seq<usize> {
    let places = frame_places(names);
    at_places(places, ascending_order(name_ranks(at_places(names, places))))
}

/// The places of the files that have to go: the frames that come first by
/// name, as many as there are too many.
pub open spec fn excess_frames(names: Seq<Seq<char>>, max_files: int) -> Seq<usize> {
    let places = frame_places(names);
    if places.len() <= max_files {
        Seq::empty()
    } else {
        frames_by_name(names).take(places.len() - max_files)
    }
}

proof fn frame_places_are_places(names: Seq<Seq<char>>)
    requires
        names.len() <= usize::MAX,
    ensures
        frame_places(names).len() <= names.len(),
        forall|i: int| 0 <= i < frame_places(names).len() ==> #[trigger] frame_places(names)[i]
            < names.len(),
    decreases names.len(),
{
    if names.len() > 0 {
        frame_places_are_places(names.drop_last());
    }
}

proof fn few_names_before(names: Seq<Seq<char>>, name: Seq<char>)
    ensures
        names_before(names, name) <= names.len(),
    decreases names.len(),
{
    if names.len() > 0 {
        few_names_before(names.drop_last(), name);
    }
}

fn frame_name(name: &str) -> (r: bool)
    ensures
        r == is_frame_name(name@),
{
    let n: usize = name.unicode_len();
    if n <= 4 {
        return false;
    }
    same_text(name.substring_char(n - 4, n), ".jpg")
}

/// How many of the files at these places have a name that comes before `name`.
fn count_before(names: &Vec<String>, places: &Vec<usize>, name: &str) -> (r: usize)
    requires
        forall|i: int| 0 <= i < places@.len() ==> #[trigger] places@[i] < names@.len(),
    ensures
        r == names_before(at_places(crate::text::texts(names@), places@), name@),
        r <= places@.len(),
{
    let ghost list = at_places(crate::text::texts(names@), places@);
    let mut r: usize = 0;
    let mut i: usize = 0;
    while i < places.len()
        invariant
            forall|j: int| 0 <= j < places@.len() ==> #[trigger] places@[j] < names@.len(),
            list == at_places(crate::text::texts(names@), places@),
            i <= places@.len(),
            r <= i,
            r == names_before(list.take(i as int), name@),
        decreases places@.len() - i,
    {
        assert(list.take(i as int + 1).drop_last() =~= list.take(i as int));
        assert(list[i as int] == names@[places@[i as int] as int]@);
        if text_before(names[places[i]].as_str(), name) {
            r = r + 1;
        }
        i = i + 1;
    }
    assert(list.take(i as int) =~= list);
    r
}

/// The places, among the names of the files, of those that have to go so that
/// at most `max_files` frames are left: the oldest ones, oldest first.
pub fn rotate_files(names: &Vec<String>, max_files: usize) -> (r: Vec<usize>)
    ensures
        r@ == excess_frames(crate::text::texts(names@), max_files as int),
{
    let ghost all = crate::text::texts(names@);
    let mut places: Vec<usize> = Vec::new();
    let mut i: usize = 0;
    while i < names.len()
        invariant
            all == crate::text::texts(names@),
            i <= names@.len(),
            places@ == frame_places(all.take(i as int)),
        decreases names@.len() - i,
    {
        assert(all.take(i as int + 1).drop_last() =~= all.take(i as int));
        assert(all[i as int] == names@[i as int]@);
        if frame_name(names[i].as_str()) {
            places.push(i);
        }
        i = i + 1;
    }
    assert(all.take(i as int) =~= all);
    proof {
        frame_places_are_places(all);
    }
    if places.len() <= max_files {
        return Vec::new();
    }
    let ghost list = at_places(all, places@);
    let mut ranks: Vec<i128> = Vec::new();
    let mut k: usize = 0;
    while k < places.len()
        invariant
            all == crate::text::texts(names@),
            list == at_places(all, places@),
            forall|j: int| 0 <= j < places@.len() ==> #[trigger] places@[j] < names@.len(),
            k <= places@.len(),
            ranks@ == name_ranks(list).take(k as int),
        decreases places@.len() - k,
    {
        assert(list[k as int] == names@[places@[k as int] as int]@);
        let rank: usize = count_before(names, &places, names[places[k]].as_str());
        ranks.push(rank as i128);
        assert(name_ranks(list).take(k as int + 1) =~= name_ranks(list).take(k as int).push(
            name_ranks(list)[k as int],
        ));
        k = k + 1;
    }
    assert(ranks@ =~= name_ranks(list));
    let order: Vec<usize> = sort_ascending(&ranks);
    let by_name: Vec<usize> = take_places(&places, &order);
    let excess: usize = places.len() - max_files;
    let mut r: Vec<usize> = Vec::new();
    let mut n: usize = 0;
    while n < excess
        invariant
            excess <= by_name@.len(),
            n <= excess,
            r@ == by_name@.take(n as int),
        decreases excess - n,
    {
        r.push(by_name[n]);
        n = n + 1;
        assert(by_name@.take(n as int) =~= by_name@.take(n as int - 1).push(by_name@[n as int - 1]));
    }
    r
}

proof fn ranks_follow_names(names: Seq<Seq<char>>, a: Seq<char>, b: Seq<char>)
    requires
        text_less(a, b),
    ensures
        names_before(names, a) <= names_before(names, b),
        names.contains(a) ==> names_before(names, a) < names_before(names, b),
    decreases names.len(),
{
    if names.len() > 0 {
        let rest = names.drop_last();
        ranks_follow_names(rest, a, b);
        text_order_is_irreflexive(a);
        if text_less(names.last(), a) {
            text_order_is_transitive(names.last(), a, b);
        }
        if names.contains(a) && names.last() != a {
            let i = choose|i: int| 0 <= i < names.len() && names[i] == a;
            assert(rest[i] == a);
        }
    }
}

/// Where frames have to go, just so many go that `max_files` are left, and no
/// frame that stays comes before one that goes.
pub proof fn the_oldest_frames_go(names: Seq<Seq<char>>, max_files: int)
    requires
        names.len() <= usize::MAX,
        0 <= max_files < frame_places(names).len(),
    ensures
        excess_frames(names, max_files).len() == frame_places(names).len() - max_files,
        frames_by_name(names).len() == frame_places(names).len(),
        forall|i: int, j: int|
            0 <= i < excess_frames(names, max_files).len() && excess_frames(names, max_files).len()
                <= j < frames_by_name(names).len() ==> !text_less(
                names[#[trigger] frames_by_name(names)[j] as int],
                names[#[trigger] excess_frames(names, max_files)[i] as int],
            ),
{
    let places = frame_places(names);
    frame_places_are_places(names);
    let list = at_places(names, places);
    let ranks = name_ranks(list);
    ascending_order_exists(ranks);
    let order = ascending_order(ranks);
    assert(is_ascending_order(ranks, order));
    let by_name = frames_by_name(names);
    let out = excess_frames(names, max_files);
    assert forall|i: int, j: int| 0 <= i < out.len() && out.len() <= j < by_name.len() implies !text_less(
        names[#[trigger] by_name[j] as int],
        names[#[trigger] out[i] as int],
    ) by {
        let kept = list[order[j] as int];
        let gone = list[order[i] as int];
        assert(out[i] == by_name[i]);
        assert(precedes(ranks, order[i] as int, order[j] as int));
        few_names_before(list, kept);
        few_names_before(list, gone);
        if text_less(kept, gone) {
            ranks_follow_names(list, kept, gone);
            assert(list.contains(kept));
        }
    }
}


/// The days before a year: 365 for each year since 1970, and one more for every fourth, but not for
/// every hundredth unless it is a four hundredth.
pub proof fn years_are_counted_with_their_leap_days(year: int)
    requires
        year >= 1970,
    ensures
        days_before_year(year) == 365 * (year - 1970) + (year - 1) / 4 - (year - 1) / 100 + (year - 1)
            / 400 - 477,
    decreases year,
{
    if year > 1970 {
        years_are_counted_with_their_leap_days(year - 1);
    }
}

/// The days before each month of a year.
pub proof fn months_are_counted_with_the_leap_day(year: int)
    ensures
        ({
            let leap = if year % 4 == 0 && (year % 100 != 0 || year % 400 == 0) {
                1int
            } else {
                0
            };
            &&& days_before_month(year, 1) == 0
            &&& days_before_month(year, 2) == 31
            &&& days_before_month(year, 3) == 59 + leap
            &&& days_before_month(year, 4) == 90 + leap
            &&& days_before_month(year, 5) == 120 + leap
            &&& days_before_month(year, 6) == 151 + leap
            &&& days_before_month(year, 7) == 181 + leap
            &&& days_before_month(year, 8) == 212 + leap
            &&& days_before_month(year, 9) == 243 + leap
            &&& days_before_month(year, 10) == 273 + leap
            &&& days_before_month(year, 11) == 304 + leap
            &&& days_before_month(year, 12) == 334 + leap
            &&& days_before_month(year, 12) + days_in_month(year, 12) == days_before_year(year + 1)
                - days_before_year(year) || year < 1970
        }),
{
    reveal_with_fuel(days_before_month, 13);
    reveal_with_fuel(days_before_year, 2);
}

/// A name spells a moment: as many days after the first of January 1970 as its date says, and then
/// the hours, minutes and seconds.
pub proof fn names_spell_the_moment(name: Seq<char>, secs: int, year: int, month: int, day: int)
    requires
        is_name_on(name, secs, year, month, day),
        secs >= 0,
    ensures
        exists|h: int, m: int, s: int|
            {
                &&& 0 <= h < 24 && 0 <= m < 60 && 0 <= s < 60
                &&& secs == 86_400 * (days_before_year(year) + days_before_month(year, month) + (day
                    - 1)) + 3600 * h + 60 * m + s
                &&& name == #[trigger] padded(year, 4) + "-"@ + padded(month, 2) + "-"@ + padded(day, 2)
                    + "T"@ + #[trigger] padded(h, 2) + "-"@ + #[trigger] padded(m, 2) + "-"@
                    + #[trigger] padded(s, 2) + "_low_confidence.jpg"@
            },
{
    let second = secs % 86_400;
    let (h, m, s) = (second / 3600, second / 60 % 60, second % 60);
    assert(second == 3600 * h + 60 * m + s);
    assert(0 <= h < 24);
    let (hours, minutes, seconds) = (padded(h, 2), padded(m, 2), padded(s, 2));
}

/// The frames among the names are all that end in `.jpg` and say something before, in their order.
pub proof fn frames_are_jpg_files(names: Seq<Seq<char>>, i: int)
    requires
        0 <= i < names.len() <= usize::MAX,
    ensures
        frame_places(names).contains(i as usize) <==> names[i].len() > 4 && names[i].skip(
            names[i].len() - 4,
        ) == seq!['.', 'j', 'p', 'g'],
    decreases names.len(),
{
    reveal_strlit(".jpg");
    assert(".jpg"@ =~= seq!['.', 'j', 'p', 'g']);
    let n = names[i].len() as int;
    if n > 4 {
        assert(names[i].skip(n - 4) =~= names[i].subrange(n - 4, n));
    }
    let rest = names.drop_last();
    let before = frame_places(rest);
    let all = frame_places(names);
    if i < rest.len() {
        assert(rest[i] == names[i]);
        frames_are_jpg_files(rest, i);
        if before.contains(i as usize) {
            let k = choose|k: int| 0 <= k < before.len() && before[k] == i as usize;
            assert(all[k] == i as usize);
        }
        if all.contains(i as usize) {
            let k = choose|k: int| 0 <= k < all.len() && all[k] == i as usize;
            assert(before[k] == i as usize);
        }
    } else {
        if is_frame_name(names[i]) {
            assert(all[all.len() - 1] == i as usize);
        } else if all.contains(i as usize) {
            frame_places_are_places(rest);
            let k = choose|k: int| 0 <= k < all.len() && all[k] == i as usize;
            assert(before[k] < rest.len());
        }
    }
}

/// Nothing goes where no more frames are there than may stay.
pub proof fn frames_stay_where_there_is_room(names: Seq<Seq<char>>, max_files: int)
    requires
        frame_places(names).len() <= max_files,
    ensures
        excess_frames(names, max_files).len() == 0,
{
}

/// Before any frame was kept none comes too soon, and a clock that runs backwards counts as standing
/// still.
pub proof fn first_captures_are_never_too_soon(store: CaptureStore, now: u64)
    ensures
        store.last_capture is None ==> !store.is_too_soon(now as int),
        store.last_capture matches Some(last) && now <= last && store.min_interval_secs > 0
            ==> store.is_too_soon(now as int),
{
}

} // verus!
