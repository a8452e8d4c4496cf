//! What the stage runner chooses, measures and prints.

use vstd::prelude::*;
use vstd::string::*;

use crate::fixed::floor_div;
use crate::order::ascending;
use crate::order::places_above;
use crate::order::places_below;
use crate::order::ranked_values_split_the_others;
use crate::order::sorted;
use crate::pipeline::stage::StageDescriptor;
use crate::pipeline::stage::StageOutcome;
use crate::stats::sum;
use crate::stats::wide;
use crate::text::decimal;
use crate::text::left_aligned;
use crate::text::padded;
use crate::text::push_left_aligned;
use crate::text::push_number;
use crate::text::push_padded;
use crate::text::same_ignoring_ascii_case;
use crate::text::same_text_ignoring_case;
use crate::text::underscore;
use crate::text::underscored;

verus! {

/// The first stage with this name, whatever the case of its letters.
pub fn find_stage(stages: &Vec<StageDescriptor>, name: &str) -> (r: Option<usize>)
    ensures
        match r {
            Some(i) => {
                &&& i < stages@.len()
                &&& same_ignoring_ascii_case(stages@[i as int].name@, name@)
                &&& forall|j: int|
                    0 <= j < i ==> !same_ignoring_ascii_case((#[trigger] stages@[j]).name@, name@)
            },
            None => forall|j: int|
                0 <= j < stages@.len() ==> !same_ignoring_ascii_case(
                    (#[trigger] stages@[j]).name@,
                    name@,
                ),
        },
{
    let mut i: usize = 0;
    while i < stages.len()
        invariant
            i <= stages@.len(),
            forall|j: int|
                0 <= j < i ==> !same_ignoring_ascii_case((#[trigger] stages@[j]).name@, name@),
        decreases stages@.len() - i,
    {
        if same_text_ignoring_case(stages[i].name, name) {
            return Some(i);
        }
        i = i + 1;
    }
    None
}

/// The outcome in words.
pub open spec fn outcome_text(outcome: &StageOutcome) -> Seq<char> {
    match outcome {
        StageOutcome::Success => "Success"@,
        StageOutcome::Retry(reason) => "Retry: "@ + reason@,
        StageOutcome::Exhausted(reason) => "Exhausted: "@ + reason@,
    }
}

/// The outcome in words.
pub fn format_outcome(outcome: &StageOutcome) -> (r: String)
    ensures
        r@ == outcome_text(outcome),
{
    match outcome {
        StageOutcome::Success => String::from_str("Success"),
        StageOutcome::Retry(reason) => {
            let mut s: String = String::from_str("Retry: ");
            s.append(reason.as_str());
            s
        },
        StageOutcome::Exhausted(reason) => {
            let mut s: String = String::from_str("Exhausted: ");
            s.append(reason.as_str());
            s
        },
    }
}

/// The first attempt that succeeded.
pub fn first_success(outcomes: &Vec<StageOutcome>) -> (r: Option<usize>)
    ensures
        match r {
            Some(i) => {
                &&& i < outcomes@.len()
                &&& outcomes@[i as int] is Success
                &&& forall|j: int| 0 <= j < i ==> #[trigger] outcomes@[j] !is Success
            },
            None => forall|j: int| 0 <= j < outcomes@.len() ==> #[trigger] outcomes@[j] !is Success,
        },
{
    let mut i: usize = 0;
    while i < outcomes.len()
        invariant
            i <= outcomes@.len(),
            forall|j: int| 0 <= j < i ==> #[trigger] outcomes@[j] !is Success,
        decreases outcomes@.len() - i,
    {
        if let StageOutcome::Success = &outcomes[i] {
            return Some(i);
        }
        i = i + 1;
    }
    None
}

/// Which of `total` attempts was the first to succeed, in words.
pub fn success_line(first: Option<usize>, total: usize) -> (r: String)
    ensures
        r@ == match first {
            Some(i) => "first success: iter "@ + decimal(i as int) + " (of "@ + decimal(
                total as int,
            ) + " total)"@,
            None => "no successful iteration (ran "@ + decimal(total as int) + " total)"@,
        },
{
    match first {
        Some(i) => {
            let mut s: String = String::from_str("first success: iter ");
            push_number(&mut s, i as u128);
            s.append(" (of ");
            push_number(&mut s, total as u128);
            s.append(" total)");
            s
        },
        None => {
            let mut s: String = String::from_str("no successful iteration (ran ");
            push_number(&mut s, total as u128);
            s.append(" total)");
            s
        },
    }
}

/// The name of the file for the image `what` of one attempt of a stage.
pub fn attempt_file(stage: &str, iteration: usize, what: &str) -> (r: String)
    ensures
        r@ == stage@ + "_"@ + padded(iteration as int, 3) + "_"@ + what@ + ".jpg"@,
{
    let mut s: String = stage.to_owned();
    s.append("_");
    push_padded(&mut s, iteration as u128, 3);
    s.append("_");
    s.append(what);
    s.append(".jpg");
    s
}

/// The name of the file for a debug picture of a whole run.
pub fn debug_file(index: usize, label: &str) -> (r: String)
    ensures
        r@ == padded(index as int, 3) + "_"@ + underscored(label@, ':') + ".jpg"@,
{
    proof {
        reveal_strlit("");
    }
    let mut s: String = String::from_str("");
    push_padded(&mut s, index as u128, 3);
    assert(s@ =~= padded(index as int, 3));
    s.append("_");
    s.append(underscore(label, ':').as_str());
    s.append(".jpg");
    s
}

/// The stage with its number, which counts from one, as a line of a table.
pub fn stage_row(index: usize, d: &StageDescriptor) -> (r: String)
    ensures
        r@ == left_aligned(decimal(index + 1), 4) + " "@ + left_aligned(d.name@, 20) + " "@
            + left_aligned(d.label@, 20) + " "@ + (match d.fallback {
            Some(f) => f@,
            None => "(none)"@,
        }),
{
    proof {
        reveal_strlit("");
    }
    let mut number: String = String::from_str("");
    push_number(&mut number, index as u128 + 1);
    assert(number@ =~= decimal(index + 1));
    let mut s: String = String::from_str("");
    push_left_aligned(&mut s, number.as_str(), 4);
    assert(s@ =~= left_aligned(decimal(index + 1), 4));
    s.append(" ");
    push_left_aligned(&mut s, d.name, 20);
    s.append(" ");
    push_left_aligned(&mut s, d.label, 20);
    s.append(" ");
    match d.fallback {
        Some(f) => s.append(f),
        None => s.append("(none)"),
    }
    s
}

/// How often a stage is run before its runs are timed.
pub fn warmup_runs(iterations: u32) -> (r: u32)
    ensures
        r == crate::fixed::max(iterations as int / 10, 5),
{
    let tenth: u32 = iterations / 10;
    if tenth < 5 {
        5
    } else {
        tenth
    }
}

/// The timings of a stage in nanoseconds.
#[derive(Debug, Clone, Copy, PartialEq, Eq, Structural)]
pub struct BenchStats {
    pub total: i128,
    pub mean: i128,
    pub p50: i64,
    pub p95: i64,
    pub p99: i64,
    pub min: i64,
    pub max: i64,
}

/// What some timings amount to: their sum and mean, and from the fastest to
/// the slowest the first, the middle, those below which 95 and 99 percent
/// lie, and the last.
pub open spec fn stats_of(timings: Seq<i64>) -> BenchStats {
    let n = timings.len() as int;
    let order = ascending(timings);
    BenchStats {
        total: sum(wide(timings)) as i128,
        mean: (sum(wide(timings)) / n) as i128,
        p50: order[n / 2],
        p95: order[n * 95 / 100],
        p99: order[n * 99 / 100],
        min: order[0],
        max: order[n - 1],
    }
}

/// What some timings amount to.
pub fn bench_stats(timings: &Vec<i64>) -> (r: BenchStats)
    requires
        timings@.len() > 0,
    ensures
        r == stats_of(timings@),
        r.total == sum(wide(timings@)),
        r.mean == sum(wide(timings@)) / timings@.len() as int,
        forall|i: int| 0 <= i < timings@.len() ==> r.min <= #[trigger] timings@[i] <= r.max,
        r.min <= r.p50 <= r.p95 <= r.p99 <= r.max,
{
    let n: usize = timings.len();
    let mut total: i128 = 0;
    let mut i: usize = 0;
    assert(wide(timings@.take(0)) =~= Seq::<i128>::empty());
    while i < n
        invariant
            n == timings@.len(),
            i <= n,
            total == sum(wide(timings@.take(i as int))),
            -0x8000_0000_0000_0000 * i <= total <= 0x7fff_ffff_ffff_ffff * i,
        decreases n - i,
    {
        assert(wide(timings@.take(i as int + 1)).drop_last() =~= wide(timings@.take(i as int)));
        assert(wide(timings@.take(i as int + 1)).last() == timings@[i as int]);
        total = total + timings[i] as i128;
        i = i + 1;
    }
    assert(timings@.take(n as int) =~= timings@);
    let order: Vec<i64> = sorted(timings);
    let mean: i128 = floor_div(total, n as i128);
    let p95: usize = ((n as u128) * 95 / 100) as usize;
    let p99: usize = ((n as u128) * 99 / 100) as usize;
    assert forall|k: int| 0 <= k < timings@.len() implies order@[0] <= #[trigger] timings@[k]
        <= order@[n - 1] by {
        assert(order@.contains(timings@[k]));
        let at = choose|at: int| 0 <= at < order@.len() && order@[at] == timings@[k];
        assert(order[0] <= order[at]);
        assert(order[at] <= order[n - 1]);
    }
    BenchStats {
        total,
        mean,
        p50: order[n / 2],
        p95: order[p95],
        p99: order[p99],
        min: order[0],
        max: order[n - 1],
    }
}


/// Each percentile is one of the timings. No more than that share of them are shorter, and no more
/// than the rest are longer; none is shorter than the least nor longer than the greatest.
pub proof fn percentiles_split_the_timings(timings: Seq<i64>)
    requires
        0 < timings.len() <= usize::MAX,
    ensures
        ({
            let n = timings.len() as int;
            let s = stats_of(timings);
            &&& timings.contains(s.p50) && timings.contains(s.p95) && timings.contains(s.p99)
            &&& timings.contains(s.min) && timings.contains(s.max)
            &&& 100 * places_below(timings, s.p50 as int).len() <= 50 * n
            &&& 100 * places_below(timings, s.p95 as int).len() <= 95 * n
            &&& 100 * places_below(timings, s.p99 as int).len() <= 99 * n
            &&& 100 * places_above(timings, s.p50 as int).len() < 50 * n
            &&& 100 * places_above(timings, s.p95 as int).len() < 5 * n
            &&& 100 * places_above(timings, s.p99 as int).len() < n
            &&& places_below(timings, s.min as int).len() == 0
            &&& places_above(timings, s.max as int).len() == 0
        }),
{
    let n = timings.len() as int;
    ranked_values_split_the_others(timings, n / 2);
    ranked_values_split_the_others(timings, n * 95 / 100);
    ranked_values_split_the_others(timings, n * 99 / 100);
    ranked_values_split_the_others(timings, 0);
    ranked_values_split_the_others(timings, n - 1);
}

} // verus!
