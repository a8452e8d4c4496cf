//! Checking that horizontal lines are horizontal in the warped image.

use vstd::prelude::*;
use vstd::string::*;

use super::stage::{is_exhausted, PipelineState, StageDescriptor, StageOutcome};
use super::util::HoughLine;
use super::ImageOutput;
use crate::fixed::{abs, abs_exec};
use crate::text::{push_ratio, ratio_decimal};
use crate::wide::Integer;

verus! {

/// The attempts of the stage.
pub const MAX_RETRIES: u32 = 1;

/// What the stage says of itself.
pub fn descriptor() -> (r: StageDescriptor)
    ensures
        r.name@ == "WarpCheck"@,
        r.label@ == "S5:WarpCheck"@,
        r.fallback matches Some(f) && f@ == "FindVerticals"@,
{
    StageDescriptor { name: "WarpCheck", label: "S5:WarpCheck", fallback: Some("FindVerticals") }
}

/// The error for an empty image.
pub fn empty_image() -> (r: StageOutcome)
    ensures
        is_exhausted(r, "empty warped image"@),
{
    StageOutcome::Exhausted(String::from_str("empty warped image"))
}

/// How far from horizontal the lines within ten degrees of it are.
pub open spec fn slopes(lines: Seq<HoughLine>) -> Seq<int>
    decreases lines.len(),
{
    if lines.len() == 0 {
        Seq::empty()
    } else {
        let before = slopes(lines.drop_last());
        let slope = abs(lines.last().theta - 90_000_000);
        if slope <= 10_000_000 {
            before.push(slope)
        } else {
            before
        }
    }
}

/// The sum of the first `n` slopes.
pub open spec fn slope_sum(s: Seq<int>, n: int) -> int
    decreases n,
{
    if n <= 0 {
        0
    } else {
        slope_sum(s, n - 1) + s[n - 1]
    }
}

/// How the warp is judged by the lines in the image, which come from the strongest to the weakest:
/// the mean slope of the three strongest that are nearly horizontal may be two degrees. Without
/// any line there is nothing to judge by.
pub open spec fn is_judgement(lines: Seq<HoughLine>, r: StageOutcome) -> bool {
    let s = slopes(lines);
    let n = if s.len() < 3 {
        s.len() as int
    } else {
        3
    };
    let sum = slope_sum(s, n);
    if lines.len() == 0 {
        r is Success
    } else if s.len() == 0 {
        is_exhausted(r, "no near-horizontal lines found in warped image"@)
    } else if sum > 2_000_000 * n {
        is_exhausted(
            r,
            "mean horizontal slope = "@ + ratio_decimal(sum, n * 1_000_000, 1) + " deg (max 2 deg)"@,
        )
    } else {
        r is Success
    }
}

/// Judges the warp by the lines in the image.
pub fn judge_lines(lines: &Vec<HoughLine>) -> (r: StageOutcome)
    ensures
        is_judgement(lines@, r),
{
    if lines.len() == 0 {
        return StageOutcome::Success;
    }
    let mut sum: i128 = 0;
    let mut n: i128 = 0;
    let mut i: usize = 0;
    assert(lines@.take(0) =~= Seq::empty());
    while i < lines.len()
        invariant
            i <= lines.len(),
            0 <= n <= 3,
            ({
                let s = slopes(lines@.take(i as int));
                n == (if s.len() < 3 {
                    s.len() as int
                } else {
                    3
                }) && sum == slope_sum(s, n as int)
            }),
            0 <= sum <= 10_000_000 * n,
        decreases lines.len() - i,
    {
        assert(lines@.take(i as int + 1).drop_last() =~= lines@.take(i as int));
        let ghost before = slopes(lines@.take(i as int));
        let ghost after = slopes(lines@.take(i as int + 1));
        let slope: i128 = abs_exec(lines[i].theta as i128 - 90_000_000);
        proof {
            same_beginning_same_sum(before, after, n as int);
        }
        if slope <= 10_000_000 && n < 3 {
            sum = sum + slope;
            n = n + 1;
        }
        i = i + 1;
    }
    assert(lines@.take(i as int) =~= lines@);
    if n == 0 {
        return StageOutcome::Exhausted(
            String::from_str("no near-horizontal lines found in warped image"),
        );
    }
    if sum > 2_000_000 * n {
        let mut s: String = String::from_str("mean horizontal slope = ");
        push_ratio(&mut s, &Integer::new(sum), &Integer::new(n * 1_000_000), 1);
        s.append(" deg (max 2 deg)");
        return StageOutcome::Exhausted(s);
    }
    StageOutcome::Success
}

proof fn same_beginning_same_sum(a: Seq<int>, b: Seq<int>, n: int)
    requires
        n <= a.len(),
        n <= b.len(),
        forall|i: int| 0 <= i < n ==> a[i] == b[i],
    ensures
        slope_sum(a, n) == slope_sum(b, n),
    decreases n,
{
    if n > 0 {
        same_beginning_same_sum(a, b, n - 1);
    }
}

/// The stage that checks the warp.
#[derive(Debug, Clone, Copy, PartialEq, Eq, Structural)]
pub struct WarpCheck;

impl WarpCheck {
    /// An attempt of the stage; `find` gives the lines in the image. No attempt changes the state
    /// or the image.
    pub fn run<E, F: Fn() -> Result<Vec<HoughLine>, E>>(
        &self,
        state: &mut PipelineState,
        is_empty: bool,
        find: &F,
    ) -> (r: Result<(StageOutcome, ImageOutput), E>)
        requires
            call_requires(*find, ()),
        ensures
            final(state)@ == old(state)@,
            match r {
                Ok((outcome, output)) => {
                    &&& output is Passthrough
                    &&& if is_empty {
                        is_exhausted(outcome, "empty warped image"@)
                    } else {
                        exists|lines: Vec<HoughLine>|
                            #![trigger call_ensures(*find, (), Ok(lines))]
                            call_ensures(*find, (), Ok(lines)) && is_judgement(lines@, outcome)
                    }
                },
                Err(e) => !is_empty && call_ensures(*find, (), Err(e)),
            },
    {
        if is_empty {
            return Ok((empty_image(), ImageOutput::Passthrough));
        }
        match find() {
            Ok(lines) => Ok((judge_lines(&lines), ImageOutput::Passthrough)),
            Err(e) => Err(e),
        }
    }
}


/// The slopes are how far the lines are turned from the horizontal, of those that are turned by ten
/// degrees at most, in their order.
pub proof fn slopes_are_those_of_level_lines(lines: Seq<HoughLine>)
    ensures
        slopes(lines) == lines.map_values(
            |l: HoughLine|
                if l.theta < 90_000_000 {
                    90_000_000 - l.theta
                } else {
                    l.theta - 90_000_000
                },
        ).filter(|s: int| s <= 10_000_000),
    decreases lines.len(),
{
    reveal(Seq::filter);
    let f = |l: HoughLine|
        if l.theta < 90_000_000 {
            90_000_000 - l.theta
        } else {
            l.theta - 90_000_000
        };
    if lines.len() > 0 {
        slopes_are_those_of_level_lines(lines.drop_last());
        assert(lines.map_values(f).drop_last() =~= lines.drop_last().map_values(f));
    }
}

/// The warp is good exactly if there are no lines at all, or some that are nearly level, the first
/// three of which, or all where they are fewer, are turned by two degrees at most on the mean.
pub proof fn warps_are_judged_by_three_level_lines(lines: Seq<HoughLine>, r: StageOutcome)
    requires
        is_judgement(lines, r),
    ensures
        ({
            let s = slopes(lines);
            &&& r is Success || r is Exhausted
            &&& lines.len() == 0 ==> r is Success
            &&& lines.len() > 0 && s.len() == 0 ==> r is Exhausted
            &&& lines.len() > 0 && s.len() == 1 ==> (r is Success <==> s[0] <= 2_000_000)
            &&& lines.len() > 0 && s.len() == 2 ==> (r is Success <==> s[0] + s[1] <= 4_000_000)
            &&& lines.len() > 0 && s.len() >= 3 ==> (r is Success <==> s[0] + s[1] + s[2]
                <= 6_000_000)
        }),
{
    reveal_with_fuel(slope_sum, 4);
}

} // verus!
