//! The order in which calibration tries its stages.
//!
//! A stage that succeeds hands over to the next one. A stage that asks for a retry runs again
//! with its iteration counter raised, until the counter reaches the stage's limit. A stage
//! without attempts left is reset, and an earlier stage is tried with its next variation.

use vstd::prelude::*;

verus! {

/// What a stage reported, without its reason.
pub enum Report {
    Success,
    Retry,
    Exhausted,
}

/// Where a run stands: the stage to run next and the iteration counter of every stage.
#[verifier::ext_equal]
pub struct Cursor {
    pub stage: int,
    pub iterations: Seq<int>,
}

/// How a run goes on: at a cursor, or stuck at a stage that has no fallback.
#[verifier::ext_equal]
pub enum Verdict {
    At(Cursor),
    Stuck(int),
}

/// Every fallback is an earlier stage.
pub open spec fn fallbacks_precede(fallbacks: Seq<Option<usize>>) -> bool {
    forall|i: int|
        0 <= i < fallbacks.len() ==> (#[trigger] fallbacks[i] matches Some(t) ==> t < i)
}

/// The attempts that a stage has: at least one.
pub open spec fn attempts(limit: int) -> int {
    if limit < 1 {
        1
    } else {
        limit
    }
}

/// Every counter is below the number of attempts of its stage.
pub open spec fn counters_in_range(limits: Seq<int>, iterations: Seq<int>) -> bool {
    &&& iterations.len() == limits.len()
    &&& forall|i: int|
        0 <= i < limits.len() ==> 0 <= #[trigger] iterations[i] < attempts(limits[i])
}

/// A schedule: one limit and one fallback for each stage.
pub open spec fn is_schedule(limits: Seq<int>, fallbacks: Seq<Option<usize>>) -> bool {
    &&& limits.len() == fallbacks.len()
    &&& fallbacks_precede(fallbacks)
}

/// A cursor of a schedule.
pub open spec fn is_cursor(limits: Seq<int>, c: Cursor) -> bool {
    &&& 0 <= c.stage <= limits.len()
    &&& counters_in_range(limits, c.iterations)
}

/// The first stage, with nothing tried.
pub open spec fn start(n: nat) -> Cursor {
    Cursor { stage: 0, iterations: Seq::new(n, |i: int| 0int) }
}

/// Resets stage `from` and tries the next variation of stage `to`; where `to` has none left,
/// goes on to the fallback of `to`.
pub open spec fn fall_back(
    limits: Seq<int>,
    fallbacks: Seq<Option<usize>>,
    iterations: Seq<int>,
    from: int,
    to: int,
) -> Verdict
    decreases to,
{
    let next = iterations.update(from, 0).update(to, iterations[to] + 1);
    if next[to] < limits[to] {
        Verdict::At(Cursor { stage: to, iterations: next })
    } else {
        match fallbacks[to] {
            Some(t) if t < to => fall_back(limits, fallbacks, next, to, t as int),
            _ => Verdict::Stuck(to),
        }
    }
}

/// Leaves stage `from` for its fallback.
pub open spec fn leave(
    limits: Seq<int>,
    fallbacks: Seq<Option<usize>>,
    iterations: Seq<int>,
    from: int,
) -> Verdict {
    match fallbacks[from] {
        Some(t) => fall_back(limits, fallbacks, iterations, from, t as int),
        None => Verdict::Stuck(from),
    }
}

/// Where a run goes after the current stage reported `report`.
pub open spec fn next(
    limits: Seq<int>,
    fallbacks: Seq<Option<usize>>,
    c: Cursor,
    report: Report,
) -> Verdict {
    match report {
        Report::Success => Verdict::At(Cursor { stage: c.stage + 1, ..c }),
        Report::Retry => {
            let raised = c.iterations.update(c.stage, c.iterations[c.stage] + 1);
            if raised[c.stage] < limits[c.stage] {
                Verdict::At(Cursor { iterations: raised, ..c })
            } else {
                leave(limits, fallbacks, raised, c.stage)
            }
        },
        Report::Exhausted => leave(limits, fallbacks, c.iterations, c.stage),
    }
}

/// Where a run stands after the reports in `trace`. A run that is past its last stage or stuck
/// stays there.
pub open spec fn replay(
    limits: Seq<int>,
    fallbacks: Seq<Option<usize>>,
    trace: Seq<Report>,
) -> Verdict
    decreases trace.len(),
{
    if trace.len() == 0 {
        Verdict::At(start(limits.len()))
    } else {
        match replay(limits, fallbacks, trace.drop_last()) {
            Verdict::At(c) if c.stage < limits.len() => next(limits, fallbacks, c, trace.last()),
            v => v,
        }
    }
}

/// The number of counter settings of the stages from `from` on.
pub open spec fn settings(limits: Seq<int>, from: nat) -> int
    decreases limits.len() - from,
{
    if from >= limits.len() {
        1
    } else {
        attempts(limits[from as int]) * settings(limits, from + 1)
    }
}

/// How many counter settings of the stages from `from` on come after `iterations`.
pub open spec fn settings_left(limits: Seq<int>, iterations: Seq<int>, from: nat) -> int
    decreases limits.len() - from,
{
    if from >= limits.len() {
        0
    } else {
        (attempts(limits[from as int]) - 1 - iterations[from as int]) * settings(limits, from + 1)
            + settings_left(limits, iterations, from + 1)
    }
}

/// An upper bound on the stage attempts that a run at `c` has left.
pub open spec fn attempts_left(limits: Seq<int>, c: Cursor) -> int {
    settings_left(limits, c.iterations, 0) * limits.len() + (limits.len() - c.stage)
}

proof fn settings_left_in_range(limits: Seq<int>, iterations: Seq<int>, from: nat)
    requires
        counters_in_range(limits, iterations),
    ensures
        0 <= settings_left(limits, iterations, from) < settings(limits, from),
        settings(limits, from) >= 1,
    decreases limits.len() - from,
{
    if from < limits.len() {
        settings_left_in_range(limits, iterations, from + 1);
        let a = attempts(limits[from as int]);
        let d = a - 1 - iterations[from as int];
        let s = settings(limits, from + 1);
        let l = settings_left(limits, iterations, from + 1);
        assert(0 <= d * s + l < a * s && a * s >= 1) by (nonlinear_arith)
            requires
                0 <= d <= a - 1,
                s >= 1,
                0 <= l < s,
        ;
    }
}

/// There is at least one setting of the counters.
pub proof fn settings_are_positive(limits: Seq<int>)
    ensures
        settings(limits, 0) >= 1,
{
    settings_left_in_range(limits, Seq::new(limits.len(), |i: int| 0int), 0);
}

/// Raising one counter and changing only later ones lowers the number of settings left.
proof fn raising_lowers_settings_left(
    limits: Seq<int>,
    before: Seq<int>,
    after: Seq<int>,
    at: nat,
    from: nat,
)
    requires
        counters_in_range(limits, before),
        counters_in_range(limits, after),
        from <= at < limits.len(),
        forall|i: int| 0 <= i < at ==> before[i] == #[trigger] after[i],
        after[at as int] == before[at as int] + 1,
    ensures
        settings_left(limits, after, from) < settings_left(limits, before, from),
    decreases at - from,
{
    settings_left_in_range(limits, before, from + 1);
    settings_left_in_range(limits, after, from + 1);
    if from < at {
        raising_lowers_settings_left(limits, before, after, at, from + 1);
    } else {
        let d = attempts(limits[at as int]) - 1 - before[at as int];
        let s = settings(limits, from + 1);
        assert((d - 1) * s == d * s - s) by (nonlinear_arith);
    }
}

/// Falling back lands on an earlier stage, keeps the counters of the stages before it, and
/// raises its counter within range.
proof fn fall_back_raises(
    limits: Seq<int>,
    fallbacks: Seq<Option<usize>>,
    iterations: Seq<int>,
    from: int,
    to: int,
)
    requires
        is_schedule(limits, fallbacks),
        0 <= to < from < limits.len(),
        iterations.len() == limits.len(),
        forall|i: int|
            0 <= i < limits.len() && i != from ==> 0 <= #[trigger] iterations[i] < attempts(limits[i]),
    ensures
        match fall_back(limits, fallbacks, iterations, from, to) {
            Verdict::At(c) => {
                &&& 0 <= c.stage <= to
                &&& counters_in_range(limits, c.iterations)
                &&& c.iterations[c.stage] == iterations[c.stage] + 1
                &&& forall|i: int| 0 <= i < c.stage ==> #[trigger] c.iterations[i] == iterations[i]
            },
            Verdict::Stuck(s) => 0 <= s <= to && fallbacks[s] is None,
        },
    decreases to,
{
    let next = iterations.update(from, 0).update(to, iterations[to] + 1);
    if next[to] < limits[to] {
    } else {
        match fallbacks[to] {
            Some(t) => {
                assert(t < to);
                fall_back_raises(limits, fallbacks, next, to, t as int);
            },
            None => {},
        }
    }
}

/// A run that leaves a stage never runs out of range, and has fewer attempts left.
proof fn leaving_lowers_attempts_left(
    limits: Seq<int>,
    fallbacks: Seq<Option<usize>>,
    c: Cursor,
    iterations: Seq<int>,
)
    requires
        is_schedule(limits, fallbacks),
        is_cursor(limits, c),
        c.stage < limits.len(),
        iterations.len() == limits.len(),
        forall|i: int| 0 <= i < limits.len() && i != c.stage ==> #[trigger] iterations[i] == c.iterations[i],
    ensures
        match leave(limits, fallbacks, iterations, c.stage) {
            Verdict::At(d) => is_cursor(limits, d) && attempts_left(limits, d) < attempts_left(
                limits,
                c,
            ) && d.stage < c.stage,
            Verdict::Stuck(s) => 0 <= s <= c.stage && fallbacks[s] is None,
        },
{
    match fallbacks[c.stage] {
        Some(t) => {
            assert(t < c.stage);
            fall_back_raises(limits, fallbacks, iterations, c.stage, t as int);
            if let Verdict::At(d) = leave(limits, fallbacks, iterations, c.stage) {
                raising_lowers_settings_left(limits, c.iterations, d.iterations, d.stage as nat, 0);
                let n = limits.len() as int;
                let a = settings_left(limits, d.iterations, 0);
                let b = settings_left(limits, c.iterations, 0);
                assert(a * n + (n - d.stage) < b * n + (n - c.stage)) by (nonlinear_arith)
                    requires
                        a + 1 <= b,
                        0 <= d.stage < c.stage < n,
                ;
            }
        },
        None => {},
    }
}

/// Every report takes a run to a place in range, with fewer attempts left than before: to the
/// next stage after a success, to the same or an earlier one otherwise. A run is only ever stuck
/// at a stage without a fallback.
pub proof fn every_report_uses_an_attempt(
    limits: Seq<int>,
    fallbacks: Seq<Option<usize>>,
    c: Cursor,
    report: Report,
)
    requires
        is_schedule(limits, fallbacks),
        is_cursor(limits, c),
        c.stage < limits.len(),
    ensures
        match next(limits, fallbacks, c, report) {
            Verdict::At(d) => {
                &&& is_cursor(limits, d)
                &&& attempts_left(limits, d) < attempts_left(limits, c)
                &&& if report is Success {
                    d.stage == c.stage + 1
                } else {
                    d.stage <= c.stage
                }
            },
            Verdict::Stuck(s) => 0 <= s <= c.stage && fallbacks[s] is None,
        },
{
    match report {
        Report::Success => {},
        Report::Retry => {
            let raised = c.iterations.update(c.stage, c.iterations[c.stage] + 1);
            if raised[c.stage] < limits[c.stage] {
                let d = Cursor { iterations: raised, ..c };
                assert(counters_in_range(limits, raised));
                raising_lowers_settings_left(limits, c.iterations, raised, c.stage as nat, 0);
                let n = limits.len() as int;
                let a = settings_left(limits, raised, 0);
                let b = settings_left(limits, c.iterations, 0);
                assert(a * n < b * n) by (nonlinear_arith)
                    requires
                        a < b,
                        n >= 1,
                ;
            } else {
                leaving_lowers_attempts_left(limits, fallbacks, c, raised);
            }
        },
        Report::Exhausted => {
            leaving_lowers_attempts_left(limits, fallbacks, c, c.iterations);
        },
    }
}

/// A cursor never has a negative number of attempts left.
pub proof fn attempts_left_is_not_negative(limits: Seq<int>, c: Cursor)
    requires
        is_cursor(limits, c),
    ensures
        attempts_left(limits, c) >= 0,
{
    settings_left_in_range(limits, c.iterations, 0);
    let a = settings_left(limits, c.iterations, 0);
    let n = limits.len() as int;
    assert(a * n >= 0) by (nonlinear_arith)
        requires
            a >= 0,
            n >= 0,
    ;
}

/// A run is always at a cursor in range or stuck at a stage without a fallback.
pub proof fn runs_stay_in_range(limits: Seq<int>, fallbacks: Seq<Option<usize>>, trace: Seq<Report>)
    requires
        is_schedule(limits, fallbacks),
    ensures
        match replay(limits, fallbacks, trace) {
            Verdict::At(c) => is_cursor(limits, c),
            Verdict::Stuck(s) => 0 <= s < limits.len() && fallbacks[s] is None,
        },
    decreases trace.len(),
{
    if trace.len() > 0 {
        runs_stay_in_range(limits, fallbacks, trace.drop_last());
        if let Verdict::At(c) = replay(limits, fallbacks, trace.drop_last()) {
            if c.stage < limits.len() {
                every_report_uses_an_attempt(limits, fallbacks, c, trace.last());
            }
        }
    }
}

/// Calibration always ends: a run that still has a stage to run has made fewer attempts than
/// there are counter settings times the stages.
pub proof fn runs_are_bounded(limits: Seq<int>, fallbacks: Seq<Option<usize>>, trace: Seq<Report>)
    requires
        is_schedule(limits, fallbacks),
        replay(limits, fallbacks, trace) matches Verdict::At(c) && c.stage < limits.len(),
    ensures
        trace.len() < settings(limits, 0) * limits.len(),
{
    attempts_made(limits, fallbacks, trace);
    let c = replay(limits, fallbacks, trace)->At_0;
    runs_stay_in_range(limits, fallbacks, trace);
    let first = start(limits.len());
    assert(counters_in_range(limits, first.iterations));
    settings_left_in_range(limits, first.iterations, 0);
    let n = limits.len() as int;
    let a = settings_left(limits, first.iterations, 0);
    let s = settings(limits, 0);
    assert(a * n + n <= s * n) by (nonlinear_arith)
        requires
            a + 1 <= s,
            n >= 0,
    ;
    let b = settings_left(limits, c.iterations, 0);
    settings_left_in_range(limits, c.iterations, 0);
    assert(b * n >= 0) by (nonlinear_arith)
        requires
            b >= 0,
            n >= 0,
    ;
}

proof fn attempts_made(limits: Seq<int>, fallbacks: Seq<Option<usize>>, trace: Seq<Report>)
    requires
        is_schedule(limits, fallbacks),
        replay(limits, fallbacks, trace) matches Verdict::At(c) && c.stage < limits.len(),
    ensures
        trace.len() + attempts_left(limits, replay(limits, fallbacks, trace)->At_0)
            <= attempts_left(limits, start(limits.len())),
    decreases trace.len(),
{
    if trace.len() > 0 {
        let before = replay(limits, fallbacks, trace.drop_last());
        runs_stay_in_range(limits, fallbacks, trace.drop_last());
        match before {
            Verdict::At(c) => {
                if c.stage < limits.len() {
                    attempts_made(limits, fallbacks, trace.drop_last());
                    every_report_uses_an_attempt(limits, fallbacks, c, trace.last());
                }
            },
            Verdict::Stuck(_) => {},
        }
    }
}

/// A run with its images: the stack that transforming stages have pushed onto, and the stack
/// that each stage saw when it last ran.
#[verifier::ext_equal]
pub struct Progress<I> {
    pub cursor: Cursor,
    pub images: Seq<I>,
    pub seen: Seq<Seq<I>>,
}

/// Where a run with its images stands.
#[verifier::ext_equal]
pub enum Position<I> {
    At(Progress<I>),
    Stuck(int),
}

/// A run of `n` stages before its first attempt.
pub open spec fn begin<I>(n: nat) -> Progress<I> {
    Progress {
        cursor: start(n),
        images: Seq::empty(),
        seen: Seq::new(n, |i: int| Seq::<I>::empty()),
    }
}

/// The stack after a stage succeeded: with the image that it produced, if it produced one.
pub open spec fn with_image<I>(images: Seq<I>, pushed: Option<I>) -> Seq<I> {
    match pushed {
        Some(image) => images.push(image),
        None => images,
    }
}

/// Where a run goes after the current stage reported `report`. A stage that runs again is given
/// the images that it saw when it last ran.
pub open spec fn advance<I>(
    limits: Seq<int>,
    fallbacks: Seq<Option<usize>>,
    p: Progress<I>,
    report: Report,
    pushed: Option<I>,
) -> Position<I> {
    let seen = p.seen.update(p.cursor.stage, p.images);
    match next(limits, fallbacks, p.cursor, report) {
        Verdict::At(c) => Position::At(
            Progress {
                cursor: c,
                images: if report is Success {
                    with_image(p.images, pushed)
                } else {
                    seen[c.stage]
                },
                seen,
            },
        ),
        Verdict::Stuck(s) => Position::Stuck(s),
    }
}

/// `a` is the beginning of `b`.
pub open spec fn is_beginning_of<I>(a: Seq<I>, b: Seq<I>) -> bool {
    a.len() <= b.len() && a == b.take(a.len() as int)
}

/// What every run keeps: each stage before the current one saw a beginning of the present
/// stack, and an earlier stage saw a beginning of what a later one saw.
pub open spec fn stacks_nest<I>(p: Progress<I>) -> bool {
    &&& p.seen.len() == p.cursor.iterations.len()
    &&& forall|i: int|
        0 <= i < p.cursor.stage ==> is_beginning_of(#[trigger] p.seen[i], p.images)
    &&& forall|i: int, j: int|
        0 <= i <= j < p.cursor.stage ==> is_beginning_of(#[trigger] p.seen[i], #[trigger] p.seen[j])
}

/// A run keeps its stacks nested.
pub proof fn advancing_keeps_stacks_nested<I>(
    limits: Seq<int>,
    fallbacks: Seq<Option<usize>>,
    p: Progress<I>,
    report: Report,
    pushed: Option<I>,
)
    requires
        is_schedule(limits, fallbacks),
        is_cursor(limits, p.cursor),
        p.cursor.stage < limits.len(),
        stacks_nest(p),
    ensures
        advance(limits, fallbacks, p, report, pushed) matches Position::At(q) ==> stacks_nest(q),
{
    if let Position::At(q) = advance(limits, fallbacks, p, report, pushed) {
        every_report_uses_an_attempt(limits, fallbacks, p.cursor, report);
        let seen = p.seen.update(p.cursor.stage, p.images);
        assert(p.images.take(p.images.len() as int) =~= p.images);
        assert(is_beginning_of(p.images, p.images));
        assert forall|i: int, j: int| 0 <= i <= j <= p.cursor.stage implies is_beginning_of(
            #[trigger] seen[i],
            #[trigger] seen[j],
        ) by {
            if j < p.cursor.stage {
                assert(is_beginning_of(p.seen[i], p.seen[j]));
            } else if i < j {
                assert(is_beginning_of(p.seen[i], p.images));
            }
        }
        if report is Success {
            assert forall|i: int| 0 <= i < q.cursor.stage implies is_beginning_of(
                #[trigger] q.seen[i],
                q.images,
            ) by {
                assert(is_beginning_of(seen[i], seen[p.cursor.stage]));
                assert(q.images.take(seen[i].len() as int) =~= p.images.take(seen[i].len() as int));
            }
        } else {
            if report is Exhausted {
                leaving_lowers_attempts_left(limits, fallbacks, p.cursor, p.cursor.iterations);
            } else {
                let raised = p.cursor.iterations.update(
                    p.cursor.stage,
                    p.cursor.iterations[p.cursor.stage] + 1,
                );
                if raised[p.cursor.stage] >= limits[p.cursor.stage] {
                    leaving_lowers_attempts_left(limits, fallbacks, p.cursor, raised);
                }
            }
        }
    }
}


/// Falling back gives an earlier stage one attempt more, the nearest on the way that has one left, and
/// the stages that are left behind their attempts anew. Stages before it, and those after the one that
/// fell back, keep their counts. It gets stuck only at a stage without attempts and without a
/// fallback.
pub proof fn falling_back_gives_one_more_attempt(
    limits: Seq<int>,
    fallbacks: Seq<Option<usize>>,
    iterations: Seq<int>,
    from: int,
    to: int,
)
    requires
        is_schedule(limits, fallbacks),
        iterations.len() == limits.len(),
        0 <= to < from < limits.len(),
    ensures
        match fall_back(limits, fallbacks, iterations, from, to) {
            Verdict::At(c) => {
                &&& 0 <= c.stage <= to
                &&& c.iterations.len() == iterations.len()
                &&& c.iterations[c.stage] == iterations[c.stage] + 1
                &&& c.iterations[c.stage] < limits[c.stage]
                &&& c.iterations[from] == 0
                &&& c.stage < to <==> iterations[to] + 1 >= limits[to]
                &&& c.stage < to ==> c.iterations[to] == 0
                &&& forall|i: int|
                    0 <= i < c.stage || from < i < iterations.len() ==> #[trigger] c.iterations[i]
                        == iterations[i]
            },
            Verdict::Stuck(s) => {
                &&& 0 <= s <= to
                &&& iterations[s] + 1 >= limits[s]
                &&& iterations[to] + 1 >= limits[to]
                &&& fallbacks[s] is None
            },
        },
    decreases to,
{
    let next = iterations.update(from, 0).update(to, iterations[to] + 1);
    if next[to] >= limits[to] {
        match fallbacks[to] {
            Some(t) => {
                assert(t < to);
                falling_back_gives_one_more_attempt(limits, fallbacks, next, to, t as int);
            },
            None => {},
        }
    }
}

/// After a success the next stage follows, and all counts stay. A retry repeats the stage with one
/// attempt more on its count while it has some left; otherwise, and where a stage gives up, the stage
/// that it falls back to gets one more, or the run is stuck where it has none.
pub proof fn reports_move_the_run(
    limits: Seq<int>,
    fallbacks: Seq<Option<usize>>,
    c: Cursor,
    report: Report,
)
    requires
        is_schedule(limits, fallbacks),
        is_cursor(limits, c),
        c.stage < limits.len(),
    ensures
        ({
            let v = next(limits, fallbacks, c, report);
            let repeats = report is Retry && c.iterations[c.stage] + 1 < limits[c.stage];
            &&& report is Success ==> v == Verdict::At(
                Cursor { stage: c.stage + 1, iterations: c.iterations },
            )
            &&& repeats ==> v == Verdict::At(
                Cursor {
                    stage: c.stage,
                    iterations: c.iterations.update(c.stage, c.iterations[c.stage] + 1),
                },
            )
            &&& !(report is Success) && !repeats && fallbacks[c.stage] is None ==> v
                == Verdict::Stuck(c.stage)
            &&& !(report is Success) && !repeats && fallbacks[c.stage] is Some ==> match v {
                Verdict::At(d) => {
                    let to = fallbacks[c.stage]->Some_0 as int;
                    &&& 0 <= d.stage <= to
                    &&& d.iterations[d.stage] == c.iterations[d.stage] + 1
                    &&& d.iterations[c.stage] == 0
                    &&& d.stage == to <==> c.iterations[to] + 1 < limits[to]
                    &&& forall|i: int|
                        0 <= i < d.stage || c.stage < i < limits.len() ==> #[trigger] d.iterations[i]
                            == c.iterations[i]
                },
                Verdict::Stuck(s) => {
                    &&& 0 <= s < c.stage
                    &&& c.iterations[s] + 1 >= limits[s]
                    &&& fallbacks[s] is None
                },
            }
        }),
{
    if !(report is Success) && fallbacks[c.stage] is Some {
        let to = fallbacks[c.stage]->Some_0 as int;
        let raised = c.iterations.update(c.stage, c.iterations[c.stage] + 1);
        assert(to < c.stage);
        falling_back_gives_one_more_attempt(limits, fallbacks, c.iterations, c.stage, to);
        falling_back_gives_one_more_attempt(limits, fallbacks, raised, c.stage, to);
    }
}

/// After a success the stage's image, if it has one, goes on top of the others. Otherwise the stage
/// that is tried next finds the images that it found the last time.
pub proof fn images_are_put_back<I>(
    limits: Seq<int>,
    fallbacks: Seq<Option<usize>>,
    p: Progress<I>,
    report: Report,
    pushed: Option<I>,
)
    requires
        is_schedule(limits, fallbacks),
        is_cursor(limits, p.cursor),
        p.cursor.stage < limits.len(),
        p.seen.len() == limits.len(),
    ensures
        advance(limits, fallbacks, p, report, pushed) matches Position::At(q) ==> {
            &&& next(limits, fallbacks, p.cursor, report) == Verdict::At(q.cursor)
            &&& report is Success && pushed is Some ==> q.images == p.images.push(pushed->Some_0)
            &&& report is Success && pushed is None ==> q.images == p.images
            &&& !(report is Success) && q.cursor.stage == p.cursor.stage ==> q.images == p.images
            &&& !(report is Success) && q.cursor.stage < p.cursor.stage ==> q.images
                == p.seen[q.cursor.stage]
            &&& q.seen[p.cursor.stage] == p.images
            &&& forall|i: int|
                0 <= i < limits.len() && i != p.cursor.stage ==> #[trigger] q.seen[i] == p.seen[i]
        },
{
    reports_move_the_run(limits, fallbacks, p.cursor, report);
}

} // verus!
