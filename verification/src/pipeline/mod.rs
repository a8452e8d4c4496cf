//! The calibration pipeline: stages that find the stove, its panel and its knobs in a frame.

pub mod cache;
pub mod extract_band;
pub mod final_check;
pub mod final_detect;
pub mod find_clock;
pub mod find_corner;
pub mod find_features;
pub mod find_lines;
pub mod find_stove;
pub mod find_verticals;
pub mod perspective;
pub mod refine_warp;
pub mod sanity;
pub mod schedule;
pub mod stage;
pub mod testdata;
pub mod util;
pub mod warp_check;

use std::sync::Arc;

use vstd::prelude::*;
use vstd::string::*;

use cache::{compute_cache_version, CacheError, PipelineCache};
use schedule::{
    advance, advancing_keeps_stacks_nested, attempts_left, attempts_left_is_not_negative, begin,
    counters_in_range, every_report_uses_an_attempt, fall_back, is_cursor,
    is_beginning_of, is_schedule, leave, stacks_nest, with_image, Cursor, Position, Progress,
    Report, Verdict,
};
use stage::{empty_state, PipelineState, StageDescriptor, StageOutcome, StateView};

use crate::text::{contains_text, parse_list, push_number, same_text, same_text_ignoring_case};

verus! {

/// A debug image of a stage: its label and its JPEG bytes.
pub type DebugImage = (String, Vec<u8>);

/// Whether a stage produced a new image or left the image as it was.
#[derive(Debug, Clone, Copy, PartialEq, Eq, Structural)]
pub enum ImageOutput {
    /// The stage wrote a transformed image into its output buffer.
    Transformed,
    /// The stage did not modify the image.
    Passthrough,
}

/// The attempts that a stage has where it asks for no other number.
pub const DEFAULT_MAX_RETRIES: u32 = 20;

/// What a stage of the pipeline does.
///
/// A stage gets the state that the stages before it have filled, the working image and a buffer
/// for a new one, writes its own part of the state, and says how it went. `raw` is the frame as
/// the camera gave it; `iteration` counts the attempts from zero, so that a stage can vary its
/// parameters.
pub trait Stage {
    /// An image.
    type Image: Default;

    /// What goes wrong in image processing.
    type Error;

    /// What [`Stage::descriptor`] returns.
    spec fn spec_descriptor(&self) -> StageDescriptor;

    /// What [`Stage::max_retries`] returns.
    spec fn spec_max_retries(&self) -> u32;

    /// What [`Stage::run`] may do to the state and the buffer, and return.
    spec fn may_run(
        &self,
        before: StateView,
        src: Self::Image,
        raw: Self::Image,
        iteration: u32,
        after: StateView,
        dst: Self::Image,
        result: Result<(StageOutcome, ImageOutput), Self::Error>,
    ) -> bool;

    /// What [`Stage::debug_image`] may return.
    spec fn may_show(
        &self,
        state: StateView,
        working: Self::Image,
        raw: Self::Image,
        result: Result<Option<DebugImage>, Self::Error>,
    ) -> bool;

    fn descriptor(&self) -> (r: StageDescriptor)
        ensures
            r == self.spec_descriptor(),
    ;

    /// Runs one attempt of this stage.
    fn run(
        &self,
        state: &mut PipelineState,
        src: &Self::Image,
        dst: &mut Self::Image,
        raw: &Self::Image,
        iteration: u32,
    ) -> (r: Result<(StageOutcome, ImageOutput), Self::Error>)
        ensures
            self.may_run(old(state)@, *src, *raw, iteration, final(state)@, *final(dst), r),
    ;

    /// The attempts that this stage has before it is given up.
    fn max_retries(&self) -> (r: u32)
        ensures
            r == self.spec_max_retries(),
    ;

    /// An annotated image of what the stage found, if it has one.
    fn debug_image(
        &self,
        state: &PipelineState,
        working: &Self::Image,
        raw: &Self::Image,
    ) -> (r: Result<Option<DebugImage>, Self::Error>)
        ensures
            self.may_show(state@, *working, *raw, r),
    ;
}

impl<T: Stage> Stage for Arc<T> {
    type Image = T::Image;

    type Error = T::Error;

    open spec fn spec_descriptor(&self) -> StageDescriptor {
        (**self).spec_descriptor()
    }

    open spec fn spec_max_retries(&self) -> u32 {
        (**self).spec_max_retries()
    }

    open spec fn may_run(
        &self,
        before: StateView,
        src: T::Image,
        raw: T::Image,
        iteration: u32,
        after: StateView,
        dst: T::Image,
        result: Result<(StageOutcome, ImageOutput), T::Error>,
    ) -> bool {
        (**self).may_run(before, src, raw, iteration, after, dst, result)
    }

    open spec fn may_show(
        &self,
        state: StateView,
        working: T::Image,
        raw: T::Image,
        result: Result<Option<DebugImage>, T::Error>,
    ) -> bool {
        (**self).may_show(state, working, raw, result)
    }

    fn descriptor(&self) -> (r: StageDescriptor) {
        (**self).descriptor()
    }

    fn run(
        &self,
        state: &mut PipelineState,
        src: &T::Image,
        dst: &mut T::Image,
        raw: &T::Image,
        iteration: u32,
    ) -> (r: Result<(StageOutcome, ImageOutput), T::Error>) {
        (**self).run(state, src, dst, raw, iteration)
    }

    fn max_retries(&self) -> (r: u32) {
        (**self).max_retries()
    }

    fn debug_image(
        &self,
        state: &PipelineState,
        working: &T::Image,
        raw: &T::Image,
    ) -> (r: Result<Option<DebugImage>, T::Error>) {
        (**self).debug_image(state, working, raw)
    }
}

/// The last place of `name` in `names`.
pub open spec fn last_named(names: Seq<Seq<char>>, name: Seq<char>) -> Option<usize>
    decreases names.len(),
{
    if names.len() == 0 {
        None
    } else if names.last() == name {
        Some((names.len() - 1) as usize)
    } else {
        last_named(names.drop_last(), name)
    }
}

/// The stage to which each stage falls back.
pub open spec fn fallbacks_of<S: Stage>(stages: Seq<S>) -> Seq<Option<usize>> {
    stages.map_values(
        |s: S|
            match s.spec_descriptor().fallback {
                Some(name) => last_named(cache::stage_names(stages), name@),
                None => None,
            },
    )
}

/// The attempts that each stage has.
pub open spec fn limits_of<S: Stage>(stages: Seq<S>) -> Seq<int> {
    stages.map_values(|s: S| s.spec_max_retries() as int)
}

/// What is wrong with the fallback of stage `i`, if anything is: it has to name an earlier
/// stage.
pub open spec fn fallback_problem<S: Stage>(stages: Seq<S>, i: int) -> Option<Seq<char>> {
    let d = stages[i].spec_descriptor();
    match d.fallback {
        None => None,
        Some(name) => match last_named(cache::stage_names(stages), name@) {
            None => Some(
                "stage '"@ + d.name@ + "' references unknown fallback '"@ + name@ + "'"@,
            ),
            Some(at) => if at < i {
                None
            } else {
                Some(
                    "stage '"@ + d.name@ + "' fallback '"@ + name@ + "' (idx "@
                        + crate::text::decimal(at as int) + ") must precede it (idx "@
                        + crate::text::decimal(i) + ")"@,
                )
            },
        },
    }
}

/// Every fallback names an earlier stage.
pub open spec fn fallbacks_resolve<S: Stage>(stages: Seq<S>) -> bool {
    forall|i: int| 0 <= i < stages.len() ==> #[trigger] fallback_problem(stages, i) is None
}

fn find_last_named<S: Stage>(stages: &Vec<S>, name: &str) -> (r: Option<usize>)
    ensures
        r == last_named(cache::stage_names(stages@), name@),
{
    let ghost names = cache::stage_names(stages@);
    let mut i: usize = stages.len();
    assert(names.take(i as int) =~= names);
    while i > 0
        invariant
            i <= stages.len(),
            names == cache::stage_names(stages@),
            last_named(names, name@) == last_named(names.take(i as int), name@),
        decreases i,
    {
        assert(names.take(i as int).drop_last() =~= names.take(i as int - 1));
        if same_text(stages[i - 1].descriptor().name, name) {
            return Some(i - 1);
        }
        i = i - 1;
    }
    None
}

/// Resolves each stage's fallback name to a place, or says what is wrong with the first one
/// that names no earlier stage.
pub fn resolve_fallbacks<S: Stage>(stages: &Vec<S>) -> (r: Result<Vec<Option<usize>>, String>)
    ensures
        match r {
            Ok(v) => fallbacks_resolve(stages@) && v@ == fallbacks_of(stages@),
            Err(text) => exists|i: int|
                0 <= i < stages.len() && #[trigger] fallback_problem(stages@, i) == Some(text@) && (
                forall|j: int| 0 <= j < i ==> #[trigger] fallback_problem(stages@, j) is None),
        },
{
    let mut v: Vec<Option<usize>> = Vec::new();
    let mut i: usize = 0;
    while i < stages.len()
        invariant
            i <= stages.len(),
            v.len() == i,
            forall|j: int| 0 <= j < i ==> #[trigger] fallback_problem(stages@, j) is None,
            forall|j: int| 0 <= j < i ==> #[trigger] v[j] == fallbacks_of(stages@)[j],
        decreases stages.len() - i,
    {
        let d: StageDescriptor = stages[i].descriptor();
        match d.fallback {
            None => {
                v.push(None);
            },
            Some(name) => {
                let found: Option<usize> = find_last_named(stages, name);
                match found {
                    None => {
                        let mut s: String = String::from_str("stage '");
                        s.append(d.name);
                        s.append("' references unknown fallback '");
                        s.append(name);
                        s.append("'");
                        assert(fallback_problem(stages@, i as int) == Some(s@));
                        return Err(s);
                    },
                    Some(at) => {
                        if at >= i {
                            let mut s: String = String::from_str("stage '");
                            s.append(d.name);
                            s.append("' fallback '");
                            s.append(name);
                            s.append("' (idx ");
                            push_number(&mut s, at as u128);
                            s.append(") must precede it (idx ");
                            push_number(&mut s, i as u128);
                            s.append(")");
                            assert(fallback_problem(stages@, i as int) == Some(s@));
                            return Err(s);
                        }
                    },
                }
                v.push(found);
            },
        }
        assert(fallback_problem(stages@, i as int) is None);
        i = i + 1;
    }
    assert(v@ =~= fallbacks_of(stages@));
    Ok(v)
}

/// Settings of the pipeline.
#[derive(Debug)]
pub struct PipelineConfig {
    /// Path to the JSON cache file on disk.
    pub cache_path: String,
    /// How many fresh frames to try before giving up calibration. Each frame gets the full
    /// retry and fallback budget before the next one is fetched.
    pub max_frame_attempts: u32,
}

/// Errors from the pipeline.
#[derive(Debug, PartialEq, Eq)]
pub enum PipelineError<E> {
    /// Image processing went wrong.
    Cv(E),
    /// All stages and fallbacks are exhausted: calibration is impossible.
    Exhausted(String),
    /// The cache could not be written. The calibration stands all the same.
    Cache(String),
}

/// Whether the stage `d` shows debug images under the filter: without a filter every stage
/// does, "none" keeps all of them from it, "all" lets all of them, and any other entry lets the
/// stages whose label it is part of or whose name it is in any case.
pub open spec fn shows_debug_images(filter: Seq<Seq<char>>, d: StageDescriptor) -> bool {
    if filter.len() == 0 {
        true
    } else if filter.contains("none"@) {
        false
    } else if filter.contains("all"@) {
        true
    } else {
        exists|i: int| 0 <= i < filter.len() && #[trigger] entry_selects(filter[i], d)
    }
}

/// The entry is part of the label of `d`, or its name in any case.
pub open spec fn entry_selects(entry: Seq<char>, d: StageDescriptor) -> bool {
    crate::text::occurs_in(entry, d.label@) || crate::text::same_ignoring_ascii_case(entry, d.name@)
}

/// What one attempt of a stage did: the state and the buffer after it, what it reported, and
/// the debug image that was kept of it.
#[verifier::ext_equal]
pub struct Attempt<I> {
    pub after: StateView,
    pub dst: I,
    pub outcome: StageOutcome,
    pub output: ImageOutput,
    pub shown: Option<DebugImage>,
}

/// What a stage reported, without its reason.
pub open spec fn report_of(outcome: StageOutcome) -> Report {
    match outcome {
        StageOutcome::Success => Report::Success,
        StageOutcome::Retry(_) => Report::Retry,
        StageOutcome::Exhausted(_) => Report::Exhausted,
    }
}

/// The image that an attempt produced.
pub open spec fn image_of<I>(a: Attempt<I>) -> Option<I> {
    if a.output is Transformed {
        Some(a.dst)
    } else {
        None
    }
}

/// The working image: the top of the stack, or the frame where the stack is empty.
pub open spec fn working_image<I>(images: Seq<I>, frame: I) -> I {
    if images.len() == 0 {
        frame
    } else {
        images.last()
    }
}

/// The state after some attempts.
pub open spec fn state_after<I>(attempts: Seq<Attempt<I>>) -> StateView {
    if attempts.len() == 0 {
        empty_state()
    } else {
        attempts.last().after
    }
}

/// The debug images of some attempts.
pub open spec fn images_shown<I>(attempts: Seq<Attempt<I>>) -> Seq<DebugImage>
    decreases attempts.len(),
{
    if attempts.len() == 0 {
        Seq::empty()
    } else {
        let before = images_shown(attempts.drop_last());
        match attempts.last().shown {
            Some(image) => before.push(image),
            None => before,
        }
    }
}

/// Where a run stands after some attempts.
pub open spec fn position_after<S: Stage>(
    stages: Seq<S>,
    attempts: Seq<Attempt<S::Image>>,
) -> Position<S::Image>
    decreases attempts.len(),
{
    if attempts.len() == 0 {
        Position::At(begin(stages.len()))
    } else {
        match position_after(stages, attempts.drop_last()) {
            Position::At(p) => advance(
                limits_of(stages),
                fallbacks_of(stages),
                p,
                report_of(attempts.last().outcome),
                image_of(attempts.last()),
            ),
            stuck => stuck,
        }
    }
}

/// The attempt `a` is one that the stage at `p` can make: it was given the state and the images
/// of `p` and its iteration, and a debug image was asked for where it succeeded and the filter
/// lets it show one.
pub open spec fn attempt_fits<S: Stage>(
    stages: Seq<S>,
    filter: Seq<Seq<char>>,
    frame: S::Image,
    p: Progress<S::Image>,
    before: StateView,
    a: Attempt<S::Image>,
) -> bool {
    let s = stages[p.cursor.stage];
    &&& s.may_run(
        before,
        working_image(p.images, frame),
        frame,
        p.cursor.iterations[p.cursor.stage] as u32,
        a.after,
        a.dst,
        Ok((a.outcome, a.output)),
    )
    &&& if a.outcome is Success && shows_debug_images(filter, s.spec_descriptor()) {
        s.may_show(
            a.after,
            working_image(with_image(p.images, image_of(a)), frame),
            frame,
            Ok(a.shown),
        )
    } else {
        a.shown is None
    }
}

/// `attempts` is what a calibration on `frame` can have done: each attempt was made by the stage
/// that was next, on what that stage was to be given.
pub open spec fn is_history<S: Stage>(
    stages: Seq<S>,
    filter: Seq<Seq<char>>,
    frame: S::Image,
    attempts: Seq<Attempt<S::Image>>,
) -> bool
    decreases attempts.len(),
{
    attempts.len() == 0 || {
        let before = attempts.drop_last();
        &&& is_history(stages, filter, frame, before)
        &&& position_after(stages, before) matches Position::At(p)
        &&& p.cursor.stage < stages.len()
        &&& attempt_fits(stages, filter, frame, p, state_after(before), attempts.last())
    }
}

/// The stage at `p` fails when it runs: it leaves the state `state` and the buffer `dst`.
pub open spec fn run_fails<S: Stage>(
    stages: Seq<S>,
    frame: S::Image,
    p: Progress<S::Image>,
    before: StateView,
    state: StateView,
    dst: S::Image,
    error: S::Error,
) -> bool {
    stages[p.cursor.stage].may_run(
        before,
        working_image(p.images, frame),
        frame,
        p.cursor.iterations[p.cursor.stage] as u32,
        state,
        dst,
        Err(error),
    )
}

/// The stage at `p` succeeds and fails when it is asked for its debug image; `a` is its attempt.
pub open spec fn show_fails<S: Stage>(
    stages: Seq<S>,
    filter: Seq<Seq<char>>,
    frame: S::Image,
    p: Progress<S::Image>,
    before: StateView,
    a: Attempt<S::Image>,
    error: S::Error,
) -> bool {
    let s = stages[p.cursor.stage];
    &&& a.outcome is Success
    &&& s.may_run(
        before,
        working_image(p.images, frame),
        frame,
        p.cursor.iterations[p.cursor.stage] as u32,
        a.after,
        a.dst,
        Ok((a.outcome, a.output)),
    )
    &&& shows_debug_images(filter, s.spec_descriptor())
    &&& s.may_show(
        a.after,
        working_image(with_image(p.images, image_of(a)), frame),
        frame,
        Err(error),
    )
}

/// The stage at `p` fails with `error` when it runs or when it is asked for its debug image; it
/// leaves the state `state`.
pub open spec fn stage_fails<S: Stage>(
    stages: Seq<S>,
    filter: Seq<Seq<char>>,
    frame: S::Image,
    p: Progress<S::Image>,
    before: StateView,
    state: StateView,
    error: S::Error,
) -> bool {
    ||| exists|dst: S::Image| #[trigger] run_fails(stages, frame, p, before, state, dst, error)
    ||| exists|a: Attempt<S::Image>| #[trigger]
        show_fails(stages, filter, frame, p, before, a, error) && a.after == state
}

/// After `attempts`, the stage that was next failed with `error`; the state was then `state`.
pub open spec fn attempt_fails<S: Stage>(
    stages: Seq<S>,
    filter: Seq<Seq<char>>,
    frame: S::Image,
    attempts: Seq<Attempt<S::Image>>,
    state: StateView,
    error: S::Error,
) -> bool {
    &&& position_after(stages, attempts) matches Position::At(p)
    &&& p.cursor.stage < stages.len()
    &&& stage_fails(stages, filter, frame, p, state_after(attempts), state, error)
}

/// How a calibration on `frame` can end, with the state and the debug images it leaves.
pub open spec fn calibration_ends<S: Stage>(
    stages: Seq<S>,
    filter: Seq<Seq<char>>,
    frame: S::Image,
    attempts: Seq<Attempt<S::Image>>,
    result: Result<(), PipelineError<S::Error>>,
    state: StateView,
    images: Seq<DebugImage>,
) -> bool {
    &&& is_history(stages, filter, frame, attempts)
    &&& images == images_shown(attempts)
    &&& match result {
        Ok(_) => {
            &&& position_after(stages, attempts) matches Position::At(p)
            &&& p.cursor.stage == stages.len()
            &&& state == (StateView { validated: true, ..state_after(attempts) })
        },
        Err(PipelineError::Exhausted(text)) => {
            &&& position_after(stages, attempts) matches Position::Stuck(s)
            &&& text@ == stages[s].spec_descriptor().label@ + " exhausted with no fallback"@
            &&& state == state_after(attempts)
        },
        Err(PipelineError::Cv(error)) => attempt_fails(
            stages,
            filter,
            frame,
            attempts,
            state,
            error,
        ),
        Err(PipelineError::Cache(_)) => false,
    }
}

proof fn resolved_fallbacks_make_a_schedule<S: Stage>(stages: Seq<S>)
    requires
        fallbacks_resolve(stages),
    ensures
        is_schedule(limits_of(stages), fallbacks_of(stages)),
{
    assert forall|i: int| 0 <= i < stages.len() implies (#[trigger] fallbacks_of(stages)[i] matches Some(
        t,
    ) ==> t < i) by {
        assert(fallback_problem(stages, i) is None);
    }
}

/// The counters as numbers.
pub open spec fn numbers(v: Seq<u32>) -> Seq<int> {
    v.map_values(|x: u32| x as int)
}

/// Runs the stages of a calibration in order.
///
/// On a retry the same stage runs again with its iteration counter raised. When a stage has no
/// attempts left, the pipeline falls back to the stage that its descriptor names and clears the
/// counter of the stage that it leaves.
pub struct Pipeline<S: Stage, F: Fn(usize, &str, &[u8])> {
    stages: Vec<S>,
    /// The place of each stage's fallback.
    fallback_idx: Vec<Option<usize>>,
    /// Cache version computed from the stage descriptors.
    cache_version: u64,
    pub state: PipelineState,
    pub debug_images: Vec<DebugImage>,
    config: PipelineConfig,
    /// The stages that show debug images.
    debug_filter: Vec<String>,
    /// Called with each debug image: its number, its label and its JPEG bytes.
    on_debug_image: Option<F>,
}

impl<S: Stage, F: Fn(usize, &str, &[u8])> Pipeline<S, F> {
    /// The stages, in order.
    pub closed spec fn stages(&self) -> Seq<S> {
        self.stages@
    }

    /// The entries of the debug filter.
    pub closed spec fn filter(&self) -> Seq<Seq<char>> {
        crate::text::texts(self.debug_filter@)
    }

    /// The settings.
    pub closed spec fn settings(&self) -> PipelineConfig {
        self.config
    }

    /// What is called with each debug image.
    pub closed spec fn callback(&self) -> Option<F> {
        self.on_debug_image
    }

    /// What the stages have found.
    pub closed spec fn found(&self) -> StateView {
        self.state@
    }

    /// The debug images of the last calibration.
    pub closed spec fn shown(&self) -> Seq<DebugImage> {
        self.debug_images@
    }

    /// The fallbacks are those that the stages name, the version is that of the stages, and the
    /// callback takes every debug image.
    pub closed spec fn wf(&self) -> bool {
        &&& self.fallback_idx@ == fallbacks_of(self.stages@)
        &&& fallbacks_resolve(self.stages@)
        &&& self.cache_version == cache::version_of(cache::stage_names(self.stages@))
        &&& self.on_debug_image matches Some(cb) ==> takes_every_image(cb)
    }

    /// Nothing but the state and the debug images differs.
    pub open spec fn same_setup(&self, other: &Self) -> bool {
        &&& self.wf() == other.wf()
        &&& self.stages() == other.stages()
        &&& self.filter() == other.filter()
        &&& self.settings() == other.settings()
        &&& self.callback() == other.callback()
    }

    /// Makes a pipeline. `debug_stages` lists the stages that show debug images, with commas:
    /// an empty list stands for all of them.
    pub fn new(stages: Vec<S>, config: PipelineConfig, debug_stages: &str) -> (r: Self)
        requires
            fallbacks_resolve(stages@),
        ensures
            r.wf(),
            r.stages() == stages@,
            r.settings() == config,
            r.filter() == crate::text::list_entries(crate::text::comma_parts(debug_stages@)),
            r.callback() is None,
            r.found() == empty_state(),
            r.shown().len() == 0,
    {
        let fallback_idx: Vec<Option<usize>> = match resolve_fallbacks(&stages) {
            Ok(v) => v,
            Err(_) => Vec::new(),
        };
        let cache_version: u64 = compute_cache_version(stages.as_slice());
        let debug_filter: Vec<String> = parse_list(debug_stages);
        Pipeline {
            stages,
            fallback_idx,
            cache_version,
            state: PipelineState::default(),
            debug_images: Vec::new(),
            config,
            debug_filter,
            on_debug_image: None,
        }
    }

    /// Sets what is called with each debug image during calibration.
    pub fn set_debug_image_callback(&mut self, cb: F)
        requires
            old(self).wf(),
            takes_every_image(cb),
        ensures
            final(self).wf(),
            final(self).callback() == Some(cb),
            final(self).stages() == old(self).stages(),
            final(self).filter() == old(self).filter(),
            final(self).settings() == old(self).settings(),
            final(self).found() == old(self).found(),
            final(self).shown() == old(self).shown(),
    {
        self.on_debug_image = Some(cb);
    }

    /// The place to fall back to from a stage, or the error that there is none.
    fn resolve_fallback(&self, stage_idx: usize) -> (r: Result<usize, PipelineError<S::Error>>)
        requires
            self.wf(),
            stage_idx < self.stages().len(),
        ensures
            match fallbacks_of(self.stages())[stage_idx as int] {
                Some(t) => r == Ok::<usize, PipelineError<S::Error>>(t) && t < stage_idx,
                None => r matches Err(PipelineError::Exhausted(text)) && text@
                    == self.stages()[stage_idx as int].spec_descriptor().label@
                    + " exhausted with no fallback"@,
            },
    {
        proof {
            resolved_fallbacks_make_a_schedule(self.stages@);
        }
        match self.fallback_idx[stage_idx] {
            Some(prev_idx) => Ok(prev_idx),
            None => {
                let mut s: String = String::from_str(self.stages[stage_idx].descriptor().label);
                s.append(" exhausted with no fallback");
                Err(PipelineError::Exhausted(s))
            },
        }
    }

    /// Falls back to an earlier stage: gives the image stack the depth that it had when that
    /// stage ran, resets the counter of the stage that is left and raises that of the earlier
    /// one. Goes on to the earlier stage's own fallback where that one has no attempts left.
    fn apply_fallback(
        &self,
        stage_idx: &mut usize,
        iterations: &mut Vec<u32>,
        image_stack: &mut Vec<S::Image>,
        entry_depth: &Vec<usize>,
        fallback_target: usize,
    ) -> (r: Result<(), PipelineError<S::Error>>)
        requires
            self.wf(),
            fallback_target < *old(stage_idx) < self.stages().len(),
            old(iterations).len() == self.stages().len(),
            entry_depth.len() == self.stages().len(),
            forall|i: int|
                0 <= i < self.stages().len() && i != *old(stage_idx) ==> #[trigger] old(
                    iterations,
                )@[i] < schedule::attempts(limits_of(self.stages())[i]),
            forall|i: int, j: int|
                0 <= i <= j <= fallback_target ==> #[trigger] entry_depth[i] <= #[trigger] entry_depth[j],
            entry_depth[fallback_target as int] <= old(image_stack).len(),
        ensures
            match fall_back(
                limits_of(self.stages()),
                fallbacks_of(self.stages()),
                numbers(old(iterations)@),
                *old(stage_idx) as int,
                fallback_target as int,
            ) {
                Verdict::At(c) => {
                    &&& r is Ok
                    &&& 0 <= c.stage <= fallback_target
                    &&& *final(stage_idx) == c.stage
                    &&& numbers(final(iterations)@) == c.iterations
                    &&& final(image_stack)@ == old(image_stack)@.take(
                        entry_depth[c.stage] as int,
                    )
                },
                Verdict::Stuck(s) => r matches Err(PipelineError::Exhausted(text)) && text@
                    == self.stages()[s].spec_descriptor().label@ + " exhausted with no fallback"@,
            },
        decreases fallback_target,
    {
        proof {
            resolved_fallbacks_make_a_schedule(self.stages@);
        }
        let ghost limits = limits_of(self.stages@);
        let ghost before = numbers(iterations@);
        let from: usize = *stage_idx;
        iterations.set(from, 0);
        assert(iterations[fallback_target as int] < schedule::attempts(limits[fallback_target as int]));
        let raised: u32 = iterations[fallback_target] + 1;
        iterations.set(fallback_target, raised);
        assert(numbers(iterations@) =~= before.update(from as int, 0).update(
            fallback_target as int,
            before[fallback_target as int] + 1,
        ));
        image_stack.truncate(entry_depth[fallback_target]);
        assert(entry_depth[fallback_target as int] <= entry_depth[fallback_target as int]);
        *stage_idx = fallback_target;
        if raised >= self.stages[fallback_target].max_retries() {
            let next_fallback: usize = match self.resolve_fallback(fallback_target) {
                Ok(t) => t,
                Err(e) => return Err(e),
            };
            let ghost depth = entry_depth[fallback_target as int] as int;
            assert(entry_depth[next_fallback as int] <= entry_depth[fallback_target as int]);
            let ghost stack = image_stack@;
            let r = self.apply_fallback(
                stage_idx,
                iterations,
                image_stack,
                entry_depth,
                next_fallback,
            );
            proof {
                if let Verdict::At(c) = fall_back(
                    limits,
                    fallbacks_of(self.stages@),
                    numbers(old(iterations)@),
                    from as int,
                    fallback_target as int,
                ) {
                    assert(entry_depth[c.stage] <= entry_depth[fallback_target as int]);
                    assert(stack.take(entry_depth[c.stage] as int) =~= old(image_stack)@.take(
                        entry_depth[c.stage] as int,
                    ));
                }
            }
            return r;
        }
        Ok(())
    }

    /// Takes over a cached state, if it can be used for frames of this size. Returns whether it
    /// could; otherwise a calibration is needed and nothing changes.
    pub fn try_load_cache(
        &mut self,
        cached: Result<PipelineCache, CacheError>,
        frame_width: u32,
        frame_height: u32,
    ) -> (r: bool)
        requires
            old(self).wf(),
        ensures
            final(self).same_setup(old(self)),
            final(self).shown() == old(self).shown(),
            match cached {
                Ok(cache) => match cache.usable_state(
                    frame_width,
                    frame_height,
                    cache::version_of(cache::stage_names(old(self).stages())),
                ) {
                    Ok(state) => r && final(self).found() == state@,
                    Err(_) => !r && final(self).found() == old(self).found(),
                },
                Err(_) => !r && final(self).found() == old(self).found(),
            },
    {
        match cached {
            Ok(cache) => match cache.load(frame_width, frame_height, self.cache_version) {
                Ok(state) => {
                    self.state = state;
                    true
                },
                Err(_) => false,
            },
            Err(_) => false,
        }
    }

    /// What to write to the cache after a calibration on a frame of this size.
    pub fn cache_entry(&self, frame_width: u32, frame_height: u32) -> (r: PipelineCache)
        requires
            self.wf(),
        ensures
            r.version == cache::version_of(cache::stage_names(self.stages())),
            r.frame_width == frame_width,
            r.frame_height == frame_height,
            r.state@ == self.found(),
    {
        PipelineCache::new(self.state.clone(), frame_width, frame_height, self.cache_version)
    }

    /// The settings.
    pub fn config(&self) -> (r: &PipelineConfig)
        ensures
            *r == self.settings(),
    {
        &self.config
    }

    /// What the stages have found.
    pub fn state(&self) -> (r: &PipelineState)
        ensures
            r@ == self.found(),
    {
        &self.state
    }

    /// The debug images of the last calibration.
    pub fn debug_images(&self) -> (r: &[DebugImage])
        ensures
            r@ == self.shown(),
    {
        self.debug_images.as_slice()
    }

    /// Whether a stage shows debug images.
    fn should_debug(&self, stage_idx: usize) -> (r: bool)
        requires
            stage_idx < self.stages().len(),
        ensures
            r == shows_debug_images(
                self.filter(),
                self.stages()[stage_idx as int].spec_descriptor(),
            ),
    {
        let ghost filter = self.filter();
        let n: usize = self.debug_filter.len();
        if n == 0 {
            return true;
        }
        let d: StageDescriptor = self.stages[stage_idx].descriptor();
        let mut none: bool = false;
        let mut all: bool = false;
        let mut selected: bool = false;
        let mut i: usize = 0;
        while i < n
            invariant
                n == self.debug_filter.len(),
                i <= n,
                filter == crate::text::texts(self.debug_filter@),
                none == exists|j: int| 0 <= j < i && #[trigger] filter[j] == "none"@,
                all == exists|j: int| 0 <= j < i && #[trigger] filter[j] == "all"@,
                selected == exists|j: int| 0 <= j < i && #[trigger] entry_selects(filter[j], d),
            decreases n - i,
        {
            let entry: &str = self.debug_filter[i].as_str();
            assert(filter[i as int] == entry@);
            if same_text(entry, "none") {
                none = true;
            }
            if same_text(entry, "all") {
                all = true;
            }
            if contains_text(d.label, entry) || same_text_ignoring_case(entry, d.name) {
                assert(entry_selects(filter[i as int], d));
                selected = true;
            }
            i = i + 1;
        }
        if none {
            false
        } else if all {
            true
        } else {
            selected
        }
    }

    /// Runs the full calibration on a single frame.
    ///
    /// Each stage that transforms the image pushes the new one onto a stack, whose top is the
    /// working image. On a fallback the stack gets back the images that the earlier stage saw.
    pub fn calibrate(&mut self, frame: &S::Image) -> (r: Result<(), PipelineError<S::Error>>)
        requires
            old(self).wf(),
        ensures
            final(self).same_setup(old(self)),
            exists|attempts: Seq<Attempt<S::Image>>| #[trigger]
                calibration_ends(
                    old(self).stages(),
                    old(self).filter(),
                    *frame,
                    attempts,
                    r,
                    final(self).found(),
                    final(self).shown(),
                ),
    {
        self.state = PipelineState::default();
        self.debug_images.clear();
        let mut image_stack: Vec<S::Image> = Vec::new();
        let mut dst_buf: S::Image = S::Image::default();
        let n: usize = self.stages.len();
        let mut stage_idx: usize = 0;
        let mut iterations: Vec<u32> = Vec::new();
        let mut entry_depth: Vec<usize> = Vec::new();
        let mut k: usize = 0;
        while k < n
            invariant
                k <= n,
                iterations.len() == k,
                entry_depth.len() == k,
                forall|i: int| 0 <= i < k ==> #[trigger] iterations[i] == 0,
                forall|i: int| 0 <= i < k ==> #[trigger] entry_depth[i] == 0,
            decreases n - k,
        {
            iterations.push(0);
            entry_depth.push(0);
            k = k + 1;
        }
        let ghost setup = *old(self);
        let ghost stages = self.stages@;
        let ghost limits = limits_of(stages);
        let ghost fallbacks = fallbacks_of(stages);
        let ghost filter = self.filter();
        let ghost mut attempts: Seq<Attempt<S::Image>> = Seq::empty();
        let ghost mut p: Progress<S::Image> = begin(stages.len());
        proof {
            resolved_fallbacks_make_a_schedule(stages);
            assert(numbers(iterations@) =~= p.cursor.iterations);
            assert(counters_in_range(limits, p.cursor.iterations));
        }
        while stage_idx < n
            invariant
                setup == *old(self),
                self.same_setup(&setup),
                self.wf(),
                stages == self.stages@,
                stages == setup.stages(),
                filter == setup.filter(),
                limits == limits_of(stages),
                fallbacks == fallbacks_of(stages),
                is_schedule(limits, fallbacks),
                n == stages.len(),
                stage_idx <= n,
                iterations.len() == n,
                entry_depth.len() == n,
                is_history(stages, filter, *frame, attempts),
                position_after(stages, attempts) == Position::At(p),
                p.cursor.stage == stage_idx,
                p.cursor.iterations == numbers(iterations@),
                p.images == image_stack@,
                is_cursor(limits, p.cursor),
                stacks_nest(p),
                forall|i: int| 0 <= i < stage_idx ==> #[trigger] entry_depth[i] == p.seen[i].len(),
                self.state@ == state_after(attempts),
                self.debug_images@ == images_shown(attempts),
            decreases attempts_left(limits, p.cursor),
        {
            let iter: u32 = iterations[stage_idx];
            entry_depth.set(stage_idx, image_stack.len());
            let src: &S::Image = if image_stack.len() == 0 {
                frame
            } else {
                &image_stack[image_stack.len() - 1]
            };
            assert(*src == working_image(p.images, *frame));
            assert(p.cursor.iterations[stage_idx as int] as u32 == iter);
            let result = self.stages[stage_idx].run(&mut self.state, src, &mut dst_buf, frame, iter);
            let (outcome, img_out) = match result {
                Ok(pair) => pair,
                Err(e) => {
                    assert(run_fails(
                        stages,
                        *frame,
                        p,
                        state_after(attempts),
                        self.state@,
                        dst_buf,
                        e,
                    ));
                    assert(stage_fails(stages, filter, *frame, p, state_after(attempts), self.state@, e));
                    assert(calibration_ends(
                        stages,
                        filter,
                        *frame,
                        attempts,
                        Err(PipelineError::Cv(e)),
                        self.found(),
                        self.shown(),
                    ));
                    return Err(PipelineError::Cv(e));
                },
            };
            let ghost dst = dst_buf;
            let ghost before = attempts;
            let ghost seen = p.seen.update(p.cursor.stage, p.images);
            proof {
                attempts_left_is_not_negative(limits, p.cursor);
                every_report_uses_an_attempt(limits, fallbacks, p.cursor, report_of(outcome));
                assert(p.images.take(p.images.len() as int) =~= p.images);
                assert forall|i: int| 0 <= i <= stage_idx implies #[trigger] entry_depth[i]
                    == seen[i].len() by {}
                assert forall|i: int| 0 <= i <= stage_idx implies p.images.take(
                    #[trigger] entry_depth[i] as int,
                ) == seen[i] && entry_depth[i] <= p.images.len() by {
                    if i < stage_idx {
                        assert(is_beginning_of(p.seen[i], p.images));
                    }
                }
                assert forall|i: int| 0 <= i < n implies #[trigger] iterations@[i]
                    < schedule::attempts(limits[i]) by {
                    assert(p.cursor.iterations[i] == iterations@[i]);
                }
                assert forall|i: int, j: int| 0 <= i <= j < stage_idx implies #[trigger] entry_depth[i]
                    <= #[trigger] entry_depth[j] by {
                    assert(is_beginning_of(p.seen[i], p.seen[j]));
                }
            }
            match outcome {
                StageOutcome::Success => {
                    if let ImageOutput::Transformed = img_out {
                        let mut taken: S::Image = S::Image::default();
                        core::mem::swap(&mut taken, &mut dst_buf);
                        image_stack.push(taken);
                    }
                    let ghost pushed: Option<S::Image> = if img_out is Transformed {
                        Some(dst)
                    } else {
                        None
                    };
                    assert(image_stack@ == with_image(p.images, pushed));
                    let ghost mut shown: Option<DebugImage> = None;
                    if self.should_debug(stage_idx) {
                        let working: &S::Image = if image_stack.len() == 0 {
                            frame
                        } else {
                            &image_stack[image_stack.len() - 1]
                        };
                        let drawn = self.stages[stage_idx].debug_image(&self.state, working, frame);
                        match drawn {
                            Ok(Some(img)) => {
                                let idx: usize = self.debug_images.len();
                                if let Some(cb) = &self.on_debug_image {
                                    cb(idx, img.0.as_str(), img.1.as_slice());
                                }
                                proof {
                                    shown = Some(img);
                                }
                                self.debug_images.push(img);
                            },
                            Ok(None) => {},
                            Err(e) => {
                                proof {
                                    let a = Attempt {
                                        after: self.state@,
                                        dst,
                                        outcome: StageOutcome::Success,
                                        output: img_out,
                                        shown: None,
                                    };
                                    assert(show_fails(
                                        stages,
                                        filter,
                                        *frame,
                                        p,
                                        state_after(attempts),
                                        a,
                                        e,
                                    ));
                                }
                                assert(stage_fails(stages, filter, *frame, p, state_after(attempts), self.state@, e));
                                assert(calibration_ends(
                                    stages,
                                    filter,
                                    *frame,
                                    attempts,
                                    Err(PipelineError::Cv(e)),
                                    self.found(),
                                    self.shown(),
                                ));
                                return Err(PipelineError::Cv(e));
                            },
                        }
                    }
                    stage_idx = stage_idx + 1;
                    proof {
                        let a = Attempt {
                            after: self.state@,
                            dst,
                            outcome: StageOutcome::Success,
                            output: img_out,
                            shown,
                        };
                        attempts = attempts.push(a);
                        assert(attempts.drop_last() =~= before);
                        advancing_keeps_stacks_nested(limits, fallbacks, p, Report::Success, pushed);
                        p = Progress {
                            cursor: Cursor { stage: p.cursor.stage + 1, ..p.cursor },
                            images: with_image(p.images, pushed),
                            seen,
                        };
                    }
                },
                StageOutcome::Retry(reason) => {
                    let raised: u32 = iter + 1;
                    let ghost raised_all = p.cursor.iterations.update(
                        stage_idx as int,
                        iter + 1,
                    );
                    iterations.set(stage_idx, raised);
                    assert(numbers(iterations@) =~= raised_all);
                    proof {
                        let a = Attempt {
                            after: self.state@,
                            dst,
                            outcome: StageOutcome::Retry(reason),
                            output: img_out,
                            shown: None,
                        };
                        attempts = attempts.push(a);
                        assert(attempts.drop_last() =~= before);
                        advancing_keeps_stacks_nested(limits, fallbacks, p, Report::Retry, image_of(a));
                    }
                    if raised >= self.stages[stage_idx].max_retries() {
                        let target: usize = match self.resolve_fallback(stage_idx) {
                            Ok(t) => t,
                            Err(e) => {
                                assert(calibration_ends(
                                    stages,
                                    filter,
                                    *frame,
                                    attempts,
                                    Err(e),
                                    self.found(),
                                    self.shown(),
                                ));
                                return Err(e);
                            },
                        };
                        let fallen = self.apply_fallback(
                            &mut stage_idx,
                            &mut iterations,
                            &mut image_stack,
                            &entry_depth,
                            target,
                        );
                        if let Err(e) = fallen {
                            assert(calibration_ends(
                                stages,
                                filter,
                                *frame,
                                attempts,
                                Err(e),
                                self.found(),
                                self.shown(),
                            ));
                            return Err(e);
                        }
                    }
                    proof {
                        p = Progress {
                            cursor: Cursor {
                                stage: stage_idx as int,
                                iterations: numbers(iterations@),
                            },
                            images: image_stack@,
                            seen,
                        };
                    }
                },
                StageOutcome::Exhausted(reason) => {
                    proof {
                        let a = Attempt {
                            after: self.state@,
                            dst,
                            outcome: StageOutcome::Exhausted(reason),
                            output: img_out,
                            shown: None,
                        };
                        attempts = attempts.push(a);
                        assert(attempts.drop_last() =~= before);
                        advancing_keeps_stacks_nested(
                            limits,
                            fallbacks,
                            p,
                            Report::Exhausted,
                            image_of(a),
                        );
                    }
                    let target: usize = match self.resolve_fallback(stage_idx) {
                        Ok(t) => t,
                        Err(e) => {
                            assert(calibration_ends(
                                stages,
                                filter,
                                *frame,
                                attempts,
                                Err(e),
                                self.found(),
                                self.shown(),
                            ));
                            return Err(e);
                        },
                    };
                    let fallen = self.apply_fallback(
                        &mut stage_idx,
                        &mut iterations,
                        &mut image_stack,
                        &entry_depth,
                        target,
                    );
                    if let Err(e) = fallen {
                        assert(calibration_ends(
                            stages,
                            filter,
                            *frame,
                            attempts,
                            Err(e),
                            self.found(),
                            self.shown(),
                        ));
                        return Err(e);
                    }
                    proof {
                        p = Progress {
                            cursor: Cursor {
                                stage: stage_idx as int,
                                iterations: numbers(iterations@),
                            },
                            images: image_stack@,
                            seen,
                        };
                    }
                },
            }
            proof {
                attempts_left_is_not_negative(limits, p.cursor);
            }
        }
        self.state.validated = true;
        assert(calibration_ends(
            stages,
            filter,
            *frame,
            attempts,
            Ok(()),
            self.found(),
            self.shown(),
        ));
        Ok(())
    }
}

/// `cb` takes every debug image.
pub open spec fn takes_every_image<F: Fn(usize, &str, &[u8])>(cb: F) -> bool {
    forall|n: usize, label: &str, jpeg: &[u8]| call_requires(cb, (n, label, jpeg))
}

/// What the stages reported in some attempts.
pub open spec fn reports_of<I>(attempts: Seq<Attempt<I>>) -> Seq<Report> {
    attempts.map_values(|a: Attempt<I>| report_of(a.outcome))
}

proof fn histories_are_replays<S: Stage>(
    stages: Seq<S>,
    filter: Seq<Seq<char>>,
    frame: S::Image,
    attempts: Seq<Attempt<S::Image>>,
)
    requires
        is_history(stages, filter, frame, attempts),
    ensures
        schedule::replay(limits_of(stages), fallbacks_of(stages), reports_of(attempts)) == (
        match position_after(stages, attempts) {
            Position::At(p) => Verdict::At(p.cursor),
            Position::Stuck(s) => Verdict::Stuck(s),
        }),
    decreases attempts.len(),
{
    if attempts.len() > 0 {
        histories_are_replays(stages, filter, frame, attempts.drop_last());
        assert(reports_of(attempts).drop_last() =~= reports_of(attempts.drop_last()));
    }
}

/// A calibration ends, whatever the stages report: it makes no more attempts than there are
/// counter settings times the stages.
pub proof fn calibrations_are_bounded<S: Stage>(
    stages: Seq<S>,
    filter: Seq<Seq<char>>,
    frame: S::Image,
    attempts: Seq<Attempt<S::Image>>,
)
    requires
        fallbacks_resolve(stages),
        is_history(stages, filter, frame, attempts),
    ensures
        attempts.len() <= schedule::settings(limits_of(stages), 0) * stages.len(),
{
    let limits = limits_of(stages);
    resolved_fallbacks_make_a_schedule(stages);
    if attempts.len() > 0 {
        let before = attempts.drop_last();
        histories_are_replays(stages, filter, frame, before);
        schedule::runs_are_bounded(limits, fallbacks_of(stages), reports_of(before));
    } else {
        assert(counters_in_range(limits, schedule::start(limits.len()).iterations));
        schedule::settings_are_positive(limits);
        assert(schedule::settings(limits, 0) * stages.len() >= 0) by (nonlinear_arith)
            requires
                schedule::settings(limits, 0) >= 1,
        ;
    }
}

/// The place of the last attempt of a stage.
pub open spec fn last_attempt<S: Stage>(
    stages: Seq<S>,
    attempts: Seq<Attempt<S::Image>>,
    stage: int,
) -> Option<int>
    decreases attempts.len(),
{
    if attempts.len() == 0 {
        None
    } else if next_stage(stages, attempts.drop_last()) == stage {
        Some(attempts.len() - 1)
    } else {
        last_attempt(stages, attempts.drop_last(), stage)
    }
}

/// The place of the attempt whose image the stages before `upto` leave: the last attempt of the
/// latest of them whose last attempt succeeded and transformed the image.
pub open spec fn image_source<S: Stage>(
    stages: Seq<S>,
    attempts: Seq<Attempt<S::Image>>,
    upto: int,
) -> Option<int>
    decreases upto,
{
    if upto <= 0 {
        None
    } else {
        match last_attempt(stages, attempts, upto - 1) {
            Some(k) if attempts[k].outcome is Success && attempts[k].output is Transformed => Some(
                k,
            ),
            _ => image_source(stages, attempts, upto - 1),
        }
    }
}

/// The image that the stages before `upto` leave: the frame where none has transformed it.
pub open spec fn image_left<S: Stage>(
    stages: Seq<S>,
    frame: S::Image,
    attempts: Seq<Attempt<S::Image>>,
    upto: int,
) -> S::Image {
    match image_source(stages, attempts, upto) {
        Some(k) => attempts[k].dst,
        None => frame,
    }
}

/// The image that the next stage is given is the one that the last attempts of the stages before
/// it left: that of the latest of them which succeeded and transformed it, or the frame.
pub proof fn the_next_stage_is_given_the_image_that_is_left<S: Stage>(
    stages: Seq<S>,
    filter: Seq<Seq<char>>,
    frame: S::Image,
    attempts: Seq<Attempt<S::Image>>,
)
    requires
        fallbacks_resolve(stages),
        is_history(stages, filter, frame, attempts),
        position_after(stages, attempts) is At,
    ensures
        working_image(position_after(stages, attempts)->At_0.images, frame) == image_left(
            stages,
            frame,
            attempts,
            next_stage(stages, attempts),
        ),
{
    stacks_hold_what_is_left(stages, filter, frame, attempts);
    stack_tops_are_left(stages, frame, attempts, next_stage(stages, attempts));
}

/// Every attempt is made on the image that the last attempts of the stages before it left: that
/// of the latest of them which succeeded and transformed it, or the frame. Beside it the stage is
/// given the frame itself.
pub proof fn attempts_are_given_the_image_that_is_left<S: Stage>(
    stages: Seq<S>,
    filter: Seq<Seq<char>>,
    frame: S::Image,
    attempts: Seq<Attempt<S::Image>>,
    k: int,
)
    requires
        fallbacks_resolve(stages),
        is_history(stages, filter, frame, attempts),
        0 <= k < attempts.len(),
    ensures
        ({
            let before = attempts.take(k);
            let stage = next_stage(stages, before);
            &&& position_after(stages, before) matches Position::At(p)
            &&& 0 <= stage < stages.len()
            &&& stages[stage].may_run(
                state_after(before),
                image_left(stages, frame, before, stage),
                frame,
                p.cursor.iterations[stage] as u32,
                attempts[k].after,
                attempts[k].dst,
                Ok((attempts[k].outcome, attempts[k].output)),
            )
        }),
{
    beginnings_are_histories(stages, filter, frame, attempts, k + 1);
    let all = attempts.take(k + 1);
    assert(all.drop_last() =~= attempts.take(k));
    stacks_hold_what_is_left(stages, filter, frame, attempts.take(k));
    the_next_stage_is_given_the_image_that_is_left(stages, filter, frame, attempts.take(k));
}

/// When a run comes to a stage, whether it falls back to it or not, no image that this stage or a
/// later one has produced until then is given to any stage from then on.
pub proof fn images_of_given_up_stages_are_not_seen_again<S: Stage>(
    stages: Seq<S>,
    filter: Seq<Seq<char>>,
    frame: S::Image,
    attempts: Seq<Attempt<S::Image>>,
    since: int,
    k: int,
)
    requires
        fallbacks_resolve(stages),
        is_history(stages, filter, frame, attempts),
        0 <= since <= k <= attempts.len(),
        position_after(stages, attempts.take(k)) is At,
    ensures
        ({
            let before = attempts.take(k);
            image_source(stages, before, next_stage(stages, before)) matches Some(j) ==> {
                &&& 0 <= j < k
                &&& j >= since || next_stage(stages, attempts.take(j)) < next_stage(
                    stages,
                    attempts.take(since),
                )
            }
        }),
{
    let upto = next_stage(stages, attempts.take(k));
    later_stages_have_run_since(stages, filter, frame, attempts, since, k);
    if image_source(stages, attempts.take(k), upto) is Some {
        sources_are_last_attempts(stages, attempts.take(k), upto);
        let j = image_source(stages, attempts.take(k), upto)->0;
        assert(attempts.take(k).take(j) =~= attempts.take(j));
    }
}

proof fn sources_are_last_attempts<S: Stage>(
    stages: Seq<S>,
    attempts: Seq<Attempt<S::Image>>,
    upto: int,
)
    requires
        image_source(stages, attempts, upto) is Some,
    ensures
        ({
            let j = image_source(stages, attempts, upto)->0;
            let stage = next_stage(stages, attempts.take(j));
            &&& 0 <= j < attempts.len()
            &&& 0 <= stage < upto
            &&& last_attempt(stages, attempts, stage) == Some(j)
        }),
    decreases upto,
{
    match last_attempt(stages, attempts, upto - 1) {
        Some(k) if attempts[k].outcome is Success && attempts[k].output is Transformed => {
            last_attempts_are_of_their_stage(stages, attempts, upto - 1);
        },
        _ => {
            sources_are_last_attempts(stages, attempts, upto - 1);
        },
    }
}

proof fn last_attempts_are_of_their_stage<S: Stage>(
    stages: Seq<S>,
    attempts: Seq<Attempt<S::Image>>,
    stage: int,
)
    requires
        last_attempt(stages, attempts, stage) is Some,
    ensures
        ({
            let k = last_attempt(stages, attempts, stage)->0;
            0 <= k < attempts.len() && next_stage(stages, attempts.take(k)) == stage
        }),
    decreases attempts.len(),
{
    let before = attempts.drop_last();
    if next_stage(stages, before) == stage {
        assert(attempts.take(attempts.len() - 1) =~= before);
    } else {
        last_attempts_are_of_their_stage(stages, before, stage);
        let k = last_attempt(stages, before, stage)->0;
        assert(attempts.take(k) =~= before.take(k));
    }
}

proof fn later_stages_have_run_since<S: Stage>(
    stages: Seq<S>,
    filter: Seq<Seq<char>>,
    frame: S::Image,
    attempts: Seq<Attempt<S::Image>>,
    since: int,
    k: int,
)
    requires
        fallbacks_resolve(stages),
        is_history(stages, filter, frame, attempts),
        0 <= since <= k <= attempts.len(),
        position_after(stages, attempts.take(k)) is At,
    ensures
        forall|i: int|
            next_stage(stages, attempts.take(since)) <= i < next_stage(stages, attempts.take(k)) ==> (
            #[trigger] last_attempt(stages, attempts.take(k), i) matches Some(j) && j >= since),
    decreases k,
{
    if since < k {
        let now = attempts.take(k);
        let before = attempts.take(k - 1);
        assert(now.drop_last() =~= before);
        beginnings_are_histories(stages, filter, frame, attempts, k);
        later_stages_have_run_since(stages, filter, frame, attempts, since, k - 1);
        resolved_fallbacks_make_a_schedule(stages);
        histories_are_replays(stages, filter, frame, before);
        schedule::runs_stay_in_range(limits_of(stages), fallbacks_of(stages), reports_of(before));
        let p = position_after(stages, before)->At_0;
        every_report_uses_an_attempt(
            limits_of(stages),
            fallbacks_of(stages),
            p.cursor,
            report_of(now.last().outcome),
        );
        assert forall|i: int|
            next_stage(stages, attempts.take(since)) <= i < next_stage(stages, now) implies (
        #[trigger] last_attempt(stages, now, i) matches Some(j) && j >= since) by {
            if i != next_stage(stages, before) {
                assert(last_attempt(stages, before, i) is Some);
            }
        }
    }
}

proof fn beginnings_are_histories<S: Stage>(
    stages: Seq<S>,
    filter: Seq<Seq<char>>,
    frame: S::Image,
    attempts: Seq<Attempt<S::Image>>,
    k: int,
)
    requires
        is_history(stages, filter, frame, attempts),
        0 <= k <= attempts.len(),
    ensures
        is_history(stages, filter, frame, attempts.take(k)),
    decreases attempts.len(),
{
    if k == attempts.len() {
        assert(attempts.take(k) =~= attempts);
    } else {
        beginnings_are_histories(stages, filter, frame, attempts.drop_last(), k);
        assert(attempts.drop_last().take(k) =~= attempts.take(k));
    }
}

/// The stack that the stages before `upto` leave.
spec fn stack_left<S: Stage>(
    stages: Seq<S>,
    attempts: Seq<Attempt<S::Image>>,
    upto: int,
) -> Seq<S::Image>
    decreases upto,
{
    if upto <= 0 {
        Seq::empty()
    } else {
        let below = stack_left(stages, attempts, upto - 1);
        match last_attempt(stages, attempts, upto - 1) {
            Some(k) if attempts[k].outcome is Success => with_image(below, image_of(attempts[k])),
            _ => below,
        }
    }
}

proof fn stack_tops_are_left<S: Stage>(
    stages: Seq<S>,
    frame: S::Image,
    attempts: Seq<Attempt<S::Image>>,
    upto: int,
)
    ensures
        working_image(stack_left(stages, attempts, upto), frame) == image_left(
            stages,
            frame,
            attempts,
            upto,
        ),
    decreases upto,
{
    if upto > 0 {
        stack_tops_are_left(stages, frame, attempts, upto - 1);
    }
}

proof fn earlier_stacks_stay<S: Stage>(
    stages: Seq<S>,
    attempts: Seq<Attempt<S::Image>>,
    upto: int,
)
    requires
        attempts.len() > 0,
        upto <= next_stage(stages, attempts.drop_last()),
    ensures
        stack_left(stages, attempts, upto) == stack_left(stages, attempts.drop_last(), upto),
    decreases upto,
{
    if upto > 0 {
        let before = attempts.drop_last();
        earlier_stacks_stay(stages, attempts, upto - 1);
        if last_attempt(stages, before, upto - 1) is Some {
            last_attempts_are_of_their_stage(stages, before, upto - 1);
        }
    }
}

proof fn stacks_hold_what_is_left<S: Stage>(
    stages: Seq<S>,
    filter: Seq<Seq<char>>,
    frame: S::Image,
    attempts: Seq<Attempt<S::Image>>,
)
    requires
        fallbacks_resolve(stages),
        is_history(stages, filter, frame, attempts),
    ensures
        position_after(stages, attempts) matches Position::At(p) ==> {
            &&& p.seen.len() == stages.len()
            &&& 0 <= p.cursor.stage <= stages.len()
            &&& p.images == stack_left(stages, attempts, p.cursor.stage)
            &&& forall|i: int|
                0 <= i < p.cursor.stage ==> #[trigger] p.seen[i] == stack_left(stages, attempts, i)
        },
    decreases attempts.len(),
{
    if attempts.len() > 0 {
        let before = attempts.drop_last();
        let limits = limits_of(stages);
        resolved_fallbacks_make_a_schedule(stages);
        histories_are_replays(stages, filter, frame, before);
        schedule::runs_stay_in_range(limits, fallbacks_of(stages), reports_of(before));
        stacks_hold_what_is_left(stages, filter, frame, before);
        let p = position_after(stages, before)->At_0;
        let report = report_of(attempts.last().outcome);
        every_report_uses_an_attempt(limits, fallbacks_of(stages), p.cursor, report);
        assert forall|i: int| 0 <= i <= p.cursor.stage implies p.seen.update(
            p.cursor.stage,
            p.images,
        )[i] == #[trigger] stack_left(stages, attempts, i) by {
            earlier_stacks_stay(stages, attempts, i);
        }
        earlier_stacks_stay(stages, attempts, p.cursor.stage);
        if let Position::At(q) = position_after(stages, attempts) {
            assert(q.seen =~= p.seen.update(p.cursor.stage, p.images));
            if report is Success {
                assert(last_attempt(stages, attempts, p.cursor.stage) == Some(attempts.len() - 1));
            }
        }
    }
}

/// The stage that runs after some attempts.
pub open spec fn next_stage<S: Stage>(stages: Seq<S>, attempts: Seq<Attempt<S::Image>>) -> int {
    match position_after(stages, attempts) {
        Position::At(p) => p.cursor.stage,
        Position::Stuck(_) => -1,
    }
}

/// A stage that is run again after a retry or a fallback is given the images that it saw when
/// it last ran, whatever the stages after it have pushed.
pub proof fn fallbacks_restore_the_images<S: Stage>(
    stages: Seq<S>,
    filter: Seq<Seq<char>>,
    frame: S::Image,
    attempts: Seq<Attempt<S::Image>>,
    last_run: int,
)
    requires
        fallbacks_resolve(stages),
        is_history(stages, filter, frame, attempts),
        0 <= last_run < attempts.len(),
        position_after(stages, attempts) is At,
        next_stage(stages, attempts.take(last_run)) == next_stage(stages, attempts),
        forall|i: int|
            last_run < i < attempts.len() ==> #[trigger] next_stage(stages, attempts.take(i))
                != next_stage(stages, attempts),
        !(attempts.last().outcome is Success),
    ensures
        position_after(stages, attempts)->At_0.images == position_after(
            stages,
            attempts.take(last_run),
        )->At_0.images,
{
    stacks_seen_last(stages, filter, frame, attempts, last_run, next_stage(stages, attempts));
}

proof fn stacks_seen_last<S: Stage>(
    stages: Seq<S>,
    filter: Seq<Seq<char>>,
    frame: S::Image,
    attempts: Seq<Attempt<S::Image>>,
    last_run: int,
    stage: int,
)
    requires
        fallbacks_resolve(stages),
        is_history(stages, filter, frame, attempts),
        0 <= last_run < attempts.len(),
        position_after(stages, attempts) is At,
        next_stage(stages, attempts.take(last_run)) == stage,
        forall|i: int|
            last_run < i < attempts.len() ==> #[trigger] next_stage(stages, attempts.take(i)) != stage,
    ensures
        position_after(stages, attempts.take(last_run)) is At,
        0 <= stage < stages.len(),
        position_after(stages, attempts)->At_0.seen[stage] == position_after(
            stages,
            attempts.take(last_run),
        )->At_0.images,
        position_after(stages, attempts)->At_0.seen.len() == stages.len(),
    decreases attempts.len(),
{
    let before = attempts.drop_last();
    let p = position_after(stages, before)->At_0;
    resolved_fallbacks_make_a_schedule(stages);
    histories_are_replays(stages, filter, frame, before);
    schedule::runs_stay_in_range(limits_of(stages), fallbacks_of(stages), reports_of(before));
    stacks_have_one_entry_per_stage(stages, filter, frame, before);
    if last_run == attempts.len() - 1 {
        assert(attempts.take(last_run) =~= before);
    } else {
        assert(before.take(last_run) =~= attempts.take(last_run));
        assert(attempts.take(attempts.len() - 1) =~= before);
        assert forall|i: int| last_run < i < before.len() implies #[trigger] next_stage(
            stages,
            before.take(i),
        ) != stage by {
            assert(before.take(i) =~= attempts.take(i));
        }
        stacks_seen_last(stages, filter, frame, before, last_run, stage);
        assert(next_stage(stages, attempts.take(attempts.len() - 1)) != stage);
    }
}

proof fn stacks_have_one_entry_per_stage<S: Stage>(
    stages: Seq<S>,
    filter: Seq<Seq<char>>,
    frame: S::Image,
    attempts: Seq<Attempt<S::Image>>,
)
    requires
        fallbacks_resolve(stages),
        is_history(stages, filter, frame, attempts),
    ensures
        position_after(stages, attempts) matches Position::At(p) ==> p.seen.len() == stages.len(),
    decreases attempts.len(),
{
    if attempts.len() > 0 {
        let before = attempts.drop_last();
        resolved_fallbacks_make_a_schedule(stages);
        histories_are_replays(stages, filter, frame, before);
        schedule::runs_stay_in_range(limits_of(stages), fallbacks_of(stages), reports_of(before));
        stacks_have_one_entry_per_stage(stages, filter, frame, before);
    }
}

impl PipelineError<String> {
    /// The message for this error.
    pub open spec fn spec_text(&self) -> Seq<char> {
        match *self {
            PipelineError::Cv(reason) => "opencv error: "@ + reason@,
            PipelineError::Exhausted(reason) => "pipeline exhausted: "@ + reason@,
            PipelineError::Cache(reason) => "cache error: "@ + reason@,
        }
    }

    /// The message for this error.
    pub fn text(&self) -> (r: String)
        ensures
            r@ == self.spec_text(),
    {
        match self {
            PipelineError::Cv(reason) => {
                let mut s: String = String::from_str("opencv error: ");
                s.append(reason.as_str());
                s
            },
            PipelineError::Exhausted(reason) => {
                let mut s: String = String::from_str("pipeline exhausted: ");
                s.append(reason.as_str());
                s
            },
            PipelineError::Cache(reason) => {
                let mut s: String = String::from_str("cache error: ");
                s.append(reason.as_str());
                s
            },
        }
    }
}

/// What to do next when calibrating on fresh frames.
#[derive(Debug, PartialEq, Eq)]
pub enum FrameStep<E> {
    /// Calibrate on a fresh frame.
    Calibrate,
    /// Calibration is over.
    Finished(Result<(), PipelineError<E>>),
}

/// Counts the frames that calibration has been tried on.
#[derive(Debug, PartialEq, Eq)]
pub struct FrameAttempts {
    pub attempt: u32,
    pub max_attempts: u32,
}

impl FrameAttempts {
    /// The frames are used up.
    pub open spec fn is_exhausted_error<E>(&self, r: FrameStep<E>) -> bool {
        r matches FrameStep::Finished(Err(PipelineError::Exhausted(text))) && text@ == "all "@
            + crate::text::decimal(self.max_attempts as int) + " frame attempts exhausted"@
    }

    fn exhausted<E>(&self) -> (r: FrameStep<E>)
        ensures
            self.is_exhausted_error(r),
    {
        let mut s: String = String::from_str("all ");
        push_number(&mut s, self.max_attempts as u128);
        s.append(" frame attempts exhausted");
        FrameStep::Finished(Err(PipelineError::Exhausted(s)))
    }

    /// Starts to calibrate on at most `max_attempts` frames, the first of which is there.
    pub fn begin<E>(max_attempts: u32) -> (r: (Self, FrameStep<E>))
        ensures
            r.0 == (FrameAttempts { attempt: 0, max_attempts }),
            if max_attempts == 0 {
                r.0.is_exhausted_error(r.1)
            } else {
                r.1 == FrameStep::<E>::Calibrate
            },
    {
        let frames = FrameAttempts { attempt: 0, max_attempts };
        if max_attempts == 0 {
            let step: FrameStep<E> = frames.exhausted();
            (frames, step)
        } else {
            (frames, FrameStep::Calibrate)
        }
    }

    /// Goes on after a calibration: a frame whose whole budget is exhausted is given up for a
    /// fresh one, as long as there may be more; any other result stands. Only then is a fresh
    /// frame asked for.
    pub fn after<E>(&mut self, result: Result<(), PipelineError<E>>) -> (r: FrameStep<E>)
        requires
            old(self).attempt < old(self).max_attempts,
        ensures
            final(self).max_attempts == old(self).max_attempts,
            if (result matches Err(PipelineError::Exhausted(_))) {
                if old(self).attempt + 1 < old(self).max_attempts {
                    final(self).attempt == old(self).attempt + 1 && r == FrameStep::<E>::Calibrate
                } else {
                    final(self).attempt == old(self).attempt && old(self).is_exhausted_error(r)
                }
            } else {
                final(self).attempt == old(self).attempt && r == FrameStep::Finished(result)
            },
    {
        match result {
            Ok(done) => FrameStep::Finished(Ok(done)),
            Err(PipelineError::Exhausted(_)) => {
                if self.attempt + 1 < self.max_attempts {
                    self.attempt = self.attempt + 1;
                    FrameStep::Calibrate
                } else {
                    self.exhausted()
                }
            },
            Err(other) => FrameStep::Finished(Err(other)),
        }
    }
}

/// How to bring a frame into the coordinate space of the found features: the part of the frame
/// to cut out, and the transform and the size of the result.
#[derive(Debug, Clone, Copy, PartialEq, Eq)]
pub struct WarpPlan {
    pub crop: stage::CropRegion,
    pub perspective: stage::PerspectiveCorrection,
}

/// How to apply the found crop and perspective transform to a frame. Refuses where the pipeline
/// has not found them.
pub fn warp_frame(state: &PipelineState) -> (r: Result<WarpPlan, String>)
    ensures
        match (state@.crop, state@.perspective) {
            (None, _) => r matches Err(text) && text@ == "pipeline state has no crop"@,
            (Some(_), None) => r matches Err(text) && text@ == "pipeline state has no perspective"@,
            (Some(crop), Some(perspective)) => r == Ok::<WarpPlan, String>(
                WarpPlan { crop, perspective },
            ),
        },
{
    match state.crop {
        None => Err(String::from_str("pipeline state has no crop")),
        Some(crop) => match state.perspective {
            None => Err(String::from_str("pipeline state has no perspective")),
            Some(perspective) => Ok(WarpPlan { crop, perspective }),
        },
    }
}


/// Of several stages with a name the last one is meant, and there is none exactly if no stage has it.
pub proof fn the_last_stage_with_a_name_is_meant(names: Seq<Seq<char>>, name: Seq<char>)
    requires
        names.len() <= usize::MAX,
    ensures
        match last_named(names, name) {
            Some(at) => {
                &&& at < names.len() && names[at as int] == name
                &&& forall|i: int| at < i < names.len() ==> #[trigger] names[i] != name
            },
            None => forall|i: int| 0 <= i < names.len() ==> #[trigger] names[i] != name,
        },
    decreases names.len(),
{
    if names.len() > 0 && names.last() != name {
        let rest = names.drop_last();
        the_last_stage_with_a_name_is_meant(rest, name);
        assert(names[names.len() - 1] == names.last());
        match last_named(rest, name) {
            Some(at) => {
                assert(names[at as int] == rest[at as int]);
                assert forall|i: int| at < i < names.len() implies #[trigger] names[i] != name by {
                    if i < rest.len() {
                        assert(rest[i] == names[i]);
                    }
                }
            },
            None => {
                assert forall|i: int| 0 <= i < names.len() implies #[trigger] names[i] != name by {
                    if i < rest.len() {
                        assert(rest[i] == names[i]);
                    }
                }
            },
        }
    }
}

/// Without a selection all stages show images. A selection of none shows none, whatever else it
/// holds; one of all shows all; any other shows the stages whose label holds an entry or whose name
/// is one, in upper or lower case.
pub proof fn selections_show_stages(filter: Seq<Seq<char>>, d: StageDescriptor)
    ensures
        filter.len() == 0 ==> shows_debug_images(filter, d),
        filter.contains("none"@) ==> !shows_debug_images(filter, d),
        filter.contains("all"@) && !filter.contains("none"@) ==> shows_debug_images(filter, d),
        filter.len() > 0 && !filter.contains("all"@) && !filter.contains("none"@) ==> (
        shows_debug_images(filter, d) <==> exists|i: int|
            0 <= i < filter.len() && (crate::text::occurs_in(#[trigger] filter[i], d.label@) || (
            filter[i].len() == d.name@.len() && forall|j: int|
                0 <= j < d.name@.len() ==> crate::text::ascii_fold(filter[i][j])
                    == crate::text::ascii_fold(#[trigger] d.name@[j])))),
{
    assert forall|i: int| 0 <= i < filter.len() implies (#[trigger] entry_selects(filter[i], d) <==> (
    crate::text::occurs_in(filter[i], d.label@) || (filter[i].len() == d.name@.len() && forall|j: int|
        0 <= j < d.name@.len() ==> crate::text::ascii_fold(filter[i][j]) == crate::text::ascii_fold(
            #[trigger] d.name@[j],
        )))) by {
        name_entries_match(filter[i], d.name@);
    }
    if filter.len() > 0 && !filter.contains("all"@) && !filter.contains("none"@) {
        if exists|i: int|
            0 <= i < filter.len() && (crate::text::occurs_in(#[trigger] filter[i], d.label@) || (
            filter[i].len() == d.name@.len() && forall|j: int|
                0 <= j < d.name@.len() ==> crate::text::ascii_fold(filter[i][j])
                    == crate::text::ascii_fold(#[trigger] d.name@[j]))) {
            let i = choose|i: int|
                0 <= i < filter.len() && (crate::text::occurs_in(#[trigger] filter[i], d.label@) || (
                filter[i].len() == d.name@.len() && forall|j: int|
                    0 <= j < d.name@.len() ==> crate::text::ascii_fold(filter[i][j])
                        == crate::text::ascii_fold(#[trigger] d.name@[j])));
            assert(entry_selects(filter[i], d));
        }
    }
}

proof fn name_entries_match(entry: Seq<char>, name: Seq<char>)
    ensures
        crate::text::same_ignoring_ascii_case(entry, name) <==> (entry.len() == name.len() && forall|
            j: int,
        |
            0 <= j < name.len() ==> crate::text::ascii_fold(entry[j]) == crate::text::ascii_fold(
                #[trigger] name[j],
            )),
{
    if crate::text::same_ignoring_ascii_case(entry, name) {
        assert forall|j: int| 0 <= j < name.len() implies crate::text::ascii_fold(entry[j])
            == crate::text::ascii_fold(#[trigger] name[j]) by {
            assert(crate::text::ascii_fold(entry[j]) == crate::text::ascii_fold(name[j]));
        }
    } else if entry.len() == name.len() {
        let i = choose|i: int|
            0 <= i < entry.len() && crate::text::ascii_fold(#[trigger] entry[i])
                != crate::text::ascii_fold(name[i]);
        assert(crate::text::ascii_fold(entry[i]) != crate::text::ascii_fold(name[i]));
    }
}

/// The images that are shown are those of the attempts that have one, in their order.
pub proof fn shown_images_are_those_of_the_attempts<I>(attempts: Seq<Attempt<I>>)
    ensures
        images_shown(attempts) == attempts.filter(|a: Attempt<I>| a.shown is Some).map_values(
            |a: Attempt<I>| a.shown->Some_0,
        ),
    decreases attempts.len(),
{
    reveal(Seq::filter);
    let f = |a: Attempt<I>| a.shown->Some_0;
    let p = |a: Attempt<I>| a.shown is Some;
    if attempts.len() > 0 {
        let rest = attempts.drop_last();
        shown_images_are_those_of_the_attempts(rest);
        assert(images_shown(attempts) =~= attempts.filter(p).map_values(f));
    } else {
        assert(images_shown(attempts) =~= attempts.filter(p).map_values(f));
    }
}

/// A stage works on the topmost image, or on the frame while there is none.
pub proof fn stages_work_on_the_topmost_image<I>(images: Seq<I>, image: I, frame: I)
    ensures
        working_image(images.push(image), frame) == image,
        working_image(Seq::empty(), frame) == frame,
{
}

} // verus!
