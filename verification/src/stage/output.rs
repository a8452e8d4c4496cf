//! Names and texts for what the stages give out.

use vstd::prelude::*;
use vstd::string::*;

use super::FrameState;
use crate::text::decimal;
use crate::text::padded;
use crate::text::push_number;
use crate::text::push_padded;
use crate::text::same_text;

verus! {

/// The start of the name of the file for a stage's image. Stages are counted from one.
pub fn stage_prefix(output_dir: &str, frame: u32, index: usize, name: &str) -> (r: String)
    ensures
        r@ == output_dir@ + "/f"@ + padded(frame as int, 2) + "_s"@ + decimal(index + 1) + "_"@
            + name@,
{
    let mut s: String = output_dir.to_owned();
    s.append("/f");
    push_padded(&mut s, frame as u128, 2);
    s.append("_s");
    push_number(&mut s, index as u128 + 1);
    s.append("_");
    s.append(name);
    s
}

/// The name of the file for a finished frame.
pub fn frame_path(output_dir: &str, frame: u32) -> (r: String)
    ensures
        r@ == output_dir@ + "/frame_"@ + padded(frame as int, 4) + ".jpg"@,
{
    let mut s: String = output_dir.to_owned();
    s.append("/frame_");
    push_padded(&mut s, frame as u128, 4);
    s.append(".jpg");
    s
}

/// What was made of a frame, in one line.
pub fn frame_summary<M>(state: &FrameState<M>) -> (r: String)
    ensures
        r@ == decimal(state.knobs@.len() as int) + " knobs | "@ + (match state.sanity {
            Some(s) => s.details@,
            None => "no sanity"@,
        }),
{
    proof {
        reveal_strlit("");
    }
    let mut s: String = String::from_str("");
    push_number(&mut s, state.knobs.len() as u128);
    assert(s@ =~= decimal(state.knobs@.len() as int));
    s.append(" knobs | ");
    match &state.sanity {
        Some(sanity) => s.append(sanity.details.as_str()),
        None => s.append("no sanity"),
    }
    s
}

/// The first `n` stages in order, each with its number.
pub open spec fn stage_list(names: Seq<&'static str>, n: nat) -> Seq<char>
    decreases n,
{
    if n == 0 {
        Seq::empty()
    } else {
        stage_list(names, (n - 1) as nat) + (if n > 1 {
            " → "@
        } else {
            Seq::empty()
        }) + "s"@ + decimal(n as int) + "_"@ + names[n - 1]@
    }
}

/// The stages in order, each with its number.
pub fn describe_stages(names: &Vec<&'static str>) -> (r: String)
    ensures
        r@ == stage_list(names@, names@.len()),
{
    proof {
        reveal_strlit("");
    }
    let mut s: String = String::from_str("");
    let mut i: usize = 0;
    assert(s@ =~= Seq::<char>::empty());
    while i < names.len()
        invariant
            i <= names@.len(),
            s@ == stage_list(names@, i as nat),
        decreases names@.len() - i,
    {
        let ghost before = s@;
        if i > 0 {
            s.append(" → ");
        }
        s.append("s");
        push_number(&mut s, i as u128 + 1);
        s.append("_");
        s.append(names[i]);
        i = i + 1;
        assert(s@ =~= stage_list(names@, i as nat));
    }
    s
}

/// The image that a stage has made, by the stage's name.
pub open spec fn image_of<M>(state: &FrameState<M>, name: Seq<char>) -> Option<M> {
    if name == "undistort"@ {
        state.undistorted
    } else if name == "warp"@ {
        state.warped
    } else if name == "enhance"@ {
        state.enhanced
    } else if name == "annotate"@ {
        state.annotated
    } else if name == "reproject"@ {
        state.warped
    } else if name == "detect"@ {
        state.debug_edges
    } else {
        None
    }
}

/// The image that a stage has made, by the stage's name.
pub fn stage_output<'a, M>(state: &'a FrameState<M>, name: &str) -> (r: &'a Option<M>)
    ensures
        match image_of(state, name@) {
            Some(m) => *r == Some(m),
            None => *r is None,
        },
{
    if same_text(name, "undistort") {
        &state.undistorted
    } else if same_text(name, "warp") {
        &state.warped
    } else if same_text(name, "enhance") {
        &state.enhanced
    } else if same_text(name, "annotate") {
        &state.annotated
    } else if same_text(name, "reproject") {
        &state.warped
    } else if same_text(name, "detect") {
        &state.debug_edges
    } else {
        &None
    }
}

} // verus!
