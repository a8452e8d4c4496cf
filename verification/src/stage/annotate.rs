//! The stage that draws the knobs and the verdict onto the warped frame.

use vstd::prelude::*;
use vstd::string::*;

use super::detect::Knob;
use super::sanity::SanityResult;
use super::{FrameState, StageError};
use crate::draw::bgr;
use crate::draw::drawing;
use crate::draw::Color;
use crate::draw::Shape;
use crate::draw::ShapeView;
use crate::fixed::pixel;
use crate::fixed::to_pixel;
use crate::text::decimal;
use crate::text::push_number;

verus! {

/// The stage that draws the knobs and the verdict onto the warped frame.
#[derive(Debug, Clone, Copy, PartialEq, Eq, Structural)]
pub struct Annotate;

/// The name of the stage.
pub fn name() -> (r: &'static str)
    ensures
        r@ == "annotate"@,
{
    "annotate"
}

/// Whether the row of knobs has passed its check.
pub open spec fn passes(sanity: Option<SanityResult>) -> bool {
    sanity matches Some(s) && s.ok
}

/// Green for a row that has passed, orange for others.
pub open spec fn verdict_color(pass: bool) -> Color {
    if pass {
        bgr(0, 255, 0)
    } else {
        bgr(0, 128, 255)
    }
}

/// What is drawn for a knob: a red circle with a question mark where it is
/// only presumed, and otherwise a circle and its center in the verdict's color.
pub open spec fn knob_shapes(knob: Knob, pass: bool) -> Seq<ShapeView> {
    let x = pixel(knob.x as int);
    let y = pixel(knob.y as int);
    let radius = pixel(knob.radius as int);
    let red = bgr(0, 0, 255);
    let color = verdict_color(pass);
    if knob.synthetic {
        seq![
            ShapeView::Circle { x, y, radius, color: red, thickness: 1, smooth: true },
            ShapeView::Text {
                text: "?"@ + decimal(knob.slot + 1),
                x: x - 10,
                y: y - radius - 6,
                size: 40,
                color: red,
                thickness: 1,
                smooth: true,
            },
        ]
    } else {
        seq![
            ShapeView::Circle { x, y, radius, color, thickness: 2, smooth: true },
            ShapeView::Circle { x, y, radius: 3, color, thickness: -1, smooth: true },
            ShapeView::Text {
                text: decimal(knob.slot + 1),
                x: x - 6,
                y: y - radius - 6,
                size: 50,
                color,
                thickness: 1,
                smooth: true,
            },
        ]
    }
}

/// What is drawn for some knobs.
pub open spec fn knobs_drawing(knobs: Seq<Knob>, pass: bool) -> Seq<ShapeView>
    decreases knobs.len(),
{
    if knobs.len() == 0 {
        Seq::empty()
    } else {
        knobs_drawing(knobs.drop_last(), pass) + knob_shapes(knobs.last(), pass)
    }
}

/// How many of the knobs were found in the frame.
pub open spec fn found_count(knobs: Seq<Knob>) -> nat
    decreases knobs.len(),
{
    if knobs.len() == 0 {
        0
    } else {
        found_count(knobs.drop_last()) + if knobs.last().synthetic {
            0nat
        } else {
            1nat
        }
    }
}

/// One part of the verdict in a word.
pub open spec fn word(checked: bool, fine: bool) -> Seq<char> {
    if !checked {
        "?"@
    } else if fine {
        "ok"@
    } else {
        "FAIL"@
    }
}

/// The verdict in one line.
pub open spec fn status_text(knobs: Seq<Knob>, sanity: Option<SanityResult>) -> Seq<char> {
    let checked = sanity is Some;
    decimal(found_count(knobs) as int) + "/"@ + decimal(knobs.len() as int) + " real | "@ + (if passes(
        sanity,
    ) {
        "PASS"@
    } else {
        "FAIL"@
    }) + " | y:"@ + word(checked, sanity->0.y_aligned) + " sz:"@ + word(
        checked,
        sanity->0.size_uniform,
    ) + " sp:"@ + word(checked, sanity->0.spacing_uniform)
}

/// What is drawn onto a warped frame of this height.
pub open spec fn annotations(knobs: Seq<Knob>, sanity: Option<SanityResult>, height: int) -> Seq<
    ShapeView,
> {
    let pass = passes(sanity);
    knobs_drawing(knobs, pass).push(
        ShapeView::Text {
            text: status_text(knobs, sanity),
            x: 10,
            y: height - 10,
            size: 50,
            color: verdict_color(pass),
            thickness: 1,
            smooth: true,
        },
    )
}

/// The label of a knob starts on a pixel.
pub open spec fn label_fits(knob: Knob) -> bool {
    let left = if knob.synthetic {
        10int
    } else {
        6
    };
    let above = pixel(knob.y as int) - pixel(knob.radius as int);
    i32::MIN <= pixel(knob.x as int) - left && i32::MIN <= above - 6 && above <= i32::MAX
}

/// The labels of all knobs start on pixels.
pub open spec fn knobs_fit(knobs: Seq<Knob>) -> bool {
    forall|i: int| 0 <= i < knobs.len() ==> label_fits(#[trigger] knobs[i])
}

/// Whether the labels of all knobs start on pixels.
pub fn can_annotate(knobs: &Vec<Knob>) -> (r: bool)
    ensures
        r == knobs_fit(knobs@),
{
    let mut i: usize = 0;
    while i < knobs.len()
        invariant
            i <= knobs.len(),
            forall|j: int| 0 <= j < i ==> label_fits(#[trigger] knobs[j]),
        decreases knobs.len() - i,
    {
        let knob: &Knob = &knobs[i];
        let left: i64 = if knob.synthetic {
            10
        } else {
            6
        };
        let above: i64 = to_pixel(knob.y) as i64 - to_pixel(knob.radius) as i64;
        if !(-0x8000_0000 <= to_pixel(knob.x) as i64 - left && -0x8000_0000 <= above - 6 && above
            <= 0x7fff_ffff) {
            assert(!label_fits(knobs@[i as int]));
            return false;
        }
        i = i + 1;
    }
    true
}

fn draw_knob(shapes: &mut Vec<Shape>, knob: &Knob, pass: bool)
    requires
        label_fits(*knob),
    ensures
        drawing(final(shapes)@) == drawing(old(shapes)@) + knob_shapes(*knob, pass),
{
    let (x, y, radius): (i32, i32, i32) = (
        to_pixel(knob.x),
        to_pixel(knob.y),
        to_pixel(knob.radius),
    );
    if knob.synthetic {
        let red: Color = Color { blue: 0, green: 0, red: 255 };
        let mut text: String = String::from_str("?");
        push_number(&mut text, knob.slot as u128 + 1);
        shapes.push(Shape::Circle { x, y, radius, color: red, thickness: 1, smooth: true });
        shapes.push(
            Shape::Text {
                text,
                x: x - 10,
                y: y - radius - 6,
                size: 40,
                color: red,
                thickness: 1,
                smooth: true,
            },
        );
    } else {
        let color: Color = verdict(pass);
        let mut text: String = String::from_str("");
        push_number(&mut text, knob.slot as u128 + 1);
        proof {
            reveal_strlit("");
            assert(text@ =~= decimal(knob.slot + 1));
        }
        shapes.push(Shape::Circle { x, y, radius, color, thickness: 2, smooth: true });
        shapes.push(Shape::Circle { x, y, radius: 3, color, thickness: -1, smooth: true });
        shapes.push(
            Shape::Text {
                text,
                x: x - 6,
                y: y - radius - 6,
                size: 50,
                color,
                thickness: 1,
                smooth: true,
            },
        );
    }
    assert(drawing(shapes@) =~= drawing(old(shapes)@) + knob_shapes(*knob, pass));
}

fn verdict(pass: bool) -> (r: Color)
    ensures
        r == verdict_color(pass),
{
    if pass {
        Color { blue: 0, green: 255, red: 0 }
    } else {
        Color { blue: 0, green: 128, red: 255 }
    }
}

fn word_for(checked: bool, fine: bool) -> (r: &'static str)
    ensures
        r@ == word(checked, fine),
{
    if !checked {
        "?"
    } else if fine {
        "ok"
    } else {
        "FAIL"
    }
}

fn status(knobs: &Vec<Knob>, sanity: &Option<SanityResult>) -> (r: String)
    ensures
        r@ == status_text(knobs@, *sanity),
{
    let mut found: usize = 0;
    let mut i: usize = 0;
    while i < knobs.len()
        invariant
            i <= knobs@.len(),
            found <= i,
            found == found_count(knobs@.take(i as int)),
        decreases knobs@.len() - i,
    {
        assert(knobs@.take(i as int + 1).drop_last() =~= knobs@.take(i as int));
        if !knobs[i].synthetic {
            found = found + 1;
        }
        i = i + 1;
    }
    assert(knobs@.take(i as int) =~= knobs@);
    let (checked, pass, y, size, spacing): (bool, bool, bool, bool, bool) = match sanity {
        Some(s) => (true, s.ok, s.y_aligned, s.size_uniform, s.spacing_uniform),
        None => (false, false, false, false, false),
    };
    let mut s: String = String::from_str("");
    proof {
        reveal_strlit("");
    }
    push_number(&mut s, found as u128);
    s.append("/");
    push_number(&mut s, knobs.len() as u128);
    s.append(" real | ");
    s.append(
        if pass {
            "PASS"
        } else {
            "FAIL"
        },
    );
    s.append(" | y:");
    s.append(word_for(checked, y));
    s.append(" sz:");
    s.append(word_for(checked, size));
    s.append(" sp:");
    s.append(word_for(checked, spacing));
    assert(s@ =~= status_text(knobs@, *sanity));
    s
}

impl Annotate {
    /// What is drawn onto the warped frame, which is `height` pixels high.
    pub fn shapes<M>(&self, state: &FrameState<M>, height: i32) -> (r: Result<Vec<Shape>, StageError>)
        requires
            knobs_fit(state.knobs@),
            height >= i32::MIN + 10,
        ensures
            match r {
                Ok(shapes) => state.warped is Some && drawing(shapes@) == annotations(
                    state.knobs@,
                    state.sanity,
                    height as int,
                ),
                Err(err) => state.warped is None && err.stage@ == "annotate"@ && err.message@
                    == "no warped frame"@,
            },
    {
        if state.warped.is_none() {
            return Err(StageError { stage: name(), message: String::from_str("no warped frame") });
        }
        let pass: bool = match &state.sanity {
            Some(s) => s.ok,
            None => false,
        };
        let knobs: &Vec<Knob> = &state.knobs;
        let mut r: Vec<Shape> = Vec::new();
        assert(drawing(r@) =~= Seq::<ShapeView>::empty());
        let mut i: usize = 0;
        while i < knobs.len()
            invariant
                knobs_fit(knobs@),
                i <= knobs@.len(),
                drawing(r@) == knobs_drawing(knobs@.take(i as int), pass),
            decreases knobs@.len() - i,
        {
            assert(knobs@.take(i as int + 1).drop_last() =~= knobs@.take(i as int));
            assert(label_fits(knobs@[i as int]));
            draw_knob(&mut r, &knobs[i], pass);
            i = i + 1;
        }
        assert(knobs@.take(i as int) =~= knobs@);
        let ghost before = r@;
        r.push(
            Shape::Text {
                text: status(knobs, &state.sanity),
                x: 10,
                y: height - 10,
                size: 50,
                color: verdict(pass),
                thickness: 1,
                smooth: true,
            },
        );
        assert(drawing(r@) =~= drawing(before).push(r@.last()@));
        Ok(r)
    }

    /// Draws on a frame what was found. `measure` gives the height of the warped image, and
    /// `paint` that image with the shapes on it. A failure leaves the frame as it was; a success
    /// changes the annotated image alone.
    pub fn process<
        M,
        D: Fn(&M) -> i32,
        F: Fn(&M, &Vec<Shape>) -> Result<M, StageError>,
    >(&self, state: &mut FrameState<M>, measure: &D, paint: &F) -> (r: Result<(), StageError>)
        requires
            knobs_fit(old(state).knobs@),
            forall|image: &M| #[trigger] call_requires(*measure, (image,)),
            forall|image: &M, height: i32| #[trigger]
                call_ensures(*measure, (image,), height) ==> height >= 0,
            forall|image: &M, shapes: &Vec<Shape>| #[trigger] call_requires(*paint, (image, shapes)),
        ensures
            match old(state).warped {
                None => {
                    &&& r matches Err(err) && err.stage@ == "annotate"@ && err.message@
                        == "no warped frame"@
                    &&& *final(state) == *old(state)
                },
                Some(warped) => match r {
                    Ok(_) => {
                        &&& final(state).annotated matches Some(image) && may_paint(
                            *measure,
                            *paint,
                            warped,
                            old(state).knobs@,
                            old(state).sanity,
                            Ok(image),
                        )
                        &&& *final(state) == (FrameState {
                            annotated: final(state).annotated,
                            ..*old(state)
                        })
                    },
                    Err(e) => {
                        &&& may_paint(
                            *measure,
                            *paint,
                            warped,
                            old(state).knobs@,
                            old(state).sanity,
                            Err(e),
                        )
                        &&& *final(state) == *old(state)
                    },
                },
            },
    {
        let height: i32 = match &state.warped {
            Some(warped) => measure(warped),
            None => 0,
        };
        let shapes: Vec<Shape> = match self.shapes(state, height) {
            Ok(shapes) => shapes,
            Err(e) => return Err(e),
        };
        if let Some(warped) = &state.warped {
            match paint(warped, &shapes) {
                Ok(image) => {
                    assert(may_paint(
                        *measure,
                        *paint,
                        *warped,
                        state.knobs@,
                        state.sanity,
                        Ok(image),
                    ));
                    state.annotated = Some(image);
                },
                Err(e) => {
                    assert(may_paint(
                        *measure,
                        *paint,
                        *warped,
                        state.knobs@,
                        state.sanity,
                        Err(e),
                    ));
                    return Err(e);
                },
            }
        }
        Ok(())
    }
}

/// Painting what was found on an image may give this.
pub open spec fn may_paint<
    M,
    D: Fn(&M) -> i32,
    F: Fn(&M, &Vec<Shape>) -> Result<M, StageError>,
>(
    measure: D,
    paint: F,
    image: M,
    knobs: Seq<Knob>,
    sanity: Option<SanityResult>,
    r: Result<M, StageError>,
) -> bool {
    exists|height: i32, shapes: Vec<Shape>|
        #![trigger call_ensures(measure, (&image,), height), call_ensures(paint, (&image, &shapes), r)]
        call_ensures(measure, (&image,), height) && drawing(shapes@) == annotations(
            knobs,
            sanity,
            height as int,
        ) && call_ensures(paint, (&image, &shapes), r)
}


/// As many knobs are counted as found as are not made up.
pub proof fn found_knobs_are_counted(knobs: Seq<Knob>)
    ensures
        found_count(knobs) == knobs.filter(|k: Knob| !k.synthetic).len(),
    decreases knobs.len(),
{
    reveal(Seq::filter);
    if knobs.len() > 0 {
        found_knobs_are_counted(knobs.drop_last());
    }
}

/// Knobs are drawn one after the other.
pub proof fn knobs_are_drawn_in_turn(a: Seq<Knob>, b: Seq<Knob>, pass: bool)
    ensures
        knobs_drawing(a + b, pass) == knobs_drawing(a, pass) + knobs_drawing(b, pass),
        a.len() == 1 ==> knobs_drawing(a, pass) == knob_shapes(a[0], pass),
    decreases b.len(),
{
    if a.len() == 1 {
        assert(knobs_drawing(a.drop_last(), pass) =~= Seq::empty());
        assert(knobs_drawing(a, pass) =~= knob_shapes(a[0], pass));
    }
    if b.len() == 0 {
        assert(a + b =~= a);
        assert(knobs_drawing(a + b, pass) =~= knobs_drawing(a, pass) + knobs_drawing(b, pass));
    } else {
        knobs_are_drawn_in_turn(a, b.drop_last(), pass);
        assert((a + b).drop_last() =~= a + b.drop_last());
        assert((a + b).last() == b.last());
        assert(knobs_drawing(a + b, pass) =~= knobs_drawing(a, pass) + knobs_drawing(b, pass));
    }
}

/// Every knob has a circle of its own size around its center, and its number, counted from one, six
/// pixels above that. One that was made up is drawn in red, and its number with a question mark; the
/// others are green where the knobs pass and orange where they do not, with a dot in the center.
pub proof fn knobs_are_circled_and_numbered(knob: Knob, pass: bool)
    ensures
        ({
            let s = knob_shapes(knob, pass);
            let color = if knob.synthetic {
                bgr(0, 0, 255)
            } else if pass {
                bgr(0, 255, 0)
            } else {
                bgr(0, 128, 255)
            };
            &&& s.len() == if knob.synthetic {
                2nat
            } else {
                3nat
            }
            &&& s[0] matches ShapeView::Circle { x, y, radius, color: c, thickness, .. } && x == pixel(
                knob.x as int,
            ) && y == pixel(knob.y as int) && radius == pixel(knob.radius as int) && c == color
                && thickness > 0
            &&& s.last() matches ShapeView::Text { text, x, y, color: c, .. } && x < pixel(
                knob.x as int,
            ) && y + 6 == pixel(knob.y as int) - pixel(knob.radius as int) && c == color && text
                == if knob.synthetic {
                "?"@ + decimal(knob.slot + 1)
            } else {
                decimal(knob.slot + 1)
            }
            &&& !knob.synthetic ==> (s[1] matches ShapeView::Circle {
                x,
                y,
                color: c,
                thickness,
                ..
            } && x == pixel(knob.x as int) && y == pixel(knob.y as int) && c == color && thickness
                == -1)
        }),
{
}

} // verus!
