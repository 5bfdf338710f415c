//! Stroke capture: sampling the pointer while the button is held, and turning
//! the samples of a finished stroke into a polyline.

use vstd::prelude::*;
use crate::geometry::{exceeds_spacing, PenStroke, Point};
use crate::input::ButtonState;

verus! {

/// Default spacing threshold between two samples of a stroke: the smallest
/// fixed-point value not below one hundredth.
pub const PEN_SPACING: u32 = 656;

/// Half the width of the pen: 2.5 units.
pub const PEN_THICKNESS: u32 = 640;

/// The most recently accepted sample of the stroke being drawn.
#[derive(Clone, Copy, Debug, PartialEq, Eq, Structural)]
pub struct LastPos(pub Point);

/// What stroke capture reads in one frame.
#[derive(Clone, Copy, Debug, PartialEq, Eq)]
pub struct PenFrame {
    /// The pan modifier is held, which suppresses drawing.
    pub modifier_held: bool,
    /// The primary pointer button.
    pub button: ButtonState,
    /// The cursor position in world space, if the cursor is over the window.
    pub cursor_world: Option<Point>,
    /// The camera scale of this frame.
    pub scale: u32,
}

/// How the ends of a polyline are drawn.
#[derive(Clone, Copy, Debug, PartialEq, Eq, Structural)]
pub enum LineCap {
    Butt,
    Square,
    Round,
}

/// How two pieces of a polyline are joined.
#[derive(Clone, Copy, Debug, PartialEq, Eq, Structural)]
pub enum LineJoin {
    Miter,
    MiterClip,
    Round,
    Bevel,
}

/// A colour by hue in degrees, and saturation and lightness in thousandths.
#[derive(Clone, Copy, Debug, PartialEq, Eq, Structural)]
pub struct Hsl {
    pub hue: u16,
    pub saturation: u16,
    pub lightness: u16,
}

/// The styling of a polyline.
#[derive(Clone, Copy, Debug, PartialEq, Eq, Structural)]
pub struct Stroke {
    pub color: Hsl,
    /// Width of the line, a fixed-point length.
    pub line_width: u32,
    pub start_cap: LineCap,
    pub end_cap: LineCap,
    pub line_join: LineJoin,
}

/// A finished stroke: its points in the order in which they were sampled,
/// and its styling.
#[derive(Clone, Debug, PartialEq, Eq)]
pub struct Line {
    pub points: Vec<Point>,
    pub stroke: Stroke,
}

/// A finished stroke, as a mathematical value.
pub ghost struct LineView {
    pub points: Seq<Point>,
    pub stroke: Stroke,
}

impl View for Line {
    type V = LineView;

    open spec fn view(&self) -> LineView {
        LineView { points: self.points@, stroke: self.stroke }
    }
}

/// The finished strokes of a store, each as a mathematical value.
pub open spec fn line_views(lines: Seq<Line>) -> Seq<LineView> {
    lines.map_values(|l: Line| l@)
}

/// The colour of the pen.
pub open spec fn pen_color() -> Hsl {
    Hsl { hue: 0, saturation: 800, lightness: 700 }
}

/// The styling every polyline gets: the pen colour, twice the pen thickness,
/// round caps and round joins.
pub open spec fn stroke_settings() -> Stroke {
    Stroke {
        color: pen_color(),
        line_width: (2 * PEN_THICKNESS) as u32,
        start_cap: LineCap::Round,
        end_cap: LineCap::Round,
        line_join: LineJoin::Round,
    }
}

/// The store after a stroke with the given points has ended: a stroke
/// without points leaves no polyline.
pub open spec fn finish_stroke(lines: Seq<LineView>, points: Seq<Point>) -> Seq<LineView> {
    if points.len() == 0 {
        lines
    } else {
        lines.push(LineView { points, stroke: stroke_settings() })
    }
}

/// The stroke being drawn, as a mathematical value.
pub ghost struct PendingStroke {
    pub last_pos: Point,
    pub points: Seq<Point>,
    pub strokes: Seq<PenStroke>,
}

/// The stroke being drawn, put together from its parts.
pub open spec fn pending(
    last_pos: LastPos,
    points: Seq<Point>,
    strokes: Seq<PenStroke>,
) -> PendingStroke {
    PendingStroke { last_pos: last_pos.0, points, strokes }
}

impl PenFrame {
    /// The position that this frame offers as a sample: the cursor, when the
    /// button is down and drawing is not suppressed.
    pub open spec fn sample(self) -> Option<Point> {
        if !self.modifier_held && self.button.pressed {
            self.cursor_world
        } else {
            None
        }
    }

    /// Whether this frame ends the stroke: the button went up. The modifier
    /// suppresses sampling only, so a stroke also ends while it is held.
    pub open spec fn finishes(self) -> bool {
        self.button.just_released
    }

    /// Whether the sample `p` of this frame is accepted after `last`: the
    /// first sample of a stroke always is, a later one only when it lies
    /// farther from `last` than the scaled spacing.
    pub open spec fn accepts(self, last: Point, p: Point, spacing: int) -> bool {
        self.button.just_pressed || exceeds_spacing(last, p, spacing, self.scale as int)
    }
}

/// The pending stroke after one frame.
pub open spec fn draw_step(stroke: PendingStroke, frame: PenFrame, spacing: int) -> PendingStroke {
    match frame.sample() {
        Some(p) if frame.accepts(stroke.last_pos, p, spacing) => {
            let from = if frame.button.just_pressed {
                p
            } else {
                stroke.last_pos
            };
            PendingStroke {
                last_pos: p,
                points: stroke.points.push(p),
                strokes: stroke.strokes.push(PenStroke { from, to: p }),
            }
        },
        _ => stroke,
    }
}

/// The pending stroke after a run of frames.
pub open spec fn draw_frames(
    stroke: PendingStroke,
    frames: Seq<PenFrame>,
    spacing: int,
) -> PendingStroke
    decreases frames.len(),
{
    if frames.len() == 0 {
        stroke
    } else {
        draw_step(draw_frames(stroke, frames.drop_last(), spacing), frames.last(), spacing)
    }
}

/// Whether the sample of the last frame of a run is accepted.
pub open spec fn last_sample_accepted(
    stroke: PendingStroke,
    frames: Seq<PenFrame>,
    spacing: int,
) -> bool
    recommends
        frames.len() > 0,
{
    let before = draw_frames(stroke, frames.drop_last(), spacing);
    match frames.last().sample() {
        Some(p) => frames.last().accepts(before.last_pos, p, spacing),
        None => false,
    }
}

/// The accepted samples of a run of frames, in the order of the frames, each
/// once.
pub open spec fn accepted_samples(
    stroke: PendingStroke,
    frames: Seq<PenFrame>,
    spacing: int,
) -> Seq<Point>
    decreases frames.len(),
{
    if frames.len() == 0 {
        Seq::empty()
    } else {
        let earlier = accepted_samples(stroke, frames.drop_last(), spacing);
        if last_sample_accepted(stroke, frames, spacing) {
            earlier.push(frames.last().sample().unwrap())
        } else {
            earlier
        }
    }
}

/// Stroke capture for one frame.
///
/// A release of the button ends the stroke, which the result reports. While
/// the button is down and the modifier is not held, the cursor is sampled:
/// the sample of the frame in which the button went down starts the stroke,
/// and a later sample is accepted only when it exceeds the spacing from the
/// last accepted one. An accepted sample is appended to `points`, a segment
/// leading to it is appended to `strokes`, and it becomes the new `last_pos`.
pub fn draw_line(
    frame: &PenFrame,
    spacing: u32,
    last_pos: &mut LastPos,
    points: &mut Vec<Point>,
    strokes: &mut Vec<PenStroke>,
) -> (finished: bool)
    ensures
        finished == frame.finishes(),
        pending(*final(last_pos), final(points)@, final(strokes)@) == draw_step(
            pending(*old(last_pos), old(points)@, old(strokes)@),
            *frame,
            spacing as int,
        ),
        !frame.button.just_pressed && frame.sample() is Some && !exceeds_spacing(
            old(last_pos).0,
            frame.sample().unwrap(),
            spacing as int,
            frame.scale as int,
        ) ==> final(points)@ == old(points)@ && final(strokes)@ == old(strokes)@ && *final(last_pos)
            == *old(last_pos),
{
    let finished = frame.button.just_released;
    if frame.modifier_held || !frame.button.pressed {
        return finished;
    }
    let p = match frame.cursor_world {
        Some(p) => p,
        None => {
            return finished;
        },
    };
    if frame.button.just_pressed {
        last_pos.0 = p;
    } else if !p.exceeds_spacing_from(&last_pos.0, spacing, frame.scale) {
        return finished;
    }
    points.push(p);
    strokes.push(PenStroke { from: last_pos.0, to: p });
    last_pos.0 = p;
    finished
}

/// The styling of a polyline.
pub fn get_stroke_settings() -> (s: Stroke)
    ensures
        s == stroke_settings(),
        s.line_width == 2 * PEN_THICKNESS,
{
    Stroke {
        color: Hsl { hue: 0, saturation: 800, lightness: 700 },
        line_width: 2 * PEN_THICKNESS,
        start_cap: LineCap::Round,
        end_cap: LineCap::Round,
        line_join: LineJoin::Round,
    }
}

/// Turns the samples of a stroke into a polyline when the stroke has ended.
///
/// If `finished` is set, all pending points are consumed, in order, into one
/// new polyline at the end of `lines`; if there are none, no polyline is
/// made. Without `finished` nothing changes.
pub fn stroke_to_line(finished: bool, points: &mut Vec<Point>, lines: &mut Vec<Line>)
    ensures
        !finished ==> final(points)@ == old(points)@ && final(lines)@ == old(lines)@,
        finished ==> final(points)@ == Seq::<Point>::empty(),
        finished ==> line_views(final(lines)@) == finish_stroke(
            line_views(old(lines)@),
            old(points)@,
        ),
{
    if !finished {
        return ;
    }
    if points.len() == 0 {
        assert(points@ == Seq::<Point>::empty());
        return ;
    }
    let mut taken: Vec<Point> = Vec::new();
    core::mem::swap(points, &mut taken);
    let line = Line { points: taken, stroke: get_stroke_settings() };
    lines.push(line);
    assert(line_views(lines@) == line_views(old(lines)@).push(line@));
}

/// Discards the transient segments when the stroke has ended.
pub fn remove_line(finished: bool, strokes: &mut Vec<PenStroke>)
    ensures
        finished ==> final(strokes)@ == Seq::<PenStroke>::empty(),
        !finished ==> final(strokes)@ == old(strokes)@,
{
    if finished {
        strokes.clear();
    }
}

/// After any run of frames the pending points are the points that were
/// pending before it, followed by exactly the accepted samples of the run in
/// the order in which they were accepted; the last accepted sample is the
/// one that the next sample is measured against.
pub proof fn lemma_points_are_accepted_samples(
    stroke: PendingStroke,
    frames: Seq<PenFrame>,
    spacing: int,
)
    ensures
        ({
            let after = draw_frames(stroke, frames, spacing);
            let accepted = accepted_samples(stroke, frames, spacing);
            &&& after.points == stroke.points + accepted
            &&& accepted.len() == 0 ==> after.last_pos == stroke.last_pos
            &&& accepted.len() > 0 ==> after.last_pos == accepted.last()
        }),
    decreases frames.len(),
{
    if frames.len() > 0 {
        lemma_points_are_accepted_samples(stroke, frames.drop_last(), spacing);
    }
}

/// The polyline of a stroke holds exactly the accepted samples, in the order
/// in which they were accepted: when a stroke that began with no pending
/// point ends after a run of frames with at least one accepted sample, the
/// store gains one polyline, and its points are those samples.
pub proof fn lemma_polyline_is_accepted_samples(
    stroke: PendingStroke,
    frames: Seq<PenFrame>,
    spacing: int,
    lines: Seq<LineView>,
)
    requires
        stroke.points.len() == 0,
    ensures
        ({
            let stored = finish_stroke(lines, draw_frames(stroke, frames, spacing).points);
            let accepted = accepted_samples(stroke, frames, spacing);
            &&& accepted.len() > 0 ==> stored == lines.push(
                LineView { points: accepted, stroke: stroke_settings() },
            )
            &&& accepted.len() == 0 ==> stored == lines
        }),
{
    lemma_points_are_accepted_samples(stroke, frames, spacing);
    assert(stroke.points + accepted_samples(stroke, frames, spacing) == accepted_samples(
        stroke,
        frames,
        spacing,
    ));
}

/// The minimum spacing: a sample that does not start a stroke and lies no
/// farther from the last accepted sample than the spacing times the scale is
/// not accepted, whatever the scale.
pub proof fn lemma_close_sample_is_rejected(stroke: PendingStroke, frame: PenFrame, spacing: int)
    requires
        !frame.button.just_pressed,
        frame.sample() is Some,
        !exceeds_spacing(stroke.last_pos, frame.sample().unwrap(), spacing, frame.scale as int),
    ensures
        draw_step(stroke, frame, spacing) == stroke,
{
}

} // verus!
