//! The canvas: everything that lasts from frame to frame, and the update that
//! one frame's input makes to it.
//!
//! Within a frame the steps run in a fixed order: stroke capture, clear, pan,
//! zoom, and then, if the stroke ended in this frame, its conversion into a
//! polyline and the removal of its segments. Stroke capture therefore sees
//! the scale that the frame before left, and a clear in the frame in which a
//! stroke ends leaves no polyline of that stroke.

use vstd::prelude::*;
use crate::camera::{
    anchor_step, move_camera, pan_step, zoom_all, zoom_camera, CameraState, LastClicked,
};
use crate::geometry::{PenStroke, Point, Translation};
use crate::input::{ButtonState, Keyboard, ScrollEvent, Window};
use crate::stroke::{
    draw_line, draw_step, finish_stroke, line_views, remove_line, stroke_to_line, LastPos, Line,
    LineView, PenFrame, PendingStroke, PEN_SPACING,
};

verus! {

/// A request to write the rendered canvas to an image file.
#[derive(Clone, Copy, Debug, PartialEq, Eq)]
pub struct ExportRequest {
    /// The directory that receives the file.
    pub output_dir: &'static str,
    /// The extension of the file, which names the image format.
    pub extension: &'static str,
}

/// The state of a drawing session.
#[derive(Clone, Debug, PartialEq, Eq)]
pub struct Canvas {
    pub camera: CameraState,
    pub last_pos: LastPos,
    pub last_clicked: LastClicked,
    /// The spacing threshold between two samples of a stroke.
    pub spacing: u32,
    /// The samples of the stroke being drawn.
    pub points: Vec<Point>,
    /// The segments of the stroke being drawn.
    pub strokes: Vec<PenStroke>,
    /// The finished strokes.
    pub lines: Vec<Line>,
}

/// The state of a drawing session, as a mathematical value.
pub ghost struct CanvasView {
    pub camera: CameraState,
    pub last_pos: Point,
    pub last_clicked: LastClicked,
    pub spacing: u32,
    pub points: Seq<Point>,
    pub strokes: Seq<PenStroke>,
    pub lines: Seq<LineView>,
}

/// The input of one frame.
#[derive(Clone, Debug, PartialEq, Eq)]
pub struct FrameInput {
    pub keyboard: Keyboard,
    /// The primary mouse button.
    pub mouse: ButtonState,
    /// The primary window, if there is one.
    pub window: Option<Window>,
    /// The world position under the cursor, as the renderer's camera gives
    /// it, if there is one.
    pub cursor_world: Option<Point>,
    /// The scroll events of the frame, in the order in which they arrived.
    pub scroll: Vec<ScrollEvent>,
}

/// What a frame did to the canvas and what it asks of the application
/// around it.
#[derive(Clone, Copy, Debug, PartialEq, Eq)]
pub struct FrameOutput {
    /// The segment that stroke capture added in this frame.
    pub segment: Option<PenStroke>,
    /// The canvas was cleared in this frame.
    pub cleared: bool,
    /// A stroke ended in this frame: its segments are gone.
    pub finished: bool,
    /// The stroke that ended left a polyline, the last of the store.
    pub stored: bool,
    /// The canvas is to be written to a file.
    pub export: Option<ExportRequest>,
    /// The application is to end.
    pub quit: bool,
}

impl View for Canvas {
    type V = CanvasView;

    open spec fn view(&self) -> CanvasView {
        CanvasView {
            camera: self.camera,
            last_pos: self.last_pos.0,
            last_clicked: self.last_clicked,
            spacing: self.spacing,
            points: self.points@,
            strokes: self.strokes@,
            lines: line_views(self.lines@),
        }
    }
}

/// Whether the keys ask to clear the canvas: control held, X just pressed.
pub open spec fn clear_requested(keyboard: Keyboard) -> bool {
    keyboard.control_left.pressed && keyboard.key_x.just_pressed
}

/// Whether the keys ask to export the canvas: control held, S just pressed.
pub open spec fn export_requested(keyboard: Keyboard) -> bool {
    keyboard.control_left.pressed && keyboard.key_s.just_pressed
}

/// Whether the keys ask to quit: control held, Q just pressed.
pub open spec fn quit_requested(keyboard: Keyboard) -> bool {
    keyboard.control_left.pressed && keyboard.key_q.just_pressed
}

/// The cursor position in the window, if there is a window with the cursor
/// over it.
pub open spec fn window_cursor(window: Option<Window>) -> Option<Point> {
    match window {
        Some(w) => w.cursor,
        None => None,
    }
}

/// What stroke capture reads of a frame's input: modifier and button, the
/// world position under the cursor, and the scale of `camera`.
pub open spec fn pen_frame(input: FrameInput, camera: CameraState) -> PenFrame {
    PenFrame {
        modifier_held: input.keyboard.space.pressed,
        button: input.mouse,
        cursor_world: input.cursor_world,
        scale: camera.scale() as u32,
    }
}

/// The pending stroke after the stroke capture of a frame.
pub open spec fn frame_drawn(canvas: CanvasView, input: FrameInput) -> PendingStroke {
    draw_step(
        PendingStroke { last_pos: canvas.last_pos, points: canvas.points, strokes: canvas.strokes },
        pen_frame(input, canvas.camera),
        canvas.spacing as int,
    )
}

/// The segment that stroke capture adds in a frame, if it accepts a sample.
pub open spec fn frame_segment(canvas: CanvasView, input: FrameInput) -> Option<PenStroke> {
    let drawn = frame_drawn(canvas, input);
    if drawn.strokes.len() > canvas.strokes.len() {
        Some(drawn.strokes.last())
    } else {
        None
    }
}

/// Whether a frame stores a polyline: a stroke ends in it, and there are
/// pending points that the frame has not cleared.
pub open spec fn frame_stores(canvas: CanvasView, input: FrameInput) -> bool {
    &&& input.mouse.just_released
    &&& !clear_requested(input.keyboard)
    &&& frame_drawn(canvas, input).points.len() > 0
}

/// The canvas after one frame.
pub open spec fn frame_step(canvas: CanvasView, input: FrameInput) -> CanvasView {
    let drawn = frame_drawn(canvas, input);
    let finished = input.mouse.just_released;
    let cleared = clear_requested(input.keyboard);
    let points = if cleared {
        Seq::empty()
    } else {
        drawn.points
    };
    let lines = if cleared {
        Seq::empty()
    } else {
        canvas.lines
    };
    let (camera, last_clicked) = match window_cursor(input.window) {
        Some(cursor) => {
            let w = input.window.unwrap();
            let anchor = anchor_step(
                canvas.last_clicked,
                canvas.camera,
                cursor,
                input.keyboard,
                input.mouse,
            );
            let panned = pan_step(canvas.camera, anchor, cursor, input.keyboard, input.mouse);
            (zoom_all(panned, w.width as int, w.height as int, cursor, input.scroll@), anchor)
        },
        None => (canvas.camera, canvas.last_clicked),
    };
    CanvasView {
        camera,
        last_pos: drawn.last_pos,
        last_clicked,
        spacing: canvas.spacing,
        points: if finished {
            Seq::empty()
        } else {
            points
        },
        strokes: if finished {
            Seq::empty()
        } else {
            drawn.strokes
        },
        lines: if finished {
            finish_stroke(lines, points)
        } else {
            lines
        },
    }
}

/// Clears the canvas on request: removes all pending points and all finished
/// strokes, however many there are. Without the request nothing changes.
pub fn clear_canvas(
    keyboard: &Keyboard,
    points: &mut Vec<Point>,
    lines: &mut Vec<Line>,
) -> (cleared: bool)
    ensures
        cleared == clear_requested(*keyboard),
        cleared ==> final(points)@ == Seq::<Point>::empty(),
        cleared ==> final(lines)@ == Seq::<Line>::empty(),
        !cleared ==> final(points)@ == old(points)@ && final(lines)@ == old(lines)@,
{
    if keyboard.control_left.pressed && keyboard.key_x.just_pressed {
        points.clear();
        lines.clear();
        true
    } else {
        false
    }
}

/// The export that the keys ask for: a PNG file in the directory `out`.
pub fn save_file(keyboard: &Keyboard) -> (request: Option<ExportRequest>)
    ensures
        request is Some <==> export_requested(*keyboard),
        request is Some ==> request.unwrap().output_dir@ == "out"@ && request.unwrap().extension@
            == "png"@,
{
    if keyboard.control_left.pressed && keyboard.key_s.just_pressed {
        Some(ExportRequest { output_dir: "out", extension: "png" })
    } else {
        None
    }
}

/// Whether the keys ask to quit.
pub fn quit_app(keyboard: &Keyboard) -> (quit: bool)
    ensures
        quit == quit_requested(*keyboard),
{
    keyboard.control_left.pressed && keyboard.key_q.just_pressed
}

impl Canvas {
    /// The camera scale lies in its range, and every finished stroke has at
    /// least one point.
    pub open spec fn wf(&self) -> bool {
        &&& self.camera.wf()
        &&& forall|i: int|
            0 <= i < self.lines@.len() ==> (#[trigger] self.lines@[i]).points@.len() > 0
    }

    /// Whether the canvas is well formed.
    pub fn is_wf(&self) -> (ok: bool)
        ensures
            ok == self.wf(),
    {
        if !self.camera.is_wf() {
            return false;
        }
        let mut i: usize = 0;
        while i < self.lines.len()
            invariant
                i <= self.lines.len(),
                forall|j: int| 0 <= j < i ==> (#[trigger] self.lines@[j]).points@.len() > 0,
            decreases self.lines.len() - i,
        {
            if self.lines[i].points.len() == 0 {
                return false;
            }
            i = i + 1;
        }
        true
    }

    /// An empty canvas under the identity camera, with the default spacing.
    pub fn new() -> (canvas: Canvas)
        ensures
            canvas.wf(),
            canvas.camera == CameraState::identity_spec(),
            canvas.spacing == PEN_SPACING,
            canvas.last_pos.0 == (Point { x: 0, y: 0 }),
            canvas.last_clicked == (LastClicked {
                cursor: Point { x: 0, y: 0 },
                camera: Translation { x: 0, y: 0, z: 0 },
            }),
            canvas.points@.len() == 0,
            canvas.strokes@.len() == 0,
            canvas.lines@.len() == 0,
    {
        Canvas {
            camera: CameraState::identity(),
            last_pos: LastPos(Point { x: 0, y: 0 }),
            last_clicked: LastClicked::origin(),
            spacing: PEN_SPACING,
            points: Vec::new(),
            strokes: Vec::new(),
            lines: Vec::new(),
        }
    }

    /// Advances the canvas by one frame and says what the frame asks of the
    /// application.
    pub fn update(&mut self, input: &FrameInput) -> (output: FrameOutput)
        requires
            old(self).wf(),
        ensures
            final(self).wf(),
            final(self)@ == frame_step(old(self)@, *input),
            output.segment == frame_segment(old(self)@, *input),
            output.cleared == clear_requested(input.keyboard),
            output.finished == input.mouse.just_released,
            output.stored == frame_stores(old(self)@, *input),
            output.quit == quit_requested(input.keyboard),
            output.export is Some <==> export_requested(input.keyboard),
            output.export is Some ==> output.export.unwrap().output_dir@ == "out"@
                && output.export.unwrap().extension@ == "png"@,
    {
        let pen = PenFrame {
            modifier_held: input.keyboard.space.pressed,
            button: input.mouse,
            cursor_world: input.cursor_world,
            scale: self.camera.current_scale(),
        };
        let segments = self.strokes.len();
        let finished = draw_line(
            &pen,
            self.spacing,
            &mut self.last_pos,
            &mut self.points,
            &mut self.strokes,
        );
        let segment = if self.strokes.len() > segments {
            Some(self.strokes[self.strokes.len() - 1])
        } else {
            None
        };
        let cleared = clear_canvas(&input.keyboard, &mut self.points, &mut self.lines);
        let stored = finished && self.points.len() > 0;
        move_camera(
            &mut self.camera,
            input.window.as_ref(),
            &input.keyboard,
            &input.mouse,
            &mut self.last_clicked,
        );
        zoom_camera(input.window.as_ref(), &mut self.camera, &input.scroll);
        let ghost kept = self.lines@;
        stroke_to_line(finished, &mut self.points, &mut self.lines);
        remove_line(finished, &mut self.strokes);
        proof {
            let want = frame_step(old(self)@, *input);
            assert(self@.lines == want.lines);
            assert forall|i: int| 0 <= i < self.lines@.len() implies (
            #[trigger] self.lines@[i]).points@.len() > 0 by {
                assert(line_views(self.lines@)[i] == self.lines@[i]@);
                if i < kept.len() {
                    assert(line_views(kept)[i] == kept[i]@);
                }
            }
        }
        FrameOutput {
            segment,
            cleared,
            finished,
            stored,
            export: save_file(&input.keyboard),
            quit: quit_app(&input.keyboard),
        }
    }
}

/// A frame in which the clear is requested leaves no pending point and no
/// finished stroke, however many there were, and whatever else the frame
/// holds.
pub proof fn lemma_clear_empties_canvas(canvas: CanvasView, input: FrameInput)
    requires
        clear_requested(input.keyboard),
    ensures
        frame_step(canvas, input).points.len() == 0,
        frame_step(canvas, input).lines.len() == 0,
{
}

} // verus!
