//! The camera: a translation and a zoom level, moved by pan gestures and
//! zoomed by the scroll wheel.
//!
//! The camera keeps the logarithm of its scale, the zoom level, and takes
//! its scale from it (see [`crate::zoom`]). A zoom adds its whole distance to
//! the level, so that no scroll is too small to count; a level that would
//! leave the range from `-MAX_ZOOM` to `MAX_ZOOM` stops at its end.
//! Coordinates that would leave the range of a coordinate stop at its end
//! too.

use vstd::prelude::*;
use vstd::arithmetic::div_mod::lemma_fundamental_div_mod_converse;
use crate::fixed::{clamp, mul_div, saturate, trunc_div, ONE};
use crate::geometry::{Point, Translation};
use crate::input::{ButtonState, Keyboard, ScrollEvent, ScrollUnit, Window};
use crate::zoom::{scale_at, scale_of, MAX_ZOOM, STEP};

verus! {

/// Zoom distance of one scrolled line: 0.5, fixed-point.
pub const SCROLL_LINE_SCALE: i32 = 32768;

/// Zoom distance of one scrolled pixel: 1.0, fixed-point.
pub const SCROLL_PIXEL_SCALE: i32 = 65536;

/// The view onto the canvas.
#[derive(Clone, Copy, Debug, PartialEq, Eq, Structural)]
pub struct CameraState {
    pub translation: Translation,
    /// The logarithm of the scale to the zoom base, counted in `STEP`ths:
    /// zero is the scale one, `STEP` the scale two. The scale is the number
    /// of world units per window unit.
    pub zoom: i32,
}

/// Where a pan gesture began: the cursor position and the camera translation
/// of that moment.
#[derive(Clone, Copy, Debug, PartialEq, Eq, Structural)]
pub struct LastClicked {
    pub cursor: Point,
    pub camera: Translation,
}

/// `v` limited to the range of a coordinate.
pub open spec fn clamp_coord(v: int) -> int {
    clamp(v, i32::MIN as int, i32::MAX as int)
}

/// The coordinate `from` moved by `by`, where it stops at the end of the
/// coordinate range.
pub open spec fn moved(from: i32, by: int) -> i32 {
    clamp_coord(from + by) as i32
}

/// `level` limited to the range of the zoom level.
pub open spec fn clamp_zoom(level: int) -> int {
    clamp(level, -MAX_ZOOM, MAX_ZOOM as int)
}

/// The window distance `v` seen at `scale`, rounded toward zero.
pub open spec fn scaled(v: int, scale: int) -> int {
    trunc_div(v * scale, ONE as int)
}

/// The camera translation of a pan gesture that began at `anchor`, with the
/// cursor now at `cursor`: the anchored translation moved against the cursor
/// horizontally and with it vertically, by the cursor's way times the scale.
pub open spec fn pan_target(anchor: LastClicked, cursor: Point, scale: int) -> Translation {
    Translation {
        x: moved(anchor.camera.x, scaled(-(cursor.x - anchor.cursor.x), scale)),
        y: moved(anchor.camera.y, scaled(cursor.y - anchor.cursor.y, scale)),
        z: anchor.camera.z,
    }
}

/// Whether a pan gesture begins in this frame: modifier and button are both
/// down, and one of them went down just now.
pub open spec fn pan_begins(keyboard: Keyboard, mouse: ButtonState) -> bool {
    (keyboard.space.pressed && mouse.just_pressed) || (keyboard.space.just_pressed
        && mouse.pressed)
}

/// Whether a pan gesture is under way in this frame.
pub open spec fn pan_active(keyboard: Keyboard, mouse: ButtonState) -> bool {
    keyboard.space.pressed && mouse.pressed
}

/// The anchor after a frame with the cursor at `cursor`.
pub open spec fn anchor_step(
    anchor: LastClicked,
    camera: CameraState,
    cursor: Point,
    keyboard: Keyboard,
    mouse: ButtonState,
) -> LastClicked {
    if pan_begins(keyboard, mouse) {
        LastClicked { cursor, camera: camera.translation }
    } else {
        anchor
    }
}

/// The camera after a frame with the cursor at `cursor`, given the anchor
/// that holds after that frame.
pub open spec fn pan_step(
    camera: CameraState,
    anchor: LastClicked,
    cursor: Point,
    keyboard: Keyboard,
    mouse: ButtonState,
) -> CameraState {
    if pan_active(keyboard, mouse) {
        CameraState { translation: pan_target(anchor, cursor, camera.scale()), zoom: camera.zoom }
    } else {
        camera
    }
}

/// The calibration of a scroll unit: the zoom distance of one line or pixel.
pub open spec fn unit_scale(unit: ScrollUnit) -> int {
    match unit {
        ScrollUnit::Line => SCROLL_LINE_SCALE as int,
        ScrollUnit::Pixel => SCROLL_PIXEL_SCALE as int,
    }
}

/// The zoom distance of a scroll event, counted in `STEP`ths: the negated
/// magnitude times the calibration of its unit. With the two calibrations
/// that there are, the division leaves no remainder, so the distance keeps
/// every fraction of the magnitude.
pub open spec fn zoom_distance(event: ScrollEvent) -> int {
    trunc_div(-(event.magnitude * unit_scale(event.unit)) * STEP, ONE * ONE)
}

/// Half of `doubled_delta`, seen at `scale`, rounded toward zero. Distances
/// from the middle of the window are taken doubled, so that the middle of a
/// window of odd size needs no rounding.
pub open spec fn half_scaled(doubled_delta: int, scale: int) -> int {
    trunc_div(doubled_delta * scale, 2 * ONE)
}

/// The camera after one scroll event, with the cursor at `cursor` in a window
/// of the given size. The zoom distance of the event is added to the zoom
/// level, which multiplies the scale by the zoom base to the power of the
/// distance; the translation moves by the cursor's distance from the middle
/// of the window times the change of the scale, against the cursor
/// horizontally and with it vertically, so that the point under the cursor
/// stays where it is.
pub open spec fn zoom_step(
    camera: CameraState,
    width: int,
    height: int,
    cursor: Point,
    event: ScrollEvent,
) -> CameraState {
    let zoom = clamp_zoom(camera.zoom + zoom_distance(event));
    let change = scale_of(zoom) - camera.scale();
    CameraState {
        translation: Translation {
            x: moved(camera.translation.x, half_scaled(-(2 * cursor.x - width), change)),
            y: moved(camera.translation.y, half_scaled(2 * cursor.y - height, change)),
            z: camera.translation.z,
        },
        zoom: zoom as i32,
    }
}

/// The camera after a batch of scroll events, applied one after the other
/// with the same cursor position.
pub open spec fn zoom_all(
    camera: CameraState,
    width: int,
    height: int,
    cursor: Point,
    events: Seq<ScrollEvent>,
) -> CameraState
    decreases events.len(),
{
    if events.len() == 0 {
        camera
    } else {
        zoom_step(
            zoom_all(camera, width, height, cursor, events.drop_last()),
            width,
            height,
            cursor,
            events.last(),
        )
    }
}

impl CameraState {
    /// The zoom level lies in its range, and so the scale in its own, which
    /// makes it strictly positive.
    pub open spec fn wf(&self) -> bool {
        -MAX_ZOOM <= self.zoom <= MAX_ZOOM
    }

    /// The scale of the camera, fixed-point.
    pub open spec fn scale(self) -> int {
        scale_of(self.zoom as int)
    }

    /// Whether the zoom level lies in its range.
    pub fn is_wf(&self) -> (ok: bool)
        ensures
            ok == self.wf(),
    {
        -MAX_ZOOM <= self.zoom && self.zoom <= MAX_ZOOM
    }

    /// The camera at the origin with scale one, as a mathematical value.
    pub open spec fn identity_spec() -> CameraState {
        CameraState { translation: Translation { x: 0, y: 0, z: 0 }, zoom: 0 }
    }

    /// The camera at the origin with scale one.
    pub fn identity() -> (camera: CameraState)
        ensures
            camera.wf(),
            camera == Self::identity_spec(),
    {
        CameraState { translation: Translation { x: 0, y: 0, z: 0 }, zoom: 0 }
    }

    /// A camera with the given translation and zoom level, if the level lies
    /// in its range.
    pub fn new(translation: Translation, zoom: i32) -> (camera: Option<CameraState>)
        ensures
            camera is Some <==> -MAX_ZOOM <= zoom <= MAX_ZOOM,
            camera is Some ==> camera.unwrap() == (CameraState { translation, zoom }),
    {
        if -MAX_ZOOM <= zoom && zoom <= MAX_ZOOM {
            Some(CameraState { translation, zoom })
        } else {
            None
        }
    }

    /// The scale of the camera, fixed-point: the zoom base to the power of
    /// the zoom level.
    pub fn current_scale(&self) -> (scale: u32)
        requires
            self.wf(),
        ensures
            scale == self.scale(),
            scale > 0,
    {
        scale_at(self.zoom)
    }
}

impl LastClicked {
    /// The anchor before any pan gesture: all zero.
    pub fn origin() -> (anchor: LastClicked)
        ensures
            anchor == (LastClicked {
                cursor: Point { x: 0, y: 0 },
                camera: Translation { x: 0, y: 0, z: 0 },
            }),
    {
        LastClicked { cursor: Point { x: 0, y: 0 }, camera: Translation { x: 0, y: 0, z: 0 } }
    }
}

/// The coordinate `from` moved by `by`, where it stops at the end of the
/// coordinate range.
fn move_by(from: i32, by: i128) -> (to: i32)
    requires
        -0x4000_0000_0000_0000_0000_0000_0000_0000 <= by,
        by <= 0x4000_0000_0000_0000_0000_0000_0000_0000,
    ensures
        to == moved(from, by as int),
{
    saturate(from as i128 + by)
}

/// Pans the camera for one frame.
///
/// Without a window, or with the cursor outside it, nothing changes.
/// Otherwise the anchor is set to the cursor and the camera translation when
/// a gesture begins, and while modifier and button are both down the camera
/// translation follows the cursor from the anchor.
pub fn move_camera(
    camera: &mut CameraState,
    window: Option<&Window>,
    keyboard: &Keyboard,
    mouse: &ButtonState,
    last_clicked: &mut LastClicked,
)
    requires
        old(camera).wf(),
    ensures
        window is None || window.unwrap().cursor is None ==> *final(camera) == *old(camera)
            && *final(last_clicked) == *old(last_clicked),
        window is Some && window.unwrap().cursor is Some ==> {
            let cursor = window.unwrap().cursor.unwrap();
            &&& *final(last_clicked) == anchor_step(
                *old(last_clicked),
                *old(camera),
                cursor,
                *keyboard,
                *mouse,
            )
            &&& *final(camera) == pan_step(
                *old(camera),
                *final(last_clicked),
                cursor,
                *keyboard,
                *mouse,
            )
        },
        final(camera).zoom == old(camera).zoom,
{
    let cursor = match window {
        Some(w) => match w.cursor {
            Some(c) => c,
            None => {
                return ;
            },
        },
        None => {
            return ;
        },
    };
    if (keyboard.space.pressed && mouse.just_pressed) || (keyboard.space.just_pressed
        && mouse.pressed) {
        last_clicked.cursor = cursor;
        last_clicked.camera = camera.translation;
    }
    if keyboard.space.pressed && mouse.pressed {
        let dx: i64 = cursor.x as i64 - last_clicked.cursor.x as i64;
        let dy: i64 = cursor.y as i64 - last_clicked.cursor.y as i64;
        let scale: i64 = camera.current_scale() as i64;
        camera.translation = Translation {
            x: move_by(last_clicked.camera.x, mul_div(-dx, scale, ONE as i64)),
            y: move_by(last_clicked.camera.y, mul_div(dy, scale, ONE as i64)),
            z: last_clicked.camera.z,
        };
    }
}

/// The zoom distance of a scroll event is its negated magnitude, taken once
/// for a line and twice for a pixel: a line is half a step, a pixel a whole
/// one, and a magnitude of one is half a step in the units of the level.
pub proof fn lemma_zoom_distance(event: ScrollEvent)
    ensures
        event.unit == ScrollUnit::Line ==> zoom_distance(event) == -event.magnitude,
        event.unit == ScrollUnit::Pixel ==> zoom_distance(event) == -2 * event.magnitude,
{
    let m = event.magnitude as int;
    let size = if m >= 0 {
        m
    } else {
        -m
    };
    lemma_fundamental_div_mod_converse(size * 0x1_0000_0000, 0x1_0000_0000, size, 0);
    lemma_fundamental_div_mod_converse(2 * size * 0x1_0000_0000, 0x1_0000_0000, 2 * size, 0);
    assert(m * 32768 * 131072 == m * 0x1_0000_0000);
    assert(m * 65536 * 131072 == 2 * m * 0x1_0000_0000);
}

/// The zoom distance of a scroll event, counted in `STEP`ths.
pub fn scroll_distance(event: &ScrollEvent) -> (distance: i64)
    ensures
        distance == zoom_distance(*event),
{
    proof {
        lemma_zoom_distance(*event);
    }
    match event.unit {
        ScrollUnit::Line => -(event.magnitude as i64),
        ScrollUnit::Pixel => -2 * (event.magnitude as i64),
    }
}

/// The zoom level `zoom` after a zoom over `distance`, limited to the range
/// of the level.
pub fn zoom_level(zoom: i32, distance: i64) -> (level: i32)
    requires
        -MAX_ZOOM <= zoom <= MAX_ZOOM,
    ensures
        level == clamp_zoom(zoom + distance),
        -MAX_ZOOM <= level <= MAX_ZOOM,
{
    let sum: i128 = zoom as i128 + distance as i128;
    if sum < -(MAX_ZOOM as i128) {
        -MAX_ZOOM
    } else if sum > MAX_ZOOM as i128 {
        MAX_ZOOM
    } else {
        sum as i32
    }
}

/// The camera after one scroll event.
pub fn zoom_once(
    camera: &CameraState,
    width: i32,
    height: i32,
    cursor: Point,
    event: &ScrollEvent,
) -> (zoomed: CameraState)
    requires
        camera.wf(),
    ensures
        zoomed == zoom_step(*camera, width as int, height as int, cursor, *event),
        zoomed.wf(),
{
    let zoom = zoom_level(camera.zoom, scroll_distance(event));
    let change: i64 = scale_at(zoom) as i64 - camera.current_scale() as i64;
    let dx2: i64 = 2 * (cursor.x as i64) - width as i64;
    let dy2: i64 = 2 * (cursor.y as i64) - height as i64;
    CameraState {
        translation: Translation {
            x: move_by(camera.translation.x, mul_div(-dx2, change, 2 * (ONE as i64))),
            y: move_by(camera.translation.y, mul_div(dy2, change, 2 * (ONE as i64))),
            z: camera.translation.z,
        },
        zoom,
    }
}

/// Zooms the camera by the scroll events of one frame.
///
/// Without a window, or with the cursor outside it, nothing changes.
/// Otherwise the events are applied in the order in which they arrived, each
/// to the camera that the one before it left.
pub fn zoom_camera(window: Option<&Window>, camera: &mut CameraState, events: &Vec<ScrollEvent>)
    requires
        old(camera).wf(),
    ensures
        final(camera).wf(),
        window is None || window.unwrap().cursor is None ==> *final(camera) == *old(camera),
        window is Some && window.unwrap().cursor is Some ==> *final(camera) == zoom_all(
            *old(camera),
            window.unwrap().width as int,
            window.unwrap().height as int,
            window.unwrap().cursor.unwrap(),
            events@,
        ),
{
    let (width, height, cursor) = match window {
        Some(w) => match w.cursor {
            Some(c) => (w.width, w.height, c),
            None => {
                return ;
            },
        },
        None => {
            return ;
        },
    };
    let ghost start = *camera;
    let mut i: usize = 0;
    while i < events.len()
        invariant
            i <= events.len(),
            camera.wf(),
            *camera == zoom_all(start, width as int, height as int, cursor, events@.take(i as int)),
        decreases events.len() - i,
    {
        let next = zoom_once(camera, width, height, cursor, &events[i]);
        proof {
            let taken = events@.take(i + 1);
            assert(taken.drop_last() == events@.take(i as int));
            assert(taken.last() == events@[i as int]);
        }
        *camera = next;
        i = i + 1;
    }
    assert(events@.take(i as int) == events@);
}

} // verus!
