//! What holds of the camera over whole gestures: a pan forgets the way the
//! cursor took, a scroll of no magnitude does nothing, a greater scroll never
//! leaves a greater scale, a zoom is undone by the opposite zoom, and pan and
//! zoom keep the point under the cursor in place.

use vstd::prelude::*;
use vstd::arithmetic::div_mod::{
    lemma_div_is_ordered, lemma_div_pos_is_pos, lemma_fundamental_div_mod_converse,
};
use crate::camera::{
    anchor_step, clamp_zoom, half_scaled, lemma_zoom_distance, moved, pan_active, pan_begins,
    pan_step, pan_target, scaled, zoom_all, zoom_distance, zoom_step, CameraState, LastClicked,
};
use crate::fixed::{trunc_div, ONE, UNIT};
use crate::geometry::Point;
use crate::input::{ButtonState, Keyboard, ScrollEvent, ScrollUnit};
use crate::zoom::{
    lemma_scale_of_monotone, lemma_scale_of_range, lemma_scale_of_strict, MAX_ZOOM, STEP,
};

verus! {

/// One frame of a pan gesture, as a mathematical value.
pub ghost struct PanFrame {
    pub cursor: Point,
    pub keyboard: Keyboard,
    pub mouse: ButtonState,
}

/// Camera and anchor after a run of frames in each of which the cursor is
/// over the window.
pub open spec fn pan_frames(camera: CameraState, anchor: LastClicked, frames: Seq<PanFrame>) -> (
    CameraState,
    LastClicked,
)
    decreases frames.len(),
{
    if frames.len() == 0 {
        (camera, anchor)
    } else {
        let (before, held) = pan_frames(camera, anchor, frames.drop_last());
        let f = frames.last();
        let next = anchor_step(held, before, f.cursor, f.keyboard, f.mouse);
        (pan_step(before, next, f.cursor, f.keyboard, f.mouse), next)
    }
}

/// The world position that a camera shows at `cursor` in a window of the
/// given size, for a camera that shows its translation in the middle of the
/// window and one world unit per window unit at scale one, with the vertical
/// axis turned around: window coordinates grow downward, world coordinates
/// upward. Pan and zoom move the translation so as to keep this position.
pub open spec fn shown_position(
    camera: CameraState,
    width: int,
    height: int,
    cursor: Point,
) -> Point {
    Point {
        x: moved(camera.translation.x, half_scaled(2 * cursor.x - width, camera.scale())),
        y: moved(camera.translation.y, half_scaled(-(2 * cursor.y - height), camera.scale())),
    }
}

/// A pan depends on where it began and where the cursor is now, and on
/// nothing in between: after any run of frames of one gesture, the camera
/// translation is the pan target of the anchor and the last cursor position,
/// whatever the cursor positions of the earlier frames were. Zoom and anchor
/// are as before.
pub proof fn lemma_pan_ignores_intermediate_frames(
    camera: CameraState,
    anchor: LastClicked,
    frames: Seq<PanFrame>,
)
    requires
        frames.len() > 0,
        forall|i: int|
            0 <= i < frames.len() ==> pan_active(#[trigger] frames[i].keyboard, frames[i].mouse)
                && !pan_begins(frames[i].keyboard, frames[i].mouse),
    ensures
        pan_frames(camera, anchor, frames).0.translation == pan_target(
            anchor,
            frames.last().cursor,
            camera.scale(),
        ),
        pan_frames(camera, anchor, frames).0.zoom == camera.zoom,
        pan_frames(camera, anchor, frames).1 == anchor,
    decreases frames.len(),
{
    let earlier = frames.drop_last();
    if earlier.len() > 0 {
        assert forall|i: int| 0 <= i < earlier.len() implies pan_active(
            #[trigger] earlier[i].keyboard,
            earlier[i].mouse,
        ) && !pan_begins(earlier[i].keyboard, earlier[i].mouse) by {
            assert(earlier[i] == frames[i]);
        }
        lemma_pan_ignores_intermediate_frames(camera, anchor, earlier);
    } else {
        assert(pan_frames(camera, anchor, earlier) == (camera, anchor));
    }
    assert(pan_active(frames[frames.len() - 1].keyboard, frames[frames.len() - 1].mouse));
}

/// A window of up to 16384 units on each side fits the world at every scale
/// of the camera, as long as the camera translation stays within 4194304
/// units of the origin: no position that the camera shows in the window runs
/// into the end of the coordinate range.
pub proof fn lemma_window_fits_world(camera: CameraState, width: int, height: int, cursor: Point)
    requires
        camera.wf(),
        0 <= cursor.x <= width <= 16384 * UNIT,
        0 <= cursor.y <= height <= 16384 * UNIT,
        -4194304 * UNIT <= camera.translation.x <= 4194304 * UNIT,
        -4194304 * UNIT <= camera.translation.y <= 4194304 * UNIT,
    ensures
        ({
            let scale = camera.scale();
            &&& shown_position(camera, width, height, cursor).x == camera.translation.x
                + half_scaled(2 * cursor.x - width, scale)
            &&& shown_position(camera, width, height, cursor).y == camera.translation.y
                + half_scaled(-(2 * cursor.y - height), scale)
            &&& i32::MIN < shown_position(camera, width, height, cursor).x < i32::MAX
            &&& i32::MIN < shown_position(camera, width, height, cursor).y < i32::MAX
        }),
{
    let scale = camera.scale();
    lemma_scale_of_range(camera.zoom as int);
    lemma_half_scaled_bound(2 * cursor.x - width, scale);
    lemma_half_scaled_bound(-(2 * cursor.y - height), scale);
}

/// Half of a distance of at most 16384 units, seen at a scale of at most
/// 256, is at most 2097152 units.
proof fn lemma_half_scaled_bound(doubled_delta: int, scale: int)
    requires
        -0x40_0000 <= doubled_delta <= 0x40_0000,
        0 <= scale <= 0x100_0000,
    ensures
        -0x2000_0000 <= half_scaled(doubled_delta, scale) <= 0x2000_0000,
{
    let p = doubled_delta * scale;
    assert(-0x4000_0000_0000 <= p <= 0x4000_0000_0000) by (nonlinear_arith)
        requires
            p == doubled_delta * scale,
            -0x40_0000 <= doubled_delta <= 0x40_0000,
            0 <= scale <= 0x100_0000,
    ;
    let size = if p >= 0 {
        p
    } else {
        -p
    };
    lemma_div_pos_is_pos(size, 131072);
    lemma_div_is_ordered(size, 0x4000_0000_0000, 131072);
    lemma_fundamental_div_mod_converse(0x4000_0000_0000, 131072, 0x2000_0000, 0);
}

/// A pan drags the canvas: the world position that was under the cursor when
/// the gesture began is under the cursor wherever the cursor goes, up to one
/// unit of the last place in each coordinate, as long as neither that
/// position nor the camera translation runs into the end of the coordinate
/// range.
pub proof fn lemma_pan_keeps_grabbed_position(
    camera: CameraState,
    width: int,
    height: int,
    grabbed_at: Point,
    cursor: Point,
)
    requires
        ({
            let scale = camera.scale();
            let gx = 2 * grabbed_at.x - width;
            let gy = 2 * grabbed_at.y - height;
            let cx = 2 * cursor.x - width;
            let cy = 2 * cursor.y - height;
            let anchor = LastClicked { cursor: grabbed_at, camera: camera.translation };
            let panned = pan_target(anchor, cursor, scale);
            &&& i32::MIN <= camera.translation.x + half_scaled(gx, scale) <= i32::MAX
            &&& i32::MIN <= camera.translation.y + half_scaled(-gy, scale) <= i32::MAX
            &&& i32::MIN <= camera.translation.x + scaled(-(cursor.x - grabbed_at.x), scale)
                <= i32::MAX
            &&& i32::MIN <= camera.translation.y + scaled(cursor.y - grabbed_at.y, scale)
                <= i32::MAX
            &&& i32::MIN <= panned.x + half_scaled(cx, scale) <= i32::MAX
            &&& i32::MIN <= panned.y + half_scaled(-cy, scale) <= i32::MAX
        }),
    ensures
        ({
            let anchor = LastClicked { cursor: grabbed_at, camera: camera.translation };
            let panned = CameraState {
                translation: pan_target(anchor, cursor, camera.scale()),
                zoom: camera.zoom,
            };
            let before = shown_position(camera, width, height, grabbed_at);
            let after = shown_position(panned, width, height, cursor);
            &&& -1 <= after.x - before.x <= 1
            &&& -1 <= after.y - before.y <= 1
        }),
{
    let scale = camera.scale();
    let dx = cursor.x - grabbed_at.x;
    let dy = cursor.y - grabbed_at.y;
    let gx = 2 * grabbed_at.x - width;
    let gy = 2 * grabbed_at.y - height;
    let cx = 2 * cursor.x - width;
    let cy = 2 * cursor.y - height;
    // the pan, taken doubled like the distances from the middle of the window
    lemma_trunc_div_doubled((-dx) * scale);
    lemma_trunc_div_doubled(dy * scale);
    assert(2 * ((-dx) * scale) + cx * scale == gx * scale) by (nonlinear_arith)
        requires
            cx == gx + 2 * dx,
    ;
    assert(2 * (dy * scale) + (-cy) * scale == (-gy) * scale) by (nonlinear_arith)
        requires
            cy == gy + 2 * dy,
    ;
    lemma_trunc_div_adds(2 * ((-dx) * scale), cx * scale);
    lemma_trunc_div_adds(2 * (dy * scale), (-cy) * scale);
}

/// A scroll event of magnitude zero leaves zoom and translation as they are.
pub proof fn lemma_zero_scroll_keeps_camera(
    camera: CameraState,
    width: int,
    height: int,
    cursor: Point,
    unit: ScrollUnit,
)
    requires
        camera.wf(),
    ensures
        zoom_step(camera, width, height, cursor, ScrollEvent { unit, magnitude: 0 }) == camera,
{
    lemma_zoom_distance(ScrollEvent { unit, magnitude: 0 });
    assert((-(2 * cursor.x - width)) * 0 == 0) by (nonlinear_arith);
    assert((2 * cursor.y - height) * 0 == 0) by (nonlinear_arith);
}

/// A batch of scroll events that all have magnitude zero leaves the camera
/// as it is.
pub proof fn lemma_zero_scrolls_keep_camera(
    camera: CameraState,
    width: int,
    height: int,
    cursor: Point,
    events: Seq<ScrollEvent>,
)
    requires
        camera.wf(),
        forall|i: int| 0 <= i < events.len() ==> (#[trigger] events[i]).magnitude == 0,
    ensures
        zoom_all(camera, width, height, cursor, events) == camera,
    decreases events.len(),
{
    if events.len() > 0 {
        let earlier = events.drop_last();
        assert forall|i: int| 0 <= i < earlier.len() implies (#[trigger] earlier[i]).magnitude
            == 0 by {
            assert(earlier[i] == events[i]);
        }
        lemma_zero_scrolls_keep_camera(camera, width, height, cursor, earlier);
        let last = events[events.len() - 1];
        lemma_zero_scroll_keeps_camera(camera, width, height, cursor, last.unit);
        assert(last == (ScrollEvent { unit: last.unit, magnitude: 0 }));
    }
}

/// Every scroll counts: an event of positive magnitude lowers the zoom level
/// unless it stands at its lower end, one of negative magnitude raises it
/// unless it stands at its upper end, and the scale follows the level: it
/// never grows under a positive magnitude and never shrinks under a negative
/// one.
pub proof fn lemma_scroll_moves_zoom(
    camera: CameraState,
    width: int,
    height: int,
    cursor: Point,
    event: ScrollEvent,
)
    requires
        camera.wf(),
    ensures
        ({
            let zoomed = zoom_step(camera, width, height, cursor, event);
            &&& event.magnitude > 0 && camera.zoom > -MAX_ZOOM ==> zoomed.zoom < camera.zoom
            &&& event.magnitude < 0 && camera.zoom < MAX_ZOOM ==> zoomed.zoom > camera.zoom
            &&& event.magnitude > 0 ==> zoomed.scale() <= camera.scale()
            &&& event.magnitude < 0 ==> zoomed.scale() >= camera.scale()
        }),
{
    lemma_zoom_distance(event);
    let level = clamp_zoom(camera.zoom + zoom_distance(event));
    if event.magnitude > 0 {
        lemma_scale_of_monotone(level, camera.zoom as int);
    } else if event.magnitude < 0 {
        lemma_scale_of_monotone(camera.zoom as int, level);
    }
}

/// A scroll over half a step or more, which is one line or half a pixel,
/// always shows in the scale: it lowers or raises the scale strictly, as
/// long as the zoom level has half a step left before the end of its range.
pub proof fn lemma_scroll_changes_scale(
    camera: CameraState,
    width: int,
    height: int,
    cursor: Point,
    event: ScrollEvent,
)
    requires
        camera.wf(),
    ensures
        ({
            let zoomed = zoom_step(camera, width, height, cursor, event);
            &&& zoom_distance(event) <= -(STEP / 2) && camera.zoom - STEP / 2 >= -MAX_ZOOM
                ==> zoomed.scale() < camera.scale()
            &&& zoom_distance(event) >= STEP / 2 && camera.zoom + STEP / 2 <= MAX_ZOOM
                ==> zoomed.scale() > camera.scale()
        }),
{
    let level = clamp_zoom(camera.zoom + zoom_distance(event));
    if zoom_distance(event) <= -(STEP / 2) && camera.zoom - STEP / 2 >= -MAX_ZOOM {
        lemma_scale_of_strict(level, camera.zoom as int);
    }
    if zoom_distance(event) >= STEP / 2 && camera.zoom + STEP / 2 <= MAX_ZOOM {
        lemma_scale_of_strict(camera.zoom as int, level);
    }
}

/// A greater magnitude never leaves a greater scale: of two scroll events of
/// one unit, the one of the greater magnitude leaves the zoom level and the
/// scale no higher than the other.
pub proof fn lemma_greater_scroll_never_greater_scale(
    camera: CameraState,
    width: int,
    height: int,
    cursor: Point,
    unit: ScrollUnit,
    less: i32,
    more: i32,
)
    requires
        camera.wf(),
        less <= more,
    ensures
        ({
            let after_less = zoom_step(
                camera,
                width,
                height,
                cursor,
                ScrollEvent { unit, magnitude: less },
            );
            let after_more = zoom_step(
                camera,
                width,
                height,
                cursor,
                ScrollEvent { unit, magnitude: more },
            );
            &&& after_more.zoom <= after_less.zoom
            &&& after_more.scale() <= after_less.scale()
        }),
{
    let e_less = ScrollEvent { unit, magnitude: less };
    let e_more = ScrollEvent { unit, magnitude: more };
    lemma_zoom_distance(e_less);
    lemma_zoom_distance(e_more);
    lemma_scale_of_monotone(
        clamp_zoom(camera.zoom + zoom_distance(e_more)),
        clamp_zoom(camera.zoom + zoom_distance(e_less)),
    );
}

/// A zoom is undone by the opposite zoom: a scroll event followed by one of
/// the opposite zoom distance returns the zoom level, and with it the scale,
/// to exactly what it was, wherever the cursor is during either, provided
/// that the first zoom does not run into an end of the zoom range.
pub proof fn lemma_zoom_round_trip(
    camera: CameraState,
    width: int,
    height: int,
    cursor: Point,
    event: ScrollEvent,
    back_width: int,
    back_height: int,
    back_cursor: Point,
    back_event: ScrollEvent,
)
    requires
        camera.wf(),
        zoom_distance(back_event) == -zoom_distance(event),
        -MAX_ZOOM <= camera.zoom + zoom_distance(event) <= MAX_ZOOM,
    ensures
        ({
            let there = zoom_step(camera, width, height, cursor, event);
            let back = zoom_step(there, back_width, back_height, back_cursor, back_event);
            &&& back.zoom == camera.zoom
            &&& back.scale() == camera.scale()
        }),
{
}

/// When a zoom and a second zoom, with the cursor at the same place in the
/// same window, bring the zoom level back to what it was, they bring the
/// translation back too, provided that the first zoom did not push the
/// translation to the end of the coordinate range.
pub proof fn lemma_zoom_round_trip_restores_translation(
    camera: CameraState,
    width: int,
    height: int,
    cursor: Point,
    event: ScrollEvent,
    back_event: ScrollEvent,
)
    requires
        camera.wf(),
        zoom_step(
            zoom_step(camera, width, height, cursor, event),
            width,
            height,
            cursor,
            back_event,
        ).zoom == camera.zoom,
        ({
            let change = zoom_step(camera, width, height, cursor, event).scale() - camera.scale();
            &&& i32::MIN <= camera.translation.x + half_scaled(-(2 * cursor.x - width), change)
                <= i32::MAX
            &&& i32::MIN <= camera.translation.y + half_scaled(2 * cursor.y - height, change)
                <= i32::MAX
        }),
    ensures
        zoom_step(
            zoom_step(camera, width, height, cursor, event),
            width,
            height,
            cursor,
            back_event,
        ) == camera,
{
    let there = zoom_step(camera, width, height, cursor, event);
    let change = there.scale() - camera.scale();
    lemma_half_scaled_odd(-(2 * cursor.x - width), change);
    lemma_half_scaled_odd(2 * cursor.y - height, change);
}

/// Whether a zoom by `event` stays clear of the ends of the coordinate
/// range: neither the camera translation nor the position under the cursor,
/// before or after, runs into them.
pub open spec fn zoom_stays_inside(
    camera: CameraState,
    width: int,
    height: int,
    cursor: Point,
    event: ScrollEvent,
) -> bool {
    let zoomed = zoom_step(camera, width, height, cursor, event);
    let change = zoomed.scale() - camera.scale();
    let dx = 2 * cursor.x - width;
    let dy = 2 * cursor.y - height;
    &&& i32::MIN <= camera.translation.x + half_scaled(dx, camera.scale()) <= i32::MAX
    &&& i32::MIN <= camera.translation.y + half_scaled(-dy, camera.scale()) <= i32::MAX
    &&& i32::MIN <= camera.translation.x + half_scaled(-dx, change) <= i32::MAX
    &&& i32::MIN <= camera.translation.y + half_scaled(dy, change) <= i32::MAX
    &&& i32::MIN <= zoomed.translation.x + half_scaled(dx, zoomed.scale()) <= i32::MAX
    &&& i32::MIN <= zoomed.translation.y + half_scaled(-dy, zoomed.scale()) <= i32::MAX
}

/// Whether every zoom of a batch stays clear of the ends of the coordinate
/// range.
pub open spec fn zooms_stay_inside(
    camera: CameraState,
    width: int,
    height: int,
    cursor: Point,
    events: Seq<ScrollEvent>,
) -> bool
    decreases events.len(),
{
    events.len() == 0 || (zooms_stay_inside(camera, width, height, cursor, events.drop_last())
        && zoom_stays_inside(
        zoom_all(camera, width, height, cursor, events.drop_last()),
        width,
        height,
        cursor,
        events.last(),
    ))
}

/// A zoom keeps the world position under the cursor where it was, up to one
/// unit of the last place in each coordinate, as long as it stays clear of
/// the ends of the coordinate range.
pub proof fn lemma_zoom_keeps_cursor_position(
    camera: CameraState,
    width: int,
    height: int,
    cursor: Point,
    event: ScrollEvent,
)
    requires
        camera.wf(),
        zoom_stays_inside(camera, width, height, cursor, event),
    ensures
        ({
            let before = shown_position(camera, width, height, cursor);
            let after = shown_position(
                zoom_step(camera, width, height, cursor, event),
                width,
                height,
                cursor,
            );
            &&& -1 <= after.x - before.x <= 1
            &&& -1 <= after.y - before.y <= 1
        }),
{
    let zoomed = zoom_step(camera, width, height, cursor, event);
    let s = camera.scale();
    let t = zoomed.scale();
    let dx = 2 * cursor.x - width;
    let dy = 2 * cursor.y - height;
    lemma_half_scaled_odd(dx, t - s);
    lemma_half_scaled_odd(-dy, t - s);
    assert(dx * s + dx * (t - s) == dx * t) by (nonlinear_arith);
    assert((-dy) * s + (-dy) * (t - s) == (-dy) * t) by (nonlinear_arith);
    assert((-dx) * (t - s) == dx * -(t - s)) by (nonlinear_arith);
    assert(dy * (t - s) == (-dy) * -(t - s)) by (nonlinear_arith);
    lemma_trunc_div_adds(dx * s, dx * (t - s));
    lemma_trunc_div_adds((-dy) * s, (-dy) * (t - s));
}

/// A batch of zooms leaves a camera whose zoom level lies in its range.
pub proof fn lemma_zoom_all_in_range(
    camera: CameraState,
    width: int,
    height: int,
    cursor: Point,
    events: Seq<ScrollEvent>,
)
    requires
        camera.wf(),
    ensures
        zoom_all(camera, width, height, cursor, events).wf(),
    decreases events.len(),
{
    if events.len() > 0 {
        lemma_zoom_all_in_range(camera, width, height, cursor, events.drop_last());
    }
}

/// A batch of zooms keeps the world position under the cursor where it was,
/// up to one unit of the last place for each event and in each coordinate,
/// as long as every zoom stays clear of the ends of the coordinate range.
pub proof fn lemma_zooms_keep_cursor_position(
    camera: CameraState,
    width: int,
    height: int,
    cursor: Point,
    events: Seq<ScrollEvent>,
)
    requires
        camera.wf(),
        zooms_stay_inside(camera, width, height, cursor, events),
    ensures
        ({
            let before = shown_position(camera, width, height, cursor);
            let after = shown_position(
                zoom_all(camera, width, height, cursor, events),
                width,
                height,
                cursor,
            );
            &&& -events.len() <= after.x - before.x <= events.len()
            &&& -events.len() <= after.y - before.y <= events.len()
        }),
    decreases events.len(),
{
    if events.len() > 0 {
        let earlier = events.drop_last();
        lemma_zooms_keep_cursor_position(camera, width, height, cursor, earlier);
        lemma_zoom_all_in_range(camera, width, height, cursor, earlier);
        lemma_zoom_keeps_cursor_position(
            zoom_all(camera, width, height, cursor, earlier),
            width,
            height,
            cursor,
            events.last(),
        );
    }
}

/// Rounding toward zero commutes with addition up to one.
proof fn lemma_trunc_div_adds(x: int, y: int)
    ensures
        -1 <= trunc_div(x + y, 2 * ONE) - trunc_div(x, 2 * ONE) - trunc_div(y, 2 * ONE) <= 1,
{
}

/// Doubling both sides of a division does not change it.
proof fn lemma_trunc_div_doubled(p: int)
    ensures
        trunc_div(2 * p, 2 * ONE) == trunc_div(p, ONE as int),
{
    let m = if p >= 0 {
        p
    } else {
        -p
    };
    let q = m / 65536;
    let r = m % 65536;
    lemma_fundamental_div_mod_converse(2 * m, 131072, q, 2 * r);
}

/// Reversing the change of scale reverses the shift.
proof fn lemma_half_scaled_odd(doubled_delta: int, scale_change: int)
    ensures
        half_scaled(doubled_delta, -scale_change) == -half_scaled(doubled_delta, scale_change),
{
    assert(doubled_delta * (-scale_change) == -(doubled_delta * scale_change))
        by (nonlinear_arith);
}

} // verus!
