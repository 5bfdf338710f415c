use sketch_canvas::camera::{
    move_camera, scroll_distance, zoom_camera, zoom_level, zoom_once, CameraState, LastClicked,
    SCROLL_LINE_SCALE, SCROLL_PIXEL_SCALE,
};
use sketch_canvas::fixed::{ONE, UNIT};
use sketch_canvas::geometry::{Point, Translation};
use sketch_canvas::input::{ButtonState, Keyboard, ScrollEvent, ScrollUnit, Window};
use sketch_canvas::zoom::{MAX_ZOOM, STEP};

fn px(x: i32, y: i32) -> Point {
    Point { x: x * UNIT, y: y * UNIT }
}

fn shift(x: i32, y: i32, z: i32) -> Translation {
    Translation { x: x * UNIT, y: y * UNIT, z: z * UNIT }
}

fn window_with_cursor(x: i32, y: i32) -> Window {
    Window { width: 800 * UNIT, height: 600 * UNIT, cursor: Some(px(x, y)) }
}

fn went_down() -> ButtonState {
    ButtonState { pressed: true, just_pressed: true, just_released: false }
}

fn is_down() -> ButtonState {
    ButtonState { pressed: true, just_pressed: false, just_released: false }
}

fn went_up() -> ButtonState {
    ButtonState { pressed: false, just_pressed: false, just_released: true }
}

fn space(state: ButtonState) -> Keyboard {
    let mut k = Keyboard::idle();
    k.space = state;
    k
}

fn line(lines: i32) -> ScrollEvent {
    ScrollEvent { unit: ScrollUnit::Line, magnitude: lines * ONE }
}

fn pixel(pixels: i32) -> ScrollEvent {
    ScrollEvent { unit: ScrollUnit::Pixel, magnitude: pixels * ONE }
}

fn raw(unit: ScrollUnit, magnitude: i32) -> ScrollEvent {
    ScrollEvent { unit, magnitude }
}

fn camera_at(t: Translation, zoom: i32) -> CameraState {
    CameraState::new(t, zoom).unwrap()
}

/// The position that a camera shows under the cursor, by the formula that
/// pan and zoom are made for.
fn shown(camera: &CameraState, width: i32, height: i32, cursor: Point) -> (i64, i64) {
    let scale = camera.current_scale() as i64;
    let dx = (2 * cursor.x as i64 - width as i64) * scale / (2 * ONE as i64);
    let dy = -(2 * cursor.y as i64 - height as i64) * scale / (2 * ONE as i64);
    (camera.translation.x as i64 + dx, camera.translation.y as i64 + dy)
}

#[test]
fn identity_camera_sits_at_the_origin_with_scale_one() {
    let c = CameraState::identity();
    assert_eq!(c.translation, shift(0, 0, 0));
    assert_eq!(c.zoom, 0);
    assert_eq!(c.current_scale(), ONE as u32);
}

#[test]
fn camera_zoom_must_lie_in_its_range() {
    let t = shift(1, 2, 3);
    assert_eq!(CameraState::new(t, 0), Some(CameraState { translation: t, zoom: 0 }));
    assert!(CameraState::new(t, -MAX_ZOOM).is_some());
    assert!(CameraState::new(t, MAX_ZOOM).is_some());
    assert_eq!(CameraState::new(t, -MAX_ZOOM - 1), None);
    assert_eq!(CameraState::new(t, MAX_ZOOM + 1), None);
    assert_eq!(CameraState::new(t, i32::MIN), None);
    assert!(CameraState { translation: t, zoom: MAX_ZOOM }.is_wf());
    assert!(!CameraState { translation: t, zoom: MAX_ZOOM + 1 }.is_wf());
}

#[test]
fn pan_follows_the_cursor_from_the_anchor() {
    let mut camera = CameraState::identity();
    let mut anchor = LastClicked::origin();
    move_camera(
        &mut camera,
        Some(&window_with_cursor(100, 100)),
        &space(is_down()),
        &went_down(),
        &mut anchor,
    );
    assert_eq!(anchor, LastClicked { cursor: px(100, 100), camera: shift(0, 0, 0) });
    assert_eq!(camera.translation, shift(0, 0, 0));
    move_camera(
        &mut camera,
        Some(&window_with_cursor(150, 80)),
        &space(is_down()),
        &is_down(),
        &mut anchor,
    );
    assert_eq!(camera.translation, shift(-50, -20, 0));
    assert_eq!(camera.zoom, 0);
    assert_eq!(anchor, LastClicked { cursor: px(100, 100), camera: shift(0, 0, 0) });
}

#[test]
fn pan_begins_when_the_modifier_comes_second() {
    let mut camera = camera_at(shift(7, 8, 9), 0);
    let mut anchor = LastClicked::origin();
    move_camera(
        &mut camera,
        Some(&window_with_cursor(10, 10)),
        &space(went_down()),
        &is_down(),
        &mut anchor,
    );
    assert_eq!(anchor, LastClicked { cursor: px(10, 10), camera: shift(7, 8, 9) });
    move_camera(
        &mut camera,
        Some(&window_with_cursor(11, 12)),
        &space(is_down()),
        &is_down(),
        &mut anchor,
    );
    assert_eq!(camera.translation, shift(6, 10, 9));
}

#[test]
fn pan_moves_by_the_cursor_way_times_the_scale() {
    let mut camera = camera_at(shift(0, 0, 0), STEP);
    assert_eq!(camera.current_scale(), 2 * ONE as u32);
    let mut anchor = LastClicked { cursor: px(100, 100), camera: shift(0, 0, 0) };
    move_camera(
        &mut camera,
        Some(&window_with_cursor(150, 80)),
        &space(is_down()),
        &is_down(),
        &mut anchor,
    );
    assert_eq!(camera.translation, shift(-100, -40, 0));
    assert_eq!(camera.zoom, STEP);
}

#[test]
fn pan_at_the_largest_scale_stays_inside_the_world() {
    let mut camera = camera_at(shift(0, 0, 0), MAX_ZOOM);
    assert_eq!(camera.current_scale(), 256 * ONE as u32);
    let mut anchor = LastClicked { cursor: px(0, 0), camera: shift(0, 0, 0) };
    move_camera(
        &mut camera,
        Some(&window_with_cursor(800, 600)),
        &space(is_down()),
        &is_down(),
        &mut anchor,
    );
    assert_eq!(camera.translation, shift(-204800, 153600, 0));
}

#[test]
fn pan_rounds_toward_zero_in_both_directions() {
    // the scale is the square root of two
    let mut camera = camera_at(Translation { x: 0, y: 0, z: 0 }, STEP / 2);
    assert_eq!(camera.current_scale(), 92681);
    let mut anchor = LastClicked { cursor: Point { x: 0, y: 0 }, camera: camera.translation };
    let w = Window { width: 800 * UNIT, height: 600 * UNIT, cursor: Some(Point { x: 3, y: -3 }) };
    move_camera(&mut camera, Some(&w), &space(is_down()), &is_down(), &mut anchor);
    // 3 * 1.414 = 4.24
    assert_eq!(camera.translation, Translation { x: -4, y: -4, z: 0 });
    let v = Window { width: 800 * UNIT, height: 600 * UNIT, cursor: Some(Point { x: -3, y: 3 }) };
    move_camera(&mut camera, Some(&v), &space(is_down()), &is_down(), &mut anchor);
    assert_eq!(camera.translation, Translation { x: 4, y: 4, z: 0 });
}

#[test]
fn pan_does_not_depend_on_the_frames_in_between() {
    let start = camera_at(shift(3, -4, 1), STEP);
    let mut direct = start;
    let mut direct_anchor = LastClicked::origin();
    let mut wandering = start;
    let mut wandering_anchor = LastClicked::origin();
    let down = space(is_down());
    let begin = window_with_cursor(40, 40);
    move_camera(&mut direct, Some(&begin), &down, &went_down(), &mut direct_anchor);
    move_camera(&mut wandering, Some(&begin), &down, &went_down(), &mut wandering_anchor);
    for (x, y) in [(700, 3), (-20, 599), (41, 41), (0, 0), (333, 222)] {
        let there = window_with_cursor(x, y);
        move_camera(&mut wandering, Some(&there), &down, &is_down(), &mut wandering_anchor);
    }
    let end = window_with_cursor(90, 10);
    move_camera(&mut direct, Some(&end), &down, &is_down(), &mut direct_anchor);
    move_camera(&mut wandering, Some(&end), &down, &is_down(), &mut wandering_anchor);
    assert_eq!(direct, wandering);
    assert_eq!(direct_anchor, wandering_anchor);
    // anchor (3, -4), cursor moved by (50, -30), scale 2
    assert_eq!(direct.translation, shift(3 - 100, -4 - 60, 1));
}

#[test]
fn pan_ends_when_modifier_or_button_goes_up() {
    let mut camera = CameraState::identity();
    let mut anchor = LastClicked::origin();
    let held = space(is_down());
    move_camera(&mut camera, Some(&window_with_cursor(5, 5)), &held, &went_down(), &mut anchor);
    move_camera(&mut camera, Some(&window_with_cursor(6, 6)), &held, &is_down(), &mut anchor);
    let panned = camera;
    move_camera(&mut camera, Some(&window_with_cursor(50, 50)), &held, &went_up(), &mut anchor);
    assert_eq!(camera, panned);
    let gone = space(went_up());
    move_camera(&mut camera, Some(&window_with_cursor(60, 60)), &gone, &is_down(), &mut anchor);
    assert_eq!(camera, panned);
    let idle = Keyboard::idle();
    move_camera(&mut camera, Some(&window_with_cursor(70, 70)), &idle, &is_down(), &mut anchor);
    assert_eq!(camera, panned);
    assert_eq!(anchor.cursor, px(5, 5));
}

#[test]
fn new_gesture_anchors_again() {
    let mut camera = CameraState::identity();
    let mut anchor = LastClicked::origin();
    let held = space(is_down());
    move_camera(&mut camera, Some(&window_with_cursor(5, 5)), &held, &went_down(), &mut anchor);
    move_camera(&mut camera, Some(&window_with_cursor(15, 5)), &held, &is_down(), &mut anchor);
    assert_eq!(camera.translation, shift(-10, 0, 0));
    move_camera(&mut camera, Some(&window_with_cursor(15, 5)), &held, &went_up(), &mut anchor);
    move_camera(&mut camera, Some(&window_with_cursor(200, 200)), &held, &went_down(), &mut anchor);
    assert_eq!(anchor, LastClicked { cursor: px(200, 200), camera: shift(-10, 0, 0) });
    assert_eq!(camera.translation, shift(-10, 0, 0));
    move_camera(&mut camera, Some(&window_with_cursor(200, 210)), &held, &is_down(), &mut anchor);
    assert_eq!(camera.translation, shift(-10, 10, 0));
}

#[test]
fn pan_is_skipped_without_window_or_cursor() {
    let mut camera = camera_at(shift(1, 1, 1), 0);
    let mut anchor = LastClicked { cursor: px(9, 9), camera: shift(2, 2, 2) };
    move_camera(&mut camera, None, &space(is_down()), &went_down(), &mut anchor);
    assert_eq!(camera, camera_at(shift(1, 1, 1), 0));
    assert_eq!(anchor, LastClicked { cursor: px(9, 9), camera: shift(2, 2, 2) });
    let outside = Window { width: 800 * UNIT, height: 600 * UNIT, cursor: None };
    move_camera(&mut camera, Some(&outside), &space(is_down()), &went_down(), &mut anchor);
    assert_eq!(camera, camera_at(shift(1, 1, 1), 0));
    assert_eq!(anchor, LastClicked { cursor: px(9, 9), camera: shift(2, 2, 2) });
}

#[test]
fn pan_stops_at_the_end_of_the_coordinate_range() {
    let far = Translation { x: i32::MAX - 10, y: i32::MIN + 10, z: 5 };
    let mut camera = camera_at(far, 0);
    let mut anchor = LastClicked { cursor: Point { x: 0, y: 0 }, camera: far };
    let w = Window {
        width: 800 * UNIT,
        height: 600 * UNIT,
        cursor: Some(Point { x: -100, y: -100 }),
    };
    move_camera(&mut camera, Some(&w), &space(is_down()), &is_down(), &mut anchor);
    assert_eq!(camera.translation, Translation { x: i32::MAX, y: i32::MIN, z: 5 });
    let widest = Window {
        width: 800 * UNIT,
        height: 600 * UNIT,
        cursor: Some(Point { x: i32::MIN, y: i32::MIN }),
    };
    let mut wide_anchor = LastClicked { cursor: Point { x: i32::MAX, y: i32::MAX }, camera: far };
    let mut big = camera_at(far, MAX_ZOOM);
    move_camera(&mut big, Some(&widest), &space(is_down()), &is_down(), &mut wide_anchor);
    assert_eq!(big.translation, Translation { x: i32::MAX, y: i32::MIN, z: 5 });
}

#[test]
fn scroll_calibration() {
    assert_eq!(SCROLL_LINE_SCALE as f64 / ONE as f64, 0.5);
    assert_eq!(SCROLL_PIXEL_SCALE as f64 / ONE as f64, 1.0);
}

#[test]
fn scroll_distance_negates_and_calibrates() {
    // a line is half a step, a pixel a whole one
    assert_eq!(scroll_distance(&line(1)), -(STEP as i64) / 2);
    assert_eq!(scroll_distance(&line(-3)), 3 * STEP as i64 / 2);
    assert_eq!(scroll_distance(&pixel(1)), -(STEP as i64));
    assert_eq!(scroll_distance(&pixel(-5)), 5 * STEP as i64);
    assert_eq!(scroll_distance(&line(0)), 0);
    assert_eq!(scroll_distance(&pixel(0)), 0);
    assert_eq!(scroll_distance(&raw(ScrollUnit::Line, i32::MIN)), 1i64 << 31);
    assert_eq!(scroll_distance(&raw(ScrollUnit::Pixel, i32::MIN)), 1i64 << 32);
    assert_eq!(scroll_distance(&raw(ScrollUnit::Line, i32::MAX)), -(i32::MAX as i64));
    assert_eq!(scroll_distance(&raw(ScrollUnit::Pixel, i32::MAX)), -2 * (i32::MAX as i64));
}

#[test]
fn scroll_distance_keeps_every_fraction() {
    assert_eq!(scroll_distance(&raw(ScrollUnit::Line, 1)), -1);
    assert_eq!(scroll_distance(&raw(ScrollUnit::Line, -1)), 1);
    assert_eq!(scroll_distance(&raw(ScrollUnit::Pixel, 1)), -2);
    assert_eq!(scroll_distance(&raw(ScrollUnit::Pixel, -1)), 2);
    // a quarter of a pixel is a quarter of a step
    assert_eq!(scroll_distance(&raw(ScrollUnit::Pixel, ONE / 4)), -(STEP as i64) / 4);
    for m in [-70000, -65537, -3, 2, 12345, 65535, 85197] {
        let distance = -(m as f64 / ONE as f64) * 0.5;
        assert_eq!(scroll_distance(&raw(ScrollUnit::Line, m)) as f64 / STEP as f64, distance);
        let distance = -(m as f64 / ONE as f64) * 1.0;
        assert_eq!(scroll_distance(&raw(ScrollUnit::Pixel, m)) as f64 / STEP as f64, distance);
    }
}

#[test]
fn zoom_level_adds_the_distance_and_stops_at_the_limits() {
    assert_eq!(zoom_level(0, 0), 0);
    assert_eq!(zoom_level(5, -7), -2);
    assert_eq!(zoom_level(-STEP, 3 * STEP as i64), 2 * STEP);
    assert_eq!(zoom_level(MAX_ZOOM, 1), MAX_ZOOM);
    assert_eq!(zoom_level(MAX_ZOOM - 1, 1), MAX_ZOOM);
    assert_eq!(zoom_level(MAX_ZOOM, -1), MAX_ZOOM - 1);
    assert_eq!(zoom_level(-MAX_ZOOM, -1), -MAX_ZOOM);
    assert_eq!(zoom_level(-MAX_ZOOM, 1), 1 - MAX_ZOOM);
    assert_eq!(zoom_level(0, i64::MAX), MAX_ZOOM);
    assert_eq!(zoom_level(0, i64::MIN), -MAX_ZOOM);
    assert_eq!(zoom_level(MAX_ZOOM, i64::MIN), -MAX_ZOOM);
}

#[test]
fn one_line_of_scroll_divides_the_scale_by_the_root_of_two() {
    let camera = CameraState::identity();
    let zoomed = zoom_once(&camera, 800 * UNIT, 600 * UNIT, px(400, 300), &line(1));
    let expected = (ONE as f64 * 2.0f64.powf(-0.5)).floor() as u32;
    assert_eq!(zoomed.zoom, -STEP / 2);
    assert_eq!(zoomed.current_scale(), expected);
    assert_eq!(zoomed.current_scale(), 46340);
    // the cursor is in the middle of the window: the camera stays
    assert_eq!(zoomed.translation, shift(0, 0, 0));
}

#[test]
fn a_small_scroll_zooms_a_little() {
    let camera = CameraState::identity();
    let middle = px(400, 300);
    // a quarter of a pixel: the scale is divided by the fourth root of two
    let quarter = raw(ScrollUnit::Pixel, ONE / 4);
    let zoomed = zoom_once(&camera, 800 * UNIT, 600 * UNIT, middle, &quarter);
    assert_eq!(zoomed.zoom, -STEP / 4);
    assert_eq!(zoomed.current_scale(), 55108);
    assert_eq!(zoomed.current_scale(), (ONE as f64 * 2.0f64.powf(-0.25)).floor() as u32);
    // 1.3 pixels zoom further than one pixel
    let more = raw(ScrollUnit::Pixel, 85197);
    let further = zoom_once(&camera, 800 * UNIT, 600 * UNIT, middle, &more);
    assert_eq!(further.zoom, -170394);
    assert_eq!(further.current_scale(), 26615);
    let one = zoom_once(&camera, 800 * UNIT, 600 * UNIT, middle, &pixel(1));
    assert_eq!(one.current_scale(), 32768);
    // the smallest magnitude there is moves the zoom level
    let least = zoom_once(&camera, 800 * UNIT, 600 * UNIT, middle, &raw(ScrollUnit::Line, 1));
    assert_eq!(least.zoom, -1);
    assert_eq!(least.current_scale(), 65535);
}

#[test]
fn a_greater_scroll_never_leaves_a_greater_scale() {
    let middle = px(400, 300);
    for start in [-MAX_ZOOM, -STEP - 7, 0, 12345, MAX_ZOOM - 3, MAX_ZOOM] {
        let camera = camera_at(shift(0, 0, 0), start);
        for unit in [ScrollUnit::Line, ScrollUnit::Pixel] {
            let mut last = u32::MAX;
            let mut last_zoom = i32::MAX;
            let mut m = -3 * ONE;
            while m <= 3 * ONE {
                let zoomed = zoom_once(&camera, 800 * UNIT, 600 * UNIT, middle, &raw(unit, m));
                assert!(zoomed.current_scale() <= last);
                assert!(zoomed.zoom <= last_zoom);
                if m > 0 && start > -MAX_ZOOM {
                    assert!(zoomed.zoom < start);
                }
                if m < 0 && start < MAX_ZOOM {
                    assert!(zoomed.zoom > start);
                }
                last = zoomed.current_scale();
                last_zoom = zoomed.zoom;
                m += 4099;
            }
        }
    }
}

#[test]
fn zoom_stops_at_the_limits_of_the_scale() {
    let middle = px(400, 300);
    let widest = camera_at(shift(0, 0, 0), MAX_ZOOM);
    assert_eq!(widest.current_scale(), 256 * ONE as u32);
    assert_eq!(zoom_once(&widest, 800 * UNIT, 600 * UNIT, middle, &pixel(-1)), widest);
    let closest = camera_at(shift(0, 0, 0), -MAX_ZOOM);
    assert_eq!(closest.current_scale(), ONE as u32 / 256);
    assert_eq!(zoom_once(&closest, 800 * UNIT, 600 * UNIT, middle, &pixel(1)), closest);
    let far = zoom_once(&CameraState::identity(), 800 * UNIT, 600 * UNIT, middle, &pixel(-9));
    assert_eq!(far.zoom, MAX_ZOOM);
    let near = zoom_once(&CameraState::identity(), 800 * UNIT, 600 * UNIT, middle, &pixel(9));
    assert_eq!(near.zoom, -MAX_ZOOM);
    let most = raw(ScrollUnit::Pixel, i32::MIN);
    assert_eq!(zoom_once(&closest, 800 * UNIT, 600 * UNIT, middle, &most).zoom, MAX_ZOOM);
}

#[test]
fn scroll_of_no_magnitude_changes_nothing() {
    let camera = camera_at(Translation { x: 12345, y: -6789, z: 3 }, 76000);
    for unit in [ScrollUnit::Line, ScrollUnit::Pixel] {
        let zoomed = zoom_once(&camera, 801, 601, px(3, 590), &raw(unit, 0));
        assert_eq!(zoomed, camera);
    }
    let mut batch = camera;
    zoom_camera(Some(&window_with_cursor(3, 590)), &mut batch, &vec![line(0), pixel(0), line(0)]);
    assert_eq!(batch, camera);
    for zoom in [-MAX_ZOOM, 1 - MAX_ZOOM, -1, 1, MAX_ZOOM - 1, MAX_ZOOM] {
        let c = camera_at(camera.translation, zoom);
        assert_eq!(zoom_once(&c, 800 * UNIT, 600 * UNIT, px(1, 2), &line(0)), c);
    }
}

#[test]
fn zoom_keeps_the_point_under_the_cursor() {
    let camera = CameraState::identity();
    // cursor 200 right of and 200 above the middle; the scale halves
    let zoomed = zoom_once(&camera, 800 * UNIT, 600 * UNIT, px(600, 100), &pixel(1));
    assert_eq!(zoomed.current_scale(), ONE as u32 / 2);
    assert_eq!(zoomed.translation, shift(100, 100, 0));
    // top left corner; the scale doubles
    let wide = zoom_once(&camera, 800 * UNIT, 600 * UNIT, px(0, 0), &pixel(-1));
    assert_eq!(wide.current_scale(), 2 * ONE as u32);
    assert_eq!(wide.translation, shift(400, -300, 0));
}

#[test]
fn zoom_shift_rounds_toward_zero() {
    let camera = camera_at(Translation { x: 10, y: 20, z: 7 }, 0);
    let cursor = Point { x: 1, y: 1 };
    let wide = zoom_once(&camera, 801, 601, cursor, &pixel(-1));
    assert_eq!(
        wide,
        CameraState { translation: Translation { x: 409, y: -279, z: 7 }, zoom: STEP },
    );
    let close = zoom_once(&camera, 801, 601, cursor, &pixel(1));
    assert_eq!(
        close,
        CameraState { translation: Translation { x: -189, y: 169, z: 7 }, zoom: -STEP },
    );
}

#[test]
fn scroll_events_apply_one_after_the_other() {
    let w = window_with_cursor(600, 100);
    let mut camera = CameraState::identity();
    zoom_camera(Some(&w), &mut camera, &vec![line(1), pixel(1)]);
    let first = zoom_once(&CameraState::identity(), w.width, w.height, px(600, 100), &line(1));
    assert_eq!(
        first,
        CameraState { translation: Translation { x: 14996, y: 14996, z: 0 }, zoom: -STEP / 2 },
    );
    let second = zoom_once(&first, w.width, w.height, px(600, 100), &pixel(1));
    assert_eq!(
        second,
        CameraState { translation: Translation { x: 33097, y: 33097, z: 0 }, zoom: -3 * STEP / 2 },
    );
    assert_eq!(camera, second);
    assert_eq!(camera.current_scale(), 23170);
    // three single lines reach the same zoom as one event of three lines
    let mut stepwise = CameraState::identity();
    zoom_camera(Some(&w), &mut stepwise, &vec![line(1), line(1), line(1)]);
    let mut at_once = CameraState::identity();
    zoom_camera(Some(&w), &mut at_once, &vec![line(3)]);
    assert_eq!(stepwise.zoom, at_once.zoom);
    assert_eq!(stepwise.translation, Translation { x: 33097, y: 33097, z: 0 });
    assert_eq!(at_once.translation, Translation { x: 33098, y: 33098, z: 0 });
}

#[test]
fn zoom_without_events_changes_nothing() {
    let mut camera = camera_at(shift(5, 6, 7), 99999);
    zoom_camera(Some(&window_with_cursor(1, 1)), &mut camera, &Vec::new());
    assert_eq!(camera, camera_at(shift(5, 6, 7), 99999));
}

#[test]
fn zoom_is_skipped_without_window_or_cursor() {
    let mut camera = camera_at(shift(5, 6, 7), 0);
    zoom_camera(None, &mut camera, &vec![pixel(1)]);
    assert_eq!(camera, camera_at(shift(5, 6, 7), 0));
    let outside = Window { width: 800 * UNIT, height: 600 * UNIT, cursor: None };
    zoom_camera(Some(&outside), &mut camera, &vec![pixel(1)]);
    assert_eq!(camera, camera_at(shift(5, 6, 7), 0));
}

#[test]
fn zoom_there_and_back_restores_the_camera() {
    let w = window_with_cursor(600, 100);
    for start in [0, -STEP / 2, 76000, -777777, MAX_ZOOM - 300000] {
        for event in [
            pixel(-1),
            line(1),
            raw(ScrollUnit::Line, 19661),
            raw(ScrollUnit::Pixel, -7),
        ] {
            let first = camera_at(shift(-9, 4, 2), start);
            let back = ScrollEvent { unit: event.unit, magnitude: -event.magnitude };
            let mut camera = first;
            zoom_camera(Some(&w), &mut camera, &vec![event]);
            assert_ne!(camera.zoom, first.zoom);
            zoom_camera(Some(&w), &mut camera, &vec![back]);
            assert_eq!(camera, first);
        }
    }
}

#[test]
fn zoom_there_and_back_many_times_does_not_drift() {
    let w = window_with_cursor(123, 456);
    let first = camera_at(shift(10, -10, 0), 4242);
    let mut camera = first;
    for _ in 0..1000 {
        zoom_camera(
            Some(&w),
            &mut camera,
            &vec![raw(ScrollUnit::Line, 33333), raw(ScrollUnit::Line, -33333)],
        );
    }
    assert_eq!(camera, first);
}

#[test]
fn zoom_at_the_limit_is_not_undone() {
    let w = window_with_cursor(400, 300);
    let mut camera = camera_at(shift(0, 0, 0), MAX_ZOOM - STEP / 2);
    zoom_camera(Some(&w), &mut camera, &vec![pixel(-1), pixel(1)]);
    assert_eq!(camera.zoom, MAX_ZOOM - STEP);
}

#[test]
fn translation_after_a_round_trip_depends_on_the_cursor() {
    let start = CameraState::identity();
    let there = zoom_once(&start, 800 * UNIT, 600 * UNIT, px(600, 100), &pixel(-1));
    let same_cursor = zoom_once(&there, 800 * UNIT, 600 * UNIT, px(600, 100), &pixel(1));
    assert_eq!(same_cursor, start);
    let other_cursor = zoom_once(&there, 800 * UNIT, 600 * UNIT, px(400, 300), &pixel(1));
    assert_eq!(other_cursor.zoom, start.zoom);
    assert_eq!(other_cursor.translation, shift(-200, -200, 0));
}

#[test]
fn zoom_translation_stops_at_the_end_of_the_coordinate_range() {
    let camera = camera_at(Translation { x: i32::MAX - 1, y: i32::MIN + 1, z: 0 }, 0);
    let zoomed = zoom_once(&camera, 800 * UNIT, 600 * UNIT, px(0, 0), &pixel(-1));
    assert_eq!(zoomed.translation, Translation { x: i32::MAX, y: i32::MIN, z: 0 });
    assert_eq!(zoomed.zoom, STEP);
}

#[test]
fn zoom_keeps_the_world_position_under_the_cursor() {
    let w = 801 * UNIT + 7;
    let h = 599 * UNIT + 3;
    let cursors = [
        px(0, 0),
        px(123, 456),
        Point { x: 5 * UNIT + 1, y: 77 * UNIT - 1 },
        px(800, 599),
    ];
    let cameras = [
        CameraState::identity(),
        camera_at(Translation { x: -12345, y: 67891, z: 0 }, -STEP / 2),
        camera_at(Translation { x: 1 << 20, y: -(1 << 21), z: 9 }, 200001),
    ];
    let events = [
        line(1),
        line(-1),
        line(3),
        pixel(1),
        pixel(-2),
        line(0),
        line(-7),
        raw(ScrollUnit::Pixel, 85197),
    ];
    for camera in cameras {
        for cursor in cursors {
            for event in events {
                let before = shown(&camera, w, h, cursor);
                let zoomed = zoom_once(&camera, w, h, cursor, &event);
                let after = shown(&zoomed, w, h, cursor);
                assert!((after.0 - before.0).abs() <= 1);
                assert!((after.1 - before.1).abs() <= 1);
            }
        }
    }
}

#[test]
fn pan_keeps_the_grabbed_position_under_the_cursor() {
    let w = Window { width: 801 * UNIT + 7, height: 599 * UNIT + 3, cursor: None };
    let cameras = [
        CameraState::identity(),
        camera_at(Translation { x: -12345, y: 67891, z: 0 }, -STEP / 2),
        camera_at(Translation { x: 1 << 20, y: -(1 << 21), z: 9 }, 200001),
    ];
    let grabs = [px(100, 100), Point { x: 5 * UNIT + 1, y: 77 * UNIT - 1 }];
    let cursors = [
        px(150, 80),
        px(0, 0),
        Point { x: 333 * UNIT + 3, y: 222 * UNIT + 2 },
        px(800, 599),
    ];
    for start in cameras {
        for grab in grabs {
            let grabbed = shown(&start, w.width, w.height, grab);
            let mut camera = start;
            let mut anchor = LastClicked::origin();
            let mut at_grab = w;
            at_grab.cursor = Some(grab);
            move_camera(&mut camera, Some(&at_grab), &space(is_down()), &went_down(), &mut anchor);
            assert_eq!(camera, start);
            for cursor in cursors {
                let mut there = w;
                there.cursor = Some(cursor);
                move_camera(&mut camera, Some(&there), &space(is_down()), &is_down(), &mut anchor);
                let now = shown(&camera, w.width, w.height, cursor);
                assert!((now.0 - grabbed.0).abs() <= 1);
                assert!((now.1 - grabbed.1).abs() <= 1);
            }
        }
    }
}

#[test]
fn a_window_fits_the_world_at_every_scale() {
    // the largest scale, the cursor at the right edge of a window of 800 x 600
    let widest = camera_at(shift(0, 0, 0), MAX_ZOOM);
    assert_eq!(shown(&widest, 800 * UNIT, 600 * UNIT, px(800, 300)).0, 102400 * UNIT as i64);
    // the largest window at the largest scale, far from the origin
    let far = camera_at(shift(4194304, -4194304, 0), MAX_ZOOM);
    let corner = shown(&far, 16384 * UNIT, 16384 * UNIT, px(16384, 16384));
    assert_eq!(corner, ((4194304 + 2097152) * UNIT as i64, (-4194304 - 2097152) * UNIT as i64));
    assert!(corner.0 < i32::MAX as i64 && corner.1 > i32::MIN as i64);
}
