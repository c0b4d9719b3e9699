use lana_khora::camera::{
    aspect_source, camera_distance, camera_height, limit_pitch, Drag, Input, Pointer,
};

fn b(v: f32) -> u32 {
    v.to_bits()
}

fn drag(from_x: f32, from_y: f32, to_x: f32, to_y: f32) -> Drag {
    Drag { from_x: b(from_x), from_y: b(from_y), to_x: b(to_x), to_y: b(to_y) }
}

fn moved(x: f32, y: f32) -> Input {
    Input::Moved { x: b(x), y: b(y) }
}

fn resting() -> Pointer {
    Pointer { dragging: false, last_x: b(0.0), last_y: b(0.0) }
}

#[test]
fn distance_must_be_great_enough() {
    assert_eq!(camera_distance(Some(b(2.0))), b(2.0));
    assert_eq!(camera_distance(Some(b(0.06))), b(0.06));
    assert_eq!(camera_distance(Some(f32::INFINITY.to_bits())), f32::INFINITY.to_bits());
    for bad in [0.05, 0.0, -1.0, f32::NAN] {
        assert_eq!(camera_distance(Some(b(bad))), b(0.535));
    }
    assert_eq!(camera_distance(None), b(0.535));
}

#[test]
fn height_must_lie_on_the_avatar() {
    for good in [0.0, -0.0, 0.5, 1.5] {
        assert_eq!(camera_height(Some(b(good))), b(good));
    }
    for bad in [-0.1, 1.6, f32::INFINITY, f32::NAN] {
        assert_eq!(camera_height(Some(b(bad))), b(0.92));
    }
    assert_eq!(camera_height(None), b(0.92));
}

#[test]
fn pitch_is_limited() {
    assert_eq!(limit_pitch(b(0.08)), b(0.08));
    assert_eq!(limit_pitch(b(2.0)), b(1.4));
    assert_eq!(limit_pitch(b(-2.0)), b(-1.4));
    assert!(f32::from_bits(limit_pitch(f32::NAN.to_bits())).is_nan());
}

#[test]
fn windows_without_an_area_keep_the_aspect() {
    assert_eq!(aspect_source(1280, 800), Some((1280, 800)));
    assert_eq!(aspect_source(0, 800), None);
    assert_eq!(aspect_source(1280, 0), None);
}

#[test]
fn moving_alone_turns_nothing() {
    let mut p = resting();
    assert_eq!(p.update(&[moved(1.0, 2.0), Input::Other, Input::LeftReleased, moved(3.0, 4.0)]), vec![]);
    assert_eq!(p, Pointer { dragging: false, last_x: b(3.0), last_y: b(4.0) });
}

#[test]
fn dragging_turns_the_camera() {
    let mut p = resting();
    let drags = p.update(&[
        moved(1.0, 1.0),
        Input::LeftPressed,
        moved(2.0, 3.0),
        Input::Other,
        moved(5.0, 5.0),
        Input::LeftReleased,
        moved(9.0, 9.0),
    ]);
    assert_eq!(drags, vec![drag(1.0, 1.0, 2.0, 3.0), drag(2.0, 3.0, 5.0, 5.0)]);
    assert_eq!(p, Pointer { dragging: false, last_x: b(9.0), last_y: b(9.0) });
}

#[test]
fn dragging_lasts_from_frame_to_frame() {
    let mut p = resting();
    assert_eq!(p.step(Input::LeftPressed), None);
    assert!(p.dragging);
    assert_eq!(p.update(&[]), vec![]);
    assert_eq!(p.step(moved(4.0, 5.0)), Some(drag(0.0, 0.0, 4.0, 5.0)));
}
