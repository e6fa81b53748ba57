use webgpu_worker::gesture::PointerGesture;

#[test]
fn press_and_release_is_a_click() {
    let mut gesture = PointerGesture::new();
    gesture.press(100, 200);
    assert!(gesture.release());
}

#[test]
fn wobble_adding_up_to_four_pixels_is_a_drag() {
    let mut gesture = PointerGesture::new();
    gesture.press(100, 200);
    assert_eq!(gesture.drag_to(101, 201), Some((1, 1)));
    assert_eq!(gesture.drag_to(100, 200), Some((-1, -1)));
    assert!(!gesture.release());
}

#[test]
fn three_pixels_of_travel_is_a_click() {
    let mut gesture = PointerGesture::new();
    gesture.press(0, 0);
    assert_eq!(gesture.drag_to(2, 1), Some((2, 1)));
    assert!(gesture.release());
}

#[test]
fn four_pixels_of_travel_is_a_drag() {
    let mut gesture = PointerGesture::new();
    gesture.press(0, 0);
    assert_eq!(gesture.drag_to(4, 0), Some((4, 0)));
    assert!(!gesture.release());
}

#[test]
fn moves_without_press_report_nothing() {
    let mut gesture = PointerGesture::new();
    assert_eq!(gesture.drag_to(50, 50), None);
    assert!(!gesture.release());
}

#[test]
fn cancel_ends_the_gesture() {
    let mut gesture = PointerGesture::new();
    gesture.press(10, 10);
    gesture.cancel();
    assert_eq!(gesture.drag_to(11, 11), None);
    assert!(!gesture.release());
}

#[test]
fn second_release_is_no_click() {
    let mut gesture = PointerGesture::new();
    gesture.press(10, 10);
    assert!(gesture.release());
    assert!(!gesture.release());
}

#[test]
fn deltas_add_up_to_displacement() {
    let mut gesture = PointerGesture::new();
    gesture.press(-20, 30);
    let mut total = (0i64, 0i64);
    for (x, y) in [(-10, 35), (5, 0), (7, -40), (100, 100)] {
        let (dx, dy) = gesture.drag_to(x, y).unwrap();
        total = (total.0 + dx, total.1 + dy);
    }
    assert_eq!(total, (120, 70));
}

#[test]
fn extreme_coordinates() {
    let mut gesture = PointerGesture::new();
    gesture.press(i32::MIN, i32::MAX);
    assert_eq!(
        gesture.drag_to(i32::MAX, i32::MIN),
        Some((u32::MAX as i64, -(u32::MAX as i64)))
    );
    assert!(!gesture.release());
}

#[test]
fn new_press_restarts_travel() {
    let mut gesture = PointerGesture::new();
    gesture.press(0, 0);
    gesture.drag_to(50, 0);
    gesture.press(50, 0);
    assert!(gesture.release());
}
