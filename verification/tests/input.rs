use pixel_bot::coord::Coord;
use pixel_bot::input::get_any_pressed_key;
use pixel_bot::input::keep_waiting;
use pixel_bot::input::mouse_button_name;
use pixel_bot::input::InterceptionState;
use pixel_bot::input::Stroke;
use pixel_bot::input::BUTTON_4_DOWN;
use pixel_bot::input::BUTTON_4_UP;
use pixel_bot::input::BUTTON_5_DOWN;
use pixel_bot::input::BUTTON_5_UP;
use pixel_bot::input::ERR_INVALID_CLICK_KEYCODE;
use pixel_bot::input::LEFT_BUTTON_DOWN;
use pixel_bot::input::LEFT_BUTTON_UP;
use pixel_bot::input::MIDDLE_BUTTON_DOWN;
use pixel_bot::input::MIDDLE_BUTTON_UP;
use pixel_bot::input::MOVE;
use pixel_bot::input::MOVE_RELATIVE;
use pixel_bot::input::RIGHT_BUTTON_DOWN;
use pixel_bot::input::RIGHT_BUTTON_UP;

#[test]
fn new_channel_clicks_the_left_button() {
    let state = InterceptionState::new(11);
    assert_eq!(state.mouse_dev, 11);
    assert_eq!(state.click_down().state, LEFT_BUTTON_DOWN);
    assert_eq!(state.click_up().state, LEFT_BUTTON_UP);
    let down = state.click_down();
    assert_eq!((down.flags, down.rolling, down.x, down.y, down.information), (0, 0, 0, 0, 0));
}

#[test]
fn default_stroke_says_nothing() {
    assert_eq!(
        Stroke::default(),
        Stroke { state: 0, flags: 0, rolling: 0, x: 0, y: 0, information: 0 }
    );
}

#[test]
fn set_click_keycode_binds_each_mouse_button() {
    let mut state = InterceptionState::new(11);
    let table = [
        (1u16, LEFT_BUTTON_DOWN, LEFT_BUTTON_UP),
        (2, RIGHT_BUTTON_DOWN, RIGHT_BUTTON_UP),
        (4, MIDDLE_BUTTON_DOWN, MIDDLE_BUTTON_UP),
        (5, BUTTON_4_DOWN, BUTTON_4_UP),
        (6, BUTTON_5_DOWN, BUTTON_5_UP),
    ];
    for (code, down, up) in table {
        assert_eq!(state.set_click_keycode(code), Ok(()));
        assert_eq!(state.click_down().state, down);
        assert_eq!(state.click_up().state, up);
        assert_eq!(state.mouse_dev, 11);
    }
}

#[test]
fn set_click_keycode_refuses_other_keys_and_keeps_the_binding() {
    let mut state = InterceptionState::new(11);
    assert_eq!(state.set_click_keycode(4), Ok(()));
    for code in [0u16, 3, 7, 65, 190, u16::MAX] {
        assert_eq!(state.set_click_keycode(code), Err(ERR_INVALID_CLICK_KEYCODE));
        assert_eq!(state.click_down().state, MIDDLE_BUTTON_DOWN);
        assert_eq!(state.click_up().state, MIDDLE_BUTTON_UP);
    }
    assert_eq!(ERR_INVALID_CLICK_KEYCODE, "Invalid click keycode");
}

#[test]
fn move_mouse_relative_is_a_relative_move() {
    let state = InterceptionState::new(3);
    let stroke = state.move_mouse_relative(Coord::new(-4, 9));
    assert_eq!(
        stroke,
        Stroke { state: MOVE, flags: MOVE_RELATIVE, rolling: 0, x: -4, y: 9, information: 0 }
    );
}

#[test]
fn move_of_40_in_4_steps_over_100_units() {
    let state = InterceptionState::new(3);
    let plan = state.move_mouse_over_time(100, 4, Coord::new(40, 0));
    assert_eq!(plan.len(), 4);
    let mut total = 0;
    for step in plan.iter() {
        assert_eq!(step.stroke.x, 10);
        assert_eq!(step.stroke.y, 0);
        assert_eq!(step.stroke.state, MOVE);
        assert_eq!(step.stroke.flags, MOVE_RELATIVE);
        assert_eq!(step.sleep_nanos, 25_000);
        total += step.stroke.x;
    }
    assert_eq!(total, 40);
}

#[test]
fn move_that_does_not_divide_gives_the_remainder_to_the_last_step() {
    let state = InterceptionState::new(3);
    let plan = state.move_mouse_over_time(100, 4, Coord::new(42, 0));
    let xs: Vec<i32> = plan.iter().map(|s| s.stroke.x).collect();
    assert_eq!(xs, vec![10, 10, 10, 12]);
    assert!(plan.iter().all(|s| s.stroke.y == 0 && s.sleep_nanos == 25_000));
    let plan = state.move_mouse_over_time(50, 3, Coord::new(10, -10));
    let steps: Vec<(i32, i32)> = plan.iter().map(|s| (s.stroke.x, s.stroke.y)).collect();
    assert_eq!(steps, vec![(3, -3), (3, -3), (4, -4)]);
    assert!(plan.iter().all(|s| s.sleep_nanos == 16_666));
}

#[test]
fn moves_always_add_up_to_the_movement() {
    let state = InterceptionState::new(3);
    for (n, pos) in [
        (1u32, Coord::new(i32::MIN, i32::MAX)),
        (2, Coord::new(i32::MAX, i32::MIN)),
        (7, Coord::new(-1, 1)),
        (10, Coord::new(9, -9)),
        (3, Coord::new(0, 0)),
        (1000, Coord::new(999, -1001)),
    ] {
        let plan = state.move_mouse_over_time(0, n, pos);
        assert_eq!(plan.len(), n as usize);
        let x: i64 = plan.iter().map(|s| s.stroke.x as i64).sum();
        let y: i64 = plan.iter().map(|s| s.stroke.y as i64).sum();
        assert_eq!((x, y), (pos.x as i64, pos.y as i64));
        assert!(plan.iter().all(|s| s.sleep_nanos == 0));
    }
    let short = state.move_mouse_over_time(0, 10, Coord::new(9, -9));
    assert!(short[..9].iter().all(|s| s.stroke.x == 0 && s.stroke.y == 0));
    assert_eq!((short[9].stroke.x, short[9].stroke.y), (9, -9));
    let one = state.move_mouse_over_time(7, 1, Coord::new(i32::MIN, i32::MAX));
    assert_eq!((one[0].stroke.x, one[0].stroke.y, one[0].sleep_nanos), (i32::MIN, i32::MAX, 7000));
}

#[test]
fn waiting_goes_on_while_the_key_is_down_and_time_is_left() {
    assert!(keep_waiting(true, 0, 500));
    assert!(keep_waiting(true, 499, 500));
    assert!(!keep_waiting(true, 500, 500));
    assert!(!keep_waiting(true, 501, 500));
    assert!(!keep_waiting(false, 0, 500));
    assert!(!keep_waiting(true, 0, 0));
}

#[test]
fn first_pressed_key_is_found() {
    let mut keys = [0u8; 256];
    assert_eq!(get_any_pressed_key(&keys), None);
    keys[65] = 0x80;
    keys[66] = 0xFF;
    keys[3] = 0x7F;
    keys[4] = 0x01;
    assert_eq!(get_any_pressed_key(&keys), Some(65));
    keys[0] = 0x81;
    assert_eq!(get_any_pressed_key(&keys), Some(0));
    assert_eq!(get_any_pressed_key(&[]), None);
}

#[test]
fn mouse_buttons_have_names() {
    assert_eq!(mouse_button_name(1), Some("Mouse1".to_string()));
    assert_eq!(mouse_button_name(2), Some("Mouse2".to_string()));
    assert_eq!(mouse_button_name(4), Some("Mouse3".to_string()));
    assert_eq!(mouse_button_name(5), Some("Mouse4".to_string()));
    assert_eq!(mouse_button_name(6), Some("Mouse5".to_string()));
    assert_eq!(mouse_button_name(3), None);
    assert_eq!(mouse_button_name(65), None);
}
