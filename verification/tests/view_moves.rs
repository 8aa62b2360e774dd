use keypad_view::view::{wrap, HEIGHT, STEP, WIDTH};
use keypad_view::{Action, InputKey, KeyEvent, KeyEventKind, View};

fn press(key: InputKey) -> KeyEvent {
    KeyEvent { key, kind: KeyEventKind::Press }
}

fn click(key: InputKey) -> KeyEvent {
    KeyEvent { key, kind: KeyEventKind::Click }
}

fn all_keys() -> Vec<InputKey> {
    vec![
        InputKey::Left,
        InputKey::Right,
        InputKey::Center,
        InputKey::Up,
        InputKey::Down,
        InputKey::A,
        InputKey::B,
    ]
}

#[test]
fn canvas_constants() {
    assert_eq!(WIDTH, 128);
    assert_eq!(HEIGHT, 64);
    assert_eq!(STEP, 5);
}

#[test]
fn left_press_wraps_to_right_edge() {
    let mut view = View::new(2, 20).unwrap();
    let action = view.handle_key(press(InputKey::Left));
    assert_eq!(action, None);
    assert_eq!(view.circle_x(), 125);
    assert_eq!(view.circle_y(), 20);
}

#[test]
fn right_press_wraps_to_left_edge() {
    let mut view = View::new(125, 20).unwrap();
    view.handle_key(press(InputKey::Right));
    assert_eq!((view.circle_x(), view.circle_y()), (2, 20));
}

#[test]
fn up_press_wraps_to_bottom_edge() {
    let mut view = View::new(20, 2).unwrap();
    view.handle_key(press(InputKey::Up));
    assert_eq!((view.circle_x(), view.circle_y()), (20, 61));
}

#[test]
fn down_press_wraps_to_top_edge() {
    let mut view = View::new(20, 61).unwrap();
    view.handle_key(press(InputKey::Down));
    assert_eq!((view.circle_x(), view.circle_y()), (20, 2));
}

#[test]
fn presses_move_by_one_step() {
    let mut view = View::new(20, 20).unwrap();
    view.handle_key(press(InputKey::Left));
    assert_eq!((view.circle_x(), view.circle_y()), (15, 20));
    view.handle_key(press(InputKey::Down));
    assert_eq!((view.circle_x(), view.circle_y()), (15, 25));
    view.handle_key(press(InputKey::Right));
    assert_eq!((view.circle_x(), view.circle_y()), (20, 25));
    view.handle_key(press(InputKey::Up));
    assert_eq!((view.circle_x(), view.circle_y()), (20, 20));
}

#[test]
fn press_at_origin_stays_on_canvas() {
    let mut view = View::new(0, 0).unwrap();
    view.handle_key(press(InputKey::Left));
    view.handle_key(press(InputKey::Up));
    assert_eq!((view.circle_x(), view.circle_y()), (123, 59));
}

#[test]
fn events_without_a_move_change_nothing() {
    for key in all_keys() {
        let mut view = View::new(37, 11).unwrap();
        view.handle_key(click(key));
        assert_eq!((view.circle_x(), view.circle_y()), (37, 11));
    }
    for key in [InputKey::Center, InputKey::A, InputKey::B] {
        let mut view = View::new(37, 11).unwrap();
        let action = view.handle_key(press(key));
        assert_eq!(action, None);
        assert_eq!((view.circle_x(), view.circle_y()), (37, 11));
    }
}

#[test]
fn center_click_twice_changes_nothing() {
    let mut view = View::new(20, 20).unwrap();
    assert_eq!(view.handle_key(click(InputKey::Center)), None);
    assert_eq!((view.circle_x(), view.circle_y()), (20, 20));
    assert_eq!(view.handle_key(click(InputKey::Center)), None);
    assert_eq!((view.circle_x(), view.circle_y()), (20, 20));
}

#[test]
fn clicks_of_a_and_b_trigger_their_actions() {
    let mut view = View::new(20, 20).unwrap();
    assert_eq!(view.handle_key(click(InputKey::A)), Some(Action::A));
    assert_eq!(view.handle_key(click(InputKey::B)), Some(Action::B));
    for key in [InputKey::Left, InputKey::Right, InputKey::Center, InputKey::Up, InputKey::Down] {
        assert_eq!(view.handle_key(click(key)), None);
    }
    for key in all_keys() {
        assert_eq!(view.handle_key(press(key)), None);
    }
}

#[test]
fn new_accepts_exactly_the_canvas() {
    assert!(View::new(0, 0).is_some());
    assert!(View::new(127, 63).is_some());
    assert!(View::new(128, 0).is_none());
    assert!(View::new(0, 64).is_none());
    assert!(View::new(-1, 0).is_none());
    assert!(View::new(0, -1).is_none());
    assert!(View::new(i32::MAX, i32::MIN).is_none());
    let view = View::new(20, 30).unwrap();
    assert_eq!((view.circle_x(), view.circle_y()), (20, 30));
}

#[test]
fn wrap_is_the_floor_remainder() {
    assert_eq!(wrap(2, -5, 128), 125);
    assert_eq!(wrap(125, 5, 128), 2);
    assert_eq!(wrap(0, 0, 128), 0);
    assert_eq!(wrap(127, 1, 128), 0);
    assert_eq!(wrap(0, -128, 128), 0);
    assert_eq!(wrap(-1, 0, 64), 63);
    assert_eq!(wrap(-7, -7, 5), 1);
    assert_eq!(wrap(7, 7, 5), 4);
    assert_eq!(wrap(3, 4, 1), 0);
}

#[test]
fn wrap_takes_the_whole_integer_range() {
    assert_eq!(wrap(i32::MAX, i32::MAX, 7), 2);
    assert_eq!(wrap(i32::MIN, i32::MIN, 7), 3);
    assert_eq!(wrap(i32::MIN, 0, i32::MAX), i32::MAX - 1);
    assert_eq!(wrap(i32::MAX, 0, i32::MAX), 0);
}
