use keypad_view::{input_table, scan, Input, InputKey, KeyEvent, KeyEventKind, Level};
use std::collections::VecDeque;

fn press(key: InputKey) -> KeyEvent {
    KeyEvent { key, kind: KeyEventKind::Press }
}

fn click(key: InputKey) -> KeyEvent {
    KeyEvent { key, kind: KeyEventKind::Click }
}

fn queued(events: &VecDeque<KeyEvent>) -> Vec<KeyEvent> {
    events.iter().copied().collect()
}

/// A table whose lines have all been seen high: no button is down.
fn idle_table() -> Vec<Input> {
    let mut inputs = input_table();
    let mut events = VecDeque::new();
    scan(&mut inputs, &[Level::High; 7], &mut events);
    inputs
}

#[test]
fn keys_come_in_scan_order() {
    assert_eq!(
        InputKey::all(),
        vec![
            InputKey::Left,
            InputKey::Right,
            InputKey::Center,
            InputKey::Up,
            InputKey::Down,
            InputKey::A,
            InputKey::B,
        ]
    );
}

#[test]
fn keys_are_wired_to_distinct_lines() {
    let pins: Vec<u8> = InputKey::all().into_iter().map(|key| key.pin()).collect();
    assert_eq!(pins, vec![27, 23, 4, 17, 22, 5, 6]);
    for (i, a) in pins.iter().enumerate() {
        for b in pins.iter().skip(i + 1) {
            assert_ne!(a, b);
        }
    }
}

#[test]
fn table_has_one_low_line_per_key() {
    let inputs = input_table();
    let keys: Vec<InputKey> = inputs.iter().map(|input| input.input_key).collect();
    assert_eq!(keys, InputKey::all());
    for input in &inputs {
        assert_eq!(input.pin_state, Level::Low);
        assert_eq!(*input, Input::new(input.input_key));
    }
}

#[test]
fn low_line_gives_a_press() {
    for last in [Level::Low, Level::High] {
        let mut line = Input { input_key: InputKey::Up, pin_state: last };
        let mut events = VecDeque::new();
        line.update(Level::Low, &mut events);
        assert_eq!(queued(&events), vec![press(InputKey::Up)]);
        assert_eq!(line, Input { input_key: InputKey::Up, pin_state: Level::Low });
    }
}

#[test]
fn released_line_gives_a_click_and_no_press() {
    let mut line = Input { input_key: InputKey::B, pin_state: Level::Low };
    let mut events = VecDeque::new();
    line.update(Level::High, &mut events);
    assert_eq!(queued(&events), vec![click(InputKey::B)]);
    assert_eq!(line, Input { input_key: InputKey::B, pin_state: Level::High });
}

#[test]
fn idle_line_gives_nothing() {
    let mut line = Input { input_key: InputKey::Center, pin_state: Level::High };
    let mut events = VecDeque::new();
    line.update(Level::High, &mut events);
    assert!(events.is_empty());
    assert_eq!(line, Input { input_key: InputKey::Center, pin_state: Level::High });
}

#[test]
fn update_appends_behind_what_is_queued() {
    let mut line = Input::new(InputKey::Left);
    let mut events = VecDeque::new();
    events.push_back(click(InputKey::A));
    line.update(Level::Low, &mut events);
    assert_eq!(queued(&events), vec![click(InputKey::A), press(InputKey::Left)]);
}

#[test]
fn held_line_gives_one_press_per_cycle() {
    let mut inputs = idle_table();
    let mut events = VecDeque::new();
    let mut levels = [Level::High; 7];
    levels[1] = Level::Low;
    for _ in 0..4 {
        scan(&mut inputs, &levels, &mut events);
    }
    assert_eq!(queued(&events), vec![press(InputKey::Right); 4]);
    assert_eq!(inputs[1].pin_state, Level::Low);
}

#[test]
fn release_gives_exactly_one_click() {
    let mut inputs = idle_table();
    let mut events = VecDeque::new();
    let mut levels = [Level::High; 7];
    levels[3] = Level::Low;
    scan(&mut inputs, &levels, &mut events);
    assert_eq!(queued(&events), vec![press(InputKey::Up)]);
    events.clear();
    levels[3] = Level::High;
    scan(&mut inputs, &levels, &mut events);
    assert_eq!(queued(&events), vec![click(InputKey::Up)]);
    events.clear();
    scan(&mut inputs, &levels, &mut events);
    assert!(events.is_empty());
}

#[test]
fn left_is_queued_before_down() {
    let mut inputs = idle_table();
    let mut events = VecDeque::new();
    let mut levels = [Level::High; 7];
    levels[0] = Level::Low;
    levels[4] = Level::Low;
    scan(&mut inputs, &levels, &mut events);
    assert_eq!(queued(&events), vec![press(InputKey::Left), press(InputKey::Down)]);
}

#[test]
fn all_keys_down_are_queued_in_scan_order() {
    let mut inputs = idle_table();
    let mut events = VecDeque::new();
    scan(&mut inputs, &[Level::Low; 7], &mut events);
    let expected: Vec<KeyEvent> = InputKey::all().into_iter().map(press).collect();
    assert_eq!(queued(&events), expected);
    events.clear();
    scan(&mut inputs, &[Level::High; 7], &mut events);
    let expected: Vec<KeyEvent> = InputKey::all().into_iter().map(click).collect();
    assert_eq!(queued(&events), expected);
}

#[test]
fn first_scan_of_idle_buttons_clicks_every_key() {
    let mut inputs = input_table();
    let mut events = VecDeque::new();
    scan(&mut inputs, &[Level::High; 7], &mut events);
    let expected: Vec<KeyEvent> = InputKey::all().into_iter().map(click).collect();
    assert_eq!(queued(&events), expected);
    for input in &inputs {
        assert_eq!(input.pin_state, Level::High);
    }
}

#[test]
fn scan_remembers_every_level() {
    let mut inputs = input_table();
    let mut events = VecDeque::new();
    let levels = [
        Level::Low,
        Level::High,
        Level::Low,
        Level::High,
        Level::High,
        Level::Low,
        Level::High,
    ];
    scan(&mut inputs, &levels, &mut events);
    let states: Vec<Level> = inputs.iter().map(|input| input.pin_state).collect();
    assert_eq!(states, levels.to_vec());
    let keys: Vec<InputKey> = inputs.iter().map(|input| input.input_key).collect();
    assert_eq!(keys, InputKey::all());
}

#[test]
fn scan_of_no_lines_queues_nothing() {
    let mut inputs: Vec<Input> = Vec::new();
    let mut events = VecDeque::new();
    scan(&mut inputs, &[], &mut events);
    assert!(inputs.is_empty());
    assert!(events.is_empty());
}
