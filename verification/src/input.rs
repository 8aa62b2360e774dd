//! Keys, line levels and the scan that turns sampled levels into key events.

use std::collections::VecDeque;
use vstd::prelude::*;

verus! {

/// The logical buttons, in scan order.
#[derive(Debug, Clone, Copy, PartialEq, Eq, Structural)]
pub enum InputKey {
    Left,
    Right,
    Center,
    Up,
    Down,
    A,
    B,
}

/// Logic level of an input line. A pressed button pulls its line `Low`.
#[derive(Debug, Clone, Copy, PartialEq, Eq, Structural)]
pub enum Level {
    Low,
    High,
}

/// What a key did in a cycle.
#[derive(Debug, Clone, Copy, PartialEq, Eq, Structural)]
pub enum KeyEventKind {
    /// The key is held down during this cycle.
    Press,
    /// The key was pushed and has just been released.
    Click,
}

/// One event of one key. Events live for a single cycle.
#[derive(Debug, Clone, Copy, PartialEq, Eq, Structural)]
pub struct KeyEvent {
    pub key: InputKey,
    pub kind: KeyEventKind,
}

/// State of one input line: the key it is bound to and the level seen last.
#[derive(Debug, Clone, Copy, PartialEq, Eq, Structural)]
pub struct Input {
    pub input_key: InputKey,
    pub pin_state: Level,
}

impl InputKey {
    /// The keys in scan order.
    pub open spec fn order() -> Seq<InputKey> {
        seq![
            InputKey::Left,
            InputKey::Right,
            InputKey::Center,
            InputKey::Up,
            InputKey::Down,
            InputKey::A,
            InputKey::B,
        ]
    }

    /// Position of the key in scan order.
    pub open spec fn index(self) -> int {
        match self {
            InputKey::Left => 0,
            InputKey::Right => 1,
            InputKey::Center => 2,
            InputKey::Up => 3,
            InputKey::Down => 4,
            InputKey::A => 5,
            InputKey::B => 6,
        }
    }

    /// Identifier of the physical line the key is wired to.
    pub open spec fn line(self) -> u8 {
        match self {
            InputKey::Left => 27,
            InputKey::Right => 23,
            InputKey::Center => 4,
            InputKey::Up => 17,
            InputKey::Down => 22,
            InputKey::A => 5,
            InputKey::B => 6,
        }
    }

    /// All keys, in scan order.
    pub fn all() -> (keys: Vec<InputKey>)
        ensures
            keys@ == Self::order(),
    {
        let mut keys: Vec<InputKey> = Vec::new();
        keys.push(InputKey::Left);
        keys.push(InputKey::Right);
        keys.push(InputKey::Center);
        keys.push(InputKey::Up);
        keys.push(InputKey::Down);
        keys.push(InputKey::A);
        keys.push(InputKey::B);
        assert(keys@ =~= Self::order());
        keys
    }

    /// Identifier of the physical line the key is wired to.
    pub fn pin(self) -> (pin: u8)
        ensures
            pin == self.line(),
    {
        match self {
            InputKey::Left => 27,
            InputKey::Right => 23,
            InputKey::Center => 4,
            InputKey::Up => 17,
            InputKey::Down => 22,
            InputKey::A => 5,
            InputKey::B => 6,
        }
    }
}

impl KeyEvent {
    /// The event of `key` being held down.
    pub open spec fn press(key: InputKey) -> KeyEvent {
        KeyEvent { key, kind: KeyEventKind::Press }
    }

    /// The event of `key` having been released.
    pub open spec fn click(key: InputKey) -> KeyEvent {
        KeyEvent { key, kind: KeyEventKind::Click }
    }
}

impl Input {
    /// Events one line gives in a cycle in which it reads `now`: a press
    /// while the line is low, a click when it has just gone high, nothing
    /// while it stays high.
    pub open spec fn events(self, now: Level) -> Seq<KeyEvent> {
        if now == Level::Low {
            seq![KeyEvent::press(self.input_key)]
        } else if self.pin_state == Level::Low {
            seq![KeyEvent::click(self.input_key)]
        } else {
            Seq::empty()
        }
    }

    /// The line after a cycle in which it read `now`.
    pub open spec fn after(self, now: Level) -> Input {
        Input { input_key: self.input_key, pin_state: now }
    }

    /// A line for `input_key` that has last been seen low.
    pub fn new(input_key: InputKey) -> (input: Input)
        ensures
            input == (Input { input_key, pin_state: Level::Low }),
    {
        Input { input_key, pin_state: Level::Low }
    }

    /// Takes in the level sampled this cycle: appends the line's events to
    /// `input_events` and remembers the level.
    pub fn update(&mut self, current_level: Level, input_events: &mut VecDeque<KeyEvent>)
        ensures
            *final(self) == old(self).after(current_level),
            final(input_events)@ == old(input_events)@ + old(self).events(current_level),
    {
        if current_level == Level::Low {
            input_events.push_back(KeyEvent { key: self.input_key, kind: KeyEventKind::Press });
        }
        if current_level != self.pin_state {
            self.pin_state = current_level;
            if current_level == Level::High {
                input_events.push_back(KeyEvent { key: self.input_key, kind: KeyEventKind::Click });
            }
        }
    }
}

/// The events of one cycle: each line's events for the level it read, line
/// after line in the order of `inputs`. Line `i` reads `levels[i]`.
pub open spec fn scan_events(inputs: Seq<Input>, levels: Seq<Level>) -> Seq<KeyEvent>
    recommends
        inputs.len() == levels.len(),
    decreases inputs.len(),
{
    if inputs.len() == 0 {
        Seq::empty()
    } else {
        scan_events(inputs.drop_last(), levels) + inputs.last().events(levels[inputs.len() - 1])
    }
}

/// The lines after one cycle: each remembers the level it read.
pub open spec fn scan_lines(inputs: Seq<Input>, levels: Seq<Level>) -> Seq<Input>
    recommends
        inputs.len() == levels.len(),
{
    Seq::new(inputs.len(), |i: int| inputs[i].after(levels[i]))
}

/// The lines at start-up: one per key, in scan order, each last seen low.
pub open spec fn initial_lines() -> Seq<Input> {
    Seq::new(7, |i: int| Input { input_key: InputKey::order()[i], pin_state: Level::Low })
}

/// Builds the table of lines the scan starts from.
pub fn input_table() -> (inputs: Vec<Input>)
    ensures
        inputs@ == initial_lines(),
{
    let keys = InputKey::all();
    let mut inputs: Vec<Input> = Vec::new();
    let mut i: usize = 0;
    while i < keys.len()
        invariant
            keys@ == InputKey::order(),
            i <= keys.len(),
            inputs@.len() == i,
            forall|j: int| 0 <= j < i ==> inputs@[j] == initial_lines()[j],
        decreases keys.len() - i,
    {
        inputs.push(Input::new(keys[i]));
        i += 1;
    }
    inputs
}

/// Scans the lines once. `levels[i]` is the level sampled on line `i` in
/// this cycle. Every line's events are appended to `input_events`, in the
/// order of the lines, and every line remembers its level.
pub fn scan(inputs: &mut Vec<Input>, levels: &[Level], input_events: &mut VecDeque<KeyEvent>)
    requires
        levels@.len() == old(inputs)@.len(),
    ensures
        final(inputs)@ == scan_lines(old(inputs)@, levels@),
        final(input_events)@ == old(input_events)@ + scan_events(old(inputs)@, levels@),
{
    let n: usize = inputs.len();
    let mut i: usize = 0;
    while i < n
        invariant
            i <= n,
            n == levels@.len(),
            inputs@.len() == n,
            old(inputs)@.len() == n,
            forall|j: int| 0 <= j < i ==> inputs@[j] == old(inputs)@[j].after(levels@[j]),
            forall|j: int| i <= j < n ==> inputs@[j] == old(inputs)@[j],
            input_events@ == old(input_events)@ + scan_events(old(inputs)@.take(i as int), levels@),
        decreases n - i,
    {
        let ghost scanned = old(inputs)@.take(i as int);
        let ghost next = old(inputs)@.take(i + 1);
        inputs[i].update(levels[i], input_events);
        proof {
            assert(next.drop_last() == scanned);
            assert(next.last() == old(inputs)@[i as int]);
        }
        i += 1;
    }
    proof {
        assert(old(inputs)@.take(n as int) == old(inputs)@);
    }
}

} // verus!
