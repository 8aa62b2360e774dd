//! The view: a circle on a fixed canvas that key events move around.

use crate::input::{InputKey, KeyEvent, KeyEventKind};
use vstd::arithmetic::div_mod::{
    lemma_fundamental_div_mod, lemma_mod_add_multiples_vanish, lemma_mod_multiples_vanish,
    lemma_small_mod,
};
use vstd::prelude::*;
use vstd::view::View as _;

verus! {

/// Width of the canvas in pixels.
pub const WIDTH: i32 = 128;

/// Height of the canvas in pixels.
pub const HEIGHT: i32 = 64;

/// Distance the circle moves per press.
pub const STEP: i32 = 5;

/// `pos + delta` wrapped into `0 .. dim`. On `int`, `%` is the Euclidean
/// remainder, so for a positive `dim` the result is never negative.
pub open spec fn wrapped(pos: int, delta: int, dim: int) -> int {
    (pos + delta) % dim
}

/// Moves `pos` by `delta` on an axis of length `dim`, wrapping around at
/// both ends.
pub fn wrap(pos: i32, delta: i32, dim: i32) -> (r: i32)
    requires
        dim > 0,
    ensures
        r == wrapped(pos as int, delta as int, dim as int),
        0 <= r < dim,
{
    let d: i64 = dim as i64;
    let sum: i64 = pos as i64 + delta as i64;
    let m: i64 = sum % d;
    let r: i64 = (m + d) % d;
    proof {
        let s = sum as int;
        let dd = d as int;
        if s >= 0 {
            lemma_small_mod(m as nat, dd as nat);
        } else {
            let n = -s;
            lemma_fundamental_div_mod(n, dd);
            assert(s == dd * (-(n / dd)) + m) by (nonlinear_arith)
                requires
                    n == dd * (n / dd) + (n % dd),
                    m == -(n % dd),
                    s == -n,
            ;
            lemma_mod_multiples_vanish(-(n / dd), m as int, dd);
        }
        assert((m as int) % dd == s % dd);
        lemma_mod_add_multiples_vanish(m as int, dd);
    }
    r as i32
}

/// What a click asks the application to do.
#[derive(Debug, Clone, Copy, PartialEq, Eq, Structural)]
pub enum Action {
    A,
    B,
}

/// Where the circle is: the model of a [`View`].
pub struct Position {
    pub x: int,
    pub y: int,
}

impl Position {
    pub open spec fn in_canvas(self) -> bool {
        0 <= self.x < WIDTH && 0 <= self.y < HEIGHT
    }

    /// The position after one event. Only a press of a direction key moves
    /// the circle.
    pub open spec fn after(self, event: KeyEvent) -> Position {
        match event.kind {
            KeyEventKind::Press => match event.key {
                InputKey::Left => Position { x: wrapped(self.x, -STEP, WIDTH as int), y: self.y },
                InputKey::Right => Position { x: wrapped(self.x, STEP as int, WIDTH as int), y: self.y },
                InputKey::Up => Position { x: self.x, y: wrapped(self.y, -STEP, HEIGHT as int) },
                InputKey::Down => Position { x: self.x, y: wrapped(self.y, STEP as int, HEIGHT as int) },
                _ => self,
            },
            KeyEventKind::Click => self,
        }
    }

    /// The position after a run of events, first to last.
    pub open spec fn after_all(self, events: Seq<KeyEvent>) -> Position
        decreases events.len(),
    {
        if events.len() == 0 {
            self
        } else {
            self.after(events.first()).after_all(events.drop_first())
        }
    }
}

/// The action an event triggers, if any: a click of `A` or of `B`.
pub open spec fn action_of(event: KeyEvent) -> Option<Action> {
    match event.kind {
        KeyEventKind::Click => match event.key {
            InputKey::A => Some(Action::A),
            InputKey::B => Some(Action::B),
            _ => None,
        },
        KeyEventKind::Press => None,
    }
}

/// The actions a run of events triggers, in the order of the events.
pub open spec fn actions_of(events: Seq<KeyEvent>) -> Seq<Action>
    decreases events.len(),
{
    if events.len() == 0 {
        Seq::empty()
    } else {
        match action_of(events.first()) {
            Some(action) => seq![action] + actions_of(events.drop_first()),
            None => actions_of(events.drop_first()),
        }
    }
}

/// The application state: the centre of the circle, always on the canvas.
#[derive(Debug, Clone, Copy, PartialEq, Eq)]
pub struct View {
    circle_x: i32,
    circle_y: i32,
}

impl vstd::view::View for View {
    type V = Position;

    closed spec fn view(&self) -> Position {
        Position { x: self.circle_x as int, y: self.circle_y as int }
    }
}

impl View {
    /// Holds of every view: the circle's centre is on the canvas.
    #[verifier::type_invariant]
    pub open spec fn on_canvas(self) -> bool {
        self@.in_canvas()
    }

    /// A view with the circle at the given point, if that point is on the
    /// canvas.
    pub fn new(circle_x: i32, circle_y: i32) -> (view: Option<View>)
        ensures
            view is Some <==> (Position { x: circle_x as int, y: circle_y as int }).in_canvas(),
            view matches Some(v) ==> v@ == (Position { x: circle_x as int, y: circle_y as int }),
    {
        if 0 <= circle_x && circle_x < WIDTH && 0 <= circle_y && circle_y < HEIGHT {
            Some(View { circle_x, circle_y })
        } else {
            None
        }
    }

    pub fn circle_x(&self) -> (x: i32)
        ensures
            x == self@.x,
    {
        self.circle_x
    }

    pub fn circle_y(&self) -> (y: i32)
        ensures
            y == self@.y,
    {
        self.circle_y
    }

    /// Applies one event: a press of a direction key moves the circle by
    /// [`STEP`], wrapping at the canvas edges; a click of `A` or `B` is
    /// handed back as the action to perform; anything else changes nothing.
    pub fn handle_key(&mut self, event: KeyEvent) -> (action: Option<Action>)
        ensures
            final(self)@ == old(self)@.after(event),
            final(self)@.in_canvas(),
            action == action_of(event),
    {
        proof {
            use_type_invariant(&*self);
        }
        match event.kind {
            KeyEventKind::Press => {
                match event.key {
                    InputKey::Left => {
                        self.circle_x = wrap(self.circle_x, -STEP, WIDTH);
                    },
                    InputKey::Right => {
                        self.circle_x = wrap(self.circle_x, STEP, WIDTH);
                    },
                    InputKey::Up => {
                        self.circle_y = wrap(self.circle_y, -STEP, HEIGHT);
                    },
                    InputKey::Down => {
                        self.circle_y = wrap(self.circle_y, STEP, HEIGHT);
                    },
                    _ => {},
                }
                None
            },
            KeyEventKind::Click => match event.key {
                InputKey::A => Some(Action::A),
                InputKey::B => Some(Action::B),
                _ => None,
            },
        }
    }
}

} // verus!
