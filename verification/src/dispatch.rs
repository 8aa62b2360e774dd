//! One cycle of input handling: scan the lines, then hand every queued
//! event to the view.

use crate::input::{scan, scan_events, scan_lines, Input, KeyEvent, Level};
use crate::view::{actions_of, Action, View};
use std::collections::VecDeque;
use vstd::prelude::*;
use vstd::view::View as _;

verus! {

/// Drains the queue. Every event is handed to the view once, first in
/// first out, and the queue is empty afterwards. Returns the actions the
/// events triggered, in the order of the events.
pub fn dispatch_events(input_events: &mut VecDeque<KeyEvent>, target_view: &mut View) -> (actions:
    Vec<Action>)
    ensures
        final(input_events)@ == Seq::<KeyEvent>::empty(),
        final(target_view)@ == old(target_view)@.after_all(old(input_events)@),
        final(target_view)@.in_canvas(),
        actions@ == actions_of(old(input_events)@),
{
    let mut actions: Vec<Action> = Vec::new();
    while input_events.len() > 0
        invariant
            target_view@.after_all(input_events@) == old(target_view)@.after_all(
                old(input_events)@,
            ),
            actions@ + actions_of(input_events@) == actions_of(old(input_events)@),
        decreases input_events@.len(),
    {
        let ghost queued = input_events@;
        match input_events.pop_front() {
            Some(event) => {
                assert(input_events@ == queued.drop_first());
                match target_view.handle_key(event) {
                    Some(action) => {
                        actions.push(action);
                    },
                    None => {},
                }
            },
            None => {},
        }
    }
    proof {
        use_type_invariant(&*target_view);
    }
    actions
}

/// Runs the input side of one cycle. `levels[i]` is the level sampled on
/// line `i`. The lines are scanned in order, their events join whatever
/// is still queued, and the whole queue is then dispatched to the view.
pub fn dispatch_input_events(
    inputs: &mut Vec<Input>,
    levels: &[Level],
    input_events: &mut VecDeque<KeyEvent>,
    target_view: &mut View,
) -> (actions: Vec<Action>)
    requires
        levels@.len() == old(inputs)@.len(),
    ensures
        final(inputs)@ == scan_lines(old(inputs)@, levels@),
        final(input_events)@ == Seq::<KeyEvent>::empty(),
        final(target_view)@ == old(target_view)@.after_all(
            old(input_events)@ + scan_events(old(inputs)@, levels@),
        ),
        final(target_view)@.in_canvas(),
        actions@ == actions_of(old(input_events)@ + scan_events(old(inputs)@, levels@)),
{
    scan(inputs, levels, input_events);
    dispatch_events(input_events, target_view)
}

} // verus!
