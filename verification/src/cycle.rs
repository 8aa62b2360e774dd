//! One turn of the main loop, without its input and output.

use crate::dispatch::dispatch_input_events;
use crate::input::{scan_events, scan_lines, Input, KeyEvent, Level};
use crate::render::{circle_at, painted_around, Color, Pixel};
use crate::view::{actions_of, Action, View};
use std::collections::VecDeque;
use vstd::prelude::*;
use vstd::view::View as _;

verus! {

/// What one cycle asks of the display and of the application.
#[derive(Debug)]
pub struct Frame {
    /// The circle where it was, in the background colour. To be drawn
    /// first.
    pub erase: Vec<Pixel>,
    /// The circle where it is now, in the foreground colour. To be drawn
    /// second, before the frame is presented.
    pub paint: Vec<Pixel>,
    /// The actions that this cycle's clicks triggered, in queue order.
    pub actions: Vec<Action>,
}

/// Runs one cycle on the levels sampled for it. The old circle is
/// erased, the lines are scanned and their events dispatched, and the
/// circle is painted where the events have moved it.
pub fn run_cycle(
    inputs: &mut Vec<Input>,
    levels: &[Level],
    input_events: &mut VecDeque<KeyEvent>,
    target_view: &mut View,
) -> (frame: Frame)
    requires
        levels@.len() == old(inputs)@.len(),
    ensures
        final(inputs)@ == scan_lines(old(inputs)@, levels@),
        final(input_events)@ == Seq::<KeyEvent>::empty(),
        final(target_view)@ == old(target_view)@.after_all(
            old(input_events)@ + scan_events(old(inputs)@, levels@),
        ),
        final(target_view)@.in_canvas(),
        frame.erase@ == circle_at(old(target_view)@, Color::Off),
        painted_around(frame.erase@, old(target_view)@, Color::Off),
        frame.paint@ == circle_at(final(target_view)@, Color::On),
        painted_around(frame.paint@, final(target_view)@, Color::On),
        frame.actions@ == actions_of(old(input_events)@ + scan_events(old(inputs)@, levels@)),
{
    let erase = target_view.draw(Color::Off);
    let actions = dispatch_input_events(inputs, levels, input_events, target_view);
    let paint = target_view.draw(Color::On);
    Frame { erase, paint, actions }
}

} // verus!
