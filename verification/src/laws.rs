//! What holds of the scan and of the view, for every input.

use crate::input::{
    initial_lines, scan_events, scan_lines, Input, InputKey, KeyEvent, KeyEventKind, Level,
};
use crate::view::Position;
use vstd::prelude::*;

verus! {

/// The events one line gives over consecutive cycles in which it reads
/// `levels`, one level per cycle.
pub open spec fn line_run(line: Input, levels: Seq<Level>) -> Seq<KeyEvent>
    decreases levels.len(),
{
    if levels.len() == 0 {
        Seq::empty()
    } else {
        line.events(levels.first()) + line_run(line.after(levels.first()), levels.drop_first())
    }
}

/// No two lines of `inputs` are bound to the same key.
pub open spec fn distinct_keys(inputs: Seq<Input>) -> bool {
    forall|i: int, j: int|
        0 <= i < j < inputs.len() ==> (#[trigger] inputs[i]).input_key != (
        #[trigger] inputs[j]).input_key
}

/// The lines of `inputs` are bound to the keys in scan order, one line per
/// key.
pub open spec fn in_scan_order(inputs: Seq<Input>) -> bool {
    &&& inputs.len() == InputKey::order().len()
    &&& forall|i: int| 0 <= i < inputs.len() ==> (#[trigger] inputs[i]).input_key == InputKey::order()[i]
}

/// A line that is low in a cycle gives exactly one event in that cycle, a
/// press of its key, whatever it read before.
pub proof fn lemma_low_presses(line: Input)
    ensures
        line.events(Level::Low) == seq![KeyEvent::press(line.input_key)],
{
}

/// A line held low for `n` cycles in a row gives `n` events, one per
/// cycle, each a press of its key: `n` presses and no click.
pub proof fn lemma_held_presses(line: Input, n: nat)
    ensures
        line_run(line, Seq::new(n, |i: int| Level::Low)) == Seq::new(
            n,
            |i: int| KeyEvent::press(line.input_key),
        ),
    decreases n,
{
    let lows = Seq::new(n, |i: int| Level::Low);
    let presses = Seq::new(n, |i: int| KeyEvent::press(line.input_key));
    if n > 0 {
        let held = line.after(Level::Low);
        lemma_held_presses(held, (n - 1) as nat);
        assert(lows.drop_first() == Seq::new((n - 1) as nat, |i: int| Level::Low));
        assert(presses == seq![KeyEvent::press(line.input_key)] + Seq::new(
            (n - 1) as nat,
            |i: int| KeyEvent::press(held.input_key),
        ));
    }
}

/// A line that was low and now reads high gives exactly one event in that
/// cycle, a click of its key, and no press.
pub proof fn lemma_release_clicks(line: Input)
    requires
        line.pin_state == Level::Low,
    ensures
        line.events(Level::High) == seq![KeyEvent::click(line.input_key)],
{
}

/// A line gives at most one event per cycle, always for its own key. A
/// press means that the line reads low; a click means that the line was
/// low and reads high, so a click only comes with a change of level.
pub proof fn lemma_line_events(line: Input, now: Level)
    ensures
        line.events(now).len() <= 1,
        forall|i: int|
            0 <= i < line.events(now).len() ==> (#[trigger] line.events(now)[i]).key
                == line.input_key,
        line.events(now).contains(KeyEvent::press(line.input_key)) <==> now == Level::Low,
        line.events(now).contains(KeyEvent::click(line.input_key)) <==> (line.pin_state
            == Level::Low && now == Level::High),
{
    let events = line.events(now);
    if events.len() == 1 {
        assert(events.contains(events[0]));
    }
}

/// An event that is not a press of a direction key leaves the position as
/// it is.
pub proof fn lemma_other_events_change_nothing(position: Position, event: KeyEvent)
    requires
        !(event.kind == KeyEventKind::Press && (event.key == InputKey::Left || event.key
            == InputKey::Right || event.key == InputKey::Up || event.key == InputKey::Down)),
    ensures
        position.after(event) == position,
{
}

/// A move never leaves the canvas.
pub proof fn lemma_after_in_canvas(position: Position, event: KeyEvent)
    requires
        position.in_canvas(),
    ensures
        position.after(event).in_canvas(),
{
}

/// A click of `Center` changes nothing, the first time and the second.
pub proof fn lemma_center_click_twice(position: Position)
    ensures
        position.after(KeyEvent::click(InputKey::Center)) == position,
        position.after(KeyEvent::click(InputKey::Center)).after(
            KeyEvent::click(InputKey::Center),
        ) == position,
{
}

/// Dispatching one run of events and then another moves the circle as
/// dispatching both in one go: events take effect in queue order.
pub proof fn lemma_after_all_concat(position: Position, first: Seq<KeyEvent>, then: Seq<KeyEvent>)
    ensures
        position.after_all(first + then) == position.after_all(first).after_all(then),
    decreases first.len(),
{
    if first.len() == 0 {
        assert(first + then == then);
    } else {
        assert((first + then).first() == first.first());
        assert((first + then).drop_first() == first.drop_first() + then);
        lemma_after_all_concat(position.after(first.first()), first.drop_first(), then);
    }
}

/// However many events are dispatched, the circle stays on the canvas.
pub proof fn lemma_after_all_in_canvas(position: Position, events: Seq<KeyEvent>)
    requires
        position.in_canvas(),
    ensures
        position.after_all(events).in_canvas(),
    decreases events.len(),
{
    if events.len() > 0 {
        lemma_after_all_in_canvas(position.after(events.first()), events.drop_first());
    }
}

/// The events of the first `k` lines open the events of the whole scan.
pub proof fn lemma_scan_prefix(inputs: Seq<Input>, levels: Seq<Level>, k: int)
    requires
        0 <= k <= inputs.len(),
    ensures
        scan_events(inputs.take(k), levels).is_prefix_of(scan_events(inputs, levels)),
    decreases inputs.len(),
{
    if k == inputs.len() {
        assert(inputs.take(k) == inputs);
    } else {
        lemma_scan_prefix(inputs.drop_last(), levels, k);
        assert(inputs.drop_last().take(k) == inputs.take(k));
    }
}

/// Events come in the order of the lines. If line `a` stands before line
/// `b` and both are low in a cycle, the press of `a`'s key is queued
/// before the press of `b`'s key.
pub proof fn lemma_scan_order(inputs: Seq<Input>, levels: Seq<Level>, a: int, b: int)
    requires
        inputs.len() == levels.len(),
        0 <= a < b < inputs.len(),
        levels[a] == Level::Low,
        levels[b] == Level::Low,
    ensures
        exists|i: int, j: int|
            0 <= i < j < scan_events(inputs, levels).len() && #[trigger] scan_events(
                inputs,
                levels,
            )[i] == KeyEvent::press(inputs[a].input_key) && #[trigger] scan_events(inputs, levels)[j]
                == KeyEvent::press(inputs[b].input_key),
{
    let all = scan_events(inputs, levels);
    let up_to_a = scan_events(inputs.take(a + 1), levels);
    let before_b = scan_events(inputs.take(b), levels);
    let up_to_b = scan_events(inputs.take(b + 1), levels);
    let i = up_to_a.len() - 1;
    let j = before_b.len() as int;
    assert(inputs.take(a + 1).drop_last() == inputs.take(a));
    assert(inputs.take(b + 1).drop_last() == inputs.take(b));
    assert(up_to_a[i] == KeyEvent::press(inputs[a].input_key));
    assert(up_to_b[j] == KeyEvent::press(inputs[b].input_key));
    lemma_scan_prefix(inputs.take(b), levels, a + 1);
    assert(inputs.take(b).take(a + 1) == inputs.take(a + 1));
    lemma_scan_prefix(inputs, levels, b);
    lemma_scan_prefix(inputs, levels, b + 1);
    assert(all[i] == KeyEvent::press(inputs[a].input_key));
    assert(all[j] == KeyEvent::press(inputs[b].input_key));
}

/// With the lines in scan order, a cycle in which `Left` and `Down` are
/// both low queues the press of `Left` before the press of `Down`.
pub proof fn lemma_left_before_down(inputs: Seq<Input>, levels: Seq<Level>)
    requires
        in_scan_order(inputs),
        levels.len() == inputs.len(),
        levels[InputKey::Left.index()] == Level::Low,
        levels[InputKey::Down.index()] == Level::Low,
    ensures
        exists|i: int, j: int|
            0 <= i < j < scan_events(inputs, levels).len() && #[trigger] scan_events(
                inputs,
                levels,
            )[i] == KeyEvent::press(InputKey::Left) && #[trigger] scan_events(inputs, levels)[j]
                == KeyEvent::press(InputKey::Down),
{
    lemma_scan_order(inputs, levels, InputKey::Left.index(), InputKey::Down.index());
    assert(inputs[0].input_key == InputKey::order()[0]);
    assert(inputs[4].input_key == InputKey::order()[4]);
}

/// Picks the events of one key.
pub open spec fn of_key(key: InputKey) -> spec_fn(KeyEvent) -> bool {
    |event: KeyEvent| event.key == key
}

/// The events of consecutive cycles, the lines reading `cycles[c]` in
/// cycle `c`.
pub open spec fn table_run(inputs: Seq<Input>, cycles: Seq<Seq<Level>>) -> Seq<KeyEvent>
    decreases cycles.len(),
{
    if cycles.len() == 0 {
        Seq::empty()
    } else {
        scan_events(inputs, cycles.first()) + table_run(
            scan_lines(inputs, cycles.first()),
            cycles.drop_first(),
        )
    }
}

/// The table built at start-up has one line per key, in scan order.
pub proof fn lemma_initial_lines()
    ensures
        in_scan_order(initial_lines()),
        distinct_keys(initial_lines()),
        forall|key: InputKey| 0 <= key.index() < 7 && (#[trigger] initial_lines()[key.index()]).input_key == key,
{
}

/// Lines in scan order are bound to distinct keys.
pub proof fn lemma_scan_order_is_distinct(inputs: Seq<Input>)
    requires
        in_scan_order(inputs),
    ensures
        distinct_keys(inputs),
{
    assert forall|i: int, j: int| 0 <= i < j < inputs.len() implies (#[trigger] inputs[i]).input_key != (
    #[trigger] inputs[j]).input_key by {
        assert(inputs[i].input_key == InputKey::order()[i]);
        assert(inputs[j].input_key == InputKey::order()[j]);
    }
}

/// A scan changes no binding: the lines keep their keys and their order.
pub proof fn lemma_scan_keeps_keys(inputs: Seq<Input>, levels: Seq<Level>)
    ensures
        scan_lines(inputs, levels).len() == inputs.len(),
        forall|i: int|
            0 <= i < inputs.len() ==> (#[trigger] scan_lines(inputs, levels)[i]).input_key
                == inputs[i].input_key,
        distinct_keys(inputs) ==> distinct_keys(scan_lines(inputs, levels)),
        in_scan_order(inputs) ==> in_scan_order(scan_lines(inputs, levels)),
{
    let scanned = scan_lines(inputs, levels);
    if distinct_keys(inputs) {
        assert forall|i: int, j: int| 0 <= i < j < scanned.len() implies (#[trigger] scanned[i]).input_key != (
        #[trigger] scanned[j]).input_key by {
            assert(inputs[i].input_key != inputs[j].input_key);
        }
    }
}

/// No two keys share a physical line.
pub proof fn lemma_lines_distinct(a: InputKey, b: InputKey)
    requires
        a != b,
    ensures
        a.line() != b.line(),
{
}

/// Among its own events a line's key picks all, any other key none.
proof fn lemma_line_events_of_key(line: Input, now: Level, key: InputKey)
    ensures
        line.events(now).filter(of_key(key)) == if line.input_key == key {
            line.events(now)
        } else {
            Seq::<KeyEvent>::empty()
        },
{
    reveal_with_fuel(Seq::filter, 2);
    let events = line.events(now);
    if events.len() == 1 {
        assert(events.drop_last() == Seq::<KeyEvent>::empty());
        assert(Seq::<KeyEvent>::empty().push(events.last()) == events);
    }
}

/// A key that no line is bound to has no event in a scan.
proof fn lemma_unbound_key_has_no_event(inputs: Seq<Input>, levels: Seq<Level>, key: InputKey)
    requires
        forall|i: int| 0 <= i < inputs.len() ==> (#[trigger] inputs[i]).input_key != key,
    ensures
        scan_events(inputs, levels).filter(of_key(key)) == Seq::<KeyEvent>::empty(),
    decreases inputs.len(),
{
    if inputs.len() == 0 {
        reveal_with_fuel(Seq::filter, 1);
    } else {
        let last_events = inputs.last().events(levels[inputs.len() - 1]);
        lemma_unbound_key_has_no_event(inputs.drop_last(), levels, key);
        lemma_line_events_of_key(inputs.last(), levels[inputs.len() - 1], key);
        Seq::filter_distributes_over_add(
            scan_events(inputs.drop_last(), levels),
            last_events,
            of_key(key),
        );
    }
}

/// Dropping the last line leaves the keys distinct, and none of the lines
/// that stay is bound to the last line's key.
proof fn lemma_distinct_front(inputs: Seq<Input>)
    requires
        distinct_keys(inputs),
        inputs.len() > 0,
    ensures
        distinct_keys(inputs.drop_last()),
        forall|i: int|
            0 <= i < inputs.len() - 1 ==> (#[trigger] inputs.drop_last()[i]).input_key
                != inputs.last().input_key,
{
    let front = inputs.drop_last();
    assert forall|i: int, j: int| 0 <= i < j < front.len() implies (#[trigger] front[i]).input_key != (
    #[trigger] front[j]).input_key by {
        assert(inputs[i].input_key != inputs[j].input_key);
    }
    assert forall|i: int| 0 <= i < inputs.len() - 1 implies (#[trigger] front[i]).input_key
        != inputs.last().input_key by {
        assert(inputs[i].input_key != inputs[inputs.len() - 1].input_key);
    }
}

/// With one line per key, the events a scan queues for a key are exactly
/// the events of that key's line: at most one press and at most one click
/// per key and cycle.
pub proof fn lemma_events_of_key(inputs: Seq<Input>, levels: Seq<Level>, k: int)
    requires
        distinct_keys(inputs),
        0 <= k < inputs.len(),
    ensures
        scan_events(inputs, levels).filter(of_key(inputs[k].input_key)) == inputs[k].events(
            levels[k],
        ),
    decreases inputs.len(),
{
    let key = inputs[k].input_key;
    let front = inputs.drop_last();
    let front_events = scan_events(front, levels);
    let last_events = inputs.last().events(levels[inputs.len() - 1]);
    assert(scan_events(inputs, levels) == front_events + last_events);
    Seq::filter_distributes_over_add(front_events, last_events, of_key(key));
    lemma_line_events_of_key(inputs.last(), levels[inputs.len() - 1], key);
    lemma_distinct_front(inputs);
    if k == inputs.len() - 1 {
        lemma_unbound_key_has_no_event(front, levels, key);
        assert(front_events.filter(of_key(key)) + last_events == last_events);
    } else {
        assert(front[k] == inputs[k]);
        lemma_events_of_key(front, levels, k);
        assert(last_events.filter(of_key(key)) == Seq::<KeyEvent>::empty());
        assert(inputs[k].events(levels[k]) + Seq::<KeyEvent>::empty() == inputs[k].events(levels[k]));
    }
}

/// With one line per key, a key whose line is low in each of `n` cycles
/// in a row has exactly `n` events in the queue over those cycles, each
/// a press: one press per cycle and no click.
pub proof fn lemma_held_key_presses(inputs: Seq<Input>, cycles: Seq<Seq<Level>>, k: int)
    requires
        distinct_keys(inputs),
        0 <= k < inputs.len(),
        forall|c: int| 0 <= c < cycles.len() ==> (#[trigger] cycles[c])[k] == Level::Low,
    ensures
        table_run(inputs, cycles).filter(of_key(inputs[k].input_key)) == Seq::new(
            cycles.len(),
            |c: int| KeyEvent::press(inputs[k].input_key),
        ),
    decreases cycles.len(),
{
    let key = inputs[k].input_key;
    let presses = Seq::new(cycles.len(), |c: int| KeyEvent::press(key));
    if cycles.len() == 0 {
        reveal_with_fuel(Seq::filter, 1);
        assert(presses == Seq::<KeyEvent>::empty());
    } else {
        let now = cycles.first();
        let next = scan_lines(inputs, now);
        let rest = cycles.drop_first();
        lemma_events_of_key(inputs, now, k);
        lemma_scan_keeps_keys(inputs, now);
        assert(now[k] == Level::Low);
        assert forall|c: int| 0 <= c < rest.len() implies (#[trigger] rest[c])[k] == Level::Low by {
            assert(rest[c] == cycles[c + 1]);
        }
        lemma_held_key_presses(next, rest, k);
        Seq::filter_distributes_over_add(
            scan_events(inputs, now),
            table_run(next, rest),
            of_key(key),
        );
        assert(presses == seq![KeyEvent::press(key)] + Seq::new(
            rest.len(),
            |c: int| KeyEvent::press(next[k].input_key),
        ));
    }
}

/// With one line per key, a key whose line was low and now reads high
/// has exactly one event in the queue of that cycle, a click, and no
/// press.
pub proof fn lemma_released_key_clicks(inputs: Seq<Input>, levels: Seq<Level>, k: int)
    requires
        distinct_keys(inputs),
        0 <= k < inputs.len(),
        inputs[k].pin_state == Level::Low,
        levels[k] == Level::High,
    ensures
        scan_events(inputs, levels).filter(of_key(inputs[k].input_key)) == seq![
            KeyEvent::click(inputs[k].input_key),
        ],
{
    lemma_events_of_key(inputs, levels, k);
}

/// The events of the first `k` lines in scan order are events of the
/// first `k` keys, and they are queued by rising position of their key.
proof fn lemma_scan_sorted_up_to(inputs: Seq<Input>, levels: Seq<Level>, k: int)
    requires
        in_scan_order(inputs),
        0 <= k <= inputs.len(),
    ensures
        forall|i: int|
            0 <= i < scan_events(inputs.take(k), levels).len() ==> (#[trigger] scan_events(
                inputs.take(k),
                levels,
            )[i]).key.index() < k,
        forall|i: int, j: int|
            0 <= i <= j < scan_events(inputs.take(k), levels).len() ==> (#[trigger] scan_events(
                inputs.take(k),
                levels,
            )[i]).key.index() <= (#[trigger] scan_events(inputs.take(k), levels)[j]).key.index(),
    decreases k,
{
    if k > 0 {
        let line = inputs[k - 1];
        let front = scan_events(inputs.take(k - 1), levels);
        let own = line.events(levels[k - 1]);
        let events = scan_events(inputs.take(k), levels);
        lemma_scan_sorted_up_to(inputs, levels, k - 1);
        assert(inputs.take(k).drop_last() == inputs.take(k - 1));
        assert(events == front + own);
        assert(line.input_key == InputKey::order()[k - 1]);
        assert(line.input_key.index() == k - 1);
        assert forall|i: int| 0 <= i < events.len() implies (#[trigger] events[i]).key.index()
            < k by {
            if i < front.len() {
                assert(events[i] == front[i]);
            } else {
                assert(events[i] == own[i - front.len()]);
            }
        }
        assert forall|i: int, j: int| 0 <= i <= j < events.len() implies (#[trigger] events[i]).key.index()
            <= (#[trigger] events[j]).key.index() by {
            if j < front.len() {
                assert(events[i] == front[i]);
                assert(events[j] == front[j]);
            } else if i < front.len() {
                assert(events[i] == front[i]);
                assert(events[j] == own[j - front.len()]);
            } else {
                assert(events[i] == own[i - front.len()]);
                assert(events[j] == own[j - front.len()]);
            }
        }
    }
}

/// With the lines in scan order, the queue of a cycle is ordered as the
/// keys are: an event never stands behind an event of a later key.
pub proof fn lemma_scan_sorted(inputs: Seq<Input>, levels: Seq<Level>)
    requires
        in_scan_order(inputs),
    ensures
        forall|i: int, j: int|
            0 <= i <= j < scan_events(inputs, levels).len() ==> (#[trigger] scan_events(
                inputs,
                levels,
            )[i]).key.index() <= (#[trigger] scan_events(inputs, levels)[j]).key.index(),
{
    lemma_scan_sorted_up_to(inputs, levels, inputs.len() as int);
    assert(inputs.take(inputs.len() as int) == inputs);
}

} // verus!
