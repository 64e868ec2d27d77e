//! What holds of every run: laws of inversion, waits, sequences, parallel sub events and
//! loops, proved from what a step does.

use crate::action::StartState;
use crate::event::Event;
use crate::model::{elapsed, CursorView, EventView, Tick};
use crate::status::Status;
use piston::keyboard::Key;
use vstd::prelude::*;

verus! {

/// A cursor below two inversions reports what it reports alone, and stays below them.
pub proof fn lemma_double_invert_step<A, S>(
    cursor: CursorView<A, S>,
    dt: u64,
    input: Option<Key>,
) where A: StartState<S>
    ensures
        CursorView::Invert(Box::new(CursorView::Invert(Box::new(cursor)))).step(dt, input) == (
            cursor.step(dt, input).0,
            CursorView::Invert(Box::new(CursorView::Invert(Box::new(cursor.step(dt, input).1)))),
        ),
{
    reveal_with_fuel(CursorView::step, 2);
}

/// A cursor below two inversions moves as it does alone.
pub proof fn lemma_double_invert_after<A, S>(cursor: CursorView<A, S>, ticks: Seq<Tick>) where
    A: StartState<S>,

    ensures
        CursorView::Invert(Box::new(CursorView::Invert(Box::new(cursor)))).after(ticks)
            == CursorView::Invert(Box::new(CursorView::Invert(Box::new(cursor.after(ticks))))),
    decreases ticks.len(),
{
    if ticks.len() > 0 {
        let before = ticks.drop_last();
        lemma_double_invert_after(cursor, before);
        lemma_double_invert_step(cursor.after(before), ticks.last().dt, ticks.last().input);
    }
}

/// Inverting an event twice changes none of its reports: stepped with the same ticks, the
/// doubly inverted event and the event itself report the same status for every tick.
pub proof fn lemma_double_invert<A, S>(event: EventView<A>, ticks: Seq<Tick>) where
    A: StartState<S>,

    requires
        ticks.len() > 0,
    ensures
        EventView::Invert(Box::new(EventView::Invert(Box::new(event)))).compile::<S>().report(
            ticks,
        ) == event.compile::<S>().report(ticks),
{
    let cursor = event.compile::<S>();
    let before = ticks.drop_last();
    assert(EventView::Invert(Box::new(EventView::Invert(Box::new(event)))).compile::<S>()
        == CursorView::Invert(Box::new(CursorView::Invert(Box::new(cursor))))) by {
        reveal_with_fuel(EventView::compile, 2);
    }
    lemma_double_invert_after(cursor, before);
    lemma_double_invert_step(cursor.after(before), ticks.last().dt, ticks.last().input);
}

/// A wait for no time succeeds on its first step, whatever time has passed.
pub proof fn lemma_wait_zero<A, S>(dt: u64, input: Option<Key>) where A: StartState<S>
    ensures
        EventView::<A>::Wait(0).compile::<S>().step(dt, input).0 == Status::Success,
{
}

/// A wait cursor holds the time that passed, as far as a `u64` can hold it.
pub proof fn lemma_wait_after<A, S>(total: u64, ticks: Seq<Tick>) where A: StartState<S>
    ensures
        EventView::<A>::Wait(total).compile::<S>().after(ticks) == (CursorView::<A, S>::Wait {
            total,
            elapsed: if elapsed(ticks) > u64::MAX {
                u64::MAX
            } else {
                elapsed(ticks) as u64
            },
        }),
    decreases ticks.len(),
{
    if ticks.len() > 0 {
        lemma_wait_after::<A, S>(total, ticks.drop_last());
    }
}

/// A wait reports `Running` for each tick at which less than its time has passed since the
/// first step, `Success` for each tick from the one on at which that time has passed, and
/// never `Failure`.
pub proof fn lemma_wait_reports<A, S>(total: u64, ticks: Seq<Tick>) where A: StartState<S>
    requires
        ticks.len() > 0,
    ensures
        EventView::<A>::Wait(total).compile::<S>().report(ticks) == if elapsed(ticks) >= total {
            Status::Success
        } else {
            Status::Running
        },
{
    lemma_wait_after::<A, S>(total, ticks.drop_last());
}

/// The first ticks of a list are the first ticks of the list without its last tick.
proof fn lemma_take_before_last(ticks: Seq<Tick>, k: int)
    requires
        0 <= k < ticks.len(),
    ensures
        ticks.drop_last().take(k) == ticks.take(k),
        ticks.take(ticks.len() as int) == ticks,
{
    assert(ticks.drop_last().take(k) =~= ticks.take(k));
    assert(ticks.take(ticks.len() as int) =~= ticks);
}

/// A cursor that reports `Running` for each tick of a list does so for each tick but the last.
proof fn lemma_running_before_last<A, S>(cursor: CursorView<A, S>, ticks: Seq<Tick>) where
    A: StartState<S>,

    requires
        ticks.len() > 0,
        cursor.running_during(ticks),
    ensures
        cursor.running_during(ticks.drop_last()),
        cursor.report(ticks) == Status::Running,
{
    let before = ticks.drop_last();
    assert forall|k: int| 0 < k <= before.len() implies cursor.report(#[trigger] before.take(k))
        == Status::Running by {
        lemma_take_before_last(ticks, k);
    }
    lemma_take_before_last(ticks, 0);
}

/// A cursor that reports `Running` for each tick of a list but the last, and for the last,
/// does so for each tick of the list.
proof fn lemma_running_with_last<A, S>(cursor: CursorView<A, S>, ticks: Seq<Tick>) where
    A: StartState<S>,

    requires
        ticks.len() > 0,
        cursor.running_during(ticks.drop_last()),
        cursor.report(ticks) == Status::Running,
    ensures
        cursor.running_during(ticks),
{
    let before = ticks.drop_last();
    assert forall|k: int| 0 < k <= ticks.len() implies cursor.report(#[trigger] ticks.take(k))
        == Status::Running by {
        if k < ticks.len() {
            lemma_take_before_last(ticks, k);
            assert(cursor.report(before.take(k)) == Status::Running);
        } else {
            lemma_take_before_last(ticks, 0);
        }
    }
}

/// While its active sub event reports `Running`, a sequence reports `Running` and stays at
/// that sub event.
pub proof fn lemma_sequence_waits<A, S>(
    children: Seq<EventView<A>>,
    index: nat,
    active: CursorView<A, S>,
    ticks: Seq<Tick>,
) where A: StartState<S>
    requires
        active.running_during(ticks),
    ensures
        (CursorView::Sequence { children, index, active: Box::new(active) }).after(ticks) == (
        CursorView::Sequence { children, index, active: Box::new(active.after(ticks)) }),
        (CursorView::Sequence { children, index, active: Box::new(active) }).running_during(
            ticks,
        ),
    decreases ticks.len(),
{
    if ticks.len() > 0 {
        let sequence = CursorView::Sequence { children, index, active: Box::new(active) };
        lemma_running_before_last(active, ticks);
        lemma_sequence_waits(children, index, active, ticks.drop_last());
        lemma_running_with_last(sequence, ticks);
    }
}

/// A sequence of two sub events reports `Failure` for the first tick for which its first sub
/// event does, and is then still at the first sub event: the second was never stepped.
pub proof fn lemma_sequence_fails_with_first<A, S>(
    first: EventView<A>,
    second: EventView<A>,
    ticks: Seq<Tick>,
) where A: StartState<S>
    requires
        ticks.len() > 0,
        first.compile::<S>().running_during(ticks.drop_last()),
        first.compile::<S>().report(ticks) == Status::Failure,
    ensures
        EventView::Sequence(seq![first, second]).compile::<S>().running_during(
            ticks.drop_last(),
        ),
        EventView::Sequence(seq![first, second]).compile::<S>().report(ticks) == Status::Failure,
        EventView::Sequence(seq![first, second]).compile::<S>().after(ticks) == (
        CursorView::Sequence {
            children: seq![first, second],
            index: 0,
            active: Box::new(first.compile::<S>().after(ticks)),
        }),
{
    lemma_sequence_waits(seq![first, second], 0, first.compile::<S>(), ticks.drop_last());
}

/// A sequence of two sub events reports `Running` for the first tick for which its first sub
/// event reports `Success`, and then holds the cursor of the second as it was compiled. For
/// the tick after that it reports what the second sub event reports for its first step.
pub proof fn lemma_sequence_moves_to_second<A, S>(
    first: EventView<A>,
    second: EventView<A>,
    ticks: Seq<Tick>,
    next: Tick,
) where A: StartState<S>
    requires
        ticks.len() > 0,
        first.compile::<S>().running_during(ticks.drop_last()),
        first.compile::<S>().report(ticks) == Status::Success,
    ensures
        EventView::Sequence(seq![first, second]).compile::<S>().report(ticks) == Status::Running,
        EventView::Sequence(seq![first, second]).compile::<S>().after(ticks) == (
        CursorView::Sequence {
            children: seq![first, second],
            index: 1,
            active: Box::new(second.compile::<S>()),
        }),
        EventView::Sequence(seq![first, second]).compile::<S>().report(ticks.push(next))
            == second.compile::<S>().report(seq![next]),
{
    lemma_sequence_waits(seq![first, second], 0, first.compile::<S>(), ticks.drop_last());
    assert(ticks.push(next).drop_last() =~= ticks);
    assert(seq![next].drop_last() =~= Seq::<Tick>::empty());
}

/// When the first of two sub events that happen together fails on the first step, the whole
/// reports `Failure` for that step and the second sub event is not stepped: its cursor is
/// left as it was compiled.
pub proof fn lemma_when_all_fails_with_first<A, S>(
    first: EventView<A>,
    second: EventView<A>,
    dt: u64,
    input: Option<Key>,
) where A: StartState<S>
    requires
        first.compile::<S>().step(dt, input).0 == Status::Failure,
    ensures
        EventView::WhenAll(seq![first, second]).compile::<S>().step(dt, input) == (
            Status::Failure,
            CursorView::WhenAll(
                seq![Some(first.compile::<S>().step(dt, input).1), Some(second.compile::<S>())],
            ),
        ),
{
    let slots = seq![Some(first.compile::<S>()), Some(second.compile::<S>())];
    assert(EventView::WhenAll(seq![first, second]).compile::<S>()->WhenAll_0 =~= slots);
    reveal_with_fuel(CursorView::step_slots, 3);
    let stepped = CursorView::step_slots(slots, 2, dt, input).1;
    assert(stepped =~= seq![
        Some(first.compile::<S>().step(dt, input).1),
        Some(second.compile::<S>()),
    ]);
}

/// When of two sub events that happen together the first succeeds on the first step and the
/// second on the second step, the whole reports `Running` for the first step and `Success`
/// for the second.
pub proof fn lemma_when_all_succeeds_in_turn<A, S>(
    first: EventView<A>,
    second: EventView<A>,
    one: Tick,
    two: Tick,
) where A: StartState<S>
    requires
        first.compile::<S>().report(seq![one]) == Status::Success,
        second.compile::<S>().report(seq![one]) == Status::Running,
        second.compile::<S>().report(seq![one, two]) == Status::Success,
    ensures
        EventView::WhenAll(seq![first, second]).compile::<S>().report(seq![one])
            == Status::Running,
        EventView::WhenAll(seq![first, second]).compile::<S>().report(seq![one, two])
            == Status::Success,
{
    let none = Seq::<Tick>::empty();
    assert(seq![one].drop_last() =~= none);
    assert(seq![one, two].drop_last() =~= seq![one]);
    let slots = seq![Some(first.compile::<S>()), Some(second.compile::<S>())];
    assert(EventView::WhenAll(seq![first, second]).compile::<S>()->WhenAll_0 =~= slots);
    reveal_with_fuel(CursorView::step_slots, 3);
    let moved = second.compile::<S>().step(one.dt, one.input).1;
    let stepped = CursorView::step_slots(slots, 2, one.dt, one.input).1;
    assert(stepped =~= seq![None, Some(moved)]);
    assert(stepped[1] is Some);
    let finished = CursorView::step_slots(stepped, 2, two.dt, two.input).1;
    assert(finished =~= seq![None, None]);
}

/// The condition of a loop is stepped with every tick, whatever the body does.
pub proof fn lemma_while_steps_condition<A, S>(
    condition: CursorView<A, S>,
    body: Seq<EventView<A>>,
    index: nat,
    active: CursorView<A, S>,
    ticks: Seq<Tick>,
) where A: StartState<S>
    ensures
        (CursorView::While {
            condition: Box::new(condition),
            body,
            index,
            active: Box::new(active),
        }).after(ticks) matches CursorView::While { condition: moved, body: same, .. }
            && *moved == condition.after(ticks) && same == body,
    decreases ticks.len(),
{
    if ticks.len() > 0 {
        lemma_while_steps_condition(condition, body, index, active, ticks.drop_last());
    }
}

/// A loop reports `Failure` for every tick for which its condition does, whatever the body
/// does.
pub proof fn lemma_while_fails_with_condition<A, S>(
    condition: EventView<A>,
    body: Seq<EventView<A>>,
    ticks: Seq<Tick>,
) where A: StartState<S>
    requires
        ticks.len() > 0,
        condition.compile::<S>().report(ticks) == Status::Failure,
    ensures
        EventView::While(Box::new(condition), body).compile::<S>().report(ticks)
            == Status::Failure,
{
    let looping = EventView::While(Box::new(condition), body).compile::<S>();
    lemma_while_steps_condition(
        condition.compile::<S>(),
        body,
        0,
        *looping->While_active,
        ticks.drop_last(),
    );
}

/// While its condition reports `Running` and its one sub event succeeds on its first step
/// with each tick, a loop reports `Running` for each tick and holds, after each, the cursor
/// of the sub event as it was compiled.
pub proof fn lemma_while_restarts_body<A, S>(
    condition: EventView<A>,
    body: EventView<A>,
    ticks: Seq<Tick>,
) where A: StartState<S>
    requires
        condition.compile::<S>().running_during(ticks),
        forall|i: int|
            0 <= i < ticks.len() ==> body.compile::<S>().step(
                (#[trigger] ticks[i]).dt,
                ticks[i].input,
            ).0 == Status::Success,
    ensures
        EventView::While(Box::new(condition), seq![body]).compile::<S>().running_during(ticks),
        EventView::While(Box::new(condition), seq![body]).compile::<S>().after(ticks) == (
        CursorView::While {
            condition: Box::new(condition.compile::<S>().after(ticks)),
            body: seq![body],
            index: 0,
            active: Box::new(body.compile::<S>()),
        }),
    decreases ticks.len(),
{
    if ticks.len() > 0 {
        let looping = EventView::While(Box::new(condition), seq![body]).compile::<S>();
        lemma_running_before_last(condition.compile::<S>(), ticks);
        lemma_while_restarts_body::<A, S>(condition, body, ticks.drop_last());
        assert(ticks[ticks.len() - 1] == ticks.last());
        lemma_running_with_last(looping, ticks);
    }
}

/// A sequence, a set of sub events that happen together and a loop are not well formed
/// without sub events, whatever the condition of the loop is.
pub proof fn lemma_empty_composite<A>(condition: EventView<A>)
    ensures
        !EventView::<A>::Sequence(Seq::empty()).well_formed(),
        !EventView::<A>::WhenAll(Seq::empty()).well_formed(),
        !EventView::While(Box::new(condition), Seq::empty()).well_formed(),
{
}

/// An event that is a sequence, a set of sub events that happen together or a loop, and has
/// an empty list of sub events, is not well formed: `to_cursor` makes no cursor for it.
pub proof fn lemma_empty_event<A>(children: Vec<Event<A>>, condition: Event<A>)
    requires
        children@.len() == 0,
    ensures
        !Event::Sequence(children)@.well_formed(),
        !Event::WhenAll(children)@.well_formed(),
        !Event::While(Box::new(condition), children)@.well_formed(),
{
    assert(crate::event::views(children@).len() == 0);
}

} // verus!
