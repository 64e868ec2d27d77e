//! The cursor: where a run of an event tree stands, and how a tick moves it on.

use crate::action::StartState;
use crate::event::{views, Event};
use crate::key::same_key;
use crate::model::CursorView;
use crate::status::Status;
use piston::keyboard::Key;
use vstd::prelude::*;

verus! {

/// Keeps track of where a run of an event tree stands. `A` is the type of the caller's
/// actions and `S` the type of the state that an action works on.
///
/// A cursor borrows the lists of sub events from the tree it was made for. It is made by
/// [`Event::to_cursor`] and moved on by [`Cursor::step`]; a cursor put together by hand has
/// to be well formed before it is stepped.
pub enum Cursor<'a, A, S> {
    /// The key to look for.
    KeyPressedCursor(Key),
    /// An action and the state it is in.
    ActionCursor(&'a A, S),
    /// Exchanges the outcomes of the cursor below.
    InvertCursor(Box<Cursor<'a, A, S>>),
    /// The time to wait and the time waited so far.
    WaitCursor(u64, u64),
    /// The sub events, the position of the active one and its cursor.
    SequenceCursor(&'a Vec<Event<A>>, usize, Box<Cursor<'a, A, S>>),
    /// The cursor of the condition, the loop body, the position of the active event in it and
    /// its cursor.
    WhileCursor(Box<Cursor<'a, A, S>>, &'a Vec<Event<A>>, usize, Box<Cursor<'a, A, S>>),
    /// One slot for each sub event, empty once the sub event has succeeded.
    WhenAllCursor(Vec<Option<Cursor<'a, A, S>>>),
}

/// What a list of slots stands for, in the same order.
pub open spec fn slot_views<'a, A, S>(slots: Seq<Option<Cursor<'a, A, S>>>) -> Seq<
    Option<CursorView<A, S>>,
>
    decreases slots, 0nat,
{
    Seq::new(
        slots.len(),
        |i: int|
            if 0 <= i < slots.len() {
                match slots[i] {
                    Some(child) => Some(child.model()),
                    None => None,
                }
            } else {
                arbitrary()
            },
    )
}

impl<'a, A, S> View for Cursor<'a, A, S> {
    type V = CursorView<A, S>;

    open spec fn view(&self) -> CursorView<A, S> {
        self.model()
    }
}

impl<'a, A, S> Cursor<'a, A, S> {
    /// What the cursor stands for.
    pub open spec fn model(&self) -> CursorView<A, S>
        decreases self, 1nat,
    {
        match self {
            Cursor::KeyPressedCursor(key) => CursorView::KeyPressed(*key),
            Cursor::ActionCursor(action, state) => CursorView::Action {
                action: **action,
                state: *state,
            },
            Cursor::InvertCursor(child) => CursorView::Invert(Box::new(child.model())),
            Cursor::WaitCursor(total, elapsed) => CursorView::Wait {
                total: *total,
                elapsed: *elapsed,
            },
            Cursor::SequenceCursor(children, index, active) => CursorView::Sequence {
                children: views(children@),
                index: *index as nat,
                active: Box::new(active.model()),
            },
            Cursor::WhileCursor(condition, body, index, active) => CursorView::While {
                condition: Box::new(condition.model()),
                body: views(body@),
                index: *index as nat,
                active: Box::new(active.model()),
            },
            Cursor::WhenAllCursor(slots) => CursorView::WhenAll(slot_views(slots@)),
        }
    }
}

impl<'a, A, S> Cursor<'a, A, S> where A: StartState<S> {
    /// Advances the run by one tick and reports how the behavior stands after it.
    ///
    /// `dt` is the time that passed since the tick before and `input` the key that was
    /// pressed, if any. Only the active path of the tree is stepped: one sub event of a
    /// sequence and of a loop body, and every sub event of a `WhenAll` that has not
    /// succeeded yet, up to the first that fails. What the step reports and what it leaves
    /// in the cursor is what [`CursorView::step`] says.
    pub fn step(&mut self, dt: u64, input: Option<Key>) -> (status: Status)
        requires
            old(self)@.wf(),
        ensures
            (status, final(self)@) == old(self)@.step(dt, input),
            final(self)@.wf(),
        decreases *old(self),
    {
        proof {
            self@.lemma_step_wf(dt, input);
        }
        match self {
            Cursor::KeyPressedCursor(key) => {
                match input {
                    Some(pressed) => if same_key(pressed, *key) {
                        Status::Success
                    } else {
                        Status::Failure
                    },
                    None => Status::Failure,
                }
            },
            Cursor::ActionCursor(action, state) => action.update(dt, state, input),
            Cursor::InvertCursor(child) => child.step(dt, input).invert(),
            Cursor::WaitCursor(total, elapsed) => {
                *elapsed = elapsed.saturating_add(dt);
                if *elapsed >= *total {
                    Status::Success
                } else {
                    Status::Running
                }
            },
            Cursor::SequenceCursor(children, index, active) => {
                let events: &'a Vec<Event<A>> = *children;
                let count = events.len();
                let status = active.step(dt, input);
                if status == Status::Success && *index + 1 < count {
                    *index = *index + 1;
                    assert(views(events@)[*index as int] == events@[*index as int]@);
                    **active = events[*index].compile();
                    Status::Running
                } else {
                    status
                }
            },
            Cursor::WhileCursor(condition, body, index, active) => {
                let events: &'a Vec<Event<A>> = *body;
                let count = events.len();
                if condition.step(dt, input) == Status::Failure {
                    return Status::Failure;
                }
                let status = active.step(dt, input);
                if status == Status::Success {
                    *index = if *index + 1 < count {
                        *index + 1
                    } else {
                        0
                    };
                    assert(views(events@)[*index as int] == events@[*index as int]@);
                    **active = events[*index].compile();
                    Status::Running
                } else {
                    status
                }
            },
            Cursor::WhenAllCursor(slots) => {
                assert forall|i: int| 0 <= i < slots@.len() implies ((#[trigger] slots@[i])
                    matches Some(child) ==> child@.wf()) by {
                    assert(slot_views(slots@)[i] matches Some(child) ==> child.wf());
                }
                if step_all(slots, dt, input) {
                    Status::Failure
                } else if all_empty(slots) {
                    Status::Success
                } else {
                    Status::Running
                }
            },
        }
    }
}

/// Steps the cursors in the slots from the first on, until one fails, and empties the slots
/// of those that succeed. Tells whether one failed.
fn step_all<'a, A, S>(
    slots: &mut Vec<Option<Cursor<'a, A, S>>>,
    dt: u64,
    input: Option<Key>,
) -> (failed: bool) where A: StartState<S>

    requires
        forall|i: int|
            0 <= i < old(slots)@.len() ==> ((#[trigger] old(slots)@[i]) matches Some(child)
                ==> child@.wf()),
    ensures
        (failed, slot_views(final(slots)@)) == CursorView::step_slots(
            slot_views(old(slots)@),
            old(slots)@.len(),
            dt,
            input,
        ),
    decreases *old(slots),
{
    let ghost start = slot_views(slots@);
    let mut i: usize = 0;
    while i < slots.len()
        invariant
            0 <= i <= slots@.len(),
            slots@.len() == old(slots)@.len(),
            start == slot_views(old(slots)@),
            forall|j: int| i <= j < slots@.len() ==> slots@[j] == old(slots)@[j],
            forall|j: int|
                0 <= j < old(slots)@.len() ==> ((#[trigger] old(slots)@[j]) matches Some(child)
                    ==> child@.wf()),
            (false, slot_views(slots@)) == CursorView::step_slots(start, i as nat, dt, input),
        decreases slots@.len() - i,
    {
        let ghost done = slot_views(slots@);
        let ghost at = i as int;
        assert(slots@[at] == old(slots)@[at]);
        let slot = &mut slots[i];
        if let Some(child) = slot {
            let ghost stepped = child@.step(dt, input).1;
            assert(start[at] == Some(child@));
            match child.step(dt, input) {
                Status::Running => {
                    assert(slot_views(slots@) =~= done.update(at, Some(stepped)));
                },
                Status::Success => {
                    *slot = None;
                    assert(slot_views(slots@) =~= done.update(at, None));
                },
                Status::Failure => {
                    proof {
                        assert(slot_views(slots@) =~= done.update(at, Some(stepped)));
                        CursorView::lemma_step_slots_failed(
                            start,
                            (i + 1) as nat,
                            start.len(),
                            dt,
                            input,
                        );
                    }
                    return true;
                },
            }
        } else {
            assert(start[at] is None);
            assert(slot_views(slots@) =~= done);
        }
        i += 1;
    }
    false
}

/// Tells whether every slot is empty.
fn all_empty<'a, A, S>(slots: &Vec<Option<Cursor<'a, A, S>>>) -> (empty: bool)
    ensures
        empty == forall|i: int| 0 <= i < slots@.len() ==> slot_views(slots@)[i] is None,
{
    let mut i: usize = 0;
    while i < slots.len()
        invariant
            0 <= i <= slots@.len(),
            forall|j: int| 0 <= j < i ==> slots@[j] is None,
        decreases slots@.len() - i,
    {
        if slots[i].is_some() {
            assert(slot_views(slots@)[i as int] is Some);
            return false;
        }
        i += 1;
    }
    true
}

} // verus!
