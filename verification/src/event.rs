//! The event tree: what a behavior is made of, and how a run of it begins.

use crate::action::StartState;
use crate::cursor::{slot_views, Cursor};
use crate::model::{all_well_formed, EventView};
use piston::keyboard::Key;
use vstd::prelude::*;

verus! {

/// Describes a behavior as a tree of events. `A` is the type of the caller's actions.
///
/// Time is counted in whole units of the caller's choice, the same for a `Wait` and for the
/// time between two steps of a cursor.
pub enum Event<A> {
    /// Succeeds when the key is pressed, and fails when it is not.
    KeyPressed(Key),
    /// Performs an action and reports what the action reports.
    Action(A),
    /// Turns the `Success` of the event below into `Failure` and its `Failure` into
    /// `Success`.
    Invert(Box<Event<A>>),
    /// Waits for the given time to pass. This event never fails.
    Wait(u64),
    /// Lets the sub events happen one after the other. The sequence fails as soon as one of
    /// them fails, and succeeds when the last has succeeded. There must be at least one.
    Sequence(Vec<Event<A>>),
    /// Lets the sub events of the body happen one after the other, over and over, until the
    /// condition or one of them fails. The body must hold at least one sub event.
    While(Box<Event<A>>, Vec<Event<A>>),
    /// Lets all sub events happen together. The whole fails as soon as one of them fails,
    /// and succeeds when all have succeeded. There must be at least one.
    WhenAll(Vec<Event<A>>),
}

/// The error of making a cursor for a tree in which a sequence, a loop body or a set of
/// parallel sub events is empty.
#[derive(Clone, Copy, Debug, PartialEq, Eq)]
pub struct EmptyComposite;

/// The trees that a list of events stands for, in the same order.
pub open spec fn views<A>(events: Seq<Event<A>>) -> Seq<EventView<A>>
    decreases events, 0nat,
{
    Seq::new(
        events.len(),
        |i: int|
            if 0 <= i < events.len() {
                events[i].model()
            } else {
                arbitrary()
            },
    )
}

impl<A> View for Event<A> {
    type V = EventView<A>;

    open spec fn view(&self) -> EventView<A> {
        self.model()
    }
}

impl<A> Event<A> {
    /// The tree that the event stands for.
    pub open spec fn model(&self) -> EventView<A>
        decreases self, 1nat,
    {
        match self {
            Event::KeyPressed(key) => EventView::KeyPressed(*key),
            Event::Action(action) => EventView::Action(*action),
            Event::Invert(child) => EventView::Invert(Box::new(child.model())),
            Event::Wait(total) => EventView::Wait(*total),
            Event::Sequence(children) => EventView::Sequence(views(children@)),
            Event::While(condition, body) => EventView::While(
                Box::new(condition.model()),
                views(body@),
            ),
            Event::WhenAll(children) => EventView::WhenAll(views(children@)),
        }
    }

    /// Tells whether every sequence, every loop body and every set of parallel sub events in
    /// the tree has at least one sub event.
    pub fn is_well_formed(&self) -> (well_formed: bool)
        ensures
            well_formed == self@.well_formed(),
        decreases self,
    {
        match self {
            Event::KeyPressed(_) => true,
            Event::Action(_) => true,
            Event::Invert(child) => child.is_well_formed(),
            Event::Wait(_) => true,
            Event::Sequence(children) => {
                assert(self@.well_formed() == all_well_formed(views(children@)));
                every_well_formed(children)
            },
            Event::While(condition, body) => {
                assert(self@.well_formed() == (condition@.well_formed() && all_well_formed(
                    views(body@),
                )));
                condition.is_well_formed() && every_well_formed(body)
            },
            Event::WhenAll(children) => {
                assert(self@.well_formed() == all_well_formed(views(children@)));
                every_well_formed(children)
            },
        }
    }
}

impl<A> Event<A> {
    /// Creates the cursor that a run of the tree starts with.
    ///
    /// The cursor borrows the tree and keeps track of the state of the run. It is the one
    /// that [`EventView::compile`] describes. No cursor is made if a `Sequence`, a `WhenAll`
    /// or the body of a `While` anywhere in the tree has no sub events.
    pub fn to_cursor<'a, S>(&'a self) -> (made: Result<Cursor<'a, A, S>, EmptyComposite>) where
        A: StartState<S>,

        ensures
            match made {
                Ok(cursor) => {
                    &&& self@.well_formed()
                    &&& cursor@ == self@.compile::<S>()
                    &&& cursor@.wf()
                },
                Err(_) => !self@.well_formed(),
            },
    {
        if self.is_well_formed() {
            Ok(self.compile())
        } else {
            Err(EmptyComposite)
        }
    }

    /// Creates the cursor that a run of a well-formed tree starts with.
    pub(crate) fn compile<'a, S>(&'a self) -> (cursor: Cursor<'a, A, S>) where A: StartState<S>
        requires
            self@.well_formed(),
        ensures
            cursor@ == self@.compile::<S>(),
            cursor@.wf(),
        decreases self,
    {
        proof {
            self@.lemma_compile_wf::<S>();
        }
        match self {
            Event::KeyPressed(key) => Cursor::KeyPressedCursor(*key),
            Event::Action(action) => Cursor::ActionCursor(action, action.start_state()),
            Event::Invert(child) => Cursor::InvertCursor(Box::new(child.compile())),
            Event::Wait(total) => Cursor::WaitCursor(*total, 0),
            Event::Sequence(children) => {
                assert(self@.well_formed() == all_well_formed(views(children@)));
                Cursor::SequenceCursor(children, 0, Box::new(children[0].compile()))
            },
            Event::While(condition, body) => {
                assert(self@.well_formed() == (condition@.well_formed() && all_well_formed(
                    views(body@),
                )));
                Cursor::WhileCursor(
                    Box::new(condition.compile()),
                    body,
                    0,
                    Box::new(body[0].compile()),
                )
            },
            Event::WhenAll(children) => {
                assert(self@.well_formed() == all_well_formed(views(children@)));
                let slots = compile_all(children);
                proof {
                    let compiled = self@.compile::<S>()->WhenAll_0;
                    assert forall|i: int| 0 <= i < slots@.len() implies slot_views(slots@)[i]
                        == compiled[i] by {
                        assert(slots@[i] is Some);
                    }
                    assert(slot_views(slots@) =~= compiled);
                }
                Cursor::WhenAllCursor(slots)
            },
        }
    }
}

/// Creates the cursor of each event of the list, in the same order.
fn compile_all<'a, A, S>(events: &'a Vec<Event<A>>) -> (slots: Vec<Option<Cursor<'a, A, S>>>) where
    A: StartState<S>,

    requires
        all_well_formed(views(events@)),
    ensures
        slots@.len() == events@.len(),
        forall|i: int|
            0 <= i < slots@.len() ==> ((#[trigger] slots@[i]) matches Some(cursor) && cursor@
                == views(events@)[i].compile::<S>()),
    decreases events,
{
    let mut slots: Vec<Option<Cursor<'a, A, S>>> = Vec::new();
    let mut i: usize = 0;
    while i < events.len()
        invariant
            0 <= i <= events@.len(),
            all_well_formed(views(events@)),
            slots@.len() == i,
            forall|j: int|
                0 <= j < i ==> ((#[trigger] slots@[j]) matches Some(cursor) && cursor@ == views(
                    events@,
                )[j].compile::<S>()),
        decreases events@.len() - i,
    {
        assert(views(events@)[i as int].well_formed());
        let cursor = events[i].compile();
        slots.push(Some(cursor));
        i += 1;
    }
    slots
}

/// Tells whether the list is not empty and each of its events is well formed.
fn every_well_formed<A>(events: &Vec<Event<A>>) -> (well_formed: bool)
    ensures
        well_formed == all_well_formed(views(events@)),
    decreases events,
{
    if events.len() == 0 {
        return false;
    }
    let mut i: usize = 0;
    while i < events.len()
        invariant
            0 <= i <= events@.len(),
            forall|j: int| 0 <= j < i ==> (#[trigger] views(events@)[j]).well_formed(),
        decreases events@.len() - i,
    {
        assert(views(events@)[i as int] == events@[i as int]@);
        if !events[i].is_well_formed() {
            return false;
        }
        i += 1;
    }
    true
}

} // verus!
