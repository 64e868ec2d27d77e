//! Trees, cursors and steps as mathematical values.
//!
//! An [`EventView`] is a tree whose lists are sequences. A [`CursorView`] is the position of
//! a run in such a tree. [`EventView::compile`] gives the cursor that a run starts with and
//! [`CursorView::step`] the status and the cursor that one tick leads to.

use crate::action::StartState;
use crate::status::Status;
use piston::keyboard::Key;
use vstd::prelude::*;

verus! {

/// What an event stands for.
pub enum EventView<A> {
    /// Succeeds on a step with the key as its input, and fails on any other.
    KeyPressed(Key),
    /// Reports what the action reports.
    Action(A),
    /// Reports what the event below reports, with `Success` and `Failure` exchanged.
    Invert(Box<EventView<A>>),
    /// Runs until the given time has passed, then succeeds.
    Wait(u64),
    /// Runs the sub events one after the other, as long as they succeed.
    Sequence(Seq<EventView<A>>),
    /// Runs the sub events one after the other, over and over, until the condition fails.
    While(Box<EventView<A>>, Seq<EventView<A>>),
    /// Runs the sub events together until all have succeeded.
    WhenAll(Seq<EventView<A>>),
}

/// What a cursor stands for.
pub enum CursorView<A, S> {
    /// The key to look for.
    KeyPressed(Key),
    /// An action and the state it is in.
    Action { action: A, state: S },
    /// The cursor whose outcomes are exchanged.
    Invert(Box<CursorView<A, S>>),
    /// The time to wait and the time waited so far.
    Wait { total: u64, elapsed: u64 },
    /// The sub events, the position of the active one among them, and its cursor.
    Sequence { children: Seq<EventView<A>>, index: nat, active: Box<CursorView<A, S>> },
    /// The cursor of the condition, the sub events of the body, the position of the active one
    /// among them, and its cursor.
    While {
        condition: Box<CursorView<A, S>>,
        body: Seq<EventView<A>>,
        index: nat,
        active: Box<CursorView<A, S>>,
    },
    /// One slot for each sub event: its cursor, or nothing once it has succeeded.
    WhenAll(Seq<Option<CursorView<A, S>>>),
}

/// What one step is given: the time that passed since the step before, and the key that was
/// pressed, if any.
pub struct Tick {
    pub dt: u64,
    pub input: Option<Key>,
}

/// Whether the list is not empty and holds well-formed trees only.
pub open spec fn all_well_formed<A>(trees: Seq<EventView<A>>) -> bool {
    trees.len() > 0 && forall|i: int| 0 <= i < trees.len() ==> (#[trigger] trees[i]).well_formed()
}

/// The time that passes during the ticks.
pub open spec fn elapsed(ticks: Seq<Tick>) -> nat
    decreases ticks.len(),
{
    if ticks.len() == 0 {
        0
    } else {
        elapsed(ticks.drop_last()) + ticks.last().dt as nat
    }
}

impl<A> EventView<A> {
    /// Whether every sequence, every loop body and every set of parallel sub events in the
    /// tree has at least one sub event.
    pub open spec fn well_formed(self) -> bool
        decreases self,
    {
        match self {
            EventView::KeyPressed(_) => true,
            EventView::Action(_) => true,
            EventView::Invert(child) => child.well_formed(),
            EventView::Wait(_) => true,
            EventView::Sequence(children) => children.len() > 0 && forall|i: int|
                0 <= i < children.len() ==> (#[trigger] children[i]).well_formed(),
            EventView::While(condition, body) => condition.well_formed() && body.len() > 0
                && forall|i: int| 0 <= i < body.len() ==> (#[trigger] body[i]).well_formed(),
            EventView::WhenAll(children) => children.len() > 0 && forall|i: int|
                0 <= i < children.len() ==> (#[trigger] children[i]).well_formed(),
        }
    }

    /// The cursor that a run of the tree starts with. An action is in the state it starts in
    /// and a wait has waited for no time. A sequence and a loop body are at their first sub
    /// event, and only that one has a cursor. Of parallel sub events each has one.
    ///
    /// Where a list that must hold a sub event holds none, nothing is said of the result.
    pub open spec fn compile<S>(self) -> CursorView<A, S> where A: StartState<S>
        decreases self,
    {
        match self {
            EventView::KeyPressed(key) => CursorView::KeyPressed(key),
            EventView::Action(action) => CursorView::Action { action, state: action.initial() },
            EventView::Invert(child) => CursorView::Invert(Box::new(child.compile())),
            EventView::Wait(total) => CursorView::Wait { total, elapsed: 0 },
            EventView::Sequence(children) => CursorView::Sequence {
                children,
                index: 0,
                active: Box::new(
                    if children.len() > 0 {
                        children[0].compile()
                    } else {
                        arbitrary()
                    },
                ),
            },
            EventView::While(condition, body) => CursorView::While {
                condition: Box::new(condition.compile()),
                body,
                index: 0,
                active: Box::new(
                    if body.len() > 0 {
                        body[0].compile()
                    } else {
                        arbitrary()
                    },
                ),
            },
            EventView::WhenAll(children) => CursorView::WhenAll(
                Seq::new(
                    children.len(),
                    |i: int|
                        if 0 <= i < children.len() {
                            Some(children[i].compile())
                        } else {
                            None
                        },
                ),
            ),
        }
    }

    /// A well-formed tree compiles to a well-formed cursor.
    pub proof fn lemma_compile_wf<S>(self) where A: StartState<S>
        requires
            self.well_formed(),
        ensures
            self.compile::<S>().wf(),
        decreases self,
    {
        match self {
            EventView::Invert(child) => {
                child.lemma_compile_wf::<S>();
            },
            EventView::Sequence(children) => {
                children[0].lemma_compile_wf::<S>();
            },
            EventView::While(condition, body) => {
                condition.lemma_compile_wf::<S>();
                body[0].lemma_compile_wf::<S>();
            },
            EventView::WhenAll(children) => {
                let slots = self.compile::<S>()->WhenAll_0;
                assert forall|i: int| 0 <= i < slots.len() implies ((#[trigger] slots[i])
                    matches Some(child) ==> child.wf()) by {
                    children[i].lemma_compile_wf::<S>();
                }
            },
            _ => {},
        }
    }
}

impl<A, S> CursorView<A, S> {
    /// Whether each position lies inside its list, every list of sub events that the cursor
    /// may still compile from is well formed, and there is at least one slot where sub events
    /// run together.
    pub open spec fn wf(self) -> bool
        decreases self,
    {
        match self {
            CursorView::KeyPressed(_) => true,
            CursorView::Action { .. } => true,
            CursorView::Invert(child) => child.wf(),
            CursorView::Wait { .. } => true,
            CursorView::Sequence { children, index, active } => {
                &&& index < children.len()
                &&& all_well_formed(children)
                &&& active.wf()
            },
            CursorView::While { condition, body, index, active } => {
                &&& condition.wf()
                &&& index < body.len()
                &&& all_well_formed(body)
                &&& active.wf()
            },
            CursorView::WhenAll(slots) => {
                &&& slots.len() > 0
                &&& forall|i: int|
                    0 <= i < slots.len() ==> ((#[trigger] slots[i]) matches Some(child)
                        ==> child.wf())
            },
        }
    }

    /// The status that one step reports, and the cursor after it.
    ///
    /// - A key press succeeds if the key is the input of the step, and fails if not.
    /// - An action reports what its `next` reports, and is left in the state that `next`
    ///   gives.
    /// - An inversion steps the cursor below and exchanges `Success` and `Failure`.
    /// - A wait adds `dt` to the time waited so far, up to the largest `u64`, and succeeds
    ///   if the sum has reached the time to wait. It never fails.
    /// - A sequence steps its active sub event. When that succeeds and is not the last, the
    ///   sequence moves to the next sub event, compiles it and reports `Running`: the new
    ///   one is first stepped with the next tick. Otherwise the sequence reports what the
    ///   active sub event reported.
    /// - A loop steps its condition. If that fails, the loop fails and the body is not
    ///   stepped. If not, the loop steps the active sub event of the body. When that
    ///   succeeds, the loop moves to the next sub event, or to the first after the last,
    ///   compiles it and reports `Running`. Otherwise the loop reports what the sub event
    ///   reported, so it never succeeds.
    /// - Sub events that happen together are stepped as `step_slots` says. If one fails, the
    ///   whole fails. If none is left after the step, the whole succeeds.
    pub open spec fn step(self, dt: u64, input: Option<Key>) -> (Status, CursorView<A, S>) where
        A: StartState<S>,

        decreases self, 0nat,
    {
        match self {
            CursorView::KeyPressed(key) => (
                if input == Some(key) {
                    Status::Success
                } else {
                    Status::Failure
                },
                self,
            ),
            CursorView::Action { action, state } => {
                let (status, state) = action.next(dt, state, input);
                (status, CursorView::Action { action, state })
            },
            CursorView::Invert(child) => {
                let (status, child) = child.step(dt, input);
                (status.inverted(), CursorView::Invert(Box::new(child)))
            },
            CursorView::Wait { total, elapsed } => {
                let elapsed = elapsed.saturating_add(dt);
                (
                    if elapsed >= total {
                        Status::Success
                    } else {
                        Status::Running
                    },
                    CursorView::Wait { total, elapsed },
                )
            },
            CursorView::Sequence { children, index, active } => {
                let (status, stepped) = active.step(dt, input);
                if status == Status::Success && index + 1 < children.len() {
                    (
                        Status::Running,
                        CursorView::Sequence {
                            children,
                            index: index + 1,
                            active: Box::new(children[index as int + 1].compile()),
                        },
                    )
                } else {
                    (status, CursorView::Sequence { children, index, active: Box::new(stepped) })
                }
            },
            CursorView::While { condition, body, index, active } => {
                let (verdict, condition) = condition.step(dt, input);
                if verdict == Status::Failure {
                    (
                        Status::Failure,
                        CursorView::While { condition: Box::new(condition), body, index, active },
                    )
                } else {
                    let (status, stepped) = active.step(dt, input);
                    if status == Status::Success {
                        let next = if index + 1 < body.len() {
                            index + 1
                        } else {
                            0
                        };
                        (
                            Status::Running,
                            CursorView::While {
                                condition: Box::new(condition),
                                body,
                                index: next,
                                active: Box::new(body[next as int].compile()),
                            },
                        )
                    } else {
                        (
                            status,
                            CursorView::While {
                                condition: Box::new(condition),
                                body,
                                index,
                                active: Box::new(stepped),
                            },
                        )
                    }
                }
            },
            CursorView::WhenAll(slots) => {
                let (failed, slots) = Self::step_slots(slots, slots.len(), dt, input);
                (
                    if failed {
                        Status::Failure
                    } else if forall|i: int| 0 <= i < slots.len() ==> slots[i] is None {
                        Status::Success
                    } else {
                        Status::Running
                    },
                    CursorView::WhenAll(slots),
                )
            },
        }
    }

    /// Steps the first `n` slots in order: whether one of them failed, and the slots after
    /// that. An empty slot is passed over. The slot of a cursor that runs on holds the
    /// cursor after its step, the slot of one that succeeds is emptied. With the first
    /// cursor that fails the stepping ends: its slot holds it as its step left it, and the
    /// slots behind it are as they were.
    pub open spec fn step_slots(
        slots: Seq<Option<CursorView<A, S>>>,
        n: nat,
        dt: u64,
        input: Option<Key>,
    ) -> (bool, Seq<Option<CursorView<A, S>>>) where A: StartState<S>
        decreases slots, n,
    {
        if n == 0 || n > slots.len() {
            (false, slots)
        } else {
            let (failed, done) = Self::step_slots(slots, (n - 1) as nat, dt, input);
            if failed {
                (true, done)
            } else {
                match slots[n - 1] {
                    None => (false, done),
                    Some(child) => {
                        let (status, child) = child.step(dt, input);
                        match status {
                            Status::Running => (false, done.update(n - 1, Some(child))),
                            Status::Success => (false, done.update(n - 1, None)),
                            Status::Failure => (true, done.update(n - 1, Some(child))),
                        }
                    },
                }
            }
        }
    }

    /// The cursor after it was stepped with each of the ticks, in order.
    pub open spec fn after(self, ticks: Seq<Tick>) -> CursorView<A, S> where A: StartState<S>
        decreases ticks.len(),
    {
        if ticks.len() == 0 {
            self
        } else {
            self.after(ticks.drop_last()).step(ticks.last().dt, ticks.last().input).1
        }
    }

    /// The status reported for the last of the ticks, when the cursor is stepped with each of
    /// them in order.
    pub open spec fn report(self, ticks: Seq<Tick>) -> Status where A: StartState<S>
        recommends
            ticks.len() > 0,
    {
        self.after(ticks.drop_last()).step(ticks.last().dt, ticks.last().input).0
    }

    /// Whether the cursor, stepped with each of the ticks in order, reports `Running` for
    /// every one of them.
    pub open spec fn running_during(self, ticks: Seq<Tick>) -> bool where A: StartState<S> {
        forall|k: int|
            0 < k <= ticks.len() ==> self.report(#[trigger] ticks.take(k)) == Status::Running
    }

    /// A step leaves a well-formed cursor well formed.
    pub proof fn lemma_step_wf(self, dt: u64, input: Option<Key>) where A: StartState<S>
        requires
            self.wf(),
        ensures
            self.step(dt, input).1.wf(),
        decreases self, 0nat,
    {
        match self {
            CursorView::Invert(child) => {
                child.lemma_step_wf(dt, input);
            },
            CursorView::Sequence { children, index, active } => {
                active.lemma_step_wf(dt, input);
                if index + 1 < children.len() {
                    children[index as int + 1].lemma_compile_wf::<S>();
                }
            },
            CursorView::While { condition, body, index, active } => {
                condition.lemma_step_wf(dt, input);
                active.lemma_step_wf(dt, input);
                body[0].lemma_compile_wf::<S>();
                if index + 1 < body.len() {
                    body[index as int + 1].lemma_compile_wf::<S>();
                }
            },
            CursorView::WhenAll(slots) => {
                Self::lemma_step_slots_wf(slots, slots.len(), dt, input);
            },
            _ => {},
        }
    }

    /// Stepping slots keeps their number, and leaves the cursors in them well formed.
    pub proof fn lemma_step_slots_wf(
        slots: Seq<Option<CursorView<A, S>>>,
        n: nat,
        dt: u64,
        input: Option<Key>,
    ) where A: StartState<S>
        requires
            n <= slots.len(),
            forall|i: int|
                0 <= i < slots.len() ==> ((#[trigger] slots[i]) matches Some(child)
                    ==> child.wf()),
        ensures
            Self::step_slots(slots, n, dt, input).1.len() == slots.len(),
            forall|i: int|
                0 <= i < slots.len() ==> ((#[trigger] Self::step_slots(slots, n, dt, input).1[i])
                    matches Some(child) ==> child.wf()),
        decreases slots, n,
    {
        if n > 0 {
            Self::lemma_step_slots_wf(slots, (n - 1) as nat, dt, input);
            if let Some(child) = slots[n - 1] {
                child.lemma_step_wf(dt, input);
            }
        }
    }

    /// Once a slot has failed, the slots behind it are left as they are.
    pub proof fn lemma_step_slots_failed(
        slots: Seq<Option<CursorView<A, S>>>,
        n: nat,
        m: nat,
        dt: u64,
        input: Option<Key>,
    ) where A: StartState<S>
        requires
            n <= m <= slots.len(),
            Self::step_slots(slots, n, dt, input).0,
        ensures
            Self::step_slots(slots, m, dt, input) == Self::step_slots(slots, n, dt, input),
        decreases m,
    {
        if n < m {
            Self::lemma_step_slots_failed(slots, n, (m - 1) as nat, dt, input);
        }
    }
}

} // verus!
