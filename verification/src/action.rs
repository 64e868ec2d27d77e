//! What the caller's actions have to offer to a behavior tree.

use crate::status::Status;
use piston::keyboard::Key;
use vstd::prelude::*;

verus! {

/// An action that can be put at a leaf of a tree. `S` is the state that the action works on
/// while a cursor runs it.
///
/// `initial` and `next` say what `start_state` and `update` compute. What is proved of a
/// cursor is proved over them, and holds of an action as far as its `start_state` and
/// `update` keep to them. In code that is not verified, `initial` and `next` are ordinary
/// functions that the library never calls; the simplest way to keep to them is to let
/// `start_state` and `update` call them.
pub trait StartState<S> {
    /// The state that the action starts in.
    spec fn initial(&self) -> S;

    /// What one tick makes of a state: the status that the action reports, and the state
    /// after the tick. `dt` is the time that passed since the tick before, `input` the key
    /// that was pressed, if any.
    spec fn next(&self, dt: u64, state: S, input: Option<Key>) -> (Status, S);

    /// Gives the state that the action starts in.
    fn start_state(&self) -> (state: S)
        ensures
            state == self.initial(),
    ;

    /// Advances the action by one tick and reports how it stands.
    fn update(&self, dt: u64, state: &mut S, input: Option<Key>) -> (status: Status)
        ensures
            (status, *final(state)) == self.next(dt, *old(state), input),
    ;
}

} // verus!
