//! Behavior trees that are run one tick at a time.
//!
//! An [`Event`] describes a behavior as a tree: key presses, actions of the caller and waits
//! at the leaves; inversion, sequence, loop and parallel composition above them. A
//! [`Cursor`] made from the tree keeps track of where a run of it stands. The caller steps
//! the cursor once per tick, with the time that passed and the key that was pressed, and is
//! told each time whether the behavior is still running, has succeeded or has failed.
//!
//! The module [`model`] says in mathematical terms what a tree and a cursor are and what a
//! step does; the contracts of [`Event::to_cursor`] and [`Cursor::step`] refer to it. The
//! module [`laws`] proves what follows for sequences, loops, waits and the other events.

pub mod action;
pub mod cursor;
pub mod event;
pub mod key;
pub mod laws;
pub mod model;
pub mod status;

pub use action::StartState;
pub use cursor::Cursor;
pub use event::{EmptyComposite, Event};
pub use status::Status;
