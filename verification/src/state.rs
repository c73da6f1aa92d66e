//! What the two ends of a stream share.

use crate::buffer::AtomicState;
use crate::error::AtomicError;
use crate::ring::Ring;
use crate::wait::{cell_closed, new_cell, waiter_stored, wakeup_stored};
use maitake_sync::WaitCell;
use vstd::prelude::*;

verus! {

/// The buffer of a stream, the error on its way to the application, and the two
/// places where a task waits.
#[derive(Debug)]
pub struct State<E> {
    pub error: AtomicError<E>,
    pub atomic: AtomicState,
    /// Where the writing end waits for room.
    pub wait_writer: WaitCell,
    /// Where the reading end waits for bytes.
    pub wait_reader: WaitCell,
}

impl<E> State<E> {
    pub open spec fn wf(self) -> bool {
        &&& self.error.wf()
        &&& self.atomic@.wf()
        &&& !cell_closed(self.wait_writer)
        &&& !cell_closed(self.wait_reader)
    }

    /// A state with no memory, no error and nobody waiting.
    pub fn new() -> (state: Self)
        ensures
            state.wf(),
            state.error@ is None,
            state.atomic@ == Ring::fresh(),
            !wakeup_stored(state.wait_writer),
            !waiter_stored(state.wait_writer),
            !wakeup_stored(state.wait_reader),
            !waiter_stored(state.wait_reader),
    {
        State {
            error: AtomicError::new(),
            atomic: AtomicState::new(),
            wait_writer: new_cell(),
            wait_reader: new_cell(),
        }
    }
}

} // verus!
