//! Waiting and waking: the wait cells of `maitake_sync`, with contracts over what
//! they hold, and what a step that may have to wait returns.
//!
//! A cell is used here only through an exclusive borrow, so no other task
//! registers or wakes while a call runs.

use crate::ring::{Ring, WriteRegion};
use core::task::Context;
use maitake_sync::WaitCell;
use vstd::prelude::*;

verus! {

/// Declares `maitake_sync::WaitCell`. Nothing is said of what is inside.
#[verifier::external_type_specification]
#[verifier::external_body]
pub struct ExWaitCell(WaitCell);

/// Declares `core::task::Context`. Nothing is said of what is inside.
#[verifier::external_type_specification]
#[verifier::external_body]
pub struct ExContext<'a>(Context<'a>);

/// Whether a `WaitCell` holds a wakeup that no task has taken yet.
pub uninterp spec fn wakeup_stored(cell: WaitCell) -> bool;

/// Whether a `WaitCell` holds the waker of a task.
pub uninterp spec fn waiter_stored(cell: WaitCell) -> bool;

/// Whether a `WaitCell` has been closed.
pub uninterp spec fn cell_closed(cell: WaitCell) -> bool;

/// Calls `WaitCell::new`: the new cell is open and holds neither a waker nor a
/// wakeup.
#[verifier::external_body]
pub(crate) fn new_cell() -> (cell: WaitCell)
    ensures
        !wakeup_stored(cell),
        !waiter_stored(cell),
        !cell_closed(cell),
{
    WaitCell::new()
}

/// Calls `WaitCell::wake` on an open cell: a wakeup is stored, the waker that the
/// cell held is taken out and woken, and the result tells whether there was one.
#[verifier::external_body]
pub(crate) fn wake(cell: &mut WaitCell) -> (woke: bool)
    requires
        !cell_closed(*old(cell)),
    ensures
        woke == waiter_stored(*old(cell)),
        wakeup_stored(*final(cell)),
        !waiter_stored(*final(cell)),
        !cell_closed(*final(cell)),
{
    cell.wake()
}

/// Calls `WaitCell::poll_wait` on an open cell: a stored wakeup is taken, or, where
/// there is none, the waker of the polling task is stored. The result tells whether
/// it was stored. Of the stored waker nothing is said but that there is one: a
/// waker shows no identity that a contract could name.
#[verifier::external_body]
pub(crate) fn poll_wait(cell: &mut WaitCell, cx: &mut Context<'_>) -> (registered: bool)
    requires
        !cell_closed(*old(cell)),
    ensures
        registered == !wakeup_stored(*old(cell)),
        waiter_stored(*final(cell)) == (registered || waiter_stored(*old(cell))),
        !wakeup_stored(*final(cell)),
        !cell_closed(*final(cell)),
{
    cell.poll_wait(cx).is_pending()
}

/// What a step came to that may have to wait.
#[derive(Debug)]
pub enum Progress<T> {
    /// The step is done.
    Ready(T),
    /// The step has to be taken again after a wakeup.
    ///
    /// The caller's waker is stored, but for the steps in [`future`](crate::future): those
    /// may have taken a wakeup in its place, and are then to be taken again at once.
    Wait,
}

impl<T, E> Progress<Result<T, E>> {
    /// The step is done, with a result.
    pub open spec fn succeeded(self) -> bool {
        self is Ready && self->Ready_0 is Ok
    }

    /// The step is done, with an error.
    pub open spec fn failed(self) -> bool {
        self is Ready && self->Ready_0 is Err
    }
}

/// Whether `after` is `before` once it was polled: it holds no wakeup, and the
/// waker of the polling task where it held none before.
pub open spec fn polled(before: WaitCell, after: WaitCell) -> bool {
    &&& !wakeup_stored(after)
    &&& waiter_stored(after) == (!wakeup_stored(before) || waiter_stored(before))
}

/// Whether a task waits at `cell` for the next wakeup.
pub open spec fn parked(cell: WaitCell) -> bool {
    waiter_stored(cell) && !wakeup_stored(cell)
}

/// What becomes of a cell in a step: it is left alone where nothing is waited for,
/// polled where the step is done, and has the caller parked at it where it is not.
pub open spec fn waited(skipped: bool, waiting: bool, before: WaitCell, after: WaitCell) -> bool {
    if skipped {
        after == before
    } else if waiting {
        parked(after)
    } else {
        polled(before, after)
    }
}

/// What becomes of the cell where the writing end waits once `rest` bytes were written,
/// one grant after the other, the first into what is `held`. It is polled each time a
/// grant is asked for: not at all where what is held was enough, once where one grant
/// was enough or there was an error in place of it, and otherwise twice or more, which
/// leaves the caller's waker in it.
pub open spec fn polled_for_room(
    ring: Ring,
    held: Option<WriteRegion>,
    rest: int,
    failed: bool,
    before: WaitCell,
    after: WaitCell,
) -> bool {
    let (asked, left) = match held {
        Some(g) => (ring.commit(g, g.len), rest - g.len),
        None => (ring, rest),
    };
    if left <= 0 {
        after == before
    } else if failed || left <= asked.write_region(1).len {
        polled(before, after)
    } else {
        parked(after)
    }
}

/// Whether `after` was woken: it holds a wakeup, and its waker has been called.
pub open spec fn woken(after: WaitCell) -> bool {
    wakeup_stored(after) && !waiter_stored(after)
}

/// Wait at `cell` for the next wakeup, after `registered` told whether polling it
/// stored the waker. Where it did not, the wakeup that was taken is used up, and the
/// waker is stored now.
pub(crate) fn park(cell: &mut WaitCell, cx: &mut Context<'_>, registered: bool)
    requires
        !cell_closed(*old(cell)),
        !wakeup_stored(*old(cell)),
        registered ==> waiter_stored(*old(cell)),
    ensures
        parked(*final(cell)),
        !cell_closed(*final(cell)),
{
    if !registered {
        poll_wait(cell, cx);
    }
}

} // verus!
