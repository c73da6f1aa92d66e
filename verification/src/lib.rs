//! Ring buffers that can be written to and read from via non-overlapping grants.
//!
//! A [`GrantableIo`] owns the memory of a stream and what its two ends share. One end
//! belongs to a device ([`DeviceWriter`], [`DeviceReader`]), the other to an
//! application ([`Reader`], [`Writer`]). Whatever the two do, what the reading end
//! gets is what the writing end committed, in order, once.
//!
//! The ends hold no reference to what they share: each call borrows it. A call that
//! may have to wait is a step that returns [`Progress::Wait`](wait::Progress).

use crate::atomic::{flag_value, new_flag, swap_flag};
use crate::buffer::{BufferReader, BufferWriter};
use crate::ring::Ring;
use crate::state::State;
use crate::wait::{waiter_stored, wakeup_stored};
use portable_atomic::AtomicBool;
use vstd::prelude::*;

pub mod app;
pub mod atomic;
pub mod buffer;
pub mod cursors;
pub mod dev;
pub mod error;
pub mod future;
pub mod interleaving;
pub mod laws;
pub mod producer;
pub mod promises;
pub mod ring;
pub mod soft;
pub mod state;
pub mod wait;

pub use crate::app::{Reader, Writer};
pub use crate::dev::{DeviceReader, DeviceWriter};

verus! {

/// A structure that owns the shared state and the buffer for serial communication.
pub struct GrantableIo<const N: usize, E> {
    state: State<E>,
    buffer: Vec<u8>,
    initialized: AtomicBool,
}

/// `n` bytes, all zero.
pub open spec fn zeros(n: nat) -> Seq<u8> {
    Seq::new(n, |i: int| 0u8)
}

impl<const N: usize, E> GrantableIo<N, E> {
    /// What the two ends share.
    pub closed spec fn shared(self) -> State<E> {
        self.state
    }

    /// Whether it has been claimed.
    pub closed spec fn claimed(self) -> bool {
        flag_value(self.initialized)
    }

    /// Until it is claimed, the memory is at hand.
    pub closed spec fn wf(self) -> bool {
        &&& self.state.wf()
        &&& !self.claimed() ==> self.buffer@ == zeros(N as nat)
    }

    /// Creates a new stream that has not been claimed.
    ///
    /// The value of `N` must be non-zero.
    pub fn new() -> (io: Self)
        requires
            N > 0,
        ensures
            io.wf(),
            !io.claimed(),
            io.shared().wf(),
            io.shared().error@ is None,
            io.shared().atomic@ == Ring::fresh(),
            !wakeup_stored(io.shared().wait_writer),
            !waiter_stored(io.shared().wait_writer),
            !wakeup_stored(io.shared().wait_reader),
            !waiter_stored(io.shared().wait_reader),
    {
        let buffer: Vec<u8> = vec![0u8; N];
        assert(buffer@ =~= zeros(N as nat));
        GrantableIo { state: State::new(), buffer, initialized: new_flag(false) }
    }

    /// What the two ends share, to be lent to their calls.
    pub fn state(&mut self) -> (state: &mut State<E>)
        ensures
            *state == old(self).shared(),
            *final(state) == final(self).shared(),
            final(self).claimed() == old(self).claimed(),
            old(self).wf() ==> state.wf(),
            old(self).wf() && final(state).wf() ==> final(self).wf(),
    {
        &mut self.state
    }

    fn try_claim_inner(&mut self) -> (halves: Option<(BufferWriter, BufferReader)>)
        requires
            old(self).wf(),
        ensures
            final(self).wf(),
            final(self).shared().wf(),
            final(self).claimed(),
            halves is Some <==> !old(self).claimed() && !old(self).shared().atomic@.initialized,
            final(self).shared().atomic@ == if halves is Some {
                Ring::over(zeros(N as nat))
            } else {
                old(self).shared().atomic@
            },
            halves is Some ==> {
                &&& final(self).shared().atomic@.memory.len() == N
                &&& final(self).shared().atomic@.free() == N
                &&& forall|i: int| 0 <= i < N ==> final(self).shared().atomic@.memory[i] == 0
            },
            final(self).shared().error == old(self).shared().error,
            final(self).shared().wait_writer == old(self).shared().wait_writer,
            final(self).shared().wait_reader == old(self).shared().wait_reader,
    {
        // Ensure this is only called once
        if swap_flag(&mut self.initialized, true) {
            return None;
        }
        let mut buffer: Vec<u8> = Vec::new();
        core::mem::swap(&mut buffer, &mut self.buffer);
        self.state.atomic.init(buffer)
    }

    /// Claim this [`GrantableIo`] as a reading stream. It must not have been claimed.
    pub fn claim_reader(&mut self) -> (ends: (DeviceWriter, Reader))
        requires
            old(self).wf(),
            !old(self).claimed(),
            !old(self).shared().atomic@.initialized,
        ensures
            final(self).wf(),
            final(self).shared().wf(),
            final(self).claimed(),
            ends.1@ is None,
            final(self).shared().atomic@ == Ring::over(zeros(N as nat)),
            final(self).shared().atomic@.memory.len() == N,
            final(self).shared().atomic@.free() == N,
            forall|i: int| 0 <= i < N ==> final(self).shared().atomic@.memory[i] == 0,
            final(self).shared().error == old(self).shared().error,
            final(self).shared().wait_writer == old(self).shared().wait_writer,
            final(self).shared().wait_reader == old(self).shared().wait_reader,
    {
        self.try_claim_reader().unwrap()
    }

    /// Try to claim this [`GrantableIo`] as a reading stream.
    pub fn try_claim_reader(&mut self) -> (ends: Option<(DeviceWriter, Reader)>)
        requires
            old(self).wf(),
        ensures
            final(self).wf(),
            final(self).shared().wf(),
            final(self).claimed(),
            ends is Some <==> !old(self).claimed() && !old(self).shared().atomic@.initialized,
            ends matches Some(pair) ==> pair.1@ is None,
            final(self).shared().atomic@ == if ends is Some {
                Ring::over(zeros(N as nat))
            } else {
                old(self).shared().atomic@
            },
            ends is Some ==> {
                &&& final(self).shared().atomic@.memory.len() == N
                &&& final(self).shared().atomic@.free() == N
                &&& forall|i: int| 0 <= i < N ==> final(self).shared().atomic@.memory[i] == 0
            },
            final(self).shared().error == old(self).shared().error,
            final(self).shared().wait_writer == old(self).shared().wait_writer,
            final(self).shared().wait_reader == old(self).shared().wait_reader,
    {
        match self.try_claim_inner() {
            None => None,
            Some((producer, consumer)) => Some(
                (DeviceWriter::new(producer), Reader::new(consumer)),
            ),
        }
    }

    /// Claim this [`GrantableIo`] as a writing stream. It must not have been claimed.
    pub fn claim_writer(&mut self) -> (ends: (DeviceReader, Writer))
        requires
            old(self).wf(),
            !old(self).claimed(),
            !old(self).shared().atomic@.initialized,
        ensures
            final(self).wf(),
            final(self).shared().wf(),
            final(self).claimed(),
            ends.1@ is None,
            final(self).shared().atomic@ == Ring::over(zeros(N as nat)),
            final(self).shared().atomic@.memory.len() == N,
            final(self).shared().atomic@.free() == N,
            forall|i: int| 0 <= i < N ==> final(self).shared().atomic@.memory[i] == 0,
            final(self).shared().error == old(self).shared().error,
            final(self).shared().wait_writer == old(self).shared().wait_writer,
            final(self).shared().wait_reader == old(self).shared().wait_reader,
    {
        self.try_claim_writer().unwrap()
    }

    /// Try to claim this [`GrantableIo`] as a writing stream.
    pub fn try_claim_writer(&mut self) -> (ends: Option<(DeviceReader, Writer)>)
        requires
            old(self).wf(),
        ensures
            final(self).wf(),
            final(self).shared().wf(),
            final(self).claimed(),
            ends is Some <==> !old(self).claimed() && !old(self).shared().atomic@.initialized,
            ends matches Some(pair) ==> pair.1@ is None,
            final(self).shared().atomic@ == if ends is Some {
                Ring::over(zeros(N as nat))
            } else {
                old(self).shared().atomic@
            },
            ends is Some ==> {
                &&& final(self).shared().atomic@.memory.len() == N
                &&& final(self).shared().atomic@.free() == N
                &&& forall|i: int| 0 <= i < N ==> final(self).shared().atomic@.memory[i] == 0
            },
            final(self).shared().error == old(self).shared().error,
            final(self).shared().wait_writer == old(self).shared().wait_writer,
            final(self).shared().wait_reader == old(self).shared().wait_reader,
    {
        match self.try_claim_inner() {
            None => None,
            Some((producer, consumer)) => Some(
                (DeviceReader::new(consumer), Writer::new(producer)),
            ),
        }
    }
}

} // verus!
