//! The application's ends of a stream, for those who hold no grant of their own
//! between two calls, or replace it at each.
//!
//! A [`SoftWriter`] hands its grants out. A [`SoftReader`] drops what it holds when
//! it is asked for bytes again, and so comes to see what has arrived since.

use crate::buffer::{BufferReader, BufferWriter, ReaderGrant, WriterGrant};
use crate::ring::{
    advanced, appended, keeps_read_grants, keeps_write_grants, lemma_append_more,
    lemma_append_nothing, lemma_grant_write, lemma_taken, lemma_written, min, taken, written,
    ReadRegion, Ring, WriteRegion,
};
use crate::state::State;
use crate::wait::{
    park, parked, poll_wait, polled, polled_for_room, waited, wake, woken, Progress,
};
use core::task::Context;
use vstd::prelude::*;

verus! {

/// A grant to write into that wakes the reading end when it is used.
///
/// It has to be used or given back: dropping it keeps the grant out.
pub struct GrantWriter {
    inner: WriterGrant,
}

impl View for GrantWriter {
    type V = WriteRegion;

    closed spec fn view(&self) -> WriteRegion {
        self.inner@
    }
}

impl GrantWriter {
    /// Copy as many bytes of `buf` to the grant as it takes, commit them, and wake
    /// the reading end. The number of bytes is returned.
    pub fn copy_max_from<E>(self, state: &mut State<E>, buf: &[u8]) -> (bytes: usize)
        requires
            old(state).wf(),
            old(state).atomic@.holds_write(self@),
        ensures
            final(state).wf(),
            keeps_read_grants(old(state).atomic@, final(state).atomic@),
            final(state).error@ == old(state).error@,
            final(state).wait_writer == old(state).wait_writer,
            written(old(state).atomic@, self@, buf@, bytes as int, final(state).atomic@),
            woken(final(state).wait_reader),
    {
        let bytes: usize = self.inner.write(&mut state.atomic, buf);
        wake(&mut state.wait_reader);
        bytes
    }

    /// Give the grant back with nothing of it used. Nobody is woken.
    pub fn give_back<E>(self, state: &mut State<E>)
        requires
            old(state).wf(),
            old(state).atomic@.holds_write(self@),
        ensures
            final(state).wf(),
            keeps_read_grants(old(state).atomic@, final(state).atomic@),
            final(state).error == old(state).error,
            final(state).wait_writer == old(state).wait_writer,
            final(state).wait_reader == old(state).wait_reader,
            final(state).atomic@ == old(state).atomic@.commit(self@, 0),
            final(state).atomic@.unread() == old(state).atomic@.unread(),
    {
        self.inner.commit(&mut state.atomic, 0);
    }
}

/// Writes into a stream.
pub struct SoftWriter {
    producer: BufferWriter,
}

impl SoftWriter {
    /// The half that grants are asked of.
    pub closed spec fn half(self) -> BufferWriter {
        self.producer
    }

    /// A writing end over one half of a buffer.
    pub fn new(producer: BufferWriter) -> (end: Self)
        ensures
            end.half() == producer,
    {
        SoftWriter { producer }
    }

    /// Whether a grant may be asked for: none is out, or an error waits.
    pub fn may_ask<E>(&self, state: &State<E>) -> (may: bool)
        requires
            state.wf(),
        ensures
            may == (state.error@ is Some || !state.atomic@.write_granted),
    {
        state.error.is_set() || !state.atomic.write_granted()
    }

    /// Get a grant to write into. An error that waits is returned instead.
    ///
    /// Double-grants are illegal: none may be out, unless an error waits.
    pub fn grant_writer<E>(
        &mut self,
        state: &mut State<E>,
        cx: &mut Context<'_>,
    ) -> (p: Progress<Result<GrantWriter, E>>)
        requires
            old(state).wf(),
            old(state).error@ is Some || !old(state).atomic@.write_granted,
        ensures
            final(state).wf(),
            keeps_read_grants(old(state).atomic@, final(state).atomic@),
            final(state).error@ is None,
            final(state).wait_reader == old(state).wait_reader,
            p.failed() <==> old(state).error@ is Some,
            p matches Progress::Ready(Err(e)) ==> old(state).error@ == Some(e),
            p.succeeded() <==> old(state).error@ is None && old(state).atomic@.free() > 0,
            p matches Progress::Ready(Ok(g)) ==> {
                &&& g@ == old(state).atomic@.write_region(1)
                &&& final(state).atomic@ == old(state).atomic@.lend_write()
                &&& final(state).atomic@.holds_write(g@)
            },
            !p.succeeded() ==> final(state).atomic@ == old(state).atomic@,
            waited(false, p is Wait, old(state).wait_writer, final(state).wait_writer),
    {
        let registered: bool = poll_wait(&mut state.wait_writer, cx);
        if let Some(error) = state.error.take() {
            return Progress::Ready(Err(error));
        }
        match self.producer.grant_max_remaining(&mut state.atomic) {
            Ok(inner) => Progress::Ready(Ok(GrantWriter { inner })),
            // No bytes available to write to, wait for a wakeup
            Err(_) => {
                park(&mut state.wait_writer, cx, registered);
                Progress::Wait
            },
        }
    }

    /// Write as many bytes of `buf` as one grant takes. The number of bytes is
    /// returned.
    pub fn write<E>(
        &mut self,
        state: &mut State<E>,
        cx: &mut Context<'_>,
        buf: &[u8],
    ) -> (p: Progress<Result<usize, E>>)
        requires
            old(state).wf(),
            old(state).error@ is Some || !old(state).atomic@.write_granted,
        ensures
            final(state).wf(),
            keeps_read_grants(old(state).atomic@, final(state).atomic@),
            final(state).error@ is None,
            p.failed() <==> old(state).error@ is Some,
            p matches Progress::Ready(Err(e)) ==> old(state).error@ == Some(e),
            p.succeeded() <==> old(state).error@ is None && old(state).atomic@.free() > 0,
            p matches Progress::Ready(Ok(n)) ==> {
                &&& written(
                    old(state).atomic@,
                    old(state).atomic@.write_region(1),
                    buf@,
                    n as int,
                    final(state).atomic@,
                )
                &&& buf@.len() > 0 ==> n > 0
                &&& woken(final(state).wait_reader)
            },
            !p.succeeded() ==> {
                &&& final(state).atomic@ == old(state).atomic@
                &&& final(state).wait_reader == old(state).wait_reader
            },
            waited(false, p is Wait, old(state).wait_writer, final(state).wait_writer),
    {
        match self.grant_writer(state, cx) {
            Progress::Wait => Progress::Wait,
            Progress::Ready(Err(error)) => Progress::Ready(Err(error)),
            Progress::Ready(Ok(grant)) => {
                let ghost region = grant@;
                proof {
                    lemma_written(old(state).atomic@, region, buf@);
                }
                let bytes: usize = grant.copy_max_from(state, buf);
                assert(state.atomic@ =~= old(state).atomic@.fill(
                    region.start,
                    buf@.take(bytes as int),
                ).commit(region, bytes as int));
                Progress::Ready(Ok(bytes))
            },
        }
    }

    /// There is nothing to flush.
    pub fn flush<E>(&mut self) -> (r: Result<(), E>)
        ensures
            r is Ok,
            *final(self) == *old(self),
    {
        Ok(())
    }

    /// Write all bytes of `buf` from `*done` on. `*done` counts those that have been
    /// written, over all the steps that it takes.
    ///
    /// Double-grants are illegal: while there is something to write, none may be out,
    /// unless an error waits.
    pub fn write_all<E>(
        &mut self,
        state: &mut State<E>,
        cx: &mut Context<'_>,
        buf: &[u8],
        done: &mut usize,
    ) -> (p: Progress<Result<(), E>>)
        requires
            old(state).wf(),
            *old(done) <= buf@.len(),
            *old(done) < buf@.len() ==> old(state).error@ is Some
                || !old(state).atomic@.write_granted,
        ensures
            final(state).wf(),
            keeps_read_grants(old(state).atomic@, final(state).atomic@),
            *old(done) <= *final(done) <= buf@.len(),
            p.succeeded() <==> *final(done) == buf@.len(),
            appended(
                old(state).atomic@,
                final(state).atomic@,
                buf@,
                *old(done) as int,
                *final(done) as int,
            ),
            final(state).atomic@.write_granted == old(state).atomic@.write_granted,
            old(state).error@ is None ==> advanced(
                old(state).atomic@,
                final(state).atomic@,
                buf@,
                *old(done) as int,
                *final(done) as int,
            ),
            *old(done) == buf@.len() ==> *final(state) == *old(state),
            *old(done) < buf@.len() ==> {
                let rest = buf@.len() - *old(done);
                let room = if old(state).error@ is Some {
                    0
                } else {
                    old(state).atomic@.free()
                };
                &&& *final(done) - *old(done) == min(rest, room)
                &&& p.failed() <==> old(state).error@ is Some
                &&& p.failed() ==> p->Ready_0->Err_0 == old(state).error@->0
                &&& final(state).error@ is None
            },
            *old(done) < *final(done) ==> woken(final(state).wait_reader),
            *old(done) == *final(done) ==> final(state).wait_reader == old(state).wait_reader,
            p is Wait ==> parked(final(state).wait_writer),
            p is Ready ==> polled_for_room(
                old(state).atomic@,
                None,
                buf@.len() - *old(done),
                p.failed(),
                old(state).wait_writer,
                final(state).wait_writer,
            ),
    {
        let ghost ring = state.atomic@;
        let ghost from = *done as int;
        let ghost first = ring.write_region(1).len;
        proof {
            lemma_append_nothing(ring, buf@, from);
        }
        while *done < buf.len()
            invariant
                from <= *done <= buf@.len(),
                from == *old(done),
                ring == old(state).atomic@,
                ring.wf(),
                first == ring.write_region(1).len,
                from < buf@.len() ==> old(state).error@ is Some || !ring.write_granted,
                state.wf(),
                appended(ring, state.atomic@, buf@, from, *done as int),
                *done == from ==> *state == *old(state),
                *done > from ==> {
                    &&& !state.atomic@.write_granted
                    &&& old(state).error@ is None
                    &&& state.error@ is None
                    &&& woken(state.wait_reader)
                    &&& *done - from == min(buf@.len() - from, first) || *done - from > first
                    &&& if *done - from <= first {
                        polled(old(state).wait_writer, state.wait_writer)
                    } else {
                        parked(state.wait_writer)
                    }
                },
            decreases buf.len() - *done,
        {
            let ghost before = state.atomic@;
            let ghost at = *done as int;
            let rest: &[u8] = &buf[*done..buf.len()];
            proof {
                lemma_grant_write(before, 1);
            }
            match self.write(state, cx, rest) {
                Progress::Ready(Ok(n)) => {
                    *done = *done + n;
                    proof {
                        lemma_append_more(
                            ring,
                            before,
                            before.write_region(1),
                            buf@,
                            from,
                            at,
                            n as int,
                            state.atomic@,
                        );
                    }
                },
                Progress::Ready(Err(error)) => return Progress::Ready(Err(error)),
                Progress::Wait => return Progress::Wait,
            }
        }
        Progress::Ready(Ok(()))
    }
}

/// Reads from a stream.
pub struct SoftReader {
    consumer: BufferReader,
    grant: Option<ReaderGrant>,
}

impl View for SoftReader {
    type V = Option<ReadRegion>;

    /// The region that is held.
    closed spec fn view(&self) -> Option<ReadRegion> {
        match self.grant {
            Some(g) => Some(g@),
            None => None,
        }
    }
}

impl SoftReader {
    /// What is held is out.
    pub open spec fn wf(self, ring: Ring) -> bool {
        self@ matches Some(g) ==> ring.holds_read(g)
    }

    /// Whether there are bytes to be granted, once what is held is dropped.
    pub open spec fn can_refill(self, ring: Ring) -> bool {
        (self@ is Some || !ring.read_granted) && ring.unread().len() > 0
    }

    /// A reading end that holds nothing.
    pub fn new(consumer: BufferReader) -> (end: Self)
        ensures
            end@ is None,
    {
        SoftReader { consumer, grant: None }
    }

    /// Drop what is held and hold a new grant. An error that waits is returned
    /// instead.
    fn get_grant<E>(
        &mut self,
        state: &mut State<E>,
        cx: &mut Context<'_>,
    ) -> (p: Progress<Result<(), E>>)
        requires
            old(state).wf(),
            old(self).wf(old(state).atomic@),
        ensures
            final(state).wf(),
            keeps_write_grants(old(state).atomic@, final(state).atomic@),
            final(self).wf(final(state).atomic@),
            final(state).error@ is None,
            final(state).wait_writer == old(state).wait_writer,
            p.failed() <==> old(state).error@ is Some,
            p matches Progress::Ready(Err(e)) ==> old(state).error@ == Some(e),
            p.succeeded() <==> old(state).error@ is None && old(self).can_refill(
                old(state).atomic@,
            ),
            p.failed() ==> final(self)@ == old(self)@ && final(state).atomic@ == old(state).atomic@,
            p.succeeded() ==> {
                &&& final(self)@ == Some(old(state).atomic@.read_region())
                &&& final(state).atomic@ == old(state).atomic@.lend_read()
            },
            p is Wait ==> {
                &&& final(self)@ is None
                &&& final(state).atomic@ == if old(self)@ is Some {
                    (Ring { read_granted: false, ..old(state).atomic@ })
                } else {
                    old(state).atomic@
                }
            },
            waited(false, p is Wait, old(state).wait_reader, final(state).wait_reader),
    {
        let registered: bool = poll_wait(&mut state.wait_reader, cx);
        if let Some(error) = state.error.take() {
            return Progress::Ready(Err(error));
        }
        // Release any existing grant, double-grants are illegal anyway
        self.consume(state, 0);
        match self.consumer.read(&mut state.atomic) {
            Ok(grant) => {
                self.grant = Some(grant);
                Progress::Ready(Ok(()))
            },
            Err(_) => {
                park(&mut state.wait_reader, cx, registered);
                Progress::Wait
            },
        }
    }

    /// Read as many bytes into `buf` as one grant shows. The number of bytes is
    /// returned.
    pub fn read<E>(
        &mut self,
        state: &mut State<E>,
        cx: &mut Context<'_>,
        buf: &mut [u8],
    ) -> (p: Progress<Result<usize, E>>)
        requires
            old(state).wf(),
            old(self).wf(old(state).atomic@),
        ensures
            final(state).wf(),
            keeps_write_grants(old(state).atomic@, final(state).atomic@),
            final(self).wf(final(state).atomic@),
            final(state).error@ is None,
            final(state).wait_writer == old(state).wait_writer,
            p.failed() <==> old(state).error@ is Some,
            p matches Progress::Ready(Err(e)) ==> old(state).error@ == Some(e),
            p.succeeded() <==> old(state).error@ is None && old(self).can_refill(
                old(state).atomic@,
            ),
            p.failed() ==> final(self)@ == old(self)@ && final(state).atomic@ == old(state).atomic@,
            p matches Progress::Ready(Ok(n)) ==> {
                &&& final(self)@ is None
                &&& taken(
                    old(state).atomic@,
                    old(state).atomic@.read_region(),
                    old(buf)@,
                    final(buf)@,
                    n as int,
                    final(state).atomic@,
                )
                &&& old(buf)@.len() > 0 ==> n > 0
            },
            p is Wait ==> {
                &&& final(self)@ is None
                &&& final(state).atomic@ == if old(self)@ is Some {
                    (Ring { read_granted: false, ..old(state).atomic@ })
                } else {
                    old(state).atomic@
                }
            },
            !p.succeeded() ==> final(buf)@ == old(buf)@,
            waited(false, p is Wait, old(state).wait_reader, final(state).wait_reader),
    {
        match self.get_grant(state, cx) {
            Progress::Wait => Progress::Wait,
            Progress::Ready(Err(error)) => Progress::Ready(Err(error)),
            Progress::Ready(Ok(())) => {
                let bytes: usize = match &mut self.grant {
                    Some(grant) => grant.copy_max_into(&state.atomic, buf),
                    None => 0,
                };
                let ghost region = self@->0;
                proof {
                    lemma_taken(old(state).atomic@, region, old(buf)@);
                }
                self.consume(state, bytes);
                assert(state.atomic@ =~= old(state).atomic@.consume(region, bytes as int));
                Progress::Ready(Ok(bytes))
            },
        }
    }

    /// The bytes of a grant, the oldest that are unread.
    pub fn fill_buf<'s, E>(
        &mut self,
        state: &'s mut State<E>,
        cx: &mut Context<'_>,
    ) -> (p: Progress<Result<&'s [u8], E>>)
        requires
            old(state).wf(),
            old(self).wf(old(state).atomic@),
        ensures
            final(state).wf(),
            keeps_write_grants(old(state).atomic@, final(state).atomic@),
            final(self).wf(final(state).atomic@),
            final(state).error@ is None,
            final(state).wait_writer == old(state).wait_writer,
            p.failed() <==> old(state).error@ is Some,
            p matches Progress::Ready(Err(e)) ==> old(state).error@ == Some(e),
            p.succeeded() <==> old(state).error@ is None && old(self).can_refill(
                old(state).atomic@,
            ),
            p.failed() ==> final(self)@ == old(self)@ && final(state).atomic@ == old(state).atomic@,
            p matches Progress::Ready(Ok(bytes)) ==> {
                let region = old(state).atomic@.read_region();
                &&& bytes@ == old(state).atomic@.read_bytes(region)
                &&& bytes@.is_prefix_of(old(state).atomic@.unread())
                &&& final(self)@ == Some(region)
                &&& final(state).atomic@ == old(state).atomic@.lend_read()
            },
            p is Wait ==> {
                &&& final(self)@ is None
                &&& final(state).atomic@ == if old(self)@ is Some {
                    (Ring { read_granted: false, ..old(state).atomic@ })
                } else {
                    old(state).atomic@
                }
            },
            waited(false, p is Wait, old(state).wait_reader, final(state).wait_reader),
    {
        match self.get_grant(state, cx) {
            Progress::Wait => Progress::Wait,
            Progress::Ready(Err(error)) => Progress::Ready(Err(error)),
            Progress::Ready(Ok(())) => {
                match &self.grant {
                    Some(grant) => Progress::Ready(Ok(grant.buf(&state.atomic))),
                    None => Progress::Wait,
                }
            },
        }
    }

    /// Give back what is held with `amt` bytes of it read. Nobody is woken.
    pub fn consume<E>(&mut self, state: &mut State<E>, amt: usize)
        requires
            old(state).wf(),
            old(self).wf(old(state).atomic@),
        ensures
            final(state).wf(),
            keeps_write_grants(old(state).atomic@, final(state).atomic@),
            final(self)@ is None,
            final(state).error == old(state).error,
            final(state).wait_writer == old(state).wait_writer,
            final(state).wait_reader == old(state).wait_reader,
            old(self)@ is None ==> final(state).atomic@ == old(state).atomic@,
            old(self)@ matches Some(g) ==> {
                &&& final(state).atomic@ == old(state).atomic@.consume(g, amt as int)
                &&& final(state).atomic@.unread() == old(state).atomic@.unread().skip(
                    min(amt as int, g.len),
                )
            },
    {
        if let Some(grant) = self.grant.take() {
            grant.consume(&mut state.atomic, amt);
        }
    }
}

} // verus!
