//! The device's ends of a stream, with the wait for a grant as a value of its own.
//!
//! A wait looks at its cell once. Where that takes a wakeup that was stored, and there is
//! still no grant, the result is [`Progress::Wait`] without the caller's waker in the
//! cell: the caller has to take the step again at once, and has its waker stored then.

use crate::buffer::{BufferReader, BufferWriter, ReaderGrant, WriterGrant};
use crate::ring::{
    advanced, appended, keeps_read_grants, keeps_write_grants, lemma_append_more,
    lemma_append_nothing, lemma_grant_read, lemma_grant_write, lemma_taken, lemma_written, min,
    taken, written,
};
use crate::state::State;
use crate::wait::{parked, poll_wait, polled, polled_for_room, wake, woken, Progress};
use core::task::Context;
use vstd::prelude::*;

verus! {

/// A wait for a grant to write into.
pub struct WriterGrantFuture<'s> {
    producer: &'s mut BufferWriter,
}

impl<'s> WriterGrantFuture<'s> {
    /// The half that grants are asked of.
    pub closed spec fn half(self) -> BufferWriter {
        *self.producer
    }

    /// Look for a grant, after polling the cell where the writing end waits.
    ///
    /// Where the cell holds a wakeup, polling takes it, and the caller's waker is
    /// not stored: if there is no grant, such a caller has to poll again by itself.
    pub fn poll<E>(
        &mut self,
        state: &mut State<E>,
        cx: &mut Context<'_>,
    ) -> (p: Progress<WriterGrant>)
        requires
            old(state).wf(),
        ensures
            final(state).wf(),
            keeps_read_grants(old(state).atomic@, final(state).atomic@),
            final(state).error@ == old(state).error@,
            final(state).wait_reader == old(state).wait_reader,
            polled(old(state).wait_writer, final(state).wait_writer),
            p is Ready <==> old(state).atomic@.can_grant_write(1),
            p matches Progress::Ready(g) ==> {
                &&& g@ == old(state).atomic@.write_region(1)
                &&& final(state).atomic@ == old(state).atomic@.lend_write()
                &&& final(state).atomic@.holds_write(g@)
            },
            p is Wait ==> final(state).atomic@ == old(state).atomic@,
    {
        poll_wait(&mut state.wait_writer, cx);
        proof {
            lemma_grant_write(state.atomic@, 1);
        }
        match self.producer.try_get_writer_grant(&mut state.atomic, 1) {
            Some(grant) => Progress::Ready(grant),
            None => Progress::Wait,
        }
    }
}

/// A wait for a grant to read from.
pub struct ReaderGrantFuture<'s> {
    consumer: &'s mut BufferReader,
}

impl<'s> ReaderGrantFuture<'s> {
    /// The half that grants are asked of.
    pub closed spec fn half(self) -> BufferReader {
        *self.consumer
    }

    /// Look for a grant, after polling the cell where the reading end waits.
    ///
    /// Where the cell holds a wakeup, polling takes it, and the caller's waker is
    /// not stored: if there is no grant, such a caller has to poll again by itself.
    pub fn poll<E>(
        &mut self,
        state: &mut State<E>,
        cx: &mut Context<'_>,
    ) -> (p: Progress<ReaderGrant>)
        requires
            old(state).wf(),
        ensures
            final(state).wf(),
            keeps_write_grants(old(state).atomic@, final(state).atomic@),
            final(state).error@ == old(state).error@,
            final(state).wait_writer == old(state).wait_writer,
            polled(old(state).wait_reader, final(state).wait_reader),
            p is Ready <==> old(state).atomic@.can_grant_read(),
            p matches Progress::Ready(g) ==> {
                &&& g@ == old(state).atomic@.read_region()
                &&& final(state).atomic@ == old(state).atomic@.lend_read()
                &&& final(state).atomic@.holds_read(g@)
            },
            p is Wait ==> final(state).atomic@ == old(state).atomic@,
    {
        poll_wait(&mut state.wait_reader, cx);
        proof {
            lemma_grant_read(state.atomic@);
        }
        match self.consumer.try_get_reader_grant(&mut state.atomic) {
            Some(grant) => Progress::Ready(grant),
            None => Progress::Wait,
        }
    }
}

/// Writes into a stream for a device.
pub struct DevProducer {
    producer: BufferWriter,
}

impl DevProducer {
    /// The half that grants are asked of.
    pub closed spec fn half(self) -> BufferWriter {
        self.producer
    }

    /// A writing end over one half of a buffer.
    pub fn new(producer: BufferWriter) -> (end: Self)
        ensures
            end.half() == producer,
    {
        DevProducer { producer }
    }

    /// Write a non-zero number of bytes from the provided buffer into the stream.
    ///
    /// This wakes the reader.
    ///
    /// On [`Progress::Wait`], a wakeup may have been taken in place of storing the
    /// caller's waker, as with [`WriterGrantFuture::poll`].
    pub fn write<E>(
        &mut self,
        state: &mut State<E>,
        cx: &mut Context<'_>,
        buf: &[u8],
    ) -> (p: Progress<usize>)
        requires
            old(state).wf(),
        ensures
            final(state).wf(),
            keeps_read_grants(old(state).atomic@, final(state).atomic@),
            final(state).error@ == old(state).error@,
            p is Ready <==> old(state).atomic@.can_grant_write(1),
            p matches Progress::Ready(n) ==> {
                &&& written(
                    old(state).atomic@,
                    old(state).atomic@.write_region(1),
                    buf@,
                    n as int,
                    final(state).atomic@,
                )
                &&& buf@.len() > 0 ==> n > 0
                &&& woken(final(state).wait_reader)
            },
            p is Wait ==> {
                &&& final(state).atomic@ == old(state).atomic@
                &&& final(state).wait_reader == old(state).wait_reader
            },
            polled(old(state).wait_writer, final(state).wait_writer),
    {
        match self.get_writer_grant().poll(state, cx) {
            Progress::Wait => Progress::Wait,
            Progress::Ready(grant) => {
                let ghost region = grant@;
                proof {
                    lemma_written(old(state).atomic@, region, buf@);
                }
                let bytes: usize = grant.write(&mut state.atomic, buf);
                assert(state.atomic@ =~= old(state).atomic@.fill(
                    region.start,
                    buf@.take(bytes as int),
                ).commit(region, bytes as int));
                wake(&mut state.wait_reader);
                Progress::Ready(bytes)
            },
        }
    }

    /// Write all bytes of the provided buffer from `*done` on into the stream.
    /// `*done` counts those that have been written, over all the steps that it
    /// takes.
    ///
    /// This wakes the reader.
    ///
    /// On [`Progress::Wait`], a wakeup may have been taken in place of storing the
    /// caller's waker, as with [`WriterGrantFuture::poll`]. This cannot be where bytes
    /// were written.
    pub fn write_all<E>(
        &mut self,
        state: &mut State<E>,
        cx: &mut Context<'_>,
        buf: &[u8],
        done: &mut usize,
    ) -> (p: Progress<()>)
        requires
            old(state).wf(),
            *old(done) <= buf@.len(),
        ensures
            final(state).wf(),
            keeps_read_grants(old(state).atomic@, final(state).atomic@),
            final(state).error@ == old(state).error@,
            *old(done) <= *final(done) <= buf@.len(),
            p is Ready <==> *final(done) == buf@.len(),
            advanced(
                old(state).atomic@,
                final(state).atomic@,
                buf@,
                *old(done) as int,
                *final(done) as int,
            ),
            final(state).atomic@.write_granted == old(state).atomic@.write_granted,
            *old(done) == buf@.len() ==> *final(state) == *old(state),
            *old(done) < *final(done) ==> woken(final(state).wait_reader),
            *old(done) == *final(done) ==> final(state).wait_reader == old(state).wait_reader,
            p is Wait && *old(done) == *final(done) ==> polled(
                old(state).wait_writer,
                final(state).wait_writer,
            ),
            p is Wait && *old(done) < *final(done) ==> parked(final(state).wait_writer),
            p is Ready ==> polled_for_room(
                old(state).atomic@,
                None,
                buf@.len() - *old(done),
                false,
                old(state).wait_writer,
                final(state).wait_writer,
            ),
    {
        let ghost ring = state.atomic@;
        let ghost from = *done as int;
        let ghost first = ring.write_region(1).len;
        proof {
            lemma_append_nothing(ring, buf@, from);
        }
        while *done < buf.len()
            invariant
                from <= *done <= buf@.len(),
                from == *old(done),
                ring == old(state).atomic@,
                ring.wf(),
                first == ring.write_region(1).len,
                state.wf(),
                state.error@ == old(state).error@,
                appended(ring, state.atomic@, buf@, from, *done as int),
                *done == from ==> *state == *old(state),
                *done > from ==> {
                    &&& !state.atomic@.write_granted
                    &&& !ring.write_granted
                    &&& woken(state.wait_reader)
                    &&& *done - from == min(buf@.len() - from, first) || *done - from > first
                    &&& if *done - from <= first {
                        polled(old(state).wait_writer, state.wait_writer)
                    } else {
                        parked(state.wait_writer)
                    }
                },
            decreases buf.len() - *done,
        {
            let ghost before = state.atomic@;
            let ghost at = *done as int;
            let rest: &[u8] = &buf[*done..buf.len()];
            proof {
                lemma_grant_write(before, 1);
            }
            match self.write(state, cx, rest) {
                Progress::Ready(n) => {
                    *done = *done + n;
                    proof {
                        lemma_append_more(
                            ring,
                            before,
                            before.write_region(1),
                            buf@,
                            from,
                            at,
                            n as int,
                            state.atomic@,
                        );
                    }
                },
                Progress::Wait => return Progress::Wait,
            }
        }
        Progress::Ready(())
    }

    /// Insert an error into the stream.
    ///
    /// This wakes the reader.
    pub fn insert_error<E>(&mut self, state: &mut State<E>, error: E)
        requires
            old(state).wf(),
        ensures
            final(state).wf(),
            keeps_read_grants(old(state).atomic@, final(state).atomic@),
            final(state).error@ == Some(error),
            final(state).atomic@ == old(state).atomic@,
            final(state).wait_writer == old(state).wait_writer,
            woken(final(state).wait_reader),
    {
        state.error.set(error);
        wake(&mut state.wait_reader);
    }

    /// Get a grant to write into
    pub fn get_writer_grant(&mut self) -> (wait: WriterGrantFuture<'_>)
        ensures
            wait.half() == old(self).half(),
    {
        WriterGrantFuture { producer: &mut self.producer }
    }

    /// Go on with a connection to a reader, once that has come back with `outcome`
    /// from filling `grant`. An error is inserted as it is.
    ///
    /// See [`DevProducer::embedded_io_connect_mapped`].
    pub fn embedded_io_connect<E>(
        &mut self,
        state: &mut State<E>,
        grant: WriterGrant,
        outcome: Result<usize, E>,
    ) -> (go_on: bool)
        requires
            old(state).wf(),
            old(state).atomic@.holds_write(grant@),
        ensures
            final(state).wf(),
            keeps_read_grants(old(state).atomic@, final(state).atomic@),
            go_on <==> !(outcome matches Ok(n) && n == 0),
            !go_on ==> {
                &&& final(state).atomic@ == old(state).atomic@.commit(grant@, 0)
                &&& final(state).error@ == old(state).error@
                &&& final(state).wait_reader == old(state).wait_reader
            },
            go_on ==> woken(final(state).wait_reader),
            outcome matches Ok(n) ==> {
                &&& final(state).atomic@ == old(state).atomic@.commit(grant@, n as int)
                &&& final(state).atomic@.unread() == old(state).atomic@.unread() + old(
                    state,
                ).atomic@.write_bytes(grant@).take(min(n as int, grant@.len))
                &&& final(state).error@ == old(state).error@
            },
            outcome matches Err(e) ==> {
                &&& final(state).atomic@ == old(state).atomic@.commit(grant@, 0)
                &&& final(state).error@ == Some(e)
            },
            final(state).wait_writer == old(state).wait_writer,
    {
        let unchanged = |error: E| -> (same: E)
            ensures
                same == error,
            {
                error
            };
        self.embedded_io_connect_mapped(state, grant, outcome, unchanged)
    }

    /// Go on with a connection to a reader, such that all bytes received through it
    /// are copied to this writer's buffer: the reader has come back with `outcome`
    /// from filling `grant`.
    ///
    /// The bytes that it read are committed. An error is mapped and inserted. The
    /// connection ends with an EOF condition, represented by a 0 byte read.
    pub fn embedded_io_connect_mapped<E, X, F: Fn(X) -> E>(
        &mut self,
        state: &mut State<E>,
        grant: WriterGrant,
        outcome: Result<usize, X>,
        map_err: F,
    ) -> (go_on: bool)
        requires
            old(state).wf(),
            old(state).atomic@.holds_write(grant@),
            outcome matches Err(e) ==> map_err.requires((e,)),
        ensures
            final(state).wf(),
            keeps_read_grants(old(state).atomic@, final(state).atomic@),
            go_on <==> !(outcome matches Ok(n) && n == 0),
            !go_on ==> {
                &&& final(state).atomic@ == old(state).atomic@.commit(grant@, 0)
                &&& final(state).error@ == old(state).error@
                &&& final(state).wait_reader == old(state).wait_reader
            },
            go_on ==> woken(final(state).wait_reader),
            outcome matches Ok(n) ==> {
                &&& final(state).atomic@ == old(state).atomic@.commit(grant@, n as int)
                &&& final(state).atomic@.unread() == old(state).atomic@.unread() + old(
                    state,
                ).atomic@.write_bytes(grant@).take(min(n as int, grant@.len))
                &&& final(state).error@ == old(state).error@
            },
            outcome matches Err(e) ==> {
                &&& final(state).atomic@ == old(state).atomic@.commit(grant@, 0)
                &&& final(state).error@ is Some
                &&& map_err.ensures((e,), final(state).error@->0)
            },
            final(state).wait_writer == old(state).wait_writer,
    {
        match outcome {
            Ok(0) => {
                grant.commit(&mut state.atomic, 0);
                false
            },
            Ok(bytes) => {
                grant.commit(&mut state.atomic, bytes);
                wake(&mut state.wait_reader);
                true
            },
            Err(error) => {
                grant.commit(&mut state.atomic, 0);
                self.insert_error(state, map_err(error));
                true
            },
        }
    }
}

/// Reads from a stream for a device.
pub struct DevConsumer {
    consumer: BufferReader,
}

impl DevConsumer {
    /// The half that grants are asked of.
    pub closed spec fn half(self) -> BufferReader {
        self.consumer
    }

    /// A reading end over one half of a buffer.
    pub fn new(consumer: BufferReader) -> (end: Self)
        ensures
            end.half() == consumer,
    {
        DevConsumer { consumer }
    }

    /// Read as many bytes into `buf` as one grant shows. The number of bytes is
    /// returned.
    ///
    /// On [`Progress::Wait`], a wakeup may have been taken in place of storing the
    /// caller's waker, as with [`ReaderGrantFuture::poll`].
    pub fn read<E>(
        &mut self,
        state: &mut State<E>,
        cx: &mut Context<'_>,
        buf: &mut [u8],
    ) -> (p: Progress<usize>)
        requires
            old(state).wf(),
        ensures
            final(state).wf(),
            keeps_write_grants(old(state).atomic@, final(state).atomic@),
            final(state).error@ == old(state).error@,
            p is Ready <==> old(state).atomic@.can_grant_read(),
            p matches Progress::Ready(n) ==> {
                &&& taken(
                    old(state).atomic@,
                    old(state).atomic@.read_region(),
                    old(buf)@,
                    final(buf)@,
                    n as int,
                    final(state).atomic@,
                )
                &&& old(buf)@.len() > 0 ==> n > 0
                &&& woken(final(state).wait_writer)
            },
            p is Wait ==> {
                &&& final(state).atomic@ == old(state).atomic@
                &&& final(buf)@ == old(buf)@
                &&& final(state).wait_writer == old(state).wait_writer
            },
            polled(old(state).wait_reader, final(state).wait_reader),
    {
        match self.get_reader_grant().poll(state, cx) {
            Progress::Wait => Progress::Wait,
            Progress::Ready(grant) => {
                let ghost region = grant@;
                proof {
                    lemma_taken(old(state).atomic@, region, old(buf)@);
                }
                let bytes: usize = grant.read(&mut state.atomic, buf);
                assert(state.atomic@ =~= old(state).atomic@.consume(region, bytes as int));
                wake(&mut state.wait_writer);
                Progress::Ready(bytes)
            },
        }
    }

    /// Insert an error into the stream. This wakes the writer.
    pub fn insert_error<E>(&mut self, state: &mut State<E>, error: E)
        requires
            old(state).wf(),
        ensures
            final(state).wf(),
            keeps_write_grants(old(state).atomic@, final(state).atomic@),
            final(state).error@ == Some(error),
            final(state).atomic@ == old(state).atomic@,
            final(state).wait_reader == old(state).wait_reader,
            woken(final(state).wait_writer),
    {
        state.error.set(error);
        wake(&mut state.wait_writer);
    }

    /// Get a grant to read from
    pub fn get_reader_grant(&mut self) -> (wait: ReaderGrantFuture<'_>)
        ensures
            wait.half() == old(self).half(),
    {
        ReaderGrantFuture { consumer: &mut self.consumer }
    }

    /// Go on with a connection to a writer, once that has come back with `outcome`
    /// from writing the bytes of `grant`. An error is inserted as it is.
    ///
    /// See [`DevConsumer::embedded_io_connect_mapped`].
    pub fn embedded_io_connect<E>(
        &mut self,
        state: &mut State<E>,
        grant: ReaderGrant,
        outcome: Result<usize, E>,
    ) -> (go_on: bool)
        requires
            old(state).wf(),
            old(state).atomic@.holds_read(grant@),
        ensures
            final(state).wf(),
            keeps_write_grants(old(state).atomic@, final(state).atomic@),
            go_on <==> !(outcome matches Ok(n) && n == 0),
            !go_on ==> {
                &&& final(state).atomic@ == old(state).atomic@.consume(grant@, 0)
                &&& final(state).error@ == old(state).error@
                &&& final(state).wait_writer == old(state).wait_writer
            },
            go_on ==> woken(final(state).wait_writer),
            outcome matches Ok(n) ==> {
                &&& final(state).atomic@ == old(state).atomic@.consume(grant@, n as int)
                &&& final(state).atomic@.unread() == old(state).atomic@.unread().skip(
                    min(n as int, grant@.len),
                )
                &&& final(state).error@ == old(state).error@
            },
            outcome matches Err(e) ==> {
                &&& final(state).atomic@ == old(state).atomic@.consume(grant@, 0)
                &&& final(state).error@ == Some(e)
            },
            final(state).wait_reader == old(state).wait_reader,
    {
        let unchanged = |error: E| -> (same: E)
            ensures
                same == error,
            {
                error
            };
        self.embedded_io_connect_mapped(state, grant, outcome, unchanged)
    }

    /// Go on with a connection to a writer, such that all bytes received through
    /// this reader are written to it: the writer has come back with `outcome` from
    /// writing the bytes of `grant`.
    ///
    /// The bytes that it wrote are consumed. An error is mapped and inserted. The
    /// connection ends with an EOF condition, represented by a 0 byte write.
    pub fn embedded_io_connect_mapped<E, X, F: Fn(X) -> E>(
        &mut self,
        state: &mut State<E>,
        grant: ReaderGrant,
        outcome: Result<usize, X>,
        map_err: F,
    ) -> (go_on: bool)
        requires
            old(state).wf(),
            old(state).atomic@.holds_read(grant@),
            outcome matches Err(e) ==> map_err.requires((e,)),
        ensures
            final(state).wf(),
            keeps_write_grants(old(state).atomic@, final(state).atomic@),
            go_on <==> !(outcome matches Ok(n) && n == 0),
            !go_on ==> {
                &&& final(state).atomic@ == old(state).atomic@.consume(grant@, 0)
                &&& final(state).error@ == old(state).error@
                &&& final(state).wait_writer == old(state).wait_writer
            },
            go_on ==> woken(final(state).wait_writer),
            outcome matches Ok(n) ==> {
                &&& final(state).atomic@ == old(state).atomic@.consume(grant@, n as int)
                &&& final(state).atomic@.unread() == old(state).atomic@.unread().skip(
                    min(n as int, grant@.len),
                )
                &&& final(state).error@ == old(state).error@
            },
            outcome matches Err(e) ==> {
                &&& final(state).atomic@ == old(state).atomic@.consume(grant@, 0)
                &&& final(state).error@ is Some
                &&& map_err.ensures((e,), final(state).error@->0)
            },
            final(state).wait_reader == old(state).wait_reader,
    {
        match outcome {
            Ok(0) => {
                grant.consume(&mut state.atomic, 0);
                false
            },
            Ok(bytes) => {
                grant.consume(&mut state.atomic, bytes);
                wake(&mut state.wait_writer);
                true
            },
            Err(error) => {
                grant.consume(&mut state.atomic, 0);
                self.insert_error(state, map_err(error));
                true
            },
        }
    }
}

} // verus!
