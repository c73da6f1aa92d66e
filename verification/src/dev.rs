//! The device's ends of a stream.
//!
//! Every method that may have to wait is one step: it returns
//! [`Progress::Wait`] once the caller's waker is stored, and is to be called again
//! after a wakeup.

use crate::buffer::{BufferReader, BufferWriter, ReaderGrant, WriterGrant};
use crate::ring::{
    advanced, appended, keeps_read_grants, keeps_write_grants, lemma_append_more,
    lemma_append_nothing, lemma_grant_read, lemma_grant_write, lemma_taken, lemma_written, min,
    taken, written,
};
use crate::state::State;
use crate::wait::{
    park, parked, poll_wait, polled, polled_for_room, waited, wake, woken, Progress,
};
use core::task::Context;
use vstd::prelude::*;

verus! {

/// Connects to the device-facing writing interface.
pub struct DeviceWriter {
    producer: BufferWriter,
}

impl DeviceWriter {
    /// The half that grants are asked of.
    pub closed spec fn half(self) -> BufferWriter {
        self.producer
    }

    /// A writing end over one half of a buffer.
    pub fn new(producer: BufferWriter) -> (end: Self)
        ensures
            end.half() == producer,
    {
        DeviceWriter { producer }
    }

    /// Write a non-zero number of bytes from the provided buffer into the stream.
    ///
    /// Note: This wakes the reader automatically, so no need to call `wake_reader`
    pub fn write<E>(
        &mut self,
        state: &mut State<E>,
        cx: &mut Context<'_>,
        buf: &[u8],
    ) -> (p: Progress<usize>)
        requires
            old(state).wf(),
        ensures
            final(state).wf(),
            keeps_read_grants(old(state).atomic@, final(state).atomic@),
            final(state).error@ == old(state).error@,
            p is Ready <==> old(state).atomic@.can_grant_write(1),
            p matches Progress::Ready(n) ==> {
                &&& written(
                    old(state).atomic@,
                    old(state).atomic@.write_region(1),
                    buf@,
                    n as int,
                    final(state).atomic@,
                )
                &&& buf@.len() > 0 ==> n > 0
                &&& woken(final(state).wait_reader)
            },
            p is Wait ==> {
                &&& final(state).atomic@ == old(state).atomic@
                &&& final(state).wait_reader == old(state).wait_reader
            },
            waited(false, p is Wait, old(state).wait_writer, final(state).wait_writer),
    {
        match self.get_writer_grant(state, cx) {
            Progress::Wait => Progress::Wait,
            Progress::Ready(grant) => {
                let ghost region = grant@;
                proof {
                    lemma_written(old(state).atomic@, region, buf@);
                }
                let bytes: usize = grant.write(&mut state.atomic, buf);
                assert(state.atomic@ =~= old(state).atomic@.fill(
                    region.start,
                    buf@.take(bytes as int),
                ).commit(region, bytes as int));
                self.wake_reader(state);
                Progress::Ready(bytes)
            },
        }
    }

    /// Write all bytes of the provided buffer from `*done` on into the stream.
    /// `*done` counts those that have been written, over all the steps that it
    /// takes.
    ///
    /// Note: This wakes the reader automatically, so no need to call `wake_reader`
    pub fn write_all<E>(
        &mut self,
        state: &mut State<E>,
        cx: &mut Context<'_>,
        buf: &[u8],
        done: &mut usize,
    ) -> (p: Progress<()>)
        requires
            old(state).wf(),
            *old(done) <= buf@.len(),
        ensures
            final(state).wf(),
            keeps_read_grants(old(state).atomic@, final(state).atomic@),
            final(state).error@ == old(state).error@,
            *old(done) <= *final(done) <= buf@.len(),
            p is Ready <==> *final(done) == buf@.len(),
            advanced(
                old(state).atomic@,
                final(state).atomic@,
                buf@,
                *old(done) as int,
                *final(done) as int,
            ),
            final(state).atomic@.write_granted == old(state).atomic@.write_granted,
            *old(done) == buf@.len() ==> *final(state) == *old(state),
            *old(done) < *final(done) ==> woken(final(state).wait_reader),
            *old(done) == *final(done) ==> final(state).wait_reader == old(state).wait_reader,
            p is Wait ==> parked(final(state).wait_writer),
            p is Ready ==> polled_for_room(
                old(state).atomic@,
                None,
                buf@.len() - *old(done),
                false,
                old(state).wait_writer,
                final(state).wait_writer,
            ),
    {
        let ghost ring = state.atomic@;
        let ghost from = *done as int;
        let ghost first = ring.write_region(1).len;
        proof {
            lemma_append_nothing(ring, buf@, from);
        }
        while *done < buf.len()
            invariant
                from <= *done <= buf@.len(),
                from == *old(done),
                ring == old(state).atomic@,
                ring.wf(),
                first == ring.write_region(1).len,
                state.wf(),
                state.error@ == old(state).error@,
                appended(ring, state.atomic@, buf@, from, *done as int),
                *done == from ==> *state == *old(state),
                *done > from ==> {
                    &&& !state.atomic@.write_granted
                    &&& !ring.write_granted
                    &&& woken(state.wait_reader)
                    &&& *done - from == min(buf@.len() - from, first) || *done - from > first
                    &&& if *done - from <= first {
                        polled(old(state).wait_writer, state.wait_writer)
                    } else {
                        parked(state.wait_writer)
                    }
                },
            decreases buf.len() - *done,
        {
            let ghost before = state.atomic@;
            let ghost at = *done as int;
            let rest: &[u8] = &buf[*done..buf.len()];
            proof {
                lemma_grant_write(before, 1);
            }
            match self.write(state, cx, rest) {
                Progress::Ready(n) => {
                    *done = *done + n;
                    proof {
                        lemma_append_more(
                            ring,
                            before,
                            before.write_region(1),
                            buf@,
                            from,
                            at,
                            n as int,
                            state.atomic@,
                        );
                    }
                },
                Progress::Wait => return Progress::Wait,
            }
        }
        Progress::Ready(())
    }

    /// Insert an error into the stream.
    ///
    /// Note: This wakes the reader automatically, so no need to call `wake_reader`
    pub fn insert_error<E>(&mut self, state: &mut State<E>, error: E)
        requires
            old(state).wf(),
        ensures
            final(state).wf(),
            keeps_read_grants(old(state).atomic@, final(state).atomic@),
            final(state).error@ == Some(error),
            final(state).atomic@ == old(state).atomic@,
            final(state).wait_writer == old(state).wait_writer,
            woken(final(state).wait_reader),
    {
        state.error.set(error);
        wake(&mut state.wait_reader);
    }

    /// Get a grant to write into
    pub fn get_writer_grant<E>(
        &mut self,
        state: &mut State<E>,
        cx: &mut Context<'_>,
    ) -> (p: Progress<WriterGrant>)
        requires
            old(state).wf(),
        ensures
            final(state).wf(),
            keeps_read_grants(old(state).atomic@, final(state).atomic@),
            final(state).error@ == old(state).error@,
            final(state).wait_reader == old(state).wait_reader,
            p is Ready <==> old(state).atomic@.can_grant_write(1),
            p matches Progress::Ready(g) ==> {
                &&& g@ == old(state).atomic@.write_region(1)
                &&& final(state).atomic@ == old(state).atomic@.lend_write()
                &&& final(state).atomic@.holds_write(g@)
            },
            p is Wait ==> final(state).atomic@ == old(state).atomic@,
            waited(false, p is Wait, old(state).wait_writer, final(state).wait_writer),
    {
        let registered: bool = poll_wait(&mut state.wait_writer, cx);
        proof {
            lemma_grant_write(state.atomic@, 1);
        }
        if let Some(grant) = self.producer.try_get_writer_grant(&mut state.atomic, 1) {
            return Progress::Ready(grant);
        }
        park(&mut state.wait_writer, cx, registered);
        Progress::Wait
    }

    /// Wake the reading end to notify it that there is something to read.
    pub fn wake_reader<E>(&mut self, state: &mut State<E>)
        requires
            old(state).wf(),
        ensures
            final(state).wf(),
            keeps_read_grants(old(state).atomic@, final(state).atomic@),
            final(state).error@ == old(state).error@,
            final(state).atomic@ == old(state).atomic@,
            final(state).wait_writer == old(state).wait_writer,
            woken(final(state).wait_reader),
    {
        wake(&mut state.wait_reader);
    }

    /// Go on with a connection to a reader, once that has come back with `outcome`
    /// from filling `grant`. An error is inserted as it is.
    ///
    /// See [`DeviceWriter::embedded_io_connect_mapped`].
    pub fn embedded_io_connect<E>(
        &mut self,
        state: &mut State<E>,
        grant: WriterGrant,
        outcome: Result<usize, E>,
    ) -> (go_on: bool)
        requires
            old(state).wf(),
            old(state).atomic@.holds_write(grant@),
        ensures
            final(state).wf(),
            keeps_read_grants(old(state).atomic@, final(state).atomic@),
            go_on <==> !(outcome matches Ok(n) && n == 0),
            !go_on ==> {
                &&& final(state).atomic@ == old(state).atomic@.commit(grant@, 0)
                &&& final(state).error@ == old(state).error@
                &&& final(state).wait_reader == old(state).wait_reader
            },
            go_on ==> woken(final(state).wait_reader),
            outcome matches Ok(n) ==> {
                &&& final(state).atomic@ == old(state).atomic@.commit(grant@, n as int)
                &&& final(state).atomic@.unread() == old(state).atomic@.unread() + old(
                    state,
                ).atomic@.write_bytes(grant@).take(min(n as int, grant@.len))
                &&& final(state).error@ == old(state).error@
            },
            outcome matches Err(e) ==> {
                &&& final(state).atomic@ == old(state).atomic@.commit(grant@, 0)
                &&& final(state).error@ == Some(e)
            },
            final(state).wait_writer == old(state).wait_writer,
    {
        let unchanged = |error: E| -> (same: E)
            ensures
                same == error,
            {
                error
            };
        self.embedded_io_connect_mapped(state, grant, outcome, unchanged)
    }

    /// Go on with a connection to a reader, such that all bytes received through it
    /// are copied to this writer's buffer: the reader has come back with `outcome`
    /// from filling `grant`.
    ///
    /// The bytes that it read are committed. An error is mapped and inserted. The
    /// connection ends with an EOF condition, represented by a 0 byte read.
    pub fn embedded_io_connect_mapped<E, X, F: Fn(X) -> E>(
        &mut self,
        state: &mut State<E>,
        grant: WriterGrant,
        outcome: Result<usize, X>,
        map_err: F,
    ) -> (go_on: bool)
        requires
            old(state).wf(),
            old(state).atomic@.holds_write(grant@),
            outcome matches Err(e) ==> map_err.requires((e,)),
        ensures
            final(state).wf(),
            keeps_read_grants(old(state).atomic@, final(state).atomic@),
            go_on <==> !(outcome matches Ok(n) && n == 0),
            !go_on ==> {
                &&& final(state).atomic@ == old(state).atomic@.commit(grant@, 0)
                &&& final(state).error@ == old(state).error@
                &&& final(state).wait_reader == old(state).wait_reader
            },
            go_on ==> woken(final(state).wait_reader),
            outcome matches Ok(n) ==> {
                &&& final(state).atomic@ == old(state).atomic@.commit(grant@, n as int)
                &&& final(state).atomic@.unread() == old(state).atomic@.unread() + old(
                    state,
                ).atomic@.write_bytes(grant@).take(min(n as int, grant@.len))
                &&& final(state).error@ == old(state).error@
            },
            outcome matches Err(e) ==> {
                &&& final(state).atomic@ == old(state).atomic@.commit(grant@, 0)
                &&& final(state).error@ is Some
                &&& map_err.ensures((e,), final(state).error@->0)
            },
            final(state).wait_writer == old(state).wait_writer,
    {
        match outcome {
            Ok(0) => {
                grant.commit(&mut state.atomic, 0);
                false
            },
            Ok(bytes) => {
                grant.commit(&mut state.atomic, bytes);
                self.wake_reader(state);
                true
            },
            Err(error) => {
                grant.commit(&mut state.atomic, 0);
                self.insert_error(state, map_err(error));
                true
            },
        }
    }
}

/// Connects to the device-facing reading interface.
pub struct DeviceReader {
    consumer: BufferReader,
}

impl DeviceReader {
    /// The half that grants are asked of.
    pub closed spec fn half(self) -> BufferReader {
        self.consumer
    }

    /// A reading end over one half of a buffer.
    pub fn new(consumer: BufferReader) -> (end: Self)
        ensures
            end.half() == consumer,
    {
        DeviceReader { consumer }
    }

    /// Read as many bytes into `buf` as one grant shows. The number of bytes is
    /// returned.
    pub fn read<E>(
        &mut self,
        state: &mut State<E>,
        cx: &mut Context<'_>,
        buf: &mut [u8],
    ) -> (p: Progress<usize>)
        requires
            old(state).wf(),
        ensures
            final(state).wf(),
            keeps_write_grants(old(state).atomic@, final(state).atomic@),
            final(state).error@ == old(state).error@,
            p is Ready <==> old(state).atomic@.can_grant_read(),
            p matches Progress::Ready(n) ==> {
                &&& taken(
                    old(state).atomic@,
                    old(state).atomic@.read_region(),
                    old(buf)@,
                    final(buf)@,
                    n as int,
                    final(state).atomic@,
                )
                &&& old(buf)@.len() > 0 ==> n > 0
                &&& woken(final(state).wait_writer)
            },
            p is Wait ==> {
                &&& final(state).atomic@ == old(state).atomic@
                &&& final(buf)@ == old(buf)@
                &&& final(state).wait_writer == old(state).wait_writer
            },
            waited(false, p is Wait, old(state).wait_reader, final(state).wait_reader),
    {
        match self.get_reader_grant(state, cx) {
            Progress::Wait => Progress::Wait,
            Progress::Ready(grant) => {
                let ghost region = grant@;
                proof {
                    lemma_taken(old(state).atomic@, region, old(buf)@);
                }
                let bytes: usize = grant.read(&mut state.atomic, buf);
                assert(state.atomic@ =~= old(state).atomic@.consume(region, bytes as int));
                self.wake_writer(state);
                Progress::Ready(bytes)
            },
        }
    }

    /// Insert an error into the stream. This wakes the writer automatically.
    pub fn insert_error<E>(&mut self, state: &mut State<E>, error: E)
        requires
            old(state).wf(),
        ensures
            final(state).wf(),
            keeps_write_grants(old(state).atomic@, final(state).atomic@),
            final(state).error@ == Some(error),
            final(state).atomic@ == old(state).atomic@,
            final(state).wait_reader == old(state).wait_reader,
            woken(final(state).wait_writer),
    {
        state.error.set(error);
        self.wake_writer(state);
    }

    /// Get a grant to read from
    pub fn get_reader_grant<E>(
        &mut self,
        state: &mut State<E>,
        cx: &mut Context<'_>,
    ) -> (p: Progress<ReaderGrant>)
        requires
            old(state).wf(),
        ensures
            final(state).wf(),
            keeps_write_grants(old(state).atomic@, final(state).atomic@),
            final(state).error@ == old(state).error@,
            final(state).wait_writer == old(state).wait_writer,
            p is Ready <==> old(state).atomic@.can_grant_read(),
            p matches Progress::Ready(g) ==> {
                &&& g@ == old(state).atomic@.read_region()
                &&& final(state).atomic@ == old(state).atomic@.lend_read()
                &&& final(state).atomic@.holds_read(g@)
            },
            p is Wait ==> final(state).atomic@ == old(state).atomic@,
            waited(false, p is Wait, old(state).wait_reader, final(state).wait_reader),
    {
        let registered: bool = poll_wait(&mut state.wait_reader, cx);
        proof {
            lemma_grant_read(state.atomic@);
        }
        if let Some(grant) = self.consumer.try_get_reader_grant(&mut state.atomic) {
            return Progress::Ready(grant);
        }
        park(&mut state.wait_reader, cx, registered);
        Progress::Wait
    }

    /// Wake the writing end to notify it that there is room.
    pub fn wake_writer<E>(&mut self, state: &mut State<E>)
        requires
            old(state).wf(),
        ensures
            final(state).wf(),
            keeps_write_grants(old(state).atomic@, final(state).atomic@),
            final(state).error@ == old(state).error@,
            final(state).atomic@ == old(state).atomic@,
            final(state).wait_reader == old(state).wait_reader,
            woken(final(state).wait_writer),
    {
        wake(&mut state.wait_writer);
    }

    /// Go on with a connection to a writer, once that has come back with `outcome`
    /// from writing the bytes of `grant`. An error is inserted as it is.
    ///
    /// See [`DeviceReader::embedded_io_connect_mapped`].
    pub fn embedded_io_connect<E>(
        &mut self,
        state: &mut State<E>,
        grant: ReaderGrant,
        outcome: Result<usize, E>,
    ) -> (go_on: bool)
        requires
            old(state).wf(),
            old(state).atomic@.holds_read(grant@),
        ensures
            final(state).wf(),
            keeps_write_grants(old(state).atomic@, final(state).atomic@),
            go_on <==> !(outcome matches Ok(n) && n == 0),
            !go_on ==> {
                &&& final(state).atomic@ == old(state).atomic@.consume(grant@, 0)
                &&& final(state).error@ == old(state).error@
                &&& final(state).wait_writer == old(state).wait_writer
            },
            go_on ==> woken(final(state).wait_writer),
            outcome matches Ok(n) ==> {
                &&& final(state).atomic@ == old(state).atomic@.consume(grant@, n as int)
                &&& final(state).atomic@.unread() == old(state).atomic@.unread().skip(
                    min(n as int, grant@.len),
                )
                &&& final(state).error@ == old(state).error@
            },
            outcome matches Err(e) ==> {
                &&& final(state).atomic@ == old(state).atomic@.consume(grant@, 0)
                &&& final(state).error@ == Some(e)
            },
            final(state).wait_reader == old(state).wait_reader,
    {
        let unchanged = |error: E| -> (same: E)
            ensures
                same == error,
            {
                error
            };
        self.embedded_io_connect_mapped(state, grant, outcome, unchanged)
    }

    /// Go on with a connection to a writer, such that all bytes received through
    /// this reader are written to it: the writer has come back with `outcome` from
    /// writing the bytes of `grant`.
    ///
    /// The bytes that it wrote are consumed. An error is mapped and inserted. The
    /// connection ends with an EOF condition, represented by a 0 byte write.
    pub fn embedded_io_connect_mapped<E, X, F: Fn(X) -> E>(
        &mut self,
        state: &mut State<E>,
        grant: ReaderGrant,
        outcome: Result<usize, X>,
        map_err: F,
    ) -> (go_on: bool)
        requires
            old(state).wf(),
            old(state).atomic@.holds_read(grant@),
            outcome matches Err(e) ==> map_err.requires((e,)),
        ensures
            final(state).wf(),
            keeps_write_grants(old(state).atomic@, final(state).atomic@),
            go_on <==> !(outcome matches Ok(n) && n == 0),
            !go_on ==> {
                &&& final(state).atomic@ == old(state).atomic@.consume(grant@, 0)
                &&& final(state).error@ == old(state).error@
                &&& final(state).wait_writer == old(state).wait_writer
            },
            go_on ==> woken(final(state).wait_writer),
            outcome matches Ok(n) ==> {
                &&& final(state).atomic@ == old(state).atomic@.consume(grant@, n as int)
                &&& final(state).atomic@.unread() == old(state).atomic@.unread().skip(
                    min(n as int, grant@.len),
                )
                &&& final(state).error@ == old(state).error@
            },
            outcome matches Err(e) ==> {
                &&& final(state).atomic@ == old(state).atomic@.consume(grant@, 0)
                &&& final(state).error@ is Some
                &&& map_err.ensures((e,), final(state).error@->0)
            },
            final(state).wait_reader == old(state).wait_reader,
    {
        match outcome {
            Ok(0) => {
                grant.consume(&mut state.atomic, 0);
                false
            },
            Ok(bytes) => {
                grant.consume(&mut state.atomic, bytes);
                self.wake_writer(state);
                true
            },
            Err(error) => {
                grant.consume(&mut state.atomic, 0);
                self.insert_error(state, map_err(error));
                true
            },
        }
    }
}

} // verus!
