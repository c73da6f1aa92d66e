//! The application's ends of a stream.
//!
//! Every method that may have to wait is one step: it returns
//! [`Progress::Wait`] once the caller's waker is stored, and is to be called again
//! after a wakeup.

use crate::buffer::{BufferReader, BufferWriter, ReaderGrant, WriterGrant};
use crate::ring::{
    advanced, appended, keeps_read_grants, keeps_write_grants, lemma_append_more,
    lemma_append_nothing, lemma_consume, lemma_grant_read, lemma_grant_write, lemma_taken,
    lemma_written, min, overwrite, taken, written, ReadRegion, Ring, WriteRegion,
};
use crate::state::State;
use crate::wait::{
    park, parked, poll_wait, polled, polled_for_room, waited, wake, woken, Progress,
};
use core::task::Context;
use vstd::prelude::*;

verus! {

/// The region that a writing end works in: the one that it holds, or else the one
/// that it is granted.
pub open spec fn write_target(ring: Ring, held: Option<WriteRegion>) -> WriteRegion {
    match held {
        Some(g) => g,
        None => ring.write_region(1),
    }
}

/// The region that a reading end works in: the one that it holds, or else the one
/// that it is granted.
pub open spec fn read_target(ring: Ring, held: Option<ReadRegion>) -> ReadRegion {
    match held {
        Some(g) => g,
        None => ring.read_region(),
    }
}

/// Writes into a stream.
pub struct Writer {
    writer: BufferWriter,
    grant: Option<WriterGrant>,
}

impl View for Writer {
    type V = Option<WriteRegion>;

    /// The region that is held.
    closed spec fn view(&self) -> Option<WriteRegion> {
        match self.grant {
            Some(g) => Some(g@),
            None => None,
        }
    }
}

impl Writer {
    /// What is held is out, and was granted by a request for a single byte.
    pub open spec fn wf(self, ring: Ring) -> bool {
        self@ matches Some(g) ==> ring.holds_write(g) && (g.wraps() ==> g.writer == ring.capacity())
    }

    /// A writing end that holds nothing.
    pub fn new(writer: BufferWriter) -> (end: Self)
        ensures
            end@ is None,
    {
        Writer { writer, grant: None }
    }

    /// Hold a grant: the one at hand, or a new one.
    ///
    /// An error that waits is returned instead, unless a grant is at hand.
    fn get_writer_grant<E>(
        &mut self,
        state: &mut State<E>,
        cx: &mut Context<'_>,
    ) -> (p: Progress<Result<(), E>>)
        requires
            old(state).wf(),
            old(self).wf(old(state).atomic@),
        ensures
            final(state).wf(),
            keeps_read_grants(old(state).atomic@, final(state).atomic@),
            final(self).wf(final(state).atomic@),
            final(state).wait_reader == old(state).wait_reader,
            old(self)@ is Some ==> {
                &&& p == Progress::<Result<(), E>>::Ready(Ok(()))
                &&& final(self)@ == old(self)@
                &&& *final(state) == *old(state)
            },
            old(self)@ is None && old(state).error@ is Some ==> {
                &&& p == Progress::<Result<(), E>>::Ready(Err(old(state).error@->0))
                &&& final(self)@ is None
                &&& final(state).error@ is None
                &&& final(state).atomic@ == old(state).atomic@
                &&& polled(old(state).wait_writer, final(state).wait_writer)
            },
            old(self)@ is None && old(state).error@ is None && old(
                state,
            ).atomic@.can_grant_write(1) ==> {
                &&& p == Progress::<Result<(), E>>::Ready(Ok(()))
                &&& final(self)@ == Some(old(state).atomic@.write_region(1))
                &&& final(state).error@ is None
                &&& final(state).atomic@ == old(state).atomic@.lend_write()
                &&& polled(old(state).wait_writer, final(state).wait_writer)
            },
            old(self)@ is None && old(state).error@ is None && !old(
                state,
            ).atomic@.can_grant_write(1) ==> {
                &&& p == Progress::<Result<(), E>>::Wait
                &&& final(self)@ is None
                &&& final(state).error@ is None
                &&& final(state).atomic@ == old(state).atomic@
                &&& parked(final(state).wait_writer)
            },
    {
        // No need to check error before using pre-existing grant.
        if self.grant.is_some() {
            return Progress::Ready(Ok(()));
        }
        let registered: bool = poll_wait(&mut state.wait_writer, cx);
        if let Some(error) = state.error.take() {
            return Progress::Ready(Err(error));
        }
        proof {
            lemma_grant_write(state.atomic@, 1);
        }
        if let Some(grant) = self.writer.try_get_writer_grant(&mut state.atomic, 1) {
            self.grant = Some(grant);
            return Progress::Ready(Ok(()));
        }
        park(&mut state.wait_writer, cx, registered);
        Progress::Wait
    }

    /// Give back what is held with `bytes` of it to be read, and wake the reading
    /// end.
    pub fn commit<E>(&mut self, state: &mut State<E>, bytes: usize)
        requires
            old(state).wf(),
            old(self).wf(old(state).atomic@),
        ensures
            final(state).wf(),
            keeps_read_grants(old(state).atomic@, final(state).atomic@),
            final(self)@ is None,
            final(state).error@ == old(state).error@,
            final(state).wait_writer == old(state).wait_writer,
            woken(final(state).wait_reader),
            old(self)@ is None ==> final(state).atomic@ == old(state).atomic@,
            old(self)@ matches Some(g) ==> {
                &&& final(state).atomic@ == old(state).atomic@.commit(g, bytes as int)
                &&& final(state).atomic@.unread() == old(state).atomic@.unread() + old(
                    state,
                ).atomic@.write_bytes(g).take(min(bytes as int, g.len))
            },
    {
        if let Some(grant) = self.grant.take() {
            grant.commit(&mut state.atomic, bytes);
        }
        wake(&mut state.wait_reader);
    }

    /// Give back what is held with nothing of it used. Nobody is woken. An end that is
    /// dropped keeps its grant out, so this comes first.
    pub fn give_back<E>(&mut self, state: &mut State<E>)
        requires
            old(state).wf(),
            old(self).wf(old(state).atomic@),
        ensures
            final(state).wf(),
            keeps_read_grants(old(state).atomic@, final(state).atomic@),
            final(self)@ is None,
            final(state).error == old(state).error,
            final(state).wait_writer == old(state).wait_writer,
            final(state).wait_reader == old(state).wait_reader,
            final(state).atomic@ == match old(self)@ {
                Some(g) => old(state).atomic@.commit(g, 0),
                None => old(state).atomic@,
            },
            final(state).atomic@.unread() == old(state).atomic@.unread(),
    {
        if let Some(grant) = self.grant.take() {
            grant.commit(&mut state.atomic, 0);
        }
    }

    /// Write as many bytes of `buf` as one grant takes. The number of bytes is
    /// returned.
    pub fn write<E>(
        &mut self,
        state: &mut State<E>,
        cx: &mut Context<'_>,
        buf: &[u8],
    ) -> (p: Progress<Result<usize, E>>)
        requires
            old(state).wf(),
            old(self).wf(old(state).atomic@),
        ensures
            final(state).wf(),
            keeps_read_grants(old(state).atomic@, final(state).atomic@),
            final(self).wf(final(state).atomic@),
            final(self)@ is None,
            p.succeeded() <==> old(self)@ is Some || (old(state).error@ is None
                && old(state).atomic@.can_grant_write(1)),
            p matches Progress::Ready(Err(e)) ==> old(state).error@ == Some(e),
            p.failed() <==> old(self)@ is None && old(state).error@ is Some,
            p matches Progress::Ready(Ok(n)) ==> {
                let ring = old(state).atomic@;
                &&& written(
                    ring,
                    write_target(ring, old(self)@),
                    buf@,
                    n as int,
                    final(state).atomic@,
                )
                &&& buf@.len() > 0 ==> n > 0
                &&& final(state).error@ == old(state).error@
                &&& woken(final(state).wait_reader)
            },
            !p.succeeded() ==> {
                &&& final(state).atomic@ == old(state).atomic@
                &&& final(state).error@ is None
                &&& final(state).wait_reader == old(state).wait_reader
            },
            waited(old(self)@ is Some, p is Wait, old(state).wait_writer, final(state).wait_writer),
    {
        match self.get_writer_grant(state, cx) {
            Progress::Wait => Progress::Wait,
            Progress::Ready(Err(error)) => Progress::Ready(Err(error)),
            Progress::Ready(Ok(())) => {
                let bytes: usize = match &mut self.grant {
                    Some(grant) => grant.copy_max_from(&mut state.atomic, buf),
                    None => 0,
                };
                let ghost region = self@->0;
                proof {
                    lemma_written(old(state).atomic@, region, buf@);
                }
                self.commit(state, bytes);
                assert(state.atomic@ =~= old(state).atomic@.fill(
                    region.start,
                    buf@.take(bytes as int),
                ).commit(region, bytes as int));
                Progress::Ready(Ok(bytes))
            },
        }
    }

    /// The bytes of a grant, to be written to and then committed.
    ///
    /// What is stored through the slice leaves the unread bytes as they are.
    pub fn buf_mut<'s, E>(
        &mut self,
        state: &'s mut State<E>,
        cx: &mut Context<'_>,
    ) -> (p: Progress<Result<&'s mut [u8], E>>)
        requires
            old(state).wf(),
            old(self).wf(old(state).atomic@),
        ensures
            final(state).wait_reader == old(state).wait_reader,
            p.succeeded() <==> old(self)@ is Some || (old(state).error@ is None && old(
                state,
            ).atomic@.can_grant_write(1)),
            p.failed() <==> old(self)@ is None && old(state).error@ is Some,
            p.failed() ==> p->Ready_0->Err_0 == old(state).error@->0,
            p.succeeded() ==> {
                let ring = old(state).atomic@;
                let region = write_target(ring, old(self)@);
                let bytes = p->Ready_0->Ok_0;
                &&& bytes@ == ring.write_bytes(region)
                &&& final(self)@ == Some(region)
                &&& final(state).error@ == old(state).error@
                &&& final(bytes)@.len() == region.len ==> {
                    &&& final(state).wf()
                    &&& keeps_read_grants(old(state).atomic@, final(state).atomic@)
                    &&& final(self).wf(final(state).atomic@)
                    &&& final(state).atomic@ == ring.lend_write().fill(region.start, final(bytes)@)
                    &&& final(state).atomic@.unread() == ring.unread()
                }
            },
            !p.succeeded() ==> {
                &&& final(state).wf()
                &&& keeps_read_grants(old(state).atomic@, final(state).atomic@)
                &&& final(self)@ is None
                &&& final(state).atomic@ == old(state).atomic@
                &&& final(state).error@ is None
            },
            waited(old(self)@ is Some, p is Wait, old(state).wait_writer, final(state).wait_writer),
    {
        match self.get_writer_grant(state, cx) {
            Progress::Wait => Progress::Wait,
            Progress::Ready(Err(error)) => Progress::Ready(Err(error)),
            Progress::Ready(Ok(())) => {
                match &mut self.grant {
                    Some(grant) => Progress::Ready(Ok(grant.buf_mut(&mut state.atomic))),
                    None => Progress::Wait,
                }
            },
        }
    }

    /// The bytes of the grant at hand, to be written to.
    ///
    /// What is stored through the slice leaves the unread bytes as they are.
    pub fn held_mut<'s, E>(&mut self, state: &'s mut State<E>) -> (held: Option<&'s mut [u8]>)
        requires
            old(state).wf(),
            old(self).wf(old(state).atomic@),
        ensures
            final(self)@ == old(self)@,
            final(state).error == old(state).error,
            final(state).wait_writer == old(state).wait_writer,
            final(state).wait_reader == old(state).wait_reader,
            held is Some <==> old(self)@ is Some,
            held is None ==> final(state).wf() && final(state).atomic@ == old(state).atomic@,
            held is Some ==> {
                let ring = old(state).atomic@;
                let region = old(self)@->0;
                let bytes = held->0;
                &&& bytes@ == ring.write_bytes(region)
                &&& final(bytes)@.len() == region.len ==> {
                    &&& final(state).wf()
                    &&& keeps_read_grants(old(state).atomic@, final(state).atomic@)
                    &&& final(self).wf(final(state).atomic@)
                    &&& final(state).atomic@ == ring.fill(region.start, final(bytes)@)
                    &&& final(state).atomic@.unread() == ring.unread()
                }
            },
    {
        match &mut self.grant {
            Some(grant) => Some(grant.buf_mut(&mut state.atomic)),
            None => None,
        }
    }

    /// Write all bytes of `buf` from `*written` on. `*written` counts those that
    /// have been written, over all the steps that it takes.
    pub fn write_all<E>(
        &mut self,
        state: &mut State<E>,
        cx: &mut Context<'_>,
        buf: &[u8],
        written: &mut usize,
    ) -> (p: Progress<Result<(), E>>)
        requires
            old(state).wf(),
            old(self).wf(old(state).atomic@),
            *old(written) <= buf@.len(),
        ensures
            final(state).wf(),
            keeps_read_grants(old(state).atomic@, final(state).atomic@),
            final(self).wf(final(state).atomic@),
            *old(written) <= *final(written) <= buf@.len(),
            p.succeeded() <==> *final(written) == buf@.len(),
            appended(
                old(state).atomic@,
                final(state).atomic@,
                buf@,
                *old(written) as int,
                *final(written) as int,
            ),
            final(state).atomic@.write_granted == (final(self)@ is Some || (old(self)@ is None
                && old(state).atomic@.write_granted)),
            old(self)@ is None && old(state).error@ is None ==> advanced(
                old(state).atomic@,
                final(state).atomic@,
                buf@,
                *old(written) as int,
                *final(written) as int,
            ),
            *old(written) == buf@.len() ==> *final(state) == *old(state) && final(self)@ == old(
                self,
            )@,
            *old(written) < buf@.len() ==> {
                let ring = old(state).atomic@;
                let rest = buf@.len() - *old(written);
                let moved = *final(written) - *old(written);
                &&& final(self)@ is None
                &&& old(state).error@ is None ==> {
                    let room = if old(self)@ is None && ring.write_granted {
                        0
                    } else {
                        ring.free()
                    };
                    &&& moved == min(rest, room)
                    &&& !p.failed()
                    &&& final(state).error@ is None
                }
                &&& old(state).error@ matches Some(e) ==> {
                    let room = match old(self)@ {
                        Some(g) => g.len,
                        None => 0,
                    };
                    &&& moved == min(rest, room)
                    &&& p is Ready
                    &&& p.failed() ==> p->Ready_0->Err_0 == e && final(state).error@ is None
                    &&& p.succeeded() ==> final(state).error@ == Some(e)
                }
            },
            *old(written) < *final(written) ==> woken(final(state).wait_reader),
            *old(written) == *final(written) ==> final(state).wait_reader == old(
                state,
            ).wait_reader,
            p is Wait ==> parked(final(state).wait_writer),
            p is Ready ==> polled_for_room(
                old(state).atomic@,
                old(self)@,
                buf@.len() - *old(written),
                p.failed(),
                old(state).wait_writer,
                final(state).wait_writer,
            ),
    {
        let ghost ring = state.atomic@;
        let ghost held = self@;
        let ghost from = *written as int;
        let ghost asked = match held {
            Some(g) => ring.commit(g, g.len),
            None => ring,
        };
        let ghost first = match held {
            Some(g) => g.len,
            None => 0,
        };
        let ghost second = first + asked.write_region(1).len;
        proof {
            lemma_append_nothing(ring, buf@, from);
        }
        while *written < buf.len()
            invariant
                from <= *written <= buf@.len(),
                from == *old(written),
                ring == old(state).atomic@,
                ring.wf(),
                held == old(self)@,
                asked == match held {
                    Some(g) => ring.commit(g, g.len),
                    None => ring,
                },
                first == match held {
                    Some(g) => g.len,
                    None => 0,
                },
                second == first + asked.write_region(1).len,
                state.wf(),
                self.wf(state.atomic@),
                appended(ring, state.atomic@, buf@, from, *written as int),
                state.error@ == old(state).error@,
                *written == from ==> *state == *old(state) && self@ == held,
                *written > from ==> {
                    &&& self@ is None
                    &&& !state.atomic@.write_granted
                    &&& woken(state.wait_reader)
                    &&& if *written - from <= first {
                        &&& state.wait_writer == old(state).wait_writer
                        &&& *written - from == min(buf@.len() - from, first)
                        &&& *written < buf@.len() ==> state.atomic@.write_region(1).len
                            == asked.write_region(1).len
                    } else if *written - from <= second {
                        &&& polled(old(state).wait_writer, state.wait_writer)
                        &&& *written - from == min(buf@.len() - from, second)
                    } else {
                        parked(state.wait_writer)
                    }
                    &&& state.error@ is Some ==> held is Some && *written - from == min(
                        buf@.len() - from,
                        held->0.len,
                    )
                    &&& state.error@ is None ==> held is Some || !ring.write_granted
                },
            decreases buf.len() - *written,
        {
            let ghost before = state.atomic@;
            let ghost holding = self@;
            let ghost at = *written as int;
            let rest: &[u8] = &buf[*written..buf.len()];
            proof {
                lemma_grant_write(before, 1);
            }
            match self.write(state, cx, rest) {
                Progress::Ready(Ok(n)) => {
                    *written = *written + n;
                    proof {
                        lemma_append_more(
                            ring,
                            before,
                            write_target(before, holding),
                            buf@,
                            from,
                            at,
                            n as int,
                            state.atomic@,
                        );
                    }
                },
                Progress::Ready(Err(error)) => return Progress::Ready(Err(error)),
                Progress::Wait => return Progress::Wait,
            }
        }
        Progress::Ready(Ok(()))
    }
}

/// Reads from a stream.
pub struct Reader {
    reader: BufferReader,
    grant: Option<ReaderGrant>,
}

impl View for Reader {
    type V = Option<ReadRegion>;

    /// The region that is held.
    closed spec fn view(&self) -> Option<ReadRegion> {
        match self.grant {
            Some(g) => Some(g@),
            None => None,
        }
    }
}

impl Reader {
    /// What is held is out.
    pub open spec fn wf(self, ring: Ring) -> bool {
        self@ matches Some(g) ==> ring.holds_read(g)
    }

    /// A reading end that holds nothing.
    pub fn new(reader: BufferReader) -> (end: Self)
        ensures
            end@ is None,
    {
        Reader { reader, grant: None }
    }

    /// Hold a grant: the one at hand, or a new one.
    ///
    /// An error that waits is returned instead, unless a grant is at hand.
    fn get_reader_grant<E>(
        &mut self,
        state: &mut State<E>,
        cx: &mut Context<'_>,
    ) -> (p: Progress<Result<(), E>>)
        requires
            old(state).wf(),
            old(self).wf(old(state).atomic@),
        ensures
            final(state).wf(),
            keeps_write_grants(old(state).atomic@, final(state).atomic@),
            final(self).wf(final(state).atomic@),
            final(state).wait_writer == old(state).wait_writer,
            old(self)@ is Some ==> {
                &&& p == Progress::<Result<(), E>>::Ready(Ok(()))
                &&& final(self)@ == old(self)@
                &&& *final(state) == *old(state)
            },
            old(self)@ is None && old(state).error@ is Some ==> {
                &&& p == Progress::<Result<(), E>>::Ready(Err(old(state).error@->0))
                &&& final(self)@ is None
                &&& final(state).error@ is None
                &&& final(state).atomic@ == old(state).atomic@
                &&& polled(old(state).wait_reader, final(state).wait_reader)
            },
            old(self)@ is None && old(state).error@ is None && old(
                state,
            ).atomic@.can_grant_read() ==> {
                &&& p == Progress::<Result<(), E>>::Ready(Ok(()))
                &&& final(self)@ == Some(old(state).atomic@.read_region())
                &&& final(state).error@ is None
                &&& final(state).atomic@ == old(state).atomic@.lend_read()
                &&& polled(old(state).wait_reader, final(state).wait_reader)
            },
            old(self)@ is None && old(state).error@ is None && !old(
                state,
            ).atomic@.can_grant_read() ==> {
                &&& p == Progress::<Result<(), E>>::Wait
                &&& final(self)@ is None
                &&& final(state).error@ is None
                &&& final(state).atomic@ == old(state).atomic@
                &&& parked(final(state).wait_reader)
            },
    {
        // No need to check error before using pre-existing grant.
        if self.grant.is_some() {
            return Progress::Ready(Ok(()));
        }
        let registered: bool = poll_wait(&mut state.wait_reader, cx);
        if let Some(error) = state.error.take() {
            return Progress::Ready(Err(error));
        }
        proof {
            lemma_grant_read(state.atomic@);
        }
        if let Some(grant) = self.reader.try_get_reader_grant(&mut state.atomic) {
            self.grant = Some(grant);
            return Progress::Ready(Ok(()));
        }
        park(&mut state.wait_reader, cx, registered);
        Progress::Wait
    }

    /// Give back what is held with `bytes` of it read, and wake the writing end.
    pub fn release<E>(&mut self, state: &mut State<E>, bytes: usize)
        requires
            old(state).wf(),
            old(self).wf(old(state).atomic@),
        ensures
            final(state).wf(),
            keeps_write_grants(old(state).atomic@, final(state).atomic@),
            final(self)@ is None,
            final(state).error@ == old(state).error@,
            final(state).wait_reader == old(state).wait_reader,
            woken(final(state).wait_writer),
            old(self)@ is None ==> final(state).atomic@ == old(state).atomic@,
            old(self)@ matches Some(g) ==> {
                &&& final(state).atomic@ == old(state).atomic@.consume(g, bytes as int)
                &&& final(state).atomic@.unread() == old(state).atomic@.unread().skip(
                    min(bytes as int, g.len),
                )
            },
    {
        if let Some(grant) = self.grant.take() {
            grant.consume(&mut state.atomic, bytes);
        }
        wake(&mut state.wait_writer);
    }

    /// Give back what is held with nothing of it used. Nobody is woken. An end that is
    /// dropped keeps its grant out, so this comes first.
    pub fn give_back<E>(&mut self, state: &mut State<E>)
        requires
            old(state).wf(),
            old(self).wf(old(state).atomic@),
        ensures
            final(state).wf(),
            keeps_write_grants(old(state).atomic@, final(state).atomic@),
            final(self)@ is None,
            final(state).error == old(state).error,
            final(state).wait_writer == old(state).wait_writer,
            final(state).wait_reader == old(state).wait_reader,
            final(state).atomic@ == match old(self)@ {
                Some(g) => old(state).atomic@.consume(g, 0),
                None => old(state).atomic@,
            },
            final(state).atomic@.unread() == old(state).atomic@.unread(),
    {
        if let Some(grant) = self.grant.take() {
            grant.consume(&mut state.atomic, 0);
        }
    }

    /// Read as many bytes into `buf` as one grant shows. The number of bytes is
    /// returned.
    pub fn read<E>(
        &mut self,
        state: &mut State<E>,
        cx: &mut Context<'_>,
        buf: &mut [u8],
    ) -> (p: Progress<Result<usize, E>>)
        requires
            old(state).wf(),
            old(self).wf(old(state).atomic@),
        ensures
            final(state).wf(),
            keeps_write_grants(old(state).atomic@, final(state).atomic@),
            final(self)@ is None,
            p.succeeded() <==> old(self)@ is Some || (old(state).error@ is None && old(
                state,
            ).atomic@.can_grant_read()),
            p.failed() <==> old(self)@ is None && old(state).error@ is Some,
            p matches Progress::Ready(Err(e)) ==> old(state).error@ == Some(e),
            p matches Progress::Ready(Ok(n)) ==> {
                let ring = old(state).atomic@;
                &&& taken(
                    ring,
                    read_target(ring, old(self)@),
                    old(buf)@,
                    final(buf)@,
                    n as int,
                    final(state).atomic@,
                )
                &&& old(buf)@.len() > 0 ==> n > 0
                &&& final(state).error@ == old(state).error@
                &&& woken(final(state).wait_writer)
            },
            !p.succeeded() ==> {
                &&& final(state).atomic@ == old(state).atomic@
                &&& final(buf)@ == old(buf)@
                &&& final(state).error@ is None
                &&& final(state).wait_writer == old(state).wait_writer
            },
            waited(old(self)@ is Some, p is Wait, old(state).wait_reader, final(state).wait_reader),
    {
        match self.get_reader_grant(state, cx) {
            Progress::Wait => Progress::Wait,
            Progress::Ready(Err(error)) => Progress::Ready(Err(error)),
            Progress::Ready(Ok(())) => {
                let bytes: usize = match &mut self.grant {
                    Some(grant) => grant.copy_max_into(&state.atomic, buf),
                    None => 0,
                };
                let ghost region = self@->0;
                proof {
                    lemma_taken(old(state).atomic@, region, old(buf)@);
                }
                self.release(state, bytes);
                assert(state.atomic@ =~= old(state).atomic@.consume(region, bytes as int));
                Progress::Ready(Ok(bytes))
            },
        }
    }

    /// The bytes of the grant at hand, to be worked on in place.
    pub fn held_mut<'s, E>(&mut self, state: &'s mut State<E>) -> (held: Option<&'s mut [u8]>)
        requires
            old(state).wf(),
            old(self).wf(old(state).atomic@),
        ensures
            final(self)@ == old(self)@,
            final(state).error == old(state).error,
            final(state).wait_writer == old(state).wait_writer,
            final(state).wait_reader == old(state).wait_reader,
            held is Some <==> old(self)@ is Some,
            held is None ==> final(state).wf() && final(state).atomic@ == old(state).atomic@,
            held is Some ==> {
                let ring = old(state).atomic@;
                let region = old(self)@->0;
                let bytes = held->0;
                &&& bytes@ == ring.read_bytes(region)
                &&& final(bytes)@.len() == region.len ==> {
                    &&& final(state).wf()
                    &&& keeps_write_grants(old(state).atomic@, final(state).atomic@)
                    &&& final(self).wf(final(state).atomic@)
                    &&& final(state).atomic@ == ring.fill(region.start, final(bytes)@)
                    &&& final(state).atomic@.unread() == overwrite(ring.unread(), 0, final(bytes)@)
                }
            },
    {
        match &mut self.grant {
            Some(grant) => Some(grant.buf_mut(&mut state.atomic)),
            None => None,
        }
    }

    /// The bytes of a grant, the oldest that are unread.
    pub fn fill_buf<'s, E>(
        &mut self,
        state: &'s mut State<E>,
        cx: &mut Context<'_>,
    ) -> (p: Progress<Result<&'s [u8], E>>)
        requires
            old(state).wf(),
            old(self).wf(old(state).atomic@),
        ensures
            final(state).wf(),
            keeps_write_grants(old(state).atomic@, final(state).atomic@),
            final(self).wf(final(state).atomic@),
            final(state).wait_writer == old(state).wait_writer,
            p.succeeded() <==> old(self)@ is Some || (old(state).error@ is None && old(
                state,
            ).atomic@.can_grant_read()),
            p.failed() <==> old(self)@ is None && old(state).error@ is Some,
            p matches Progress::Ready(Err(e)) ==> old(state).error@ == Some(e),
            p matches Progress::Ready(Ok(bytes)) ==> {
                let ring = old(state).atomic@;
                let region = read_target(ring, old(self)@);
                &&& bytes@ == ring.read_bytes(region)
                &&& bytes@.is_prefix_of(ring.unread())
                &&& final(self)@ == Some(region)
                &&& final(state).atomic@ == ring.lend_read()
                &&& final(state).error@ == old(state).error@
            },
            !p.succeeded() ==> {
                &&& final(self)@ is None
                &&& final(state).atomic@ == old(state).atomic@
                &&& final(state).error@ is None
            },
            waited(old(self)@ is Some, p is Wait, old(state).wait_reader, final(state).wait_reader),
    {
        match self.get_reader_grant(state, cx) {
            Progress::Wait => Progress::Wait,
            Progress::Ready(Err(error)) => Progress::Ready(Err(error)),
            Progress::Ready(Ok(())) => {
                match &self.grant {
                    Some(grant) => Progress::Ready(Ok(grant.buf(&state.atomic))),
                    None => Progress::Wait,
                }
            },
        }
    }

    /// The bytes of a grant, the oldest that are unread, to be worked on in place.
    pub fn fill_buf_mut<'s, E>(
        &mut self,
        state: &'s mut State<E>,
        cx: &mut Context<'_>,
    ) -> (p: Progress<Result<&'s mut [u8], E>>)
        requires
            old(state).wf(),
            old(self).wf(old(state).atomic@),
        ensures
            final(state).wait_writer == old(state).wait_writer,
            p.succeeded() <==> old(self)@ is Some || (old(state).error@ is None && old(
                state,
            ).atomic@.can_grant_read()),
            p.failed() <==> old(self)@ is None && old(state).error@ is Some,
            p.failed() ==> p->Ready_0->Err_0 == old(state).error@->0,
            p.succeeded() ==> {
                let ring = old(state).atomic@;
                let region = read_target(ring, old(self)@);
                let bytes = p->Ready_0->Ok_0;
                &&& bytes@ == ring.read_bytes(region)
                &&& bytes@.is_prefix_of(ring.unread())
                &&& final(self)@ == Some(region)
                &&& final(state).error@ == old(state).error@
                &&& final(bytes)@.len() == region.len ==> {
                    &&& final(state).wf()
                    &&& keeps_write_grants(old(state).atomic@, final(state).atomic@)
                    &&& final(self).wf(final(state).atomic@)
                    &&& final(state).atomic@ == ring.lend_read().fill(region.start, final(bytes)@)
                    &&& final(state).atomic@.unread() == overwrite(ring.unread(), 0, final(bytes)@)
                }
            },
            !p.succeeded() ==> {
                &&& final(state).wf()
                &&& keeps_write_grants(old(state).atomic@, final(state).atomic@)
                &&& final(self)@ is None
                &&& final(state).atomic@ == old(state).atomic@
                &&& final(state).error@ is None
            },
            waited(old(self)@ is Some, p is Wait, old(state).wait_reader, final(state).wait_reader),
    {
        match self.get_reader_grant(state, cx) {
            Progress::Wait => Progress::Wait,
            Progress::Ready(Err(error)) => Progress::Ready(Err(error)),
            Progress::Ready(Ok(())) => {
                proof {
                    lemma_consume(state.atomic@, self@->0, 0);
                }
                match &mut self.grant {
                    Some(grant) => Progress::Ready(Ok(grant.buf_mut(&mut state.atomic))),
                    None => Progress::Wait,
                }
            },
        }
    }
}

} // verus!
