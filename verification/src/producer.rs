//! The application's ends of a stream, for those who want to hear of an error
//! before anything else.
//!
//! They differ from [`Writer`](crate::app::Writer) and
//! [`Reader`](crate::app::Reader) in that a waiting error is returned even where a
//! grant is at hand. The grant is kept.

use crate::app::{read_target, write_target};
use crate::buffer::{BufferReader, BufferWriter, ReaderGrant, WriterGrant};
use crate::ring::{
    advanced, appended, keeps_read_grants, keeps_write_grants, lemma_append_more,
    lemma_append_nothing, lemma_consume, lemma_grant_read, lemma_grant_write, lemma_taken,
    lemma_written, min, overwrite, taken, written, ReadRegion, Ring, WriteRegion,
};
use crate::state::State;
use crate::wait::{
    park, parked, poll_wait, polled, polled_for_room, waited, wake, woken, Progress,
};
use core::task::Context;
use vstd::prelude::*;

verus! {

/// Writes into a stream, and reports an error first.
pub struct AppProducer {
    producer: BufferWriter,
    grant: Option<WriterGrant>,
}

impl View for AppProducer {
    type V = Option<WriteRegion>;

    /// The region that is held.
    closed spec fn view(&self) -> Option<WriteRegion> {
        match self.grant {
            Some(g) => Some(g@),
            None => None,
        }
    }
}

impl AppProducer {
    /// What is held is out, and was granted by a request for a single byte.
    pub open spec fn wf(self, ring: Ring) -> bool {
        self@ matches Some(g) ==> ring.holds_write(g) && (g.wraps() ==> g.writer == ring.capacity())
    }

    /// A writing end that holds nothing.
    pub fn new(producer: BufferWriter) -> (end: Self)
        ensures
            end@ is None,
    {
        AppProducer { producer, grant: None }
    }

    /// Hold a grant: the one at hand, or a new one. An error that waits is returned
    /// instead.
    fn get_produce_grant<E>(
        &mut self,
        state: &mut State<E>,
        cx: &mut Context<'_>,
    ) -> (p: Progress<Result<(), E>>)
        requires
            old(state).wf(),
            old(self).wf(old(state).atomic@),
        ensures
            final(state).wf(),
            keeps_read_grants(old(state).atomic@, final(state).atomic@),
            final(self).wf(final(state).atomic@),
            final(state).error@ is None,
            final(state).wait_reader == old(state).wait_reader,
            p.failed() <==> old(state).error@ is Some,
            p matches Progress::Ready(Err(e)) ==> old(state).error@ == Some(e),
            p.succeeded() <==> old(state).error@ is None && (old(self)@ is Some || old(
                state,
            ).atomic@.can_grant_write(1)),
            p.succeeded() ==> {
                &&& final(self)@ == Some(write_target(old(state).atomic@, old(self)@))
                &&& final(state).atomic@ == old(state).atomic@.lend_write()
            },
            !p.succeeded() ==> {
                &&& final(self)@ == old(self)@
                &&& final(state).atomic@ == old(state).atomic@
            },
            waited(
                old(state).error@ is Some || old(self)@ is Some,
                p is Wait,
                old(state).wait_writer,
                final(state).wait_writer,
            ),
    {
        if let Some(error) = state.error.take() {
            return Progress::Ready(Err(error));
        }
        if self.grant.is_some() {
            return Progress::Ready(Ok(()));
        }
        let registered: bool = poll_wait(&mut state.wait_writer, cx);
        proof {
            lemma_grant_write(state.atomic@, 1);
        }
        if let Some(grant) = self.producer.try_get_writer_grant(&mut state.atomic, 1) {
            self.grant = Some(grant);
            return Progress::Ready(Ok(()));
        }
        park(&mut state.wait_writer, cx, registered);
        Progress::Wait
    }

    /// Give back what is held with `bytes` of it to be read, and wake the reading
    /// end.
    pub fn commit<E>(&mut self, state: &mut State<E>, bytes: usize)
        requires
            old(state).wf(),
            old(self).wf(old(state).atomic@),
        ensures
            final(state).wf(),
            keeps_read_grants(old(state).atomic@, final(state).atomic@),
            final(self)@ is None,
            final(state).error@ == old(state).error@,
            final(state).wait_writer == old(state).wait_writer,
            woken(final(state).wait_reader),
            old(self)@ is None ==> final(state).atomic@ == old(state).atomic@,
            old(self)@ matches Some(g) ==> {
                &&& final(state).atomic@ == old(state).atomic@.commit(g, bytes as int)
                &&& final(state).atomic@.unread() == old(state).atomic@.unread() + old(
                    state,
                ).atomic@.write_bytes(g).take(min(bytes as int, g.len))
            },
    {
        if let Some(grant) = self.grant.take() {
            grant.commit(&mut state.atomic, bytes);
        }
        wake(&mut state.wait_reader);
    }

    /// Give back what is held with nothing of it used. Nobody is woken. An end that is
    /// dropped keeps its grant out, so this comes first.
    pub fn give_back<E>(&mut self, state: &mut State<E>)
        requires
            old(state).wf(),
            old(self).wf(old(state).atomic@),
        ensures
            final(state).wf(),
            keeps_read_grants(old(state).atomic@, final(state).atomic@),
            final(self)@ is None,
            final(state).error == old(state).error,
            final(state).wait_writer == old(state).wait_writer,
            final(state).wait_reader == old(state).wait_reader,
            final(state).atomic@ == match old(self)@ {
                Some(g) => old(state).atomic@.commit(g, 0),
                None => old(state).atomic@,
            },
            final(state).atomic@.unread() == old(state).atomic@.unread(),
    {
        if let Some(grant) = self.grant.take() {
            grant.commit(&mut state.atomic, 0);
        }
    }

    /// Write as many bytes of `buf` as one grant takes. The number of bytes is
    /// returned.
    pub fn write<E>(
        &mut self,
        state: &mut State<E>,
        cx: &mut Context<'_>,
        buf: &[u8],
    ) -> (p: Progress<Result<usize, E>>)
        requires
            old(state).wf(),
            old(self).wf(old(state).atomic@),
        ensures
            final(state).wf(),
            keeps_read_grants(old(state).atomic@, final(state).atomic@),
            final(self).wf(final(state).atomic@),
            final(state).error@ is None,
            p.failed() <==> old(state).error@ is Some,
            p matches Progress::Ready(Err(e)) ==> old(state).error@ == Some(e),
            p.succeeded() <==> old(state).error@ is None && (old(self)@ is Some || old(
                state,
            ).atomic@.can_grant_write(1)),
            p matches Progress::Ready(Ok(n)) ==> {
                &&& final(self)@ is None
                &&& written(
                    old(state).atomic@,
                    write_target(old(state).atomic@, old(self)@),
                    buf@,
                    n as int,
                    final(state).atomic@,
                )
                &&& buf@.len() > 0 ==> n > 0
                &&& woken(final(state).wait_reader)
            },
            !p.succeeded() ==> {
                &&& final(self)@ == old(self)@
                &&& final(state).atomic@ == old(state).atomic@
                &&& final(state).wait_reader == old(state).wait_reader
            },
            waited(
                old(state).error@ is Some || old(self)@ is Some,
                p is Wait,
                old(state).wait_writer,
                final(state).wait_writer,
            ),
    {
        match self.get_produce_grant(state, cx) {
            Progress::Wait => Progress::Wait,
            Progress::Ready(Err(error)) => Progress::Ready(Err(error)),
            Progress::Ready(Ok(())) => {
                let bytes: usize = match &mut self.grant {
                    Some(grant) => grant.copy_max_from(&mut state.atomic, buf),
                    None => 0,
                };
                let ghost region = self@->0;
                proof {
                    lemma_written(old(state).atomic@, region, buf@);
                }
                self.commit(state, bytes);
                assert(state.atomic@ =~= old(state).atomic@.fill(
                    region.start,
                    buf@.take(bytes as int),
                ).commit(region, bytes as int));
                Progress::Ready(Ok(bytes))
            },
        }
    }

    /// The bytes of a grant, to be written to and then committed.
    ///
    /// What is stored through the slice leaves the unread bytes as they are.
    pub fn buf_mut<'s, E>(
        &mut self,
        state: &'s mut State<E>,
        cx: &mut Context<'_>,
    ) -> (p: Progress<Result<&'s mut [u8], E>>)
        requires
            old(state).wf(),
            old(self).wf(old(state).atomic@),
        ensures
            final(state).error@ is None,
            final(state).wait_reader == old(state).wait_reader,
            p.failed() <==> old(state).error@ is Some,
            p.failed() ==> p->Ready_0->Err_0 == old(state).error@->0,
            p.succeeded() <==> old(state).error@ is None && (old(self)@ is Some || old(
                state,
            ).atomic@.can_grant_write(1)),
            p.succeeded() ==> {
                let ring = old(state).atomic@;
                let region = write_target(ring, old(self)@);
                let bytes = p->Ready_0->Ok_0;
                &&& bytes@ == ring.write_bytes(region)
                &&& final(self)@ == Some(region)
                &&& final(bytes)@.len() == region.len ==> {
                    &&& final(state).wf()
                    &&& keeps_read_grants(old(state).atomic@, final(state).atomic@)
                    &&& final(self).wf(final(state).atomic@)
                    &&& final(state).atomic@ == ring.lend_write().fill(region.start, final(bytes)@)
                    &&& final(state).atomic@.unread() == ring.unread()
                }
            },
            !p.succeeded() ==> {
                &&& final(state).wf()
                &&& keeps_read_grants(old(state).atomic@, final(state).atomic@)
                &&& final(self)@ == old(self)@
                &&& final(state).atomic@ == old(state).atomic@
            },
            waited(
                old(state).error@ is Some || old(self)@ is Some,
                p is Wait,
                old(state).wait_writer,
                final(state).wait_writer,
            ),
    {
        match self.get_produce_grant(state, cx) {
            Progress::Wait => Progress::Wait,
            Progress::Ready(Err(error)) => Progress::Ready(Err(error)),
            Progress::Ready(Ok(())) => {
                match &mut self.grant {
                    Some(grant) => Progress::Ready(Ok(grant.buf_mut(&mut state.atomic))),
                    None => Progress::Wait,
                }
            },
        }
    }

    /// The bytes of the grant at hand, to be written to.
    ///
    /// What is stored through the slice leaves the unread bytes as they are.
    pub fn held_mut<'s, E>(&mut self, state: &'s mut State<E>) -> (held: Option<&'s mut [u8]>)
        requires
            old(state).wf(),
            old(self).wf(old(state).atomic@),
        ensures
            final(self)@ == old(self)@,
            final(state).error == old(state).error,
            final(state).wait_writer == old(state).wait_writer,
            final(state).wait_reader == old(state).wait_reader,
            held is Some <==> old(self)@ is Some,
            held is None ==> final(state).wf() && final(state).atomic@ == old(state).atomic@,
            held is Some ==> {
                let ring = old(state).atomic@;
                let region = old(self)@->0;
                let bytes = held->0;
                &&& bytes@ == ring.write_bytes(region)
                &&& final(bytes)@.len() == region.len ==> {
                    &&& final(state).wf()
                    &&& keeps_read_grants(old(state).atomic@, final(state).atomic@)
                    &&& final(self).wf(final(state).atomic@)
                    &&& final(state).atomic@ == ring.fill(region.start, final(bytes)@)
                    &&& final(state).atomic@.unread() == ring.unread()
                }
            },
    {
        match &mut self.grant {
            Some(grant) => Some(grant.buf_mut(&mut state.atomic)),
            None => None,
        }
    }

    /// Write all bytes of `buf` from `*done` on. `*done` counts those that have been
    /// written, over all the steps that it takes.
    pub fn write_all<E>(
        &mut self,
        state: &mut State<E>,
        cx: &mut Context<'_>,
        buf: &[u8],
        done: &mut usize,
    ) -> (p: Progress<Result<(), E>>)
        requires
            old(state).wf(),
            old(self).wf(old(state).atomic@),
            *old(done) <= buf@.len(),
        ensures
            final(state).wf(),
            keeps_read_grants(old(state).atomic@, final(state).atomic@),
            final(self).wf(final(state).atomic@),
            *old(done) <= *final(done) <= buf@.len(),
            p.succeeded() <==> *final(done) == buf@.len(),
            appended(
                old(state).atomic@,
                final(state).atomic@,
                buf@,
                *old(done) as int,
                *final(done) as int,
            ),
            final(state).atomic@.write_granted == (final(self)@ is Some || (old(self)@ is None
                && old(state).atomic@.write_granted)),
            old(self)@ is None && old(state).error@ is None ==> advanced(
                old(state).atomic@,
                final(state).atomic@,
                buf@,
                *old(done) as int,
                *final(done) as int,
            ),
            *old(done) == buf@.len() ==> *final(state) == *old(state) && final(self)@ == old(
                self,
            )@,
            *old(done) < buf@.len() ==> {
                let ring = old(state).atomic@;
                let rest = buf@.len() - *old(done);
                let room = if old(state).error@ is Some || (old(self)@ is None
                    && ring.write_granted) {
                    0
                } else {
                    ring.free()
                };
                &&& *final(done) - *old(done) == min(rest, room)
                &&& p.failed() <==> old(state).error@ is Some
                &&& p.failed() ==> p->Ready_0->Err_0 == old(state).error@->0
                &&& final(state).error@ is None
                &&& final(self)@ == if p.failed() {
                    old(self)@
                } else {
                    None
                }
            },
            *old(done) < *final(done) ==> woken(final(state).wait_reader),
            *old(done) == *final(done) ==> final(state).wait_reader == old(state).wait_reader,
            p is Wait ==> parked(final(state).wait_writer),
            p.failed() ==> final(state).wait_writer == old(state).wait_writer,
            p.succeeded() ==> polled_for_room(
                old(state).atomic@,
                old(self)@,
                buf@.len() - *old(done),
                false,
                old(state).wait_writer,
                final(state).wait_writer,
            ),
    {
        let ghost ring = state.atomic@;
        let ghost held = self@;
        let ghost from = *done as int;
        let ghost asked = match held {
            Some(g) => ring.commit(g, g.len),
            None => ring,
        };
        let ghost first = match held {
            Some(g) => g.len,
            None => 0,
        };
        let ghost second = first + asked.write_region(1).len;
        proof {
            lemma_append_nothing(ring, buf@, from);
        }
        while *done < buf.len()
            invariant
                from <= *done <= buf@.len(),
                from == *old(done),
                ring == old(state).atomic@,
                ring.wf(),
                held == old(self)@,
                asked == match held {
                    Some(g) => ring.commit(g, g.len),
                    None => ring,
                },
                first == match held {
                    Some(g) => g.len,
                    None => 0,
                },
                second == first + asked.write_region(1).len,
                state.wf(),
                self.wf(state.atomic@),
                appended(ring, state.atomic@, buf@, from, *done as int),
                *done == from ==> *state == *old(state) && self@ == held,
                *done > from ==> {
                    &&& self@ is None
                    &&& !state.atomic@.write_granted
                    &&& woken(state.wait_reader)
                    &&& if *done - from <= first {
                        &&& state.wait_writer == old(state).wait_writer
                        &&& *done - from == min(buf@.len() - from, first)
                        &&& *done < buf@.len() ==> state.atomic@.write_region(1).len
                            == asked.write_region(1).len
                    } else if *done - from <= second {
                        &&& polled(old(state).wait_writer, state.wait_writer)
                        &&& *done - from == min(buf@.len() - from, second)
                    } else {
                        parked(state.wait_writer)
                    }
                    &&& state.error@ is None
                    &&& old(state).error@ is None
                    &&& held is Some || !ring.write_granted
                },
            decreases buf.len() - *done,
        {
            let ghost before = state.atomic@;
            let ghost holding = self@;
            let ghost at = *done as int;
            let rest: &[u8] = &buf[*done..buf.len()];
            proof {
                lemma_grant_write(before, 1);
            }
            match self.write(state, cx, rest) {
                Progress::Ready(Ok(n)) => {
                    *done = *done + n;
                    proof {
                        lemma_append_more(
                            ring,
                            before,
                            write_target(before, holding),
                            buf@,
                            from,
                            at,
                            n as int,
                            state.atomic@,
                        );
                    }
                },
                Progress::Ready(Err(error)) => return Progress::Ready(Err(error)),
                Progress::Wait => return Progress::Wait,
            }
        }
        Progress::Ready(Ok(()))
    }
}

/// Reads from a stream, and reports an error first.
pub struct AppConsumer {
    consumer: BufferReader,
    grant: Option<ReaderGrant>,
}

impl View for AppConsumer {
    type V = Option<ReadRegion>;

    /// The region that is held.
    closed spec fn view(&self) -> Option<ReadRegion> {
        match self.grant {
            Some(g) => Some(g@),
            None => None,
        }
    }
}

impl AppConsumer {
    /// What is held is out.
    pub open spec fn wf(self, ring: Ring) -> bool {
        self@ matches Some(g) ==> ring.holds_read(g)
    }

    /// A reading end that holds nothing.
    pub fn new(consumer: BufferReader) -> (end: Self)
        ensures
            end@ is None,
    {
        AppConsumer { consumer, grant: None }
    }

    /// Hold a grant: the one at hand, or a new one. An error that waits is returned
    /// instead.
    fn get_consume_grant<E>(
        &mut self,
        state: &mut State<E>,
        cx: &mut Context<'_>,
    ) -> (p: Progress<Result<(), E>>)
        requires
            old(state).wf(),
            old(self).wf(old(state).atomic@),
        ensures
            final(state).wf(),
            keeps_write_grants(old(state).atomic@, final(state).atomic@),
            final(self).wf(final(state).atomic@),
            final(state).error@ is None,
            final(state).wait_writer == old(state).wait_writer,
            p.failed() <==> old(state).error@ is Some,
            p matches Progress::Ready(Err(e)) ==> old(state).error@ == Some(e),
            p.succeeded() <==> old(state).error@ is None && (old(self)@ is Some || old(
                state,
            ).atomic@.can_grant_read()),
            p.succeeded() ==> {
                &&& final(self)@ == Some(read_target(old(state).atomic@, old(self)@))
                &&& final(state).atomic@ == old(state).atomic@.lend_read()
            },
            !p.succeeded() ==> {
                &&& final(self)@ == old(self)@
                &&& final(state).atomic@ == old(state).atomic@
            },
            waited(
                old(state).error@ is Some || old(self)@ is Some,
                p is Wait,
                old(state).wait_reader,
                final(state).wait_reader,
            ),
    {
        if let Some(error) = state.error.take() {
            return Progress::Ready(Err(error));
        }
        if self.grant.is_some() {
            return Progress::Ready(Ok(()));
        }
        let registered: bool = poll_wait(&mut state.wait_reader, cx);
        proof {
            lemma_grant_read(state.atomic@);
        }
        if let Some(grant) = self.consumer.try_get_reader_grant(&mut state.atomic) {
            self.grant = Some(grant);
            return Progress::Ready(Ok(()));
        }
        park(&mut state.wait_reader, cx, registered);
        Progress::Wait
    }

    /// Give back what is held with `bytes` of it read, and wake the writing end.
    pub fn release<E>(&mut self, state: &mut State<E>, bytes: usize)
        requires
            old(state).wf(),
            old(self).wf(old(state).atomic@),
        ensures
            final(state).wf(),
            keeps_write_grants(old(state).atomic@, final(state).atomic@),
            final(self)@ is None,
            final(state).error@ == old(state).error@,
            final(state).wait_reader == old(state).wait_reader,
            woken(final(state).wait_writer),
            old(self)@ is None ==> final(state).atomic@ == old(state).atomic@,
            old(self)@ matches Some(g) ==> {
                &&& final(state).atomic@ == old(state).atomic@.consume(g, bytes as int)
                &&& final(state).atomic@.unread() == old(state).atomic@.unread().skip(
                    min(bytes as int, g.len),
                )
            },
    {
        if let Some(grant) = self.grant.take() {
            grant.consume(&mut state.atomic, bytes);
        }
        wake(&mut state.wait_writer);
    }

    /// Give back what is held with nothing of it used. Nobody is woken. An end that is
    /// dropped keeps its grant out, so this comes first.
    pub fn give_back<E>(&mut self, state: &mut State<E>)
        requires
            old(state).wf(),
            old(self).wf(old(state).atomic@),
        ensures
            final(state).wf(),
            keeps_write_grants(old(state).atomic@, final(state).atomic@),
            final(self)@ is None,
            final(state).error == old(state).error,
            final(state).wait_writer == old(state).wait_writer,
            final(state).wait_reader == old(state).wait_reader,
            final(state).atomic@ == match old(self)@ {
                Some(g) => old(state).atomic@.consume(g, 0),
                None => old(state).atomic@,
            },
            final(state).atomic@.unread() == old(state).atomic@.unread(),
    {
        if let Some(grant) = self.grant.take() {
            grant.consume(&mut state.atomic, 0);
        }
    }

    /// Read as many bytes into `buf` as one grant shows. The number of bytes is
    /// returned.
    pub fn read<E>(
        &mut self,
        state: &mut State<E>,
        cx: &mut Context<'_>,
        buf: &mut [u8],
    ) -> (p: Progress<Result<usize, E>>)
        requires
            old(state).wf(),
            old(self).wf(old(state).atomic@),
        ensures
            final(state).wf(),
            keeps_write_grants(old(state).atomic@, final(state).atomic@),
            final(self).wf(final(state).atomic@),
            final(state).error@ is None,
            p.failed() <==> old(state).error@ is Some,
            p matches Progress::Ready(Err(e)) ==> old(state).error@ == Some(e),
            p.succeeded() <==> old(state).error@ is None && (old(self)@ is Some || old(
                state,
            ).atomic@.can_grant_read()),
            p matches Progress::Ready(Ok(n)) ==> {
                &&& final(self)@ is None
                &&& taken(
                    old(state).atomic@,
                    read_target(old(state).atomic@, old(self)@),
                    old(buf)@,
                    final(buf)@,
                    n as int,
                    final(state).atomic@,
                )
                &&& old(buf)@.len() > 0 ==> n > 0
                &&& woken(final(state).wait_writer)
            },
            !p.succeeded() ==> {
                &&& final(self)@ == old(self)@
                &&& final(state).atomic@ == old(state).atomic@
                &&& final(buf)@ == old(buf)@
                &&& final(state).wait_writer == old(state).wait_writer
            },
            waited(
                old(state).error@ is Some || old(self)@ is Some,
                p is Wait,
                old(state).wait_reader,
                final(state).wait_reader,
            ),
    {
        match self.get_consume_grant(state, cx) {
            Progress::Wait => Progress::Wait,
            Progress::Ready(Err(error)) => Progress::Ready(Err(error)),
            Progress::Ready(Ok(())) => {
                let bytes: usize = match &mut self.grant {
                    Some(grant) => grant.copy_max_into(&state.atomic, buf),
                    None => 0,
                };
                let ghost region = self@->0;
                proof {
                    lemma_taken(old(state).atomic@, region, old(buf)@);
                }
                self.release(state, bytes);
                assert(state.atomic@ =~= old(state).atomic@.consume(region, bytes as int));
                Progress::Ready(Ok(bytes))
            },
        }
    }

    /// The bytes of the grant at hand, to be worked on in place.
    pub fn held_mut<'s, E>(&mut self, state: &'s mut State<E>) -> (held: Option<&'s mut [u8]>)
        requires
            old(state).wf(),
            old(self).wf(old(state).atomic@),
        ensures
            final(self)@ == old(self)@,
            final(state).error == old(state).error,
            final(state).wait_writer == old(state).wait_writer,
            final(state).wait_reader == old(state).wait_reader,
            held is Some <==> old(self)@ is Some,
            held is None ==> final(state).wf() && final(state).atomic@ == old(state).atomic@,
            held is Some ==> {
                let ring = old(state).atomic@;
                let region = old(self)@->0;
                let bytes = held->0;
                &&& bytes@ == ring.read_bytes(region)
                &&& final(bytes)@.len() == region.len ==> {
                    &&& final(state).wf()
                    &&& keeps_write_grants(old(state).atomic@, final(state).atomic@)
                    &&& final(self).wf(final(state).atomic@)
                    &&& final(state).atomic@ == ring.fill(region.start, final(bytes)@)
                    &&& final(state).atomic@.unread() == overwrite(ring.unread(), 0, final(bytes)@)
                }
            },
    {
        match &mut self.grant {
            Some(grant) => Some(grant.buf_mut(&mut state.atomic)),
            None => None,
        }
    }

    /// The bytes of a grant, the oldest that are unread.
    pub fn fill_buf<'s, E>(
        &mut self,
        state: &'s mut State<E>,
        cx: &mut Context<'_>,
    ) -> (p: Progress<Result<&'s [u8], E>>)
        requires
            old(state).wf(),
            old(self).wf(old(state).atomic@),
        ensures
            final(state).wf(),
            keeps_write_grants(old(state).atomic@, final(state).atomic@),
            final(self).wf(final(state).atomic@),
            final(state).error@ is None,
            final(state).wait_writer == old(state).wait_writer,
            p.failed() <==> old(state).error@ is Some,
            p matches Progress::Ready(Err(e)) ==> old(state).error@ == Some(e),
            p.succeeded() <==> old(state).error@ is None && (old(self)@ is Some || old(
                state,
            ).atomic@.can_grant_read()),
            p matches Progress::Ready(Ok(bytes)) ==> {
                let ring = old(state).atomic@;
                let region = read_target(ring, old(self)@);
                &&& bytes@ == ring.read_bytes(region)
                &&& bytes@.is_prefix_of(ring.unread())
                &&& final(self)@ == Some(region)
                &&& final(state).atomic@ == ring.lend_read()
            },
            !p.succeeded() ==> {
                &&& final(self)@ == old(self)@
                &&& final(state).atomic@ == old(state).atomic@
            },
            waited(
                old(state).error@ is Some || old(self)@ is Some,
                p is Wait,
                old(state).wait_reader,
                final(state).wait_reader,
            ),
    {
        match self.get_consume_grant(state, cx) {
            Progress::Wait => Progress::Wait,
            Progress::Ready(Err(error)) => Progress::Ready(Err(error)),
            Progress::Ready(Ok(())) => {
                match &self.grant {
                    Some(grant) => Progress::Ready(Ok(grant.buf(&state.atomic))),
                    None => Progress::Wait,
                }
            },
        }
    }

    /// The bytes of a grant, the oldest that are unread, to be worked on in place.
    pub fn fill_buf_mut<'s, E>(
        &mut self,
        state: &'s mut State<E>,
        cx: &mut Context<'_>,
    ) -> (p: Progress<Result<&'s mut [u8], E>>)
        requires
            old(state).wf(),
            old(self).wf(old(state).atomic@),
        ensures
            final(state).error@ is None,
            final(state).wait_writer == old(state).wait_writer,
            p.failed() <==> old(state).error@ is Some,
            p.failed() ==> p->Ready_0->Err_0 == old(state).error@->0,
            p.succeeded() <==> old(state).error@ is None && (old(self)@ is Some || old(
                state,
            ).atomic@.can_grant_read()),
            p.succeeded() ==> {
                let ring = old(state).atomic@;
                let region = read_target(ring, old(self)@);
                let bytes = p->Ready_0->Ok_0;
                &&& bytes@ == ring.read_bytes(region)
                &&& bytes@.is_prefix_of(ring.unread())
                &&& final(self)@ == Some(region)
                &&& final(bytes)@.len() == region.len ==> {
                    &&& final(state).wf()
                    &&& keeps_write_grants(old(state).atomic@, final(state).atomic@)
                    &&& final(self).wf(final(state).atomic@)
                    &&& final(state).atomic@ == ring.lend_read().fill(region.start, final(bytes)@)
                    &&& final(state).atomic@.unread() == overwrite(ring.unread(), 0, final(bytes)@)
                }
            },
            !p.succeeded() ==> {
                &&& final(state).wf()
                &&& keeps_write_grants(old(state).atomic@, final(state).atomic@)
                &&& final(self)@ == old(self)@
                &&& final(state).atomic@ == old(state).atomic@
            },
            waited(
                old(state).error@ is Some || old(self)@ is Some,
                p is Wait,
                old(state).wait_reader,
                final(state).wait_reader,
            ),
    {
        match self.get_consume_grant(state, cx) {
            Progress::Wait => Progress::Wait,
            Progress::Ready(Err(error)) => Progress::Ready(Err(error)),
            Progress::Ready(Ok(())) => {
                proof {
                    lemma_consume(state.atomic@, self@->0, 0);
                }
                match &mut self.grant {
                    Some(grant) => Progress::Ready(Ok(grant.buf_mut(&mut state.atomic))),
                    None => Progress::Wait,
                }
            },
        }
    }
}

} // verus!
