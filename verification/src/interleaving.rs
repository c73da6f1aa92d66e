//! The two halves at work at the same time.
//!
//! Each half reads and writes the three cursors one at a time, and the other half may
//! take any number of steps in between. A [`World`] is a moment of that, a [`Step`]
//! one access to memory. Whatever the order of the steps, each of them either leaves
//! the [`Ring`] that the cursors stand for as it is, or does to it in one go what a
//! whole operation does.
//!
//! The accesses are taken one at a time, in a single order that both halves see. The
//! cells themselves are loaded with acquire and stored with release ordering, which
//! promises less: that a half which loads a cursor sees what the other had stored before
//! it stored that cursor.

use crate::cursors::{read_span, write_span};
use crate::ring::{
    keeps_write_grants, lemma_commit, lemma_consume, lemma_fill, min, overwrite, ReadRegion, Ring,
    WriteRegion,
};
use vstd::prelude::*;

verus! {

/// How far the writing half is.
pub enum WriterAt {
    /// Between two operations.
    Rest,
    /// The wrap mark has been loaded.
    LoadedMark { wrapped: int },
    /// The wrap mark and then the writer have been loaded.
    LoadedWriter { wrapped: int, writer: int },
    /// A grant is out.
    Granted { g: WriteRegion },
    /// A grant at the start of the memory is being committed: the writer has been
    /// stored, and the wrap mark is still to be set.
    MovedWriter { mark: int },
}

/// How far the reading half is.
pub enum ReaderAt {
    /// Between two operations.
    Rest,
    /// The wrap mark has been loaded.
    LoadedMark { wrapped: int },
    /// The wrap mark and then the writer have been loaded.
    LoadedWriter { wrapped: int, writer: int },
    /// A grant is out.
    Granted { g: ReadRegion },
    /// A grant is being consumed: the reader has been stored, and the wrap mark is
    /// still to be cleared.
    MovedReader,
}

/// One access to the shared memory by one of the halves.
pub enum Step {
    /// The writing half loads the wrap mark.
    WriterLoadsMark,
    /// The writing half loads the writer.
    WriterLoadsWriter,
    /// The writing half loads the reader, and takes what the three cursors leave it
    /// for a request of `want` bytes.
    WriterLoadsReader { want: int },
    /// The writing half stores a byte.
    WriterStoresByte { at: int, byte: u8 },
    /// The writing half commits `used` bytes, by storing the writer.
    WriterStoresWriter { used: int },
    /// The writing half sets the wrap mark, where it went back to the start.
    WriterStoresMark,
    /// The reading half loads the wrap mark.
    ReaderLoadsMark,
    /// The reading half loads the writer.
    ReaderLoadsWriter,
    /// The reading half loads the reader, and takes what the three cursors show it.
    ReaderLoadsReader,
    /// The reading half stores a byte in its grant.
    ReaderStoresByte { at: int, byte: u8 },
    /// The reading half consumes `used` bytes, by storing the reader.
    ReaderStoresReader { used: int },
    /// The reading half clears the wrap mark.
    ReaderStoresMark,
}

/// A moment.
pub struct World {
    pub wrapped: int,
    pub writer: int,
    pub reader: int,
    pub memory: Seq<u8>,
    pub w: WriterAt,
    pub r: ReaderAt,
}

impl World {
    /// The moment at which the halves are handed out.
    pub open spec fn start(memory: Seq<u8>) -> World {
        World {
            wrapped: 0,
            writer: 0,
            reader: 0,
            memory,
            w: WriterAt::Rest,
            r: ReaderAt::Rest,
        }
    }

    /// Whether `step` can be taken: it is the one that its half has come to.
    pub open spec fn enabled(self, step: Step) -> bool {
        match step {
            Step::WriterLoadsMark => self.w is Rest,
            Step::WriterLoadsWriter => self.w is LoadedMark,
            Step::WriterLoadsReader { want } => self.w is LoadedWriter && want > 0,
            Step::WriterStoresByte { at, byte } => self.w matches WriterAt::Granted { g } && g.start
                <= at < g.start + g.len,
            Step::WriterStoresWriter { used } => self.w is Granted && used >= 0,
            Step::WriterStoresMark => self.w is MovedWriter,
            Step::ReaderLoadsMark => self.r is Rest,
            Step::ReaderLoadsWriter => self.r is LoadedMark,
            Step::ReaderLoadsReader => self.r is LoadedWriter,
            Step::ReaderStoresByte { at, byte } => self.r matches ReaderAt::Granted { g } && g.start
                <= at < g.start + g.len,
            Step::ReaderStoresReader { used } => self.r is Granted && used >= 0,
            Step::ReaderStoresMark => self.r is MovedReader,
        }
    }

    /// The moment after `step`.
    pub open spec fn next(self, step: Step) -> World {
        match step {
            Step::WriterLoadsMark => World {
                w: WriterAt::LoadedMark { wrapped: self.wrapped },
                ..self
            },
            Step::WriterLoadsWriter => World {
                w: WriterAt::LoadedWriter {
                    wrapped: self.w->LoadedMark_wrapped,
                    writer: self.writer,
                },
                ..self
            },
            Step::WriterLoadsReader { want } => {
                let writer = self.w->LoadedWriter_writer;
                let (start, len) = write_span(
                    self.w->LoadedWriter_wrapped,
                    writer,
                    self.reader,
                    self.memory.len() as int,
                    want,
                );
                World {
                    w: if len == 0 {
                        WriterAt::Rest
                    } else {
                        WriterAt::Granted { g: WriteRegion { start, len, writer } }
                    },
                    ..self
                }
            },
            Step::WriterStoresByte { at, byte } => World {
                memory: self.memory.update(at, byte),
                ..self
            },
            Step::WriterStoresWriter { used } => {
                let g = self.w->Granted_g;
                if used == 0 {
                    World { w: WriterAt::Rest, ..self }
                } else {
                    World {
                        writer: g.start + min(used, g.len),
                        w: if g.start == 0 {
                            WriterAt::MovedWriter { mark: g.writer }
                        } else {
                            WriterAt::Rest
                        },
                        ..self
                    }
                }
            },
            Step::WriterStoresMark => World {
                wrapped: self.w->mark,
                w: WriterAt::Rest,
                ..self
            },
            Step::ReaderLoadsMark => World {
                r: ReaderAt::LoadedMark { wrapped: self.wrapped },
                ..self
            },
            Step::ReaderLoadsWriter => World {
                r: ReaderAt::LoadedWriter {
                    wrapped: self.r->LoadedMark_wrapped,
                    writer: self.writer,
                },
                ..self
            },
            Step::ReaderLoadsReader => {
                let wrapped = self.r->LoadedWriter_wrapped;
                let (start, len) = read_span(wrapped, self.r->LoadedWriter_writer, self.reader);
                World {
                    r: if len == 0 {
                        ReaderAt::Rest
                    } else {
                        ReaderAt::Granted {
                            g: ReadRegion { start, len, wrapped, reader: self.reader },
                        }
                    },
                    ..self
                }
            },
            Step::ReaderStoresByte { at, byte } => World {
                memory: self.memory.update(at, byte),
                ..self
            },
            Step::ReaderStoresReader { used } => {
                let g = self.r->Granted_g;
                let next = g.start + min(used, g.len);
                if used == 0 {
                    World { r: ReaderAt::Rest, ..self }
                } else if g.wrapped == 0 {
                    World { reader: next, r: ReaderAt::Rest, ..self }
                } else if g.reader == g.wrapped {
                    World { reader: next, r: ReaderAt::MovedReader, ..self }
                } else if next == g.wrapped {
                    World { reader: 0, r: ReaderAt::MovedReader, ..self }
                } else {
                    World { reader: next, r: ReaderAt::Rest, ..self }
                }
            },
            Step::ReaderStoresMark => World { wrapped: 0, r: ReaderAt::Rest, ..self },
        }
    }

    /// The ring that this moment stands for. A commit at the start of the memory
    /// counts once the wrap mark is set. Consuming counts once the reader is stored.
    pub open spec fn ring(self) -> Ring {
        let late = self.w matches WriterAt::MovedWriter { mark } && mark > 0;
        Ring {
            initialized: true,
            wrapped: if self.r is MovedReader {
                0
            } else {
                self.wrapped
            },
            writer: if late {
                self.w->mark
            } else {
                self.writer
            },
            reader: self.reader,
            read_granted: self.r is Granted,
            write_granted: self.w is Granted || late,
            memory: self.memory,
        }
    }

    /// The region whose commit is under way, and how many of its bytes are used.
    pub open spec fn pending(self) -> (WriteRegion, int) {
        (WriteRegion { start: 0, len: self.writer, writer: self.w->mark }, self.writer)
    }

    /// What holds at every moment.
    pub open spec fn inv(self) -> bool {
        &&& self.ring().wf()
        &&& self.wrapped >= 0
        &&& match self.w {
            WriterAt::Rest => true,
            // Only the reading half clears the mark, only the writing half sets it
            WriterAt::LoadedMark { wrapped } => self.wrapped == wrapped || self.wrapped == 0,
            WriterAt::LoadedWriter { wrapped, writer } => {
                &&& self.wrapped == wrapped || self.wrapped == 0
                &&& self.writer == writer
            },
            WriterAt::Granted { g } => {
                &&& self.ring().holds_write(g)
                &&& g.start == 0 ==> self.wrapped == 0
            },
            WriterAt::MovedWriter { mark } => {
                &&& mark >= 0
                &&& self.wrapped == 0
                &&& mark > 0 ==> 0 < self.writer <= self.reader <= mark
            },
        }
        &&& match self.r {
            ReaderAt::Rest => true,
            ReaderAt::LoadedMark { wrapped } => wrapped != 0 ==> self.wrapped == wrapped,
            ReaderAt::LoadedWriter { wrapped, writer } => {
                &&& writer >= 0
                &&& wrapped != 0 ==> self.wrapped == wrapped && writer <= self.writer
                // A writer that has gone back to the start is not ahead of the reader
                &&& wrapped == 0 ==> {
                    ||| writer <= self.reader
                    ||| self.ring().wrapped == 0 && writer <= self.ring().writer
                    ||| self.ring().wrapped > 0 && writer <= self.ring().wrapped
                }
            },
            ReaderAt::Granted { g } => self.ring().holds_read(g),
            // The mark is still there, and there is no room for the writing half
            ReaderAt::MovedReader => self.wrapped > 0 && self.reader <= self.writer,
        }
    }
}

/// What `step` does to a ring: nothing, or one whole operation.
pub open spec fn effect(before: World, step: Step, after: World) -> bool {
    let ring = before.ring();
    match step {
        Step::WriterLoadsReader { want } => match after.w {
            WriterAt::Granted { g } => {
                &&& ring.can_grant_write(want)
                &&& g == ring.write_region(want)
                &&& after.ring() == ring.lend_write()
            },
            _ => after.ring() == ring,
        },
        Step::WriterStoresByte { at, byte } => after.ring() == ring.fill(at, seq![byte]),
        Step::WriterStoresWriter { used } => {
            let g = before.w->Granted_g;
            if used > 0 && g.wraps() {
                after.ring() == ring
            } else {
                after.ring() == ring.commit(g, used)
            }
        },
        Step::WriterStoresMark => if before.w->mark > 0 {
            &&& ring.holds_write(before.pending().0)
            &&& after.ring() == ring.commit(before.pending().0, before.pending().1)
        } else {
            after.ring() == ring
        },
        Step::ReaderLoadsReader => match after.r {
            ReaderAt::Granted { g } => {
                &&& after.ring() == ring.lend_read()
                &&& after.ring().holds_read(g)
            },
            _ => after.ring() == ring,
        },
        Step::ReaderStoresByte { at, byte } => after.ring() == ring.fill(at, seq![byte]),
        Step::ReaderStoresReader { used } => after.ring() == ring.consume(
            before.r->Granted_g,
            used,
        ),
        _ => after.ring() == ring,
    }
}

/// At the start, the ring is the one over the memory, with nothing unread.
pub proof fn law_start(memory: Seq<u8>)
    ensures
        World::start(memory).inv(),
        World::start(memory).ring() == Ring::over(memory),
{
}

/// Whatever step is taken, the invariant is kept, and the ring is left as it is or
/// has one whole operation done to it.
pub proof fn law_step(before: World, step: Step)
    requires
        before.inv(),
        before.enabled(step),
    ensures
        before.next(step).inv(),
        effect(before, step, before.next(step)),
{
    let after = before.next(step);
    match step {
        Step::WriterStoresByte { at, byte } => {
            lemma_fill(before.ring(), before.w->Granted_g, at, seq![byte]);
            assert(after.memory =~= overwrite(before.memory, at, seq![byte]));
        },
        Step::ReaderStoresByte { at, byte } => {
            assert(after.memory =~= overwrite(before.memory, at, seq![byte]));
        },
        _ => {},
    }
}

/// A byte that the reading half stores in its grant replaces one of the oldest unread
/// bytes. It changes nothing else that is unread, and nothing in a write grant.
pub proof fn law_reader_stores_byte(before: World, at: int, byte: u8)
    requires
        before.inv(),
        before.enabled(Step::ReaderStoresByte { at, byte }),
    ensures
        ({
            let g = before.r->Granted_g;
            let after = before.next(Step::ReaderStoresByte { at, byte });
            &&& after == World { memory: before.memory.update(at, byte), ..before }
            &&& after.inv()
            &&& after.ring() == before.ring().fill(at, seq![byte])
            &&& 0 <= at - g.start < before.ring().unread().len()
            &&& after.ring().unread() == before.ring().unread().update(at - g.start, byte)
            &&& keeps_write_grants(before.ring(), after.ring())
            &&& before.w matches WriterAt::Granted { g } ==> after.ring().holds_write(g)
                && after.ring().write_bytes(g) == before.ring().write_bytes(g)
        }),
{
    let g = before.r->Granted_g;
    let ring = before.ring();
    let after = before.next(Step::ReaderStoresByte { at, byte });
    law_step(before, Step::ReaderStoresByte { at, byte });
    lemma_consume(ring, g, 0);
    assert(after.ring().unread() =~= ring.unread().update(at - g.start, byte));
    assert forall|h: WriteRegion| #[trigger] ring.holds_write(h) implies after.ring().holds_write(h)
        && after.ring().write_bytes(h) == ring.write_bytes(h) by {
        assert(after.ring().write_bytes(h) =~= ring.write_bytes(h));
    }
}

/// The bytes that `step` makes readable.
pub open spec fn sent_by(before: World, step: Step) -> Seq<u8> {
    match step {
        Step::WriterStoresWriter { used } => {
            let g = before.w->Granted_g;
            if g.wraps() {
                Seq::empty()
            } else {
                before.memory.subrange(g.start, g.start + min(used, g.len))
            }
        },
        Step::WriterStoresMark => if before.w->mark > 0 {
            before.memory.subrange(0, before.writer)
        } else {
            Seq::empty()
        },
        _ => Seq::empty(),
    }
}

/// The bytes that `step` gives up, of those that the reading half was shown.
pub open spec fn received_by(before: World, step: Step) -> Seq<u8> {
    match step {
        Step::ReaderStoresReader { used } => {
            let g = before.r->Granted_g;
            before.memory.subrange(g.start, g.start + min(used, g.len))
        },
        _ => Seq::empty(),
    }
}

/// The moment after all of `steps`.
pub open spec fn run(world: World, steps: Seq<Step>) -> World
    decreases steps.len(),
{
    if steps.len() == 0 {
        world
    } else {
        run(world, steps.drop_last()).next(steps.last())
    }
}

/// Whether `steps` can be taken one after the other.
pub open spec fn legal(world: World, steps: Seq<Step>) -> bool
    decreases steps.len(),
{
    steps.len() > 0 ==> {
        &&& legal(world, steps.drop_last())
        &&& run(world, steps.drop_last()).enabled(steps.last())
    }
}

/// All bytes that the reading half has taken in `steps`.
pub open spec fn received(world: World, steps: Seq<Step>) -> Seq<u8>
    decreases steps.len(),
{
    if steps.len() == 0 {
        Seq::empty()
    } else {
        received(world, steps.drop_last()) + received_by(
            run(world, steps.drop_last()),
            steps.last(),
        )
    }
}

/// All bytes that `steps` make readable. Where the reading half has stored a byte in its
/// grant, that byte stands in place of the one that was there: it is as far behind what
/// has been received as it is into the grant.
pub open spec fn sent(world: World, steps: Seq<Step>) -> Seq<u8>
    decreases steps.len(),
{
    if steps.len() == 0 {
        Seq::empty()
    } else {
        let shorter = steps.drop_last();
        let before = run(world, shorter);
        match steps.last() {
            Step::ReaderStoresByte { at, byte } => sent(world, shorter).update(
                received(world, shorter).len() + at - before.r->Granted_g.start,
                byte,
            ),
            step => sent(world, shorter) + sent_by(before, step),
        }
    }
}

/// A step moves the bytes that it sends to the end of the unread ones, and takes those
/// that it receives from their front.
proof fn lemma_step_moves_bytes(before: World, step: Step)
    requires
        before.inv(),
        before.enabled(step),
        step !is ReaderStoresByte,
    ensures
        before.ring().unread() + sent_by(before, step) == received_by(before, step) + before.next(
            step,
        ).ring().unread(),
{
    law_step(before, step);
    let ring = before.ring();
    let after = before.next(step);
    match step {
        Step::WriterStoresByte { at, byte } => {
            lemma_fill(ring, before.w->Granted_g, at, seq![byte]);
        },
        Step::WriterStoresWriter { used } => {
            let g = before.w->Granted_g;
            lemma_commit(ring, g, used);
            assert(ring.write_bytes(g).take(min(used, g.len)) =~= before.memory.subrange(
                g.start,
                g.start + min(used, g.len),
            ));
        },
        Step::WriterStoresMark => {
            if before.w->mark > 0 {
                let (g, used) = before.pending();
                lemma_commit(ring, g, used);
                assert(ring.write_bytes(g).take(min(used, g.len)) =~= before.memory.subrange(
                    0,
                    before.writer,
                ));
            }
        },
        Step::ReaderStoresReader { used } => {
            let g = before.r->Granted_g;
            let n = min(used, g.len);
            lemma_consume(ring, g, used);
            assert(ring.unread() =~= ring.unread().take(n) + ring.unread().skip(n));
            assert(before.memory.subrange(g.start, g.start + n) =~= ring.read_bytes(g).take(n));
            assert(ring.read_bytes(g).take(n) =~= ring.unread().take(n));
        },
        _ => {},
    }
    assert(ring.unread() + sent_by(before, step) =~= received_by(before, step)
        + after.ring().unread());
}

/// However the steps of the two halves fall, what has been received and what is
/// unread is exactly what was sent: in order, nothing lost, nothing twice, and nothing
/// changed but what the reading half has stored itself.
pub proof fn law_history(memory: Seq<u8>, steps: Seq<Step>)
    requires
        legal(World::start(memory), steps),
    ensures
        run(World::start(memory), steps).inv(),
        sent(World::start(memory), steps) == received(World::start(memory), steps) + run(
            World::start(memory),
            steps,
        ).ring().unread(),
    decreases steps.len(),
{
    let start = World::start(memory);
    if steps.len() == 0 {
        law_start(memory);
        assert(sent(start, steps) =~= received(start, steps) + start.ring().unread());
    } else {
        let shorter = steps.drop_last();
        let before = run(start, shorter);
        let step = steps.last();
        law_history(memory, shorter);
        let after = before.next(step);
        law_step(before, step);
        if let Step::ReaderStoresByte { at, byte } = step {
            law_reader_stores_byte(before, at, byte);
            assert(received(start, steps) =~= received(start, shorter));
            assert(sent(start, steps) =~= received(start, steps) + after.ring().unread());
        } else {
            lemma_step_moves_bytes(before, step);
            assert(sent(start, steps) =~= received(start, shorter) + (before.ring().unread()
                + sent_by(before, step)));
            assert(received(start, steps) + after.ring().unread() =~= received(start, shorter) + (
            received_by(before, step) + after.ring().unread()));
        }
    }
}

/// However the steps of the two halves fall, grants that are out at the same time
/// share no byte, and what a read grant shows are the oldest unread bytes.
pub proof fn law_concurrent_grants(memory: Seq<u8>, steps: Seq<Step>, at: int)
    requires
        legal(World::start(memory), steps),
    ensures
        ({
            let now = run(World::start(memory), steps);
            &&& now.w matches WriterAt::Granted { g } ==> now.r matches ReaderAt::Granted { g: h }
                ==> !(g.start <= at < g.start + g.len && h.start <= at < h.start + h.len)
            &&& now.w matches WriterAt::Granted { g } ==> 0 <= g.start && g.start + g.len
                <= memory.len()
            &&& now.r matches ReaderAt::Granted { g: h } ==> now.memory.subrange(
                h.start,
                h.start + h.len,
            ).is_prefix_of(now.ring().unread())
        }),
{
    law_history(memory, steps);
    lemma_memory_keeps_its_length(memory, steps);
    let now = run(World::start(memory), steps);
    if let ReaderAt::Granted { g } = now.r {
        lemma_consume(now.ring(), g, 0);
    }
}

proof fn lemma_memory_keeps_its_length(memory: Seq<u8>, steps: Seq<Step>)
    requires
        legal(World::start(memory), steps),
    ensures
        run(World::start(memory), steps).memory.len() == memory.len(),
    decreases steps.len(),
{
    if steps.len() > 0 {
        lemma_memory_keeps_its_length(memory, steps.drop_last());
        law_history(memory, steps.drop_last());
    }
}

/// A request by the writing half that nothing comes between is answered as the ring
/// says, unless the reading half is about to clear the wrap mark.
pub proof fn law_uninterrupted_write_grant(before: World, want: int)
    requires
        before.inv(),
        before.w is Rest,
        before.r !is MovedReader,
        want > 0,
    ensures
        ({
            let after = before.next(Step::WriterLoadsMark).next(Step::WriterLoadsWriter).next(
                Step::WriterLoadsReader { want },
            );
            if before.ring().free() > 0 {
                &&& after.w == WriterAt::Granted { g: before.ring().write_region(want) }
                &&& after.ring() == before.ring().lend_write()
            } else {
                after == before
            }
        }),
{
}

/// A request by the reading half that nothing comes between is answered as the ring
/// says, unless the writing half is about to set the wrap mark.
pub proof fn law_uninterrupted_read_grant(before: World)
    requires
        before.inv(),
        before.r is Rest,
        before.w !is MovedWriter,
    ensures
        ({
            let after = before.next(Step::ReaderLoadsMark).next(Step::ReaderLoadsWriter).next(
                Step::ReaderLoadsReader,
            );
            if before.ring().unread().len() > 0 {
                &&& after.r == ReaderAt::Granted { g: before.ring().read_region() }
                &&& after.ring() == before.ring().lend_read()
            } else {
                after == before
            }
        }),
{
}

/// The stores of a commit, taken together, are the commit.
pub proof fn law_uninterrupted_commit(before: World, used: int)
    requires
        before.inv(),
        before.w is Granted,
        used >= 0,
    ensures
        ({
            let g = before.w->Granted_g;
            let moved = before.next(Step::WriterStoresWriter { used });
            let after = if moved.w is MovedWriter {
                moved.next(Step::WriterStoresMark)
            } else {
                moved
            };
            after.w is Rest && after.ring() == before.ring().commit(g, used)
        }),
{
}

/// The stores of consuming, taken together, are the consuming.
pub proof fn law_uninterrupted_consume(before: World, used: int)
    requires
        before.inv(),
        before.r is Granted,
        used >= 0,
    ensures
        ({
            let g = before.r->Granted_g;
            let moved = before.next(Step::ReaderStoresReader { used });
            let after = if moved.r is MovedReader {
                moved.next(Step::ReaderStoresMark)
            } else {
                moved
            };
            after.r is Rest && after.ring() == before.ring().consume(g, used)
        }),
{
}

/// Between two operations of either half, the ring is what the cursors and the memory
/// say.
pub proof fn law_ring_at_rest(now: World)
    requires
        now.w is Rest,
        now.r is Rest,
    ensures
        now.ring().wrapped == now.wrapped,
        now.ring().writer == now.writer,
        now.ring().reader == now.reader,
        now.ring().memory == now.memory,
        !now.ring().write_granted,
        !now.ring().read_granted,
{
}

/// Whether it is the writing half that takes `step`.
pub open spec fn by_writer(step: Step) -> bool {
    match step {
        Step::WriterLoadsMark => true,
        Step::WriterLoadsWriter => true,
        Step::WriterLoadsReader { .. } => true,
        Step::WriterStoresByte { .. } => true,
        Step::WriterStoresWriter { .. } => true,
        Step::WriterStoresMark => true,
        _ => false,
    }
}

/// Each half stores only what it owns. The writer belongs to the writing half and the
/// reader to the reading half. The wrap mark belongs to the writing half while it is
/// unset, and to the reading half while it is set. Neither half stores a byte in the
/// grant of the other.
pub proof fn law_ownership(before: World, step: Step)
    requires
        before.inv(),
        before.enabled(step),
    ensures
        ({
            let after = before.next(step);
            &&& by_writer(step) ==> {
                &&& after.reader == before.reader
                &&& after.r == before.r
                &&& after.wrapped != before.wrapped ==> before.wrapped == 0
                &&& before.r matches ReaderAt::Granted { g } ==> forall|i: int|
                    g.start <= i < g.start + g.len ==> after.memory[i] == before.memory[i]
            }
            &&& !by_writer(step) ==> {
                &&& after.writer == before.writer
                &&& after.w == before.w
                &&& after.wrapped != before.wrapped ==> before.wrapped != 0 && after.wrapped == 0
                &&& before.w matches WriterAt::Granted { g } ==> forall|i: int|
                    g.start <= i < g.start + g.len ==> after.memory[i] == before.memory[i]
            }
        }),
{
}

/// Neither half is ever kept from going on by the other: at every moment each of them
/// has a step that it can take.
pub proof fn law_no_half_is_stuck(now: World)
    requires
        now.inv(),
    ensures
        exists|step: Step| by_writer(step) && #[trigger] now.enabled(step),
        exists|step: Step| !by_writer(step) && #[trigger] now.enabled(step),
{
    let writes = match now.w {
        WriterAt::Rest => Step::WriterLoadsMark,
        WriterAt::LoadedMark { .. } => Step::WriterLoadsWriter,
        WriterAt::LoadedWriter { .. } => Step::WriterLoadsReader { want: 1 },
        WriterAt::Granted { .. } => Step::WriterStoresWriter { used: 0 },
        WriterAt::MovedWriter { .. } => Step::WriterStoresMark,
    };
    let reads = match now.r {
        ReaderAt::Rest => Step::ReaderLoadsMark,
        ReaderAt::LoadedMark { .. } => Step::ReaderLoadsWriter,
        ReaderAt::LoadedWriter { .. } => Step::ReaderLoadsReader,
        ReaderAt::Granted { .. } => Step::ReaderStoresReader { used: 0 },
        ReaderAt::MovedReader => Step::ReaderStoresMark,
    };
    assert(by_writer(writes) && now.enabled(writes));
    assert(!by_writer(reads) && now.enabled(reads));
}

} // verus!
