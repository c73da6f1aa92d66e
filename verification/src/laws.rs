//! What holds of a ring buffer as a whole.

use crate::ring::{
    advanced, appended, lemma_commit, lemma_consume, lemma_grant_read, min, overwrite, taken,
    written, ReadRegion, Ring, WriteRegion,
};
use vstd::prelude::*;

verus! {

/// A read grant and a write grant that are out at the same time share no byte, and
/// no byte of a write grant is unread.
pub proof fn law_grants_do_not_overlap(r: Ring, g: WriteRegion, h: ReadRegion, at: int)
    requires
        r.wf(),
        r.holds_write(g),
        g.start <= at < g.start + g.len,
    ensures
        0 <= at < r.capacity(),
        r.holds_read(h) ==> !(h.start <= at < h.start + h.len),
        r.wrapped == 0 ==> !(r.reader <= at < r.writer),
        r.wrapped > 0 ==> !(r.reader <= at < r.wrapped) && !(0 <= at < r.writer),
{
}

/// What one half does takes no grant from the other.
pub proof fn law_grants_outlive_the_other_half(r: Ring, g: WriteRegion, h: ReadRegion, used: int)
    requires
        r.wf(),
        r.holds_write(g),
        r.holds_read(h),
        used >= 0,
    ensures
        r.commit(g, used).holds_read(h),
        r.commit(g, used).read_bytes(h) == r.read_bytes(h),
        r.consume(h, used).holds_write(g),
        r.consume(h, used).write_bytes(g) == r.write_bytes(g),
{
    lemma_commit(r, g, used);
    lemma_consume(r, h, used);
}

/// The unread bytes and the free ones make up the memory, but for what the writer has
/// skipped at its end. With nothing unread, all of it is free.
pub proof fn law_room(r: Ring)
    requires
        r.wf(),
    ensures
        0 <= r.free() <= r.capacity(),
        r.wrapped == 0 ==> r.unread().len() + r.free() == r.capacity(),
        r.wrapped > 0 ==> r.unread().len() + r.free() == r.wrapped <= r.capacity(),
        r.unread().len() == 0 ==> r.free() == r.capacity(),
{
}

/// Consuming two regions to their ends consumes everything.
pub proof fn law_two_reads_empty_the_ring(r: Ring)
    requires
        r.wf(),
        !r.read_granted,
    ensures
        ({
            let first = r.consume(r.read_region(), r.read_region().len);
            let second = first.consume(first.read_region(), first.read_region().len);
            second.unread() == Seq::<u8>::empty()
        }),
{
    let first = r.consume(r.read_region(), r.read_region().len);
    lemma_grant_read(r);
    if r.can_grant_read() {
        lemma_consume(r.lend_read(), r.read_region(), r.read_region().len);
        assert(first =~= r.lend_read().consume(r.read_region(), r.read_region().len));
    }
    lemma_grant_read(first);
    let second = first.consume(first.read_region(), first.read_region().len);
    if first.can_grant_read() {
        lemma_consume(first.lend_read(), first.read_region(), first.read_region().len);
        assert(second =~= first.lend_read().consume(
            first.read_region(),
            first.read_region().len,
        ));
    }
    assert(second.unread() =~= Seq::<u8>::empty());
}

/// What is written to an empty buffer is what the next read gives back, in one go.
pub proof fn law_read_gives_back_the_write(
    empty: Ring,
    want: int,
    bytes: Seq<u8>,
    n: int,
    full: Ring,
    buf: Seq<u8>,
    filled: Seq<u8>,
    m: int,
    after: Ring,
)
    requires
        empty.wf(),
        want > 0,
        empty.can_grant_write(want),
        empty.unread() == Seq::<u8>::empty(),
        written(empty, empty.write_region(want), bytes, n, full),
        taken(full, full.read_region(), buf, filled, m, after),
        n <= buf.len(),
    ensures
        m == n,
        filled.take(n) == bytes.take(n),
        filled.skip(n) == buf.skip(n),
        after.unread() == Seq::<u8>::empty(),
{
    assert(full.unread() =~= bytes.take(n));
    assert(full.unread().len() == n);
    assert(filled.take(n) =~= bytes.take(n));
    assert(filled.skip(n) =~= buf.skip(n));
    assert(after.unread() =~= Seq::<u8>::empty());
}

/// A transfer into or out of a ring, or a change to what is on its way.
pub enum Transfer {
    /// `n` bytes of `bytes` are stored in `at` and committed.
    Write { at: WriteRegion, bytes: Seq<u8>, n: int },
    /// `bytes[from..to]` are committed, in one go or in several.
    Append { bytes: Seq<u8>, from: int, to: int },
    /// `n` bytes of `of` are copied to a buffer and consumed.
    Read { of: ReadRegion, buf: Seq<u8>, filled: Seq<u8>, n: int },
    /// `bytes` are stored in a read grant, in place of what it shows.
    Edit { of: ReadRegion, bytes: Seq<u8> },
}

impl Transfer {
    /// Whether it leads from `before` to `after`.
    pub open spec fn leads(self, before: Ring, after: Ring) -> bool {
        match self {
            Transfer::Write { at, bytes, n } => written(before, at, bytes, n, after),
            Transfer::Append { bytes, from, to } => {
                &&& 0 <= from <= to <= bytes.len()
                &&& appended(before, after, bytes, from, to)
            },
            Transfer::Read { of, buf, filled, n } => taken(before, of, buf, filled, n, after),
            Transfer::Edit { of, bytes } => {
                &&& bytes.len() == of.len <= before.unread().len()
                &&& after == before.fill(of.start, bytes)
                &&& after.unread() == overwrite(before.unread(), 0, bytes)
            },
        }
    }

    /// Whether it leads from `before` to `after`, and gets at least a byte out of a
    /// region that shows what is unread.
    pub open spec fn reads_something(self, before: Ring, after: Ring) -> bool {
        &&& self matches Transfer::Read { of, buf, filled, n }
        &&& n > 0
        &&& before.lend_read().holds_read(of)
        &&& self.leads(before, after)
    }

    /// The bytes that went in.
    pub open spec fn put(self) -> Seq<u8> {
        match self {
            Transfer::Write { at, bytes, n } => bytes.take(n),
            Transfer::Append { bytes, from, to } => bytes.subrange(from, to),
            Transfer::Read { .. } => Seq::empty(),
            Transfer::Edit { .. } => Seq::empty(),
        }
    }

    /// The bytes that came out.
    pub open spec fn got(self) -> Seq<u8> {
        match self {
            Transfer::Write { .. } => Seq::empty(),
            Transfer::Append { .. } => Seq::empty(),
            Transfer::Read { of, buf, filled, n } => filled.take(n),
            Transfer::Edit { .. } => Seq::empty(),
        }
    }
}

/// All bytes that came out.
pub open spec fn all_got(transfers: Seq<Transfer>) -> Seq<u8>
    decreases transfers.len(),
{
    if transfers.len() == 0 {
        Seq::empty()
    } else {
        all_got(transfers.drop_last()) + transfers.last().got()
    }
}

/// All bytes that went in. What was stored in a read grant stands in place of what it
/// showed: behind everything that had come out.
pub open spec fn all_put(transfers: Seq<Transfer>) -> Seq<u8>
    decreases transfers.len(),
{
    if transfers.len() == 0 {
        Seq::empty()
    } else {
        let shorter = transfers.drop_last();
        match transfers.last() {
            Transfer::Edit { of, bytes } => overwrite(
                all_put(shorter),
                all_got(shorter).len() as int,
                bytes,
            ),
            t => all_put(shorter) + t.put(),
        }
    }
}

/// Over any number of reads and writes, what came out and what is still unread is
/// exactly what went in: in order, nothing lost, nothing twice, and nothing changed but
/// what the reading half has stored itself.
pub proof fn law_stream(rings: Seq<Ring>, transfers: Seq<Transfer>)
    requires
        rings.len() == transfers.len() + 1,
        rings[0].unread() == Seq::<u8>::empty(),
        forall|i: int|
            0 <= i < transfers.len() ==> (#[trigger] transfers[i]).leads(rings[i], rings[i + 1]),
    ensures
        all_put(transfers) == all_got(transfers) + rings.last().unread(),
    decreases transfers.len(),
{
    if transfers.len() == 0 {
        assert(all_put(transfers) =~= all_got(transfers) + rings.last().unread());
    } else {
        let t = transfers.last();
        let before = rings[rings.len() - 2];
        let after = rings.last();
        let shorter = transfers.drop_last();
        assert forall|i: int| 0 <= i < shorter.len() implies (#[trigger] shorter[i]).leads(
            rings.drop_last()[i],
            rings.drop_last()[i + 1],
        ) by {
            assert(transfers[i].leads(rings[i], rings[i + 1]));
        }
        law_stream(rings.drop_last(), shorter);
        assert(transfers[transfers.len() - 1].leads(before, after));
        if t is Edit {
            assert(all_got(transfers) =~= all_got(shorter));
            assert(all_put(transfers) =~= all_got(transfers) + after.unread());
        } else {
            assert(before.unread() + t.put() =~= t.got() + after.unread());
            assert(all_put(transfers) =~= all_got(shorter) + (before.unread() + t.put()));
            assert(all_got(transfers) + after.unread() =~= all_got(shorter) + (t.got()
                + after.unread()));
        }
    }
}

/// Whether `bytes` are written in rounds: the steps lead from `before[i]` to `after[i]`
/// and from `done[i]` to `done[i + 1]`, and something is read between two of them.
#[verifier::opaque]
pub open spec fn in_rounds(
    before: Seq<Ring>,
    after: Seq<Ring>,
    bytes: Seq<u8>,
    done: Seq<int>,
    reads: Seq<Transfer>,
) -> bool {
    &&& after.len() == before.len()
    &&& reads.len() == before.len() - 1
    &&& done.len() == before.len() + 1
    &&& done[0] == 0
    &&& forall|i: int|
        0 <= i < before.len() ==> {
            &&& (#[trigger] before[i]).wf()
            &&& after[i].wf()
            &&& advanced(before[i], after[i], bytes, done[i], done[i + 1])
        }
    &&& forall|i: int|
        0 <= i < reads.len() ==> (#[trigger] reads[i]).reads_something(after[i], before[i + 1])
}

/// One step of a round, where there is room for it.
proof fn lemma_round_writes(
    before: Seq<Ring>,
    after: Seq<Ring>,
    bytes: Seq<u8>,
    done: Seq<int>,
    reads: Seq<Transfer>,
    i: int,
)
    requires
        in_rounds(before, after, bytes, done, reads),
        0 <= i < before.len(),
        !before[i].write_granted,
        before[i].free() > 0,
        0 <= done[i] <= bytes.len(),
    ensures
        done[i] <= done[i + 1] <= bytes.len(),
        done[i] < bytes.len() ==> done[i] < done[i + 1],
        !after[i].write_granted,
        after[i].unread() == before[i].unread() + bytes.subrange(done[i], done[i + 1]),
{
    reveal(in_rounds);
    assert(before[i].wf());
}

/// Reading between two rounds makes room.
proof fn lemma_round_reads(
    before: Seq<Ring>,
    after: Seq<Ring>,
    bytes: Seq<u8>,
    done: Seq<int>,
    reads: Seq<Transfer>,
    i: int,
)
    requires
        in_rounds(before, after, bytes, done, reads),
        0 <= i < before.len() - 1,
    ensures
        before[i + 1].free() > 0,
        before[i + 1].write_granted == after[i].write_granted,
        after[i].unread() == reads[i].got() + before[i + 1].unread(),
{
    reveal(in_rounds);
    assert(before[i].wf() && after[i].wf());
    assert(reads[i].reads_something(after[i], before[i + 1]));
    assert(after[i].unread() =~= reads[i].got() + before[i + 1].unread());
}

/// What holds after the round at `i`.
proof fn lemma_rounds(
    before: Seq<Ring>,
    after: Seq<Ring>,
    bytes: Seq<u8>,
    done: Seq<int>,
    reads: Seq<Transfer>,
    i: int,
)
    requires
        in_rounds(before, after, bytes, done, reads),
        0 <= i < before.len(),
        reads.len() == before.len() - 1,
        done[0] == 0,
        !before[0].write_granted,
        before[0].free() > 0,
    ensures
        0 <= done[i + 1] <= bytes.len(),
        done[i + 1] >= min(i + 1, bytes.len() as int),
        !after[i].write_granted,
        before[0].unread() + bytes.take(done[i + 1]) == all_got(reads.take(i)) + after[i].unread(),
    decreases i,
{
    let new = bytes.subrange(done[i], done[i + 1]);
    if i == 0 {
        lemma_round_writes(before, after, bytes, done, reads, 0);
        assert(new =~= bytes.take(done[1]));
        assert(all_got(reads.take(0)) + after[0].unread() =~= after[0].unread());
    } else {
        lemma_rounds(before, after, bytes, done, reads, i - 1);
        lemma_round_reads(before, after, bytes, done, reads, i - 1);
        lemma_round_writes(before, after, bytes, done, reads, i);
        let got = all_got(reads.take(i - 1));
        let t = reads[i - 1];
        assert(reads.take(i).drop_last() =~= reads.take(i - 1));
        assert(all_got(reads.take(i)) == got + t.got());
        assert(bytes.take(done[i]) + new =~= bytes.take(done[i + 1]));
        assert(before[0].unread() + bytes.take(done[i + 1]) =~= (before[0].unread() + bytes.take(
            done[i],
        )) + new);
        assert((got + t.got()) + (before[i].unread() + new) =~= (got + (t.got()
            + before[i].unread())) + new);
    }
}

/// A buffer of any length gets into the ring, one step after the other, so long as
/// something is read in between. Each step moves at least a byte until all are in, so it
/// takes no more steps than there are bytes. What was unread at first comes out, and
/// then the bytes, in order.
pub proof fn law_steps_write_everything(
    before: Seq<Ring>,
    after: Seq<Ring>,
    bytes: Seq<u8>,
    done: Seq<int>,
    reads: Seq<Transfer>,
)
    requires
        before.len() > 0,
        in_rounds(before, after, bytes, done, reads),
        !before[0].write_granted,
        before[0].free() > 0,
    ensures
        done.last() <= bytes.len(),
        done.last() >= min(before.len() as int, bytes.len() as int),
        before.len() >= bytes.len() ==> done.last() == bytes.len(),
        !after.last().write_granted,
        before[0].unread() + bytes.take(done.last()) == all_got(reads) + after.last().unread(),
{
    assert(after.len() == before.len() && reads.len() == before.len() - 1 && done.len()
        == before.len() + 1 && done[0] == 0) by {
        reveal(in_rounds);
    }
    lemma_rounds(before, after, bytes, done, reads, before.len() - 1);
    assert(reads.take(before.len() - 1) =~= reads);
}

} // verus!
