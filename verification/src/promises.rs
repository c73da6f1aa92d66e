//! What the operations come to, said of the cursors, the flags and the memory alone.
//!
//! Nothing here leans on how a [`Ring`] works its regions out: each law takes the fields
//! of a ring as they are, and says what has to be true of the outcome.

use crate::app::{read_target, write_target};
use crate::cursors::{monus, read_span, write_span};
use crate::ring::{
    advanced, appended, keeps_read_grants, keeps_write_grants, min, overwrite, taken, written,
    ReadRegion, Ring, WriteRegion,
};
use crate::soft::SoftReader;
use crate::wait::{
    parked, polled, polled_for_room, waited, waiter_stored, wakeup_stored, woken, Progress,
};
use crate::zeros;
use maitake_sync::WaitCell;
use vstd::prelude::*;

verus! {

// ---- Numbers and bytes ---- //
/// The smaller of two integers is one of them and exceeds neither. Taking away never
/// goes below 0, and otherwise can be undone by adding.
pub proof fn law_numbers(a: int, b: int)
    ensures
        min(a, b) <= a,
        min(a, b) <= b,
        min(a, b) == a || min(a, b) == b,
        a >= b ==> monus(a, b) + b == a,
        a <= b ==> monus(a, b) == 0,
{
}

/// There are as many zeros as were asked for, and each of them is 0.
pub proof fn law_zeros(n: nat)
    ensures
        zeros(n).len() == n,
        forall|i: int| 0 <= i < n ==> zeros(n)[i] == 0,
{
}

/// Bytes that are stored are found where they were stored, and every other byte is as it
/// was.
pub proof fn law_stored_bytes(memory: Seq<u8>, start: int, bytes: Seq<u8>)
    requires
        0 <= start,
        start + bytes.len() <= memory.len(),
    ensures
        overwrite(memory, start, bytes).len() == memory.len(),
        overwrite(memory, start, bytes).subrange(start, start + bytes.len()) == bytes,
        overwrite(memory, start, bytes).take(start) == memory.take(start),
        overwrite(memory, start, bytes).skip(start + bytes.len()) == memory.skip(
            start + bytes.len(),
        ),
{
    let after = overwrite(memory, start, bytes);
    assert(after.subrange(start, start + bytes.len()) =~= bytes);
    assert(after.take(start) =~= memory.take(start));
    assert(after.skip(start + bytes.len()) =~= memory.skip(start + bytes.len()));
}

// ---- What a ring has room for, and what is in it ---- //
/// All of the memory that a ring is given can be written to, and nothing of it is there
/// to be read. No grant is out.
pub proof fn law_new_ring(memory: Seq<u8>)
    ensures
        Ring::over(memory).initialized,
        Ring::over(memory).memory == memory,
        Ring::over(memory).capacity() == memory.len(),
        Ring::over(memory).free() == memory.len(),
        Ring::over(memory).unread().len() == 0,
        !Ring::over(memory).write_granted,
        !Ring::over(memory).read_granted,
        Ring::over(memory).wrapped == 0,
        Ring::over(memory).writer == 0,
        Ring::over(memory).reader == 0,
        Ring::over(memory).wf(),
{
}

/// A ring without memory has room for nothing, and has not been initialized.
pub proof fn law_fresh_ring()
    ensures
        !Ring::fresh().initialized,
        Ring::fresh().memory.len() == 0,
        Ring::fresh().free() == 0,
        Ring::fresh().unread().len() == 0,
        !Ring::fresh().write_granted,
        !Ring::fresh().read_granted,
        Ring::fresh().wrapped == 0,
        Ring::fresh().writer == 0,
        Ring::fresh().reader == 0,
        Ring::fresh().wf(),
{
}

/// How the cursors lie: the reader is not ahead of the writer, or, once that has gone
/// back to the start, the writer is not ahead of the reader, nor the reader of the mark.
/// Every initialized ring whose cursors lie so is a ring that can be worked with.
pub proof fn law_order_of_cursors(r: Ring)
    ensures
        r.wf() ==> 0 <= r.reader <= r.memory.len() && 0 <= r.writer <= r.memory.len(),
        r.wf() ==> 0 <= r.wrapped <= r.memory.len(),
        r.wf() && r.wrapped == 0 ==> r.reader <= r.writer,
        r.wf() && r.wrapped > 0 ==> 0 < r.writer <= r.reader <= r.wrapped,
        r.wf() && !r.initialized ==> r.memory.len() == 0 && !r.read_granted && !r.write_granted,
        r.initialized && r.wrapped == 0 && 0 <= r.reader <= r.writer <= r.memory.len() ==> r.wf(),
        r.initialized && 0 < r.writer <= r.reader <= r.wrapped <= r.memory.len() ==> r.wf(),
{
}

/// While the writer is ahead of the reader, the unread bytes lie between the two, and
/// everything else is free.
pub proof fn law_contents_in_one_piece(r: Ring)
    requires
        r.wrapped == 0,
        0 <= r.reader <= r.writer <= r.memory.len(),
    ensures
        r.capacity() == r.memory.len(),
        r.unread().len() == r.writer - r.reader,
        forall|i: int| 0 <= i < r.writer - r.reader ==> r.unread()[i] == r.memory[r.reader + i],
        r.free() + r.unread().len() == r.memory.len(),
{
}

/// Once the writer has gone back to the start, the unread bytes are those up to the mark
/// and then those up to the writer, and what lies between writer and reader is free.
pub proof fn law_contents_in_two_pieces(r: Ring)
    requires
        0 < r.writer <= r.reader <= r.wrapped <= r.memory.len(),
    ensures
        r.capacity() == r.memory.len(),
        r.unread().len() == (r.wrapped - r.reader) + r.writer,
        forall|i: int| r.reader <= i < r.wrapped ==> r.unread()[i - r.reader] == r.memory[i],
        forall|i: int|
            0 <= i < r.writer ==> r.unread()[(r.wrapped - r.reader) + i] == #[trigger] r.memory[i],
        r.writer + r.free() == r.reader,
        r.free() + r.unread().len() == r.wrapped,
{
}

// ---- Grants ---- //
/// A write grant is never shorter than the room where it starts: once the writer has
/// gone back to the start, every request is shown all of the free bytes.
pub proof fn law_write_grant_up_to_the_reader(r: Ring, want: int)
    requires
        0 < r.writer <= r.reader <= r.wrapped <= r.memory.len(),
        want > 0,
    ensures
        r.write_region(want).start == r.writer,
        r.write_region(want).writer == r.writer,
        r.write_region(want).start + r.write_region(want).len == r.reader,
        r.write_region(want).len == r.free(),
        !r.write_region(want).wraps(),
        r.can_grant_write(want) <==> !r.write_granted && r.writer < r.reader,
{
}

/// A request that fits behind the writer is granted there, up to the end of the memory.
/// One that does not is granted the longer of the two stretches, all of it. The writer
/// goes back to the start for nothing less.
pub proof fn law_write_grant_is_the_best(r: Ring, want: int)
    requires
        r.wrapped == 0,
        0 <= r.reader <= r.writer <= r.memory.len(),
        want > 0,
    ensures
        ({
            let g = r.write_region(want);
            let behind = r.memory.len() - r.writer;
            &&& g.writer == r.writer
            // The whole of one of the two stretches
            &&& (g.start == r.writer && g.start + g.len == r.memory.len()) || (g.start == 0
                && g.start + g.len == r.reader)
            // The one at the start only where it is longer, and is needed
            &&& g.start != r.writer ==> r.reader > behind && want > behind
            &&& g.wraps() <==> g.start != r.writer
            // No request is shown less than there is to be had
            &&& want <= behind ==> g.len == behind
            &&& want > behind ==> g.len >= behind && g.len >= r.reader
            &&& r.can_grant_write(want) <==> !r.write_granted && (r.writer < r.memory.len()
                || r.reader > 0)
        }),
{
}

/// Whether there is a grant does not depend on how much is asked for: there is one
/// exactly when none is out and a byte is free.
pub proof fn law_write_grant_whatever_is_asked(r: Ring, want: int, other: int)
    requires
        r.wf(),
        want > 0,
        other > 0,
    ensures
        r.can_grant_write(want) <==> r.can_grant_write(other),
        r.can_grant_write(want) <==> !r.write_granted && r.free() > 0,
        want <= other ==> r.write_region(want).len <= r.write_region(other).len,
{
}

/// A read grant shows the oldest unread bytes: all of them, or as many as lie before the
/// wrap mark.
pub proof fn law_read_grant_is_the_oldest(r: Ring)
    requires
        r.wf(),
    ensures
        ({
            let g = r.read_region();
            &&& g.reader == r.reader
            &&& g.wrapped == r.wrapped
            &&& r.can_grant_read() <==> !r.read_granted && r.unread().len() > 0
            &&& 0 <= g.start && 0 <= g.len && g.start + g.len <= r.memory.len()
            &&& forall|i: int| 0 <= i < g.len ==> r.unread()[i] == r.memory[g.start + i]
            // In one piece, or behind the mark: all that is unread
            &&& r.wrapped == 0 || r.reader == r.wrapped ==> g.len == r.unread().len()
                && g.start + g.len == r.writer
            &&& r.wrapped > 0 && r.reader < r.wrapped ==> g.start == r.reader && g.start + g.len
                == r.wrapped
        }),
{
}

/// Handing a grant out sets its flag and does nothing else.
pub proof fn law_lending(r: Ring)
    ensures
        r.lend_write().write_granted,
        r.lend_write().read_granted == r.read_granted,
        r.lend_read().read_granted,
        r.lend_read().write_granted == r.write_granted,
        forall|after: Ring|
            after == r.lend_write() || after == r.lend_read() ==> {
                &&& (#[trigger] after.memory) == r.memory
                &&& after.initialized == r.initialized
                &&& after.wrapped == r.wrapped
                &&& after.writer == r.writer
                &&& after.reader == r.reader
            },
{
}

/// What is granted is held, and can be given back.
pub proof fn law_granted_is_held(r: Ring, want: int)
    requires
        r.wf(),
        want > 0,
    ensures
        !r.write_granted && r.free() > 0 ==> r.lend_write().holds_write(r.write_region(want)),
        !r.read_granted && r.unread().len() > 0 ==> r.lend_read().holds_read(r.read_region()),
{
}

/// A write grant that is held starts at the writer or at the start of the memory, and
/// lies in its bounds and outside of everything that is unread.
pub proof fn law_held_to_write(r: Ring, g: WriteRegion)
    requires
        r.wf(),
        r.holds_write(g),
    ensures
        r.write_granted,
        g.len > 0,
        g.writer == r.writer,
        0 <= g.start,
        g.start + g.len <= r.memory.len(),
        g.start == r.writer || g.start == 0,
        g.wraps() <==> g.start == 0 && r.writer > 0,
        g.wraps() ==> r.wrapped == 0,
        r.wrapped == 0 ==> g.start + g.len <= r.reader || g.start >= r.writer,
        r.wrapped > 0 ==> g.start == r.writer && g.start + g.len <= r.reader,
        r.write_bytes(g).len() == g.len,
        forall|i: int| 0 <= i < g.len ==> r.write_bytes(g)[i] == r.memory[g.start + i],
{
}

/// A read grant that is held shows the oldest unread bytes.
pub proof fn law_held_to_read(r: Ring, g: ReadRegion)
    requires
        r.wf(),
        r.holds_read(g),
    ensures
        r.read_granted,
        0 < g.len <= r.unread().len(),
        g.reader == r.reader,
        0 <= g.start,
        g.start + g.len <= r.memory.len(),
        r.read_bytes(g).len() == g.len,
        forall|i: int| 0 <= i < g.len ==> r.read_bytes(g)[i] == r.memory[g.start + i],
        forall|i: int| 0 <= i < g.len ==> r.read_bytes(g)[i] == r.unread()[i],
{
}

/// A grant that is kept is out afterwards, with the same bytes in it.
pub proof fn law_kept_grants(before: Ring, after: Ring, g: WriteRegion, h: ReadRegion)
    requires
        before.wf(),
        after.wf(),
    ensures
        keeps_write_grants(before, after) && before.holds_write(g) ==> {
            &&& after.holds_write(g)
            &&& after.write_granted
            &&& forall|i: int|
                g.start <= i < g.start + g.len ==> after.memory[i] == #[trigger] before.memory[i]
        },
        keeps_read_grants(before, after) && before.holds_read(h) ==> {
            &&& after.holds_read(h)
            &&& after.read_granted
            &&& forall|i: int|
                h.start <= i < h.start + h.len ==> after.memory[i] == #[trigger] before.memory[i]
        },
{
    if keeps_write_grants(before, after) && before.holds_write(g) {
        assert forall|i: int| g.start <= i < g.start + g.len implies after.memory[i]
            == #[trigger] before.memory[i] by {
            assert(after.write_bytes(g)[i - g.start] == before.write_bytes(g)[i - g.start]);
        }
    }
    if keeps_read_grants(before, after) && before.holds_read(h) {
        assert forall|i: int| h.start <= i < h.start + h.len implies after.memory[i]
            == #[trigger] before.memory[i] by {
            assert(after.read_bytes(h)[i - h.start] == before.read_bytes(h)[i - h.start]);
        }
    }
}

/// Storing bytes puts them where they are to go, and changes nothing else in the memory,
/// no cursor and no flag.
pub proof fn law_filling(r: Ring, start: int, bytes: Seq<u8>)
    requires
        0 <= start,
        start + bytes.len() <= r.memory.len(),
    ensures
        ({
            let after = r.fill(start, bytes);
            &&& after.memory.len() == r.memory.len()
            &&& after.memory.subrange(start, start + bytes.len()) == bytes
            &&& forall|i: int|
                0 <= i < r.memory.len() && !(start <= i < start + bytes.len()) ==> after.memory[i]
                    == #[trigger] r.memory[i]
            &&& after.initialized == r.initialized
            &&& after.wrapped == r.wrapped
            &&& after.writer == r.writer
            &&& after.reader == r.reader
            &&& after.write_granted == r.write_granted
            &&& after.read_granted == r.read_granted
        }),
{
    assert(r.fill(start, bytes).memory.subrange(start, start + bytes.len()) =~= bytes);
}

// ---- Giving grants back ---- //
/// Committing makes as many bytes readable as were used, but no more than were granted.
/// They are the first of the grant, and come behind everything that was unread. The grant
/// is free again, and neither the memory nor the reader is touched.
pub proof fn law_committed_bytes(r: Ring, g: WriteRegion, used: int)
    requires
        r.wf(),
        r.holds_write(g),
        used >= 0,
    ensures
        ({
            let after = r.commit(g, used);
            let n = after.unread().len() - r.unread().len();
            &&& after.wf()
            &&& used <= g.len ==> n == used
            &&& used >= g.len ==> n == g.len
            &&& after.unread() == r.unread() + r.memory.subrange(g.start, g.start + n)
            &&& !after.write_granted
            &&& after.read_granted == r.read_granted
            &&& after.initialized == r.initialized
            &&& after.memory == r.memory
            &&& after.reader == r.reader
        }),
{
}

/// Committing takes up the room that it uses. Where the writer goes back to the start, it
/// leaves the rest of the memory behind the mark until the reader comes to it.
pub proof fn law_commit_takes_room(r: Ring, g: WriteRegion, used: int)
    requires
        r.wf(),
        r.holds_write(g),
        used >= 0,
    ensures
        ({
            let after = r.commit(g, used);
            let n = after.unread().len() - r.unread().len();
            &&& used == 0 ==> after.wrapped == r.wrapped && after.writer == r.writer
            &&& used > 0 ==> after.writer == g.start + n
            &&& used > 0 && g.start != r.writer ==> after.wrapped == r.writer && after.free()
                == r.reader - n
            &&& g.start == r.writer ==> after.wrapped == r.wrapped && after.free() == r.free() - n
        }),
{
}

/// Consuming takes as many of the oldest unread bytes away as were used, but no more than
/// were granted. The grant is free again, and neither the memory nor the writer is
/// touched.
pub proof fn law_consumed_bytes(r: Ring, g: ReadRegion, used: int)
    requires
        r.wf(),
        r.holds_read(g),
        used >= 0,
    ensures
        ({
            let after = r.consume(g, used);
            let n = r.unread().len() - after.unread().len();
            &&& after.wf()
            &&& used <= g.len ==> n == used
            &&& used >= g.len ==> n == g.len
            &&& after.unread() == r.unread().skip(n)
            &&& !after.read_granted
            &&& after.write_granted == r.write_granted
            &&& after.initialized == r.initialized
            &&& after.memory == r.memory
            &&& after.writer == r.writer
            &&& after.free() >= r.free() + n
            &&& used == 0 ==> after.reader == r.reader && after.wrapped == r.wrapped
        }),
{
}

/// What is consumed is free again, and with the last byte before the wrap mark everything
/// that the writer had skipped: the mark is gone, and all that is not unread is free. A
/// grant from before the mark was set leaves the mark to the next one.
pub proof fn law_consuming_makes_room(r: Ring, g: ReadRegion, used: int)
    requires
        r.wf(),
        r.holds_read(g),
        used > 0,
    ensures
        ({
            let after = r.consume(g, used);
            let n = r.unread().len() - after.unread().len();
            // There was no mark, or the reader stops short of it
            &&& g.wrapped == 0 || r.reader + n < r.wrapped ==> after.wrapped == r.wrapped
                && after.reader == r.reader + n && after.free() == r.free() + n
            // The reader comes to the mark, or was there, and the mark goes
            &&& g.wrapped > 0 && r.reader + n >= r.wrapped ==> after.wrapped == 0 && after.free()
                + after.unread().len() == r.memory.len()
            &&& g.wrapped > 0 && r.reader < r.wrapped && r.reader + n == r.wrapped ==> after.reader
                == 0
            &&& g.wrapped > 0 && r.reader == r.wrapped ==> after.reader == n
            &&& g.wrapped > 0 ==> g.wrapped == r.wrapped
        }),
{
}

/// Reading all that a fresh grant shows goes up to the wrap mark and past it: whatever
/// the writer had skipped is free, and the bytes that are left lie in one piece.
pub proof fn law_reading_on_past_the_mark(r: Ring)
    requires
        r.wf(),
        !r.read_granted,
        r.unread().len() > 0,
    ensures
        ({
            let after = r.lend_read().consume(r.read_region(), r.read_region().len);
            &&& after.wrapped == 0
            &&& after.free() + after.unread().len() == r.memory.len()
            &&& r.wrapped > 0 && r.reader < r.wrapped ==> after.unread() == r.memory.take(r.writer)
            &&& r.wrapped == 0 || r.reader == r.wrapped ==> after.unread().len() == 0
        }),
{
    let after = r.lend_read().consume(r.read_region(), r.read_region().len);
    if r.wrapped > 0 && r.reader < r.wrapped {
        assert(after.unread() =~= r.memory.take(r.writer));
    }
}

/// A ring that has been read to its end has all of its memory free, and the next request
/// for more than lies behind the writer is shown at least half of it.
pub proof fn law_empty_ring_is_all_free(r: Ring, want: int)
    requires
        r.wf(),
        r.unread().len() == 0,
        want > 0,
    ensures
        r.free() == r.memory.len(),
        want <= r.memory.len() - r.writer || 2 * r.write_region(want).len >= r.memory.len(),
{
}

// ---- Writing and reading ---- //
/// A write moves as many bytes as there are, or as the region has, and these come behind
/// everything that was unread. No write grant is out afterwards.
pub proof fn law_what_a_write_does(
    before: Ring,
    g: WriteRegion,
    bytes: Seq<u8>,
    n: int,
    after: Ring,
)
    requires
        before.wf(),
        before.lend_write().holds_write(g),
        written(before, g, bytes, n, after),
    ensures
        n <= bytes.len(),
        n <= g.len,
        n == bytes.len() || n == g.len,
        after.unread().len() == before.unread().len() + n,
        after.unread() == before.unread() + bytes.take(n),
        after.memory.subrange(g.start, g.start + n) == bytes.take(n),
        forall|i: int|
            0 <= i < before.memory.len() && !(g.start <= i < g.start + n) ==> after.memory[i]
                == #[trigger] before.memory[i],
        after.memory.len() == before.memory.len(),
        after.reader == before.reader,
        n == 0 ==> after.writer == before.writer && after.wrapped == before.wrapped,
        n > 0 ==> after.writer == g.start + n,
        n > 0 && g.start != before.writer ==> after.wrapped == before.writer,
        g.start == before.writer ==> after.wrapped == before.wrapped,
        !after.write_granted,
        after.read_granted == before.read_granted,
        after.initialized == before.initialized,
        keeps_read_grants(before, after),
{
}

/// A write into a grant of whatever is at hand moves as many bytes as lie in one piece:
/// up to the reader where the writer has gone back to the start, else up to the end of
/// the memory, and up to the reader from the start where the writer is at that end.
pub proof fn law_how_much_a_write_moves(before: Ring, bytes: Seq<u8>, n: int, after: Ring)
    requires
        before.wf(),
        before.can_grant_write(1),
        written(before, before.write_region(1), bytes, n, after),
    ensures
        before.wrapped > 0 ==> n <= before.reader - before.writer && (n == bytes.len() || n
            == before.reader - before.writer),
        before.wrapped > 0 ==> n == bytes.len() || after.free() == 0,
        before.wrapped == 0 && before.writer < before.memory.len() ==> {
            &&& n <= before.memory.len() - before.writer
            &&& n == bytes.len() || n == before.memory.len() - before.writer
            &&& after.wrapped == 0
        },
        before.wrapped == 0 && before.writer == before.memory.len() ==> {
            &&& n <= before.reader
            &&& n == bytes.len() || n == before.reader
            &&& n > 0 ==> after.wrapped == before.memory.len()
        },
        after.free() == before.free() - n,
        bytes.len() > 0 ==> n > 0,
{
}

/// A write that asks for as much as it has gets all of it in, where it fits in one piece
/// at either side. Where it does not, it fills the longer piece.
pub proof fn law_how_much_a_request_moves(before: Ring, bytes: Seq<u8>, n: int, after: Ring)
    requires
        before.wf(),
        before.can_grant_write(bytes.len() as int),
        bytes.len() > 0,
        written(before, before.write_region(bytes.len() as int), bytes, n, after),
    ensures
        n > 0,
        ({
            let behind = before.memory.len() - before.writer;
            &&& before.wrapped == 0 && (bytes.len() <= behind || bytes.len() <= before.reader)
                ==> n == bytes.len()
            &&& before.wrapped == 0 && n < bytes.len() ==> n >= behind && n >= before.reader
            &&& before.wrapped == 0 && bytes.len() <= behind ==> after.wrapped == 0 && after.free()
                == before.free() - n
            &&& before.wrapped > 0 ==> n == bytes.len() || after.free() == 0
            &&& before.wrapped > 0 ==> after.free() == before.free() - n
        }),
{
}

/// A read of whatever is at hand moves as many bytes as lie in one piece: up to the
/// writer, or up to the wrap mark where the reader has not come to it.
pub proof fn law_how_much_a_read_moves(
    before: Ring,
    buf: Seq<u8>,
    filled: Seq<u8>,
    n: int,
    after: Ring,
)
    requires
        before.wf(),
        before.can_grant_read(),
        taken(before, before.read_region(), buf, filled, n, after),
    ensures
        ({
            let piece = if before.wrapped == 0 {
                before.writer - before.reader
            } else if before.reader < before.wrapped {
                before.wrapped - before.reader
            } else {
                before.writer
            };
            &&& n <= buf.len() && n <= piece
            &&& n == buf.len() || n == piece
            &&& n == piece ==> after.wrapped == 0 && after.free() + after.unread().len()
                == before.memory.len()
        }),
        buf.len() > 0 ==> n > 0,
        filled.take(n) == before.unread().take(n),
{
    assert(filled.take(n) =~= before.unread().take(n));
}

/// A read moves as many bytes as fit, or as the region shows: the oldest that were
/// unread. The rest of the buffer is left alone, and the rest of the bytes stays unread.
pub proof fn law_what_a_read_does(
    before: Ring,
    g: ReadRegion,
    buf: Seq<u8>,
    filled: Seq<u8>,
    n: int,
    after: Ring,
)
    requires
        before.wf(),
        before.lend_read().holds_read(g),
        taken(before, g, buf, filled, n, after),
    ensures
        n <= buf.len(),
        n <= g.len,
        n == buf.len() || n == g.len,
        filled.len() == buf.len(),
        forall|i: int| 0 <= i < n ==> filled[i] == before.unread()[i],
        filled.take(n) == before.memory.subrange(g.start, g.start + n),
        forall|i: int| n <= i < buf.len() ==> filled[i] == buf[i],
        after.unread().len() == before.unread().len() - n,
        after.unread() == before.unread().skip(n),
        after.memory == before.memory,
        after.writer == before.writer,
        !after.read_granted,
        after.write_granted == before.write_granted,
        after.initialized == before.initialized,
        after.free() >= before.free() + n,
        n == 0 ==> after.reader == before.reader && after.wrapped == before.wrapped,
        g.wrapped == 0 || before.reader + n < before.wrapped ==> after.reader == before.reader + n
            && after.wrapped == before.wrapped,
        n > 0 && g.wrapped > 0 && before.reader + n >= before.wrapped ==> after.wrapped == 0
            && after.free() + after.unread().len() == before.memory.len(),
        keeps_write_grants(before, after),
{
    let r = before.lend_read();
    assert(before.unread() == r.unread());
    assert(after == r.consume(g, n));
    law_consumed_bytes(r, g, n);
    if n > 0 {
        law_consuming_makes_room(r, g, n);
    }
    law_held_to_read(r, g);
    assert forall|i: int| 0 <= i < n implies filled[i] == before.memory.subrange(
        g.start,
        g.start + n,
    )[i] by {
        assert(filled[i] == r.unread()[i] && r.read_bytes(g)[i] == r.unread()[i]);
    }
    assert(filled.take(n) =~= before.memory.subrange(g.start, g.start + n));
}

/// Bytes that are appended follow the writer, and go on at the start of the memory where
/// its end is reached. They come behind everything that was unread, take up as much room
/// as there are of them, and change nothing else.
pub proof fn law_what_appending_does(
    before: Ring,
    after: Ring,
    bytes: Seq<u8>,
    from: int,
    to: int,
)
    requires
        before.wf(),
        0 <= from <= to <= bytes.len(),
        to - from <= before.free(),
        appended(before, after, bytes, from, to),
    ensures
        after.unread().len() == before.unread().len() + (to - from),
        after.unread() == before.unread() + bytes.subrange(from, to),
        after.free() == before.free() - (to - from),
        after.memory.len() == before.memory.len(),
        after.reader == before.reader,
        after.initialized == before.initialized,
        after.read_granted == before.read_granted,
        before.wrapped > 0 || before.writer + (to - from) <= before.memory.len() ==> {
            &&& after.wrapped == before.wrapped
            &&& after.writer == before.writer + (to - from)
        },
        before.wrapped == 0 && before.writer + (to - from) > before.memory.len() ==> {
            &&& after.wrapped == before.memory.len()
            &&& after.writer == before.writer + (to - from) - before.memory.len()
        },
        forall|i: int|
            0 <= i < before.memory.len() && !(before.writer <= i < before.writer + (to - from))
                && !(i < before.writer + (to - from) - before.memory.len()) ==> after.memory[i]
                == #[trigger] before.memory[i],
        keeps_read_grants(before, after),
{
}

/// Writing on goes as far as it can: all bytes are in, or nothing is free. While a write
/// grant is out, nothing is moved, and otherwise none is left out.
pub proof fn law_how_far_writing_goes(
    before: Ring,
    after: Ring,
    bytes: Seq<u8>,
    from: int,
    to: int,
)
    requires
        before.wf(),
        0 <= from <= bytes.len(),
        advanced(before, after, bytes, from, to),
    ensures
        from <= to <= bytes.len(),
        after.write_granted == before.write_granted,
        before.write_granted ==> to == from,
        !before.write_granted ==> to == bytes.len() || after.free() == 0,
        to - from <= before.free(),
        after.free() == before.free() - (to - from),
        after.unread().len() == before.unread().len() + (to - from),
        appended(before, after, bytes, from, to),
{
}

/// An end that holds a grant works in it. One that holds none works in what is next: all
/// that lies behind the writer, and the start of the memory only where nothing does, or
/// the oldest unread bytes.
pub proof fn law_where_an_end_works(r: Ring, g: WriteRegion, h: ReadRegion)
    requires
        r.wf(),
    ensures
        write_target(r, Some(g)) == g,
        read_target(r, Some(h)) == h,
        read_target(r, None) == r.read_region(),
        write_target(r, None).writer == r.writer,
        r.wrapped == 0 && r.writer < r.memory.len() ==> write_target(r, None).start == r.writer
            && write_target(r, None).len == r.memory.len() - r.writer,
        r.wrapped == 0 && r.writer == r.memory.len() && r.reader > 0 ==> write_target(
            r,
            None,
        ).start == 0 && write_target(r, None).len == r.reader,
        r.wrapped > 0 ==> write_target(r, None).start == r.writer && write_target(r, None).len
            == r.reader - r.writer,
{
}

/// A reading end that replaces its grant gets one whenever something is unread, unless
/// someone else has a read grant out.
pub proof fn law_when_a_grant_is_replaced(end: SoftReader, r: Ring)
    requires
        r.wf(),
    ensures
        r.unread().len() == 0 ==> !end.can_refill(r),
        r.unread().len() > 0 && end@ is Some ==> end.can_refill(r),
        r.unread().len() > 0 && !r.read_granted ==> end.can_refill(r),
        end@ is None && r.read_granted ==> !end.can_refill(r),
{
}

// ---- Snapshots ---- //
/// Whatever the three cursors are, a writer is sent to its own cursor or to the start.
/// It is never sent past the end of the memory or, once it has gone back to the start,
/// past the reader, and gets all that there is where it is sent.
pub proof fn law_any_snapshot_to_write(
    wrapped: int,
    writer: int,
    reader: int,
    capacity: int,
    want: int,
)
    requires
        0 <= wrapped,
        0 <= writer <= capacity,
        0 <= reader,
        want > 0,
    ensures
        ({
            let (start, len) = write_span(wrapped, writer, reader, capacity, want);
            let behind = capacity - writer;
            &&& len >= 0
            &&& wrapped != 0 ==> start == writer
            &&& wrapped != 0 && reader >= writer ==> start + len == reader
            &&& wrapped != 0 && reader <= writer ==> len == 0
            &&& wrapped == 0 && (want <= behind || reader <= behind) ==> start == writer && start
                + len == capacity
            &&& wrapped == 0 && want > behind && reader > behind ==> start == 0 && start + len
                == reader
        }),
{
}

/// Whatever the three cursors are, a reader is sent to its own cursor, or to the start
/// where it stands at the wrap mark. It is never sent past the mark or the writer, and
/// gets all that there is where it is sent.
pub proof fn law_any_snapshot_to_read(wrapped: int, writer: int, reader: int)
    requires
        0 <= wrapped,
        0 <= writer,
        0 <= reader,
    ensures
        ({
            let (start, len) = read_span(wrapped, writer, reader);
            let end = if wrapped == 0 {
                writer
            } else {
                wrapped
            };
            &&& len >= 0
            &&& wrapped == 0 || reader != wrapped ==> start == reader
            &&& (wrapped == 0 || reader != wrapped) && reader <= end ==> start + len == end
            &&& (wrapped == 0 || reader != wrapped) && reader >= end ==> len == 0
            &&& wrapped != 0 && reader == wrapped ==> start == 0 && start + len == writer
        }),
{
}

// ---- Waiting ---- //
/// A task that is parked has its waker stored, and no wakeup goes unseen. A cell that was
/// woken holds the wakeup and no waker. Polling takes a wakeup, or else stores a waker.
pub proof fn law_wait_cells(before: WaitCell, after: WaitCell)
    ensures
        parked(after) <==> waiter_stored(after) && !wakeup_stored(after),
        woken(after) <==> wakeup_stored(after) && !waiter_stored(after),
        polled(before, after) ==> !wakeup_stored(after),
        polled(before, after) && !wakeup_stored(before) ==> waiter_stored(after),
        polled(before, after) && wakeup_stored(before) ==> waiter_stored(after) == waiter_stored(
            before,
        ),
        waited(true, false, before, after) ==> after == before,
        waited(true, true, before, after) ==> after == before,
        waited(false, true, before, after) ==> waiter_stored(after) && !wakeup_stored(after),
        waited(false, false, before, after) ==> polled(before, after),
{
}

/// Writing bytes that need no grant leaves the cell alone. Otherwise no wakeup is left in
/// it, and where there was none before, or one grant is not enough, the caller's waker is.
pub proof fn law_cell_after_writing(
    r: Ring,
    g: WriteRegion,
    rest: int,
    failed: bool,
    before: WaitCell,
    after: WaitCell,
)
    requires
        r.wf(),
    ensures
        rest <= 0 && polled_for_room(r, None, rest, failed, before, after) ==> after == before,
        rest <= g.len && polled_for_room(r, Some(g), rest, failed, before, after) ==> after
            == before,
        rest > 0 && polled_for_room(r, None, rest, failed, before, after) ==> {
            &&& !wakeup_stored(after)
            &&& !wakeup_stored(before) ==> waiter_stored(after)
            &&& !failed && rest > r.write_region(1).len ==> waiter_stored(after)
            &&& failed || rest <= r.write_region(1).len ==> polled(before, after)
        },
        rest > g.len && polled_for_room(r, Some(g), rest, failed, before, after) ==> {
            &&& !wakeup_stored(after)
            &&& !wakeup_stored(before) ==> waiter_stored(after)
            &&& failed || rest - g.len <= r.commit(g, g.len).write_region(1).len ==> polled(
                before,
                after,
            )
            &&& !failed && rest - g.len > r.commit(g, g.len).write_region(1).len ==> waiter_stored(
                after,
            )
        },
{
}

/// A step has succeeded if it is done with a result, and has failed if it is done with an
/// error. One that waits has done neither.
pub proof fn law_outcomes<T, E>(value: T, error: E)
    ensures
        Progress::<Result<T, E>>::Ready(Ok(value)).succeeded(),
        !Progress::<Result<T, E>>::Ready(Ok(value)).failed(),
        Progress::<Result<T, E>>::Ready(Err(error)).failed(),
        !Progress::<Result<T, E>>::Ready(Err(error)).succeeded(),
        !Progress::<Result<T, E>>::Wait.succeeded(),
        !Progress::<Result<T, E>>::Wait.failed(),
{
}

} // verus!
