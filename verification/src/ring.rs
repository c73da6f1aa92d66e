//! The mathematical model of a granted ring buffer: three cursors, two grant
//! flags and the memory they divide up.

use crate::cursors::{read_span, write_span};
use vstd::prelude::*;

verus! {

/// A contiguous stretch of the memory that was handed to the writing half.
#[verifier::ext_equal]
pub struct WriteRegion {
    /// Where the stretch begins.
    pub start: int,
    /// How many bytes it has.
    pub len: int,
    /// Where the writer stood when the stretch was handed out.
    pub writer: int,
}

impl WriteRegion {
    /// Whether committing this region sends the writer back to the start of the
    /// memory, behind bytes that are still to be read.
    pub open spec fn wraps(self) -> bool {
        self.start == 0 && self.writer > 0
    }
}

/// A contiguous stretch of the memory that was handed to the reading half.
#[verifier::ext_equal]
pub struct ReadRegion {
    /// Where the stretch begins.
    pub start: int,
    /// How many bytes it has.
    pub len: int,
    /// The wrap mark when the stretch was handed out.
    pub wrapped: int,
    /// Where the reader stood when the stretch was handed out.
    pub reader: int,
}

/// The smaller of two integers.
pub open spec fn min(a: int, b: int) -> int {
    if a <= b {
        a
    } else {
        b
    }
}

/// `memory` with the bytes from `start` on replaced by `bytes`.
pub open spec fn overwrite(memory: Seq<u8>, start: int, bytes: Seq<u8>) -> Seq<u8> {
    Seq::new(
        memory.len(),
        |i: int|
            if start <= i < start + bytes.len() {
                bytes[i - start]
            } else {
                memory[i]
            },
    )
}

/// The state of a ring buffer.
///
/// While `wrapped == 0` the unread bytes are `memory[reader..writer]`. Once the
/// writer has gone back to the start, `wrapped` marks where it left off, and the
/// unread bytes are `memory[reader..wrapped]` followed by `memory[0..writer]`.
#[verifier::ext_equal]
pub struct Ring {
    pub initialized: bool,
    pub wrapped: int,
    pub writer: int,
    pub reader: int,
    pub read_granted: bool,
    pub write_granted: bool,
    pub memory: Seq<u8>,
}

impl Ring {
    /// A ring that no memory has been given to.
    pub open spec fn fresh() -> Ring {
        Ring {
            initialized: false,
            wrapped: 0,
            writer: 0,
            reader: 0,
            read_granted: false,
            write_granted: false,
            memory: Seq::empty(),
        }
    }

    /// A ring that has just been given `memory`.
    pub open spec fn over(memory: Seq<u8>) -> Ring {
        Ring { initialized: true, memory, ..Ring::fresh() }
    }

    pub open spec fn capacity(self) -> int {
        self.memory.len() as int
    }

    /// How the cursors lie at any time.
    pub open spec fn wf(self) -> bool {
        &&& !self.initialized ==> self == Ring::fresh()
        &&& self.wrapped >= 0
        &&& self.wrapped == 0 ==> 0 <= self.reader <= self.writer <= self.capacity()
        &&& self.wrapped > 0 ==> 0 < self.writer <= self.reader <= self.wrapped <= self.capacity()
    }

    /// The committed bytes that have not been consumed, oldest first.
    pub open spec fn unread(self) -> Seq<u8> {
        if self.wrapped == 0 {
            self.memory.subrange(self.reader, self.writer)
        } else {
            self.memory.subrange(self.reader, self.wrapped) + self.memory.subrange(0, self.writer)
        }
    }

    /// How many bytes can be committed before something has to be consumed.
    pub open spec fn free(self) -> int {
        if self.wrapped == 0 {
            self.capacity() - self.writer + self.reader
        } else {
            self.reader - self.writer
        }
    }

    /// How many bytes can be stored behind the writer before it has to go back to
    /// the start of the memory, or runs into the reader.
    pub open spec fn ahead(self) -> int {
        if self.wrapped == 0 {
            self.capacity() - self.writer
        } else {
            self.reader - self.writer
        }
    }

    /// The ring once `bytes` are stored from the writer on and are to be read: what
    /// does not fit at the end of the memory goes to its start.
    pub open spec fn append(self, bytes: Seq<u8>) -> Ring {
        if bytes.len() <= self.ahead() {
            Ring { writer: self.writer + bytes.len(), ..self.fill(self.writer, bytes) }
        } else {
            Ring {
                wrapped: self.capacity(),
                writer: bytes.len() - self.ahead(),
                ..self.fill(self.writer, bytes.take(self.ahead())).fill(
                    0,
                    bytes.skip(self.ahead()),
                )
            }
        }
    }

    /// The region that a writer asking for `want` bytes is shown. It is empty
    /// when there is no room.
    pub open spec fn write_region(self, want: int) -> WriteRegion {
        let (start, len) = write_span(
            self.wrapped,
            self.writer,
            self.reader,
            self.capacity(),
            want,
        );
        WriteRegion { start, len, writer: self.writer }
    }

    /// The region that a reader is shown. It is empty when nothing is unread.
    pub open spec fn read_region(self) -> ReadRegion {
        let (start, len) = read_span(self.wrapped, self.writer, self.reader);
        ReadRegion { start, len, wrapped: self.wrapped, reader: self.reader }
    }

    /// Whether a request for `want` bytes is granted.
    pub open spec fn can_grant_write(self, want: int) -> bool {
        !self.write_granted && self.write_region(want).len > 0
    }

    /// Whether a request for unread bytes is granted.
    pub open spec fn can_grant_read(self) -> bool {
        !self.read_granted && self.read_region().len > 0
    }

    /// The ring once a write region is out.
    pub open spec fn lend_write(self) -> Ring {
        Ring { write_granted: true, ..self }
    }

    /// The ring once a read region is out.
    pub open spec fn lend_read(self) -> Ring {
        Ring { read_granted: true, ..self }
    }

    /// Whether `g` is out, and still lies in the part that is the writer's.
    pub open spec fn holds_write(self, g: WriteRegion) -> bool {
        &&& self.write_granted
        &&& g.len > 0
        &&& g.writer == self.writer
        &&& if g.wraps() {
            self.wrapped == 0 && g.len <= self.reader
        } else {
            &&& g.start == self.writer
            &&& g.start + g.len <= self.capacity()
            &&& self.wrapped > 0 ==> g.start + g.len <= self.reader
        }
    }

    /// Whether `g` is out, and still lies in the part that is the reader's.
    pub open spec fn holds_read(self, g: ReadRegion) -> bool {
        &&& self.read_granted
        &&& g.len > 0
        &&& g.reader == self.reader
        &&& if g.wrapped == 0 {
            &&& g.start == self.reader
            &&& g.start + g.len <= if self.wrapped == 0 {
                self.writer
            } else {
                self.wrapped
            }
        } else {
            &&& g.wrapped == self.wrapped
            &&& if self.reader < self.wrapped {
                g.start == self.reader && g.start + g.len <= self.wrapped
            } else {
                g.start == 0 && g.len <= self.writer
            }
        }
    }

    /// The bytes that lie in a write region.
    pub open spec fn write_bytes(self, g: WriteRegion) -> Seq<u8> {
        self.memory.subrange(g.start, g.start + g.len)
    }

    /// The bytes that lie in a read region.
    pub open spec fn read_bytes(self, g: ReadRegion) -> Seq<u8> {
        self.memory.subrange(g.start, g.start + g.len)
    }

    /// The ring with `bytes` stored from `start` on.
    pub open spec fn fill(self, start: int, bytes: Seq<u8>) -> Ring {
        Ring { memory: overwrite(self.memory, start, bytes), ..self }
    }

    /// The ring once `g` is given back with its first `used` bytes to be read.
    pub open spec fn commit(self, g: WriteRegion, used: int) -> Ring {
        if used == 0 {
            Ring { write_granted: false, ..self }
        } else {
            Ring {
                write_granted: false,
                writer: g.start + min(used, g.len),
                wrapped: if g.wraps() {
                    g.writer
                } else {
                    self.wrapped
                },
                ..self
            }
        }
    }

    /// The ring once `g` is given back with its first `used` bytes read.
    pub open spec fn consume(self, g: ReadRegion, used: int) -> Ring {
        let next = g.start + min(used, g.len);
        if used == 0 {
            Ring { read_granted: false, ..self }
        } else if g.wrapped == 0 {
            Ring { read_granted: false, reader: next, ..self }
        } else if g.reader == g.wrapped {
            Ring { read_granted: false, reader: next, wrapped: 0, ..self }
        } else if next == g.wrapped {
            Ring { read_granted: false, reader: 0, wrapped: 0, ..self }
        } else {
            Ring { read_granted: false, reader: next, ..self }
        }
    }
}

/// Whether every read grant that is out in `before` is out in `after`, with the same
/// bytes in it.
pub open spec fn keeps_read_grants(before: Ring, after: Ring) -> bool {
    forall|h: ReadRegion|
        #![trigger before.holds_read(h)]
        #![trigger after.holds_read(h)]
        before.holds_read(h) ==> after.holds_read(h) && after.read_bytes(h) == before.read_bytes(h)
}

/// Whether every write grant that is out in `before` is out in `after`, with the same
/// bytes in it.
pub open spec fn keeps_write_grants(before: Ring, after: Ring) -> bool {
    forall|g: WriteRegion|
        #![trigger before.holds_write(g)]
        #![trigger after.holds_write(g)]
        before.holds_write(g) ==> after.holds_write(g) && after.write_bytes(g)
            == before.write_bytes(g)
}

/// Whether `after` is `before` once `n` bytes of `bytes` were stored in `g` and
/// committed: as many as fit, behind everything that was unread.
pub open spec fn written(
    before: Ring,
    g: WriteRegion,
    bytes: Seq<u8>,
    n: int,
    after: Ring,
) -> bool {
    &&& n == min(bytes.len() as int, g.len)
    &&& after == before.fill(g.start, bytes.take(n)).commit(g, n)
    &&& after.unread() == before.unread() + bytes.take(n)
    &&& keeps_read_grants(before, after)
}

/// Whether `after` is `before` once `n` bytes of `g` were copied to a buffer, which
/// held `buf` before and holds `filled` now, and consumed: as many as fit, the
/// oldest that were unread.
pub open spec fn taken(
    before: Ring,
    g: ReadRegion,
    buf: Seq<u8>,
    filled: Seq<u8>,
    n: int,
    after: Ring,
) -> bool {
    &&& n == min(buf.len() as int, g.len)
    &&& 0 <= n <= before.unread().len()
    &&& filled == overwrite(buf, 0, before.unread().take(n))
    &&& after == before.consume(g, n)
    &&& after.unread() == before.unread().skip(n)
    &&& keeps_write_grants(before, after)
}

/// Whether `after` is `before` once `bytes[from..to]` were committed, in one go or
/// in several: they stand behind everything that was unread, and take up as much of
/// the free room as there are of them. Whether a write grant is out is left to be
/// said beside it.
pub open spec fn appended(before: Ring, after: Ring, bytes: Seq<u8>, from: int, to: int) -> bool {
    &&& after == (Ring {
        write_granted: after.write_granted,
        ..before.append(bytes.subrange(from, to))
    })
    &&& after.unread() == before.unread() + bytes.subrange(from, to)
    &&& after.free() == before.free() - (to - from)
    &&& keeps_read_grants(before, after)
}

/// Whether `after` is `before` once as many bytes of `bytes` from `from` on were
/// committed as there is room for, up to `to`: all of them, or as many as are free.
/// Where a write grant is out, there is room for none. No write grant is left out
/// that was not out before.
pub open spec fn advanced(before: Ring, after: Ring, bytes: Seq<u8>, from: int, to: int) -> bool {
    &&& appended(before, after, bytes, from, to)
    &&& to - from == min(
        bytes.len() - from,
        if before.write_granted {
            0
        } else {
            before.free()
        },
    )
    &&& after.write_granted == before.write_granted
}

/// A region is granted exactly when none is out and there is room, and what is
/// granted is held.
pub proof fn lemma_grant_write(r: Ring, want: int)
    requires
        r.wf(),
        want > 0,
    ensures
        r.can_grant_write(want) <==> !r.write_granted && r.free() > 0,
        r.can_grant_write(want) ==> r.lend_write().holds_write(r.write_region(want)),
        r.can_grant_write(want) ==> r.lend_write().wf(),
{
}

/// A region is granted exactly when none is out and there are unread bytes. What is
/// granted is held, and shows the oldest of them.
pub proof fn lemma_grant_read(r: Ring)
    requires
        r.wf(),
    ensures
        r.can_grant_read() <==> !r.read_granted && r.unread().len() > 0,
        r.can_grant_read() ==> r.lend_read().holds_read(r.read_region()),
        r.can_grant_read() ==> r.read_bytes(r.read_region()).is_prefix_of(r.unread()),
        r.can_grant_read() ==> r.lend_read().wf(),
{
}

/// Committing puts the bytes that are used behind all that are unread.
pub proof fn lemma_commit(r: Ring, g: WriteRegion, used: int)
    requires
        r.wf(),
        r.holds_write(g),
        used >= 0,
    ensures
        r.commit(g, used).wf(),
        r.commit(g, used).unread() == r.unread() + r.write_bytes(g).take(min(used, g.len)),
        r.commit(g, used).capacity() == r.capacity(),
        keeps_read_grants(r, r.commit(g, used)),
{
    assert(r.commit(g, used).unread() =~= r.unread() + r.write_bytes(g).take(min(used, g.len)));
}

/// A read region shows the oldest unread bytes, and consuming takes those that are
/// used away.
pub proof fn lemma_consume(r: Ring, g: ReadRegion, used: int)
    requires
        r.wf(),
        r.holds_read(g),
        used >= 0,
    ensures
        r.consume(g, used).wf(),
        r.read_bytes(g).is_prefix_of(r.unread()),
        r.consume(g, used).unread() == r.unread().skip(min(used, g.len)),
        r.consume(g, used).capacity() == r.capacity(),
        keeps_write_grants(r, r.consume(g, used)),
{
    assert(r.read_bytes(g).is_prefix_of(r.unread()));
    assert(r.consume(g, used).unread() =~= r.unread().skip(min(used, g.len)));
}

/// Storing bytes in a write region changes nothing outside of it.
pub proof fn lemma_fill(r: Ring, g: WriteRegion, at: int, bytes: Seq<u8>)
    requires
        r.wf(),
        r.holds_write(g),
        g.start <= at,
        at + bytes.len() <= g.start + g.len,
    ensures
        r.fill(at, bytes).wf(),
        r.fill(at, bytes).holds_write(g),
        r.fill(at, bytes).unread() == r.unread(),
        r.fill(at, bytes).write_bytes(g) == overwrite(r.write_bytes(g), at - g.start, bytes),
        keeps_read_grants(r, r.fill(at, bytes)),
{
    assert(r.fill(at, bytes).unread() =~= r.unread());
    assert(r.fill(at, bytes).write_bytes(g) =~= overwrite(r.write_bytes(g), at - g.start, bytes));
    assert forall|h: ReadRegion| #[trigger] r.holds_read(h) implies r.fill(at, bytes).holds_read(h)
        && r.fill(at, bytes).read_bytes(h) == r.read_bytes(h) by {
        assert(r.fill(at, bytes).read_bytes(h) =~= r.read_bytes(h));
    }
}

/// Storing bytes in a read region changes nothing but the oldest unread bytes.
pub proof fn lemma_edit(r: Ring, g: ReadRegion, bytes: Seq<u8>)
    requires
        r.wf(),
        r.holds_read(g),
        bytes.len() == g.len,
    ensures
        r.fill(g.start, bytes).wf(),
        r.fill(g.start, bytes).holds_read(g),
        r.fill(g.start, bytes).read_bytes(g) == bytes,
        r.fill(g.start, bytes).unread() == overwrite(r.unread(), 0, bytes),
        keeps_write_grants(r, r.fill(g.start, bytes)),
{
    assert(r.fill(g.start, bytes).read_bytes(g) =~= bytes);
    assert(r.fill(g.start, bytes).unread() =~= overwrite(r.unread(), 0, bytes));
    assert forall|h: WriteRegion| #[trigger] r.holds_write(h) implies r.fill(
        g.start,
        bytes,
    ).holds_write(h) && r.fill(g.start, bytes).write_bytes(h) == r.write_bytes(h) by {
        assert(r.fill(g.start, bytes).write_bytes(h) =~= r.write_bytes(h));
    }
}

/// Storing bytes in a grant and committing them writes them, whether the grant was out
/// before or is handed out for it.
pub proof fn lemma_written(r: Ring, g: WriteRegion, bytes: Seq<u8>)
    requires
        r.wf(),
        r.lend_write().holds_write(g),
    ensures
        ({
            let n = min(bytes.len() as int, g.len);
            let after = r.fill(g.start, bytes.take(n)).commit(g, n);
            after.wf() && written(r, g, bytes, n, after)
        }),
{
    let n = min(bytes.len() as int, g.len);
    let lent = r.lend_write();
    let filled = lent.fill(g.start, bytes.take(n));
    let after = r.fill(g.start, bytes.take(n)).commit(g, n);
    lemma_fill(lent, g, g.start, bytes.take(n));
    lemma_commit(filled, g, n);
    assert(after =~= filled.commit(g, n));
    assert(filled.write_bytes(g).take(n) =~= bytes.take(n));
    assert forall|h: ReadRegion| #[trigger] r.holds_read(h) implies after.holds_read(h)
        && after.read_bytes(h) == r.read_bytes(h) by {
        assert(lent.holds_read(h));
        assert(filled.holds_read(h));
    }
}

/// Copying the bytes of a grant and consuming them takes them, whether the grant was
/// out before or is handed out for it.
pub proof fn lemma_taken(r: Ring, g: ReadRegion, buf: Seq<u8>)
    requires
        r.wf(),
        r.lend_read().holds_read(g),
    ensures
        ({
            let n = min(buf.len() as int, g.len);
            let after = r.consume(g, n);
            &&& after.wf()
            &&& taken(r, g, buf, overwrite(buf, 0, r.read_bytes(g).take(n)), n, after)
        }),
{
    let n = min(buf.len() as int, g.len);
    let lent = r.lend_read();
    lemma_consume(lent, g, n);
    assert(r.consume(g, n) =~= lent.consume(g, n));
    assert(r.read_bytes(g).take(n) =~= r.unread().take(n));
    assert forall|h: WriteRegion| #[trigger] r.holds_write(h) implies r.consume(g, n).holds_write(h)
        && r.consume(g, n).write_bytes(h) == r.write_bytes(h) by {
        assert(lent.holds_write(h));
    }
}

/// Before anything is written, nothing has been appended.
pub proof fn lemma_append_nothing(r: Ring, bytes: Seq<u8>, from: int)
    requires
        r.wf(),
        0 <= from <= bytes.len(),
    ensures
        appended(r, r, bytes, from, from),
{
    let none = bytes.subrange(from, from);
    assert(r.append(none) =~= r);
    assert(r.unread() + none =~= r.unread());
}

/// What is written in a grant is appended. The grant goes back to the start of the
/// memory only from its very end.
proof fn lemma_written_is_appended(
    r: Ring,
    g: WriteRegion,
    bytes: Seq<u8>,
    n: int,
    after: Ring,
)
    requires
        r.wf(),
        r.lend_write().holds_write(g),
        g.wraps() ==> g.writer == r.capacity(),
        bytes.len() > 0,
        written(r, g, bytes, n, after),
    ensures
        n > 0,
        n <= r.free(),
        after.free() == r.free() - n,
        after == (Ring { write_granted: false, ..r.append(bytes.take(n)) }),
{
    assert(after.memory =~= r.append(bytes.take(n)).memory);
}

/// Appending twice is appending both at once.
proof fn lemma_append_twice(r: Ring, a: Seq<u8>, b: Seq<u8>)
    requires
        r.wf(),
        a.len() + b.len() <= r.free(),
    ensures
        r.append(a).append(b) == r.append(a + b),
{
    let once = r.append(a + b);
    let twice = r.append(a).append(b);
    assert(twice.memory =~= once.memory);
}

/// What is written in one more grant is appended to what was appended before.
pub proof fn lemma_append_more(
    r: Ring,
    mid: Ring,
    g: WriteRegion,
    bytes: Seq<u8>,
    from: int,
    at: int,
    n: int,
    after: Ring,
)
    requires
        r.wf(),
        mid.wf(),
        0 <= from <= at < bytes.len(),
        appended(r, mid, bytes, from, at),
        mid.lend_write().holds_write(g),
        g.wraps() ==> g.writer == mid.capacity(),
        written(mid, g, bytes.subrange(at, bytes.len() as int), n, after),
    ensures
        appended(r, after, bytes, from, at + n),
        !after.write_granted,
{
    let done = bytes.subrange(from, at);
    let more = bytes.subrange(at, bytes.len() as int).take(n);
    lemma_written_is_appended(mid, g, bytes.subrange(at, bytes.len() as int), n, after);
    lemma_append_twice(r, done, more);
    assert(done + more =~= bytes.subrange(from, at + n));
    assert(mid.append(more) =~= Ring {
        write_granted: mid.write_granted,
        ..r.append(done).append(more)
    });
    assert(r.unread() + done + more =~= r.unread() + (done + more));
}

} // verus!
