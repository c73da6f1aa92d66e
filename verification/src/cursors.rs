//! A snapshot of the three cursors, and what each half makes of it.
//!
//! The cursors are loaded one after the other, so a snapshot need not be a state
//! that the buffer was ever in. Everything here is defined for every snapshot.

use vstd::prelude::*;

verus! {

/// `a - b`, or 0 where `b` is larger.
pub open spec fn monus(a: int, b: int) -> int {
    if a >= b {
        a - b
    } else {
        0
    }
}

/// The three cursors as one half has loaded them.
#[derive(Debug, Clone, Copy, PartialEq, Eq, Structural)]
pub struct Cursors {
    pub wrapped: usize,
    pub writer: usize,
    pub reader: usize,
}

/// Where a writer that asks for `want` bytes of `capacity` is sent: the start and
/// the length of the stretch that the cursors leave it. The length is 0 where
/// there is no room.
///
/// The stretch behind the writer is preferred. The one at the start of the memory
/// is taken only when it is the larger and `want` bytes do not fit behind the
/// writer.
pub open spec fn write_span(
    wrapped: int,
    writer: int,
    reader: int,
    capacity: int,
    want: int,
) -> (int, int) {
    let at_end = capacity - writer;
    if wrapped != 0 {
        (writer, monus(reader, writer))
    } else if reader > at_end && want > at_end {
        (0, reader)
    } else {
        (writer, at_end)
    }
}

/// Where a reader is sent: the start and the length of the stretch that the
/// cursors show it. The length is 0 where nothing is unread.
pub open spec fn read_span(wrapped: int, writer: int, reader: int) -> (int, int) {
    if wrapped == 0 {
        (reader, monus(writer, reader))
    } else if reader != wrapped {
        (reader, monus(wrapped, reader))
    } else {
        (0, writer)
    }
}

impl Cursors {
    /// The stretch that a writer asking for `want` bytes may fill.
    pub fn write_span(&self, capacity: usize, want: usize) -> (span: (usize, usize))
        requires
            self.writer <= capacity,
        ensures
            (span.0 as int, span.1 as int) == write_span(
                self.wrapped as int,
                self.writer as int,
                self.reader as int,
                capacity as int,
                want as int,
            ),
    {
        if self.wrapped == 0 {
            let space_at_end: usize = capacity - self.writer;
            let space_at_start: usize = self.reader;
            // Wrap around if space at start is
            // larger and the buffer will not fit at end
            if space_at_start > space_at_end && want > space_at_end {
                (0, space_at_start)
            } else {
                (self.writer, space_at_end)
            }
        } else {
            (self.writer, self.reader.saturating_sub(self.writer))
        }
    }

    /// The stretch that a reader may look at.
    pub fn read_span(&self) -> (span: (usize, usize))
        ensures
            (span.0 as int, span.1 as int) == read_span(
                self.wrapped as int,
                self.writer as int,
                self.reader as int,
            ),
    {
        if self.wrapped == 0 {
            (self.reader, self.writer.saturating_sub(self.reader))
        } else if self.reader != self.wrapped {
            (self.reader, self.wrapped.saturating_sub(self.reader))
        } else {
            (0, self.writer)
        }
    }
}

} // verus!
