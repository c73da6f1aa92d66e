//! The ring buffer: the shared state, its two halves and the grants they hand out.

use crate::atomic::{
    cursor_value, flag_value, load_cursor, load_flag, new_cursor, new_flag, store_cursor,
    store_flag, swap_flag,
};
use crate::cursors::{monus, Cursors};
use crate::ring::{
    keeps_read_grants, keeps_write_grants, lemma_commit, lemma_consume, lemma_edit, lemma_fill,
    lemma_grant_read, lemma_grant_write, lemma_taken, lemma_written, min, overwrite, taken, written,
    ReadRegion, Ring, WriteRegion,
};
use portable_atomic::{AtomicBool, AtomicUsize};
use vstd::prelude::*;

verus! {

/// A coordination structure for safely granting read and write access to
/// contiguous slices of memory.
#[derive(Debug)]
pub struct AtomicState {
    /// Whether this instance has been initialized
    initialized: AtomicBool,
    /// Where the next byte will be written
    ///
    /// - Owned by the writer-half
    writer: AtomicUsize,
    /// Where the next byte will be read from
    ///
    /// - Owned by the reader-half
    reader: AtomicUsize,
    /// Where the writer has wrapped around if != 0
    ///
    /// - Owned by writer-half if `wrapped == 0`
    /// - Owned by reader-half if `wrapped != 0`
    wrapped: AtomicUsize,
    /// Is there an active read grant?
    read_granted: AtomicBool,
    /// Is there an active write grant?
    write_granted: AtomicBool,
    /// The bytes that the cursors divide up
    memory: Vec<u8>,
}

impl View for AtomicState {
    type V = Ring;

    closed spec fn view(&self) -> Ring {
        Ring {
            initialized: flag_value(self.initialized),
            wrapped: cursor_value(self.wrapped) as int,
            writer: cursor_value(self.writer) as int,
            reader: cursor_value(self.reader) as int,
            read_granted: flag_value(self.read_granted),
            write_granted: flag_value(self.write_granted),
            memory: self.memory@,
        }
    }
}

impl Default for AtomicState {
    fn default() -> (state: Self)
        ensures
            state@ == Ring::fresh(),
    {
        Self::new()
    }
}

impl AtomicState {
    /// Create a new instance that no memory has been given to.
    pub fn new() -> (state: Self)
        ensures
            state@ == Ring::fresh(),
            state@.wf(),
    {
        Self {
            initialized: new_flag(false),
            writer: new_cursor(0),
            reader: new_cursor(0),
            wrapped: new_cursor(0),
            read_granted: new_flag(false),
            write_granted: new_flag(false),
            memory: Vec::new(),
        }
    }

    /// Fetch the latest batch of cursors
    pub fn cursors(&self) -> (c: Cursors)
        ensures
            c.wrapped == self@.wrapped,
            c.writer == self@.writer,
            c.reader == self@.reader,
    {
        // The wrapped value MUST be loaded first!
        let wrapped: usize = load_cursor(&self.wrapped);
        let writer: usize = load_cursor(&self.writer);
        let reader: usize = load_cursor(&self.reader);
        Cursors { wrapped, writer, reader }
    }

    /// The number of bytes that the memory has.
    pub fn capacity(&self) -> (len: usize)
        ensures
            len == self@.capacity(),
            len == self@.memory.len(),
    {
        self.memory.len()
    }

    /// Is there an active write grant?
    pub fn write_granted(&self) -> (granted: bool)
        ensures
            granted == self@.write_granted,
    {
        load_flag(&self.write_granted)
    }

    /// Get the number of writeable bytes in the buffer of length `len`.
    ///
    /// Not all bytes may be contiguous
    pub fn writable_bytes(&self, len: usize) -> (bytes: usize)
        requires
            self@.wf() || (self@.wrapped == 0 ==> monus(len as int, self@.writer) + self@.reader
                <= usize::MAX),
        ensures
            self@.wrapped == 0 ==> bytes == monus(len as int, self@.writer) + self@.reader,
            self@.wrapped != 0 ==> bytes == monus(self@.reader, self@.writer),
            self@.wf() && len == self@.capacity() ==> bytes == self@.free(),
    {
        assert(self.memory.len() == self.memory@.len());
        let c = self.cursors();
        if c.wrapped == 0 {
            len.saturating_sub(c.writer) + c.reader
        } else {
            c.reader.saturating_sub(c.writer)
        }
    }

    /// Get the number of readable bytes in the buffer.
    ///
    /// Not all bytes may be contiguous
    pub fn readable_bytes(&self) -> (bytes: usize)
        requires
            self@.wf() || (self@.wrapped != 0 ==> monus(self@.wrapped, self@.reader) + self@.writer
                <= usize::MAX),
        ensures
            self@.wrapped == 0 ==> bytes == monus(self@.writer, self@.reader),
            self@.wrapped != 0 ==> bytes == monus(self@.wrapped, self@.reader) + self@.writer,
            self@.wf() ==> bytes == self@.unread().len(),
    {
        assert(self.memory.len() == self.memory@.len());
        let c = self.cursors();
        if c.wrapped == 0 {
            c.writer.saturating_sub(c.reader)
        } else {
            c.wrapped.saturating_sub(c.reader) + c.writer
        }
    }

    /// Attempt to initialize the state with `buf` as its memory, and split it into
    /// [`BufferWriter`] and [`BufferReader`] halves. If it has already been
    /// initialized, `None` will be returned.
    pub fn init(&mut self, buf: Vec<u8>) -> (halves: Option<(BufferWriter, BufferReader)>)
        requires
            old(self)@.wf(),
        ensures
            final(self)@.wf(),
            halves is Some <==> !old(self)@.initialized,
            halves is Some ==> final(self)@ == Ring::over(buf@),
            halves is Some ==> final(self)@.memory == buf@ && final(self)@.free() == buf@.len(),
            halves is Some ==> final(self)@.unread().len() == 0,
            halves is None ==> final(self)@ == old(self)@,
    {
        if swap_flag(&mut self.initialized, true) {
            return None;
        }
        self.memory = buf;
        Some((BufferWriter { _half: () }, BufferReader { _half: () }))
    }
}

/// Why there is no grant.
#[derive(Debug, Clone, Copy, PartialEq, Eq, Structural)]
pub enum Error {
    /// A grant of this half is out already.
    GrantInProgress,
    /// There is not a single byte to grant.
    InsufficientSize,
}

/// [`BufferWriter`] is the primary interface for pushing data into an
/// [`AtomicState`].
#[derive(Debug)]
pub struct BufferWriter {
    _half: (),
}

impl BufferWriter {
    pub fn writable_bytes(&self, state: &AtomicState) -> (bytes: usize)
        requires
            state@.wf(),
        ensures
            bytes == state@.free(),
    {
        state.writable_bytes(state.capacity())
    }

    pub fn readable_bytes(&self, state: &AtomicState) -> (bytes: usize)
        requires
            state@.wf(),
        ensures
            bytes == state@.unread().len(),
    {
        state.readable_bytes()
    }

    /// Request a writable contiguous section of memory of at least 1 byte.
    ///
    /// Returns `None` if no space is currently available for writing, or if there
    /// is an active write grant.
    pub fn try_get_writer_grant(
        &mut self,
        state: &mut AtomicState,
        buf_len: usize,
    ) -> (grant: Option<WriterGrant>)
        requires
            old(state)@.wf(),
            buf_len > 0,
        ensures
            *final(self) == *old(self),
            final(state)@.wf(),
            grant is Some <==> !old(state)@.write_granted && old(state)@.free() > 0,
            grant matches Some(g) ==> {
                &&& g@ == old(state)@.write_region(buf_len as int)
                &&& final(state)@ == old(state)@.lend_write()
                &&& final(state)@.holds_write(g@)
            },
            grant is None ==> final(state)@ == old(state)@,
    {
        proof {
            lemma_grant_write(state@, buf_len as int);
        }
        if load_flag(&state.write_granted) {
            return None;
        }
        let c = state.cursors();
        let (start, grant_len): (usize, usize) = c.write_span(state.memory.len(), buf_len);
        // Return if we were not granted anything
        if grant_len == 0 {
            return None;
        }
        // The guard at the top can only pass if there are no outstanding grants,
        // which is the only place except for this function where the flag is modified.
        store_flag(&mut state.write_granted, true);
        Some(WriterGrant { start, len: grant_len, writer: c.writer })
    }

    /// Request what remains behind the writer, or at the start of the memory where
    /// nothing does.
    pub fn grant_max_remaining(
        &mut self,
        state: &mut AtomicState,
    ) -> (grant: Result<WriterGrant, Error>)
        requires
            old(state)@.wf(),
        ensures
            *final(self) == *old(self),
            final(state)@.wf(),
            grant is Ok <==> !old(state)@.write_granted && old(state)@.free() > 0,
            grant matches Err(e) ==> e == if old(state)@.write_granted {
                Error::GrantInProgress
            } else {
                Error::InsufficientSize
            },
            grant matches Ok(g) ==> {
                &&& g@ == old(state)@.write_region(1)
                &&& final(state)@ == old(state)@.lend_write()
                &&& final(state)@.holds_write(g@)
            },
            grant is Err ==> final(state)@ == old(state)@,
    {
        if load_flag(&state.write_granted) {
            return Err(Error::GrantInProgress);
        }
        match self.try_get_writer_grant(state, 1) {
            Some(grant) => Ok(grant),
            None => Err(Error::InsufficientSize),
        }
    }

    /// Copy as much of `buf` as one grant takes, and commit it.
    ///
    /// Returns `None` if `buf` is empty or no grant is to be had.
    pub fn try_write(&mut self, state: &mut AtomicState, buf: &[u8]) -> (bytes: Option<usize>)
        requires
            old(state)@.wf(),
        ensures
            *final(self) == *old(self),
            final(state)@.wf(),
            bytes is Some <==> {
                &&& buf@.len() > 0
                &&& !old(state)@.write_granted
                &&& old(state)@.free() > 0
            },
            bytes is None ==> final(state)@ == old(state)@,
            bytes matches Some(n) ==> n > 0 && written(
                old(state)@,
                old(state)@.write_region(buf@.len() as int),
                buf@,
                n as int,
                final(state)@,
            ),
    {
        if buf.len() == 0 {
            return None;
        }
        match self.try_get_writer_grant(state, buf.len()) {
            None => None,
            Some(grant) => {
                proof {
                    lemma_written(old(state)@, grant@, buf@);
                }
                let bytes: usize = grant.write(state, buf);
                assert(state@ =~= old(state)@.fill(grant@.start, buf@.take(bytes as int)).commit(
                    grant@,
                    bytes as int,
                ));
                Some(bytes)
            },
        }
    }
}

/// [`BufferReader`] is the primary interface for reading data from an
/// [`AtomicState`].
#[derive(Debug)]
pub struct BufferReader {
    _half: (),
}

impl BufferReader {
    pub fn writable_bytes(&self, state: &AtomicState) -> (bytes: usize)
        requires
            state@.wf(),
        ensures
            bytes == state@.free(),
    {
        state.writable_bytes(state.capacity())
    }

    pub fn readable_bytes(&self, state: &AtomicState) -> (bytes: usize)
        requires
            state@.wf(),
        ensures
            bytes == state@.unread().len(),
    {
        state.readable_bytes()
    }

    /// Obtains a contiguous slice of committed bytes. This slice may not
    /// contain ALL available bytes, if the writer has wrapped around.
    ///
    /// Returns `None` if nothing is unread, or if there is an active read grant.
    pub fn try_get_reader_grant(
        &mut self,
        state: &mut AtomicState,
    ) -> (grant: Option<ReaderGrant>)
        requires
            old(state)@.wf(),
        ensures
            *final(self) == *old(self),
            final(state)@.wf(),
            grant is Some <==> !old(state)@.read_granted && old(state)@.unread().len() > 0,
            grant matches Some(g) ==> {
                &&& g@ == old(state)@.read_region()
                &&& final(state)@ == old(state)@.lend_read()
                &&& final(state)@.holds_read(g@)
                &&& final(state)@.read_bytes(g@).is_prefix_of(final(state)@.unread())
            },
            grant is None ==> final(state)@ == old(state)@,
    {
        proof {
            lemma_grant_read(state@);
        }
        if load_flag(&state.read_granted) {
            return None;
        }
        let c = state.cursors();
        let (start, grant_len): (usize, usize) = c.read_span();
        if grant_len == 0 {
            return None;
        }
        // The guard at the top can only pass if there are no outstanding grants,
        // which is the only place except for this function where the flag is modified.
        store_flag(&mut state.read_granted, true);
        Some(ReaderGrant { start, len: grant_len, wrapped: c.wrapped, reader: c.reader })
    }

    /// Request the oldest unread bytes.
    pub fn read(&mut self, state: &mut AtomicState) -> (grant: Result<ReaderGrant, Error>)
        requires
            old(state)@.wf(),
        ensures
            *final(self) == *old(self),
            final(state)@.wf(),
            grant is Ok <==> !old(state)@.read_granted && old(state)@.unread().len() > 0,
            grant matches Err(e) ==> e == if old(state)@.read_granted {
                Error::GrantInProgress
            } else {
                Error::InsufficientSize
            },
            grant matches Ok(g) ==> {
                &&& g@ == old(state)@.read_region()
                &&& final(state)@ == old(state)@.lend_read()
                &&& final(state)@.holds_read(g@)
            },
            grant is Err ==> final(state)@ == old(state)@,
    {
        if load_flag(&state.read_granted) {
            return Err(Error::GrantInProgress);
        }
        match self.try_get_reader_grant(state) {
            Some(grant) => Ok(grant),
            None => Err(Error::InsufficientSize),
        }
    }

    /// Copy as many unread bytes to `buf` as one grant shows, and consume them.
    ///
    /// Returns `None` if no grant is to be had.
    pub fn try_read(&mut self, state: &mut AtomicState, buf: &mut [u8]) -> (bytes: Option<usize>)
        requires
            old(state)@.wf(),
        ensures
            *final(self) == *old(self),
            final(state)@.wf(),
            bytes is Some <==> !old(state)@.read_granted && old(state)@.unread().len() > 0,
            bytes is None ==> final(state)@ == old(state)@ && final(buf)@ == old(buf)@,
            bytes matches Some(n) ==> taken(
                old(state)@,
                old(state)@.read_region(),
                old(buf)@,
                final(buf)@,
                n as int,
                final(state)@,
            ),
    {
        match self.try_get_reader_grant(state) {
            None => None,
            Some(grant) => {
                proof {
                    lemma_taken(old(state)@, grant@, buf@);
                }
                let bytes: usize = grant.read(state, buf);
                assert(state@ =~= old(state)@.consume(grant@, bytes as int));
                Some(bytes)
            },
        }
    }
}

/// A granted contiguous region of memory that may be written
/// to and 'committed' so the reader can read from it.
///
/// A grant has to be given back with [`WriterGrant::commit`], unused with 0 bytes: until
/// then there is no other. It holds no reference to the state, so that the other half
/// can be at work meanwhile: dropping it does not give it back.
#[derive(Debug)]
pub struct WriterGrant {
    start: usize,
    len: usize,
    writer: usize,
}

impl View for WriterGrant {
    type V = WriteRegion;

    closed spec fn view(&self) -> WriteRegion {
        WriteRegion { start: self.start as int, len: self.len as int, writer: self.writer as int }
    }
}

/// Store the first `amount` bytes of `src` in `memory` from `start` on.
fn store_bytes(memory: &mut Vec<u8>, start: usize, src: &[u8], amount: usize)
    requires
        amount <= src@.len(),
        start + amount <= old(memory)@.len(),
    ensures
        final(memory)@ == overwrite(old(memory)@, start as int, src@.take(amount as int)),
{
    let mut i: usize = 0;
    while i < amount
        invariant
            i <= amount <= src@.len(),
            start + amount <= memory@.len(),
            memory@ == overwrite(old(memory)@, start as int, src@.take(i as int)),
        decreases amount - i,
    {
        assert(memory.len() == memory@.len());
        memory[start + i] = src[i];
        i = i + 1;
        assert(memory@ =~= overwrite(old(memory)@, start as int, src@.take(i as int)));
    }
}

/// The `len` bytes of the memory from `start` on.
fn granted_mut(state: &mut AtomicState, start: usize, len: usize) -> (bytes: &mut [u8])
    requires
        start + len <= old(state)@.capacity(),
    ensures
        bytes@ == old(state)@.memory.subrange(start as int, start + len),
        final(bytes)@.len() == len ==> final(state)@ == old(state)@.fill(
            start as int,
            final(bytes)@,
        ),
{
    let (_, rest) = state.memory.as_mut_slice().split_at_mut(start);
    let (bytes, _) = rest.split_at_mut(len);
    bytes
}

impl WriterGrant {
    /// The number of bytes that were granted.
    pub fn len(&self) -> (len: usize)
        ensures
            len == self@.len,
    {
        self.len
    }

    /// The granted bytes.
    pub fn buf<'s>(&self, state: &'s AtomicState) -> (bytes: &'s [u8])
        requires
            state@.wf(),
            state@.holds_write(self@),
        ensures
            bytes@ == state@.write_bytes(self@),
    {
        assert(state.memory.len() == state.memory@.len());
        &state.memory[self.start..self.start + self.len]
    }

    /// The granted bytes, to be written to.
    ///
    /// What is stored through the slice changes nothing outside of the grant: the
    /// unread bytes stay as they are.
    pub fn buf_mut<'s>(&mut self, state: &'s mut AtomicState) -> (bytes: &'s mut [u8])
        requires
            old(state)@.wf(),
            old(state)@.holds_write(old(self)@),
        ensures
            final(self)@ == old(self)@,
            bytes@ == old(state)@.write_bytes(old(self)@),
            final(bytes)@.len() == old(self)@.len ==> {
                &&& final(state)@ == old(state)@.fill(old(self)@.start, final(bytes)@)
                &&& final(state)@.wf()
                &&& final(state)@.holds_write(old(self)@)
                &&& final(state)@.unread() == old(state)@.unread()
                &&& keeps_read_grants(old(state)@, final(state)@)
            },
    {
        let ghost before = state@;
        assert forall|stored: Seq<u8>| stored.len() == self@.len implies keeps_read_grants(
            before,
            #[trigger] before.fill(self@.start, stored),
        ) by {
            lemma_fill(before, self@, self@.start, stored);
        }
        granted_mut(state, self.start, self.len)
    }

    /// Copy the largest possible amount of bytes to the grant
    /// from the given buffer. Whichever is shorter decides the number
    /// of bytes written. The return value is the amount copied.
    pub fn copy_max_from(&mut self, state: &mut AtomicState, buf: &[u8]) -> (amount: usize)
        requires
            old(state)@.wf(),
            old(state)@.holds_write(old(self)@),
        ensures
            final(self)@ == old(self)@,
            amount == min(old(self)@.len, buf@.len() as int),
            final(state)@ == old(state)@.fill(old(self)@.start, buf@.take(amount as int)),
            final(state)@.wf(),
            final(state)@.holds_write(final(self)@),
            final(state)@.unread() == old(state)@.unread(),
            keeps_read_grants(old(state)@, final(state)@),
    {
        // Maximum number of bytes that can be copied contiguously
        let amount: usize = if self.len <= buf.len() {
            self.len
        } else {
            buf.len()
        };
        proof {
            lemma_fill(state@, self@, self@.start, buf@.take(amount as int));
        }
        store_bytes(&mut state.memory, self.start, buf, amount);
        // The number copied
        amount
    }

    /// Copy as many bytes of `buf` to the grant as it takes, and commit them.
    pub(crate) fn write(self, state: &mut AtomicState, buf: &[u8]) -> (bytes: usize)
        requires
            old(state)@.wf(),
            old(state)@.holds_write(self@),
        ensures
            final(state)@.wf(),
            written(old(state)@, self@, buf@, bytes as int, final(state)@),
    {
        proof {
            lemma_written(state@, self@, buf@);
        }
        let mut grant = self;
        let bytes: usize = grant.copy_max_from(state, buf);
        grant.commit(state, bytes);
        bytes
    }

    /// Finalizes this writable grant and makes `used` bytes of written data
    /// available for subsequent reading grants. This consumes the grant.
    pub fn commit(self, state: &mut AtomicState, used: usize)
        requires
            old(state)@.wf(),
            old(state)@.holds_write(self@),
        ensures
            final(state)@ == old(state)@.commit(self@, used as int),
            final(state)@.wf(),
            final(state)@.unread() == old(state)@.unread() + old(state)@.write_bytes(self@).take(
                min(used as int, self@.len),
            ),
            keeps_read_grants(old(state)@, final(state)@),
    {
        proof {
            lemma_commit(state@, self@, used as int);
        }
        assert(state.memory.len() == state.memory@.len());
        if used != 0 {
            // Saturate the amount to commit
            let used: usize = if self.len <= used {
                self.len
            } else {
                used
            };
            // Determine where to move the write cursor
            if self.start == 0 {
                store_cursor(&mut state.writer, used);
                store_cursor(&mut state.wrapped, self.writer);
            } else {
                store_cursor(&mut state.writer, self.writer + used);
            }
        }
        store_flag(&mut state.write_granted, false);
    }
}

/// A granted contiguous region of memory that may be read
/// from and 'consumed' so the writer can write to it again.
///
/// A grant has to be given back with [`ReaderGrant::consume`], unused with 0 bytes: until
/// then there is no other. It holds no reference to the state, so that the other half
/// can be at work meanwhile: dropping it does not give it back.
#[derive(Debug)]
pub struct ReaderGrant {
    start: usize,
    len: usize,
    wrapped: usize,
    reader: usize,
}

impl View for ReaderGrant {
    type V = ReadRegion;

    closed spec fn view(&self) -> ReadRegion {
        ReadRegion {
            start: self.start as int,
            len: self.len as int,
            wrapped: self.wrapped as int,
            reader: self.reader as int,
        }
    }
}

impl ReaderGrant {
    /// The number of bytes that were granted.
    pub fn len(&self) -> (len: usize)
        ensures
            len == self@.len,
    {
        self.len
    }

    /// The granted bytes.
    pub fn buf<'s>(&self, state: &'s AtomicState) -> (bytes: &'s [u8])
        requires
            state@.wf(),
            state@.holds_read(self@),
        ensures
            bytes@ == state@.read_bytes(self@),
            bytes@.is_prefix_of(state@.unread()),
    {
        proof {
            lemma_consume(state@, self@, 0);
        }
        assert(state.memory.len() == state.memory@.len());
        &state.memory[self.start..self.start + self.len]
    }

    /// The granted bytes, to be worked on in place.
    pub fn buf_mut<'s>(&mut self, state: &'s mut AtomicState) -> (bytes: &'s mut [u8])
        requires
            old(state)@.wf(),
            old(state)@.holds_read(old(self)@),
        ensures
            final(self)@ == old(self)@,
            bytes@ == old(state)@.read_bytes(old(self)@),
            final(bytes)@.len() == old(self)@.len ==> {
                &&& final(state)@ == old(state)@.fill(old(self)@.start, final(bytes)@)
                &&& final(state)@.wf()
                &&& final(state)@.holds_read(old(self)@)
                &&& final(state)@.unread() == overwrite(old(state)@.unread(), 0, final(bytes)@)
                &&& keeps_write_grants(old(state)@, final(state)@)
            },
    {
        let ghost before = state@;
        assert forall|stored: Seq<u8>| stored.len() == self@.len implies keeps_write_grants(
            before,
            #[trigger] before.fill(self@.start, stored),
        ) by {
            lemma_edit(before, self@, stored);
        }
        granted_mut(state, self.start, self.len)
    }

    /// Copy the largest possible amount of bytes from the grant
    /// to the given buffer. Whichever is shorter decides the number
    /// of bytes written. The return value is the amount copied.
    pub fn copy_max_into(&mut self, state: &AtomicState, buf: &mut [u8]) -> (amount: usize)
        requires
            state@.wf(),
            state@.holds_read(old(self)@),
        ensures
            final(self)@ == old(self)@,
            amount == min(old(self)@.len, old(buf)@.len() as int),
            final(buf)@ == overwrite(
                old(buf)@,
                0,
                state@.read_bytes(old(self)@).take(amount as int),
            ),
            state@.read_bytes(old(self)@).is_prefix_of(state@.unread()),
    {
        proof {
            lemma_consume(state@, self@, 0);
        }
        // Maximum number of bytes that can be copied contiguously
        let amount: usize = if self.len <= buf.len() {
            self.len
        } else {
            buf.len()
        };
        let granted: &[u8] = self.buf(state);
        let mut i: usize = 0;
        while i < amount
            invariant
                i <= amount <= granted@.len(),
                amount <= buf@.len(),
                buf@ == overwrite(old(buf)@, 0, granted@.take(i as int)),
            decreases amount - i,
        {
            buf[i] = granted[i];
            i = i + 1;
            assert(buf@ =~= overwrite(old(buf)@, 0, granted@.take(i as int)));
        }
        // The number copied
        amount
    }

    /// Copy as many bytes of the grant to `buf` as it takes, and consume them.
    pub(crate) fn read(self, state: &mut AtomicState, buf: &mut [u8]) -> (bytes: usize)
        requires
            old(state)@.wf(),
            old(state)@.holds_read(self@),
        ensures
            final(state)@.wf(),
            taken(old(state)@, self@, old(buf)@, final(buf)@, bytes as int, final(state)@),
    {
        proof {
            lemma_taken(state@, self@, buf@);
        }
        let mut grant = self;
        let bytes: usize = grant.copy_max_into(state, buf);
        grant.consume(state, bytes);
        bytes
    }

    /// Finalizes this readable grant and makes `used` bytes of read data
    /// available for subsequent writing grants. This consumes the grant.
    pub fn consume(self, state: &mut AtomicState, used: usize)
        requires
            old(state)@.wf(),
            old(state)@.holds_read(self@),
        ensures
            final(state)@ == old(state)@.consume(self@, used as int),
            final(state)@.wf(),
            final(state)@.unread() == old(state)@.unread().skip(min(used as int, self@.len)),
            keeps_write_grants(old(state)@, final(state)@),
    {
        proof {
            lemma_consume(state@, self@, used as int);
        }
        assert(state.memory.len() == state.memory@.len());
        if used != 0 {
            // Saturate the grant consume
            let used: usize = if self.len <= used {
                self.len
            } else {
                used
            };
            // If we were previously caught up with the wrapped value,
            // the current read consumes from the beginning of the buffer.
            if self.reader == self.wrapped {
                // Consuming from start segment
                store_cursor(&mut state.reader, used);
                // An unset mark is the writer's: it is not touched here
                if self.wrapped != 0 {
                    store_cursor(&mut state.wrapped, 0);
                }
            } else {
                // Non-wrapped progress
                let next_reader: usize = self.reader + used;
                if self.wrapped == 0 || next_reader < self.wrapped {
                    store_cursor(&mut state.reader, next_reader);
                } else {
                    // Finished end of buffer up to wrapped
                    store_cursor(&mut state.reader, 0);
                    store_cursor(&mut state.wrapped, 0);
                }
            }
        }
        store_flag(&mut state.read_granted, false);
    }
}

} // verus!
