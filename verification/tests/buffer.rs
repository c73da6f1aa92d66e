use grantable_io::buffer::AtomicState;
use grantable_io::cursors::Cursors;

#[test]
fn catch_double_init() {
    let mut state = AtomicState::new();

    let buffer0 = [0u8; 8];
    let buffer1 = [0u8; 8];

    assert!(state.init(buffer0.to_vec()).is_some());
    assert!(state.init(buffer1.to_vec()).is_none());
}

#[test]
fn refuse_double_grant() {
    let buffer = [0u8; 8];
    let mut state = AtomicState::new();
    let (mut w, mut r) = state.init(buffer.to_vec()).unwrap();

    let grant0 = w.try_get_writer_grant(&mut state, 8);
    let grant1 = w.try_get_writer_grant(&mut state, 8);
    assert!(grant0.is_some());
    assert!(grant1.is_none());

    grant0.unwrap().commit(&mut state, 0);
    w.try_write(&mut state, b"abcd").unwrap();

    let grant0 = r.try_get_reader_grant(&mut state);
    let grant1 = r.try_get_reader_grant(&mut state);
    assert!(grant0.is_some());
    assert!(grant1.is_none());
}

#[test]
fn write_read_entire_buffer() {
    let buffer = [0u8; 8];
    let mut state = AtomicState::new();
    let (mut w, mut r) = state.init(buffer.to_vec()).unwrap();

    // Nothing to read initially
    assert!(r.try_get_reader_grant(&mut state).is_none());
    assert_eq!(state.cursors(), Cursors { wrapped: 0, writer: 0, reader: 0 });

    let payload = b"abcdefgh";
    let mut read_buf = [0u8; 16];

    // Write to the buffer
    w.try_write(&mut state, payload).unwrap();
    assert_eq!(state.cursors(), Cursors { wrapped: 0, writer: 8, reader: 0 });

    // Read from the buffer
    let bytes = r.try_read(&mut state, &mut read_buf).unwrap();
    assert_eq!(state.cursors(), Cursors { wrapped: 0, writer: 8, reader: 8 });
    assert_eq!(&read_buf[..bytes], payload);

    // Write to the buffer (again)
    w.try_write(&mut state, payload).unwrap();
    assert_eq!(state.cursors(), Cursors { wrapped: 8, writer: 8, reader: 8 });

    // Read from the buffer
    let bytes = r.try_read(&mut state, &mut read_buf).unwrap();
    assert_eq!(state.cursors(), Cursors { wrapped: 0, writer: 8, reader: 8 });
    assert_eq!(&read_buf[..bytes], payload);

    // Nothing to read after
    assert!(r.try_get_reader_grant(&mut state).is_none());
}

#[test]
fn small_wrapping_write_read() {
    let buffer = [0u8; 8];
    let mut state = AtomicState::new();
    let (mut w, mut r) = state.init(buffer.to_vec()).unwrap();

    let mut read_buf = [0u8; 16];

    assert!(r.try_get_reader_grant(&mut state).is_none());
    assert_eq!(state.cursors(), Cursors { wrapped: 0, writer: 0, reader: 0 });

    // Write to the buffer
    let payload = b"abcdef";
    w.try_write(&mut state, payload).unwrap();
    assert_eq!(state.cursors(), Cursors { wrapped: 0, writer: 6, reader: 0 });

    // Read from the buffer
    let bytes = r.try_read(&mut state, &mut read_buf).unwrap();
    assert_eq!(state.cursors(), Cursors { wrapped: 0, writer: 6, reader: 6 });
    assert_eq!(&read_buf[..bytes], payload);

    // Write to the buffer
    let payload = b"abcd";
    w.try_write(&mut state, payload).unwrap();
    assert_eq!(state.cursors(), Cursors { wrapped: 6, writer: 4, reader: 6 });

    // Read from the buffer
    let bytes = r.try_read(&mut state, &mut read_buf).unwrap();
    assert_eq!(state.cursors(), Cursors { wrapped: 0, writer: 4, reader: 4 });
    assert_eq!(&read_buf[..bytes], payload);

    // Nothing to read after
    assert!(r.try_get_reader_grant(&mut state).is_none());
}

#[test]
fn counts_of_bytes() {
    let mut state = AtomicState::new();
    assert_eq!(state.writable_bytes(0), 0);
    assert_eq!(state.readable_bytes(), 0);
    let (mut w, mut r) = state.init([0u8; 8].to_vec()).unwrap();
    assert_eq!(state.capacity(), 8);
    assert_eq!(w.writable_bytes(&state), 8);
    assert_eq!(r.readable_bytes(&state), 0);

    assert_eq!(w.try_write(&mut state, b"abcdef"), Some(6));
    assert_eq!(w.writable_bytes(&state), 2);
    assert_eq!(w.readable_bytes(&state), 6);
    // A shorter buffer than the writer's position has no room behind the writer
    assert_eq!(state.writable_bytes(3), 0);

    let mut four = [0u8; 4];
    assert_eq!(r.try_read(&mut state, &mut four), Some(4));
    assert_eq!(&four, b"abcd");
    assert_eq!(r.writable_bytes(&state), 6);
    assert_eq!(r.readable_bytes(&state), 2);

    // Three bytes do not fit behind the writer, and there is more room at the start
    assert_eq!(w.try_write(&mut state, b"ghi"), Some(3));
    assert_eq!(state.cursors(), Cursors { wrapped: 6, writer: 3, reader: 4 });
    assert_eq!(w.writable_bytes(&state), 1);
    assert_eq!(w.readable_bytes(&state), 5);

    // The unread bytes come in two stretches
    let mut rest = [0u8; 8];
    assert_eq!(r.try_read(&mut state, &mut rest), Some(2));
    assert_eq!(&rest[..2], b"ef");
    assert_eq!(state.cursors(), Cursors { wrapped: 0, writer: 3, reader: 0 });
    assert_eq!(r.try_read(&mut state, &mut rest), Some(3));
    assert_eq!(&rest[..3], b"ghi");
    assert_eq!(r.try_read(&mut state, &mut rest), None);
}

#[test]
fn spans_of_snapshots() {
    // Behind the writer, as long as the bytes fit there
    let c = Cursors { wrapped: 0, writer: 6, reader: 4 };
    assert_eq!(c.write_span(8, 2), (6, 2));
    assert_eq!(c.write_span(8, 3), (0, 4));
    assert_eq!(c.read_span(), (4, 2));
    // Never to the start when that is not the larger stretch
    let c = Cursors { wrapped: 0, writer: 6, reader: 2 };
    assert_eq!(c.write_span(8, 3), (6, 2));
    // Up to the reader, once wrapped
    let c = Cursors { wrapped: 6, writer: 1, reader: 4 };
    assert_eq!(c.write_span(8, 8), (1, 3));
    assert_eq!(c.read_span(), (4, 2));
    // The reader has caught up with the mark
    let c = Cursors { wrapped: 6, writer: 3, reader: 6 };
    assert_eq!(c.read_span(), (0, 3));
    // Cursors that were loaded while the other half moved leave nothing
    let c = Cursors { wrapped: 6, writer: 3, reader: 0 };
    assert_eq!(c.write_span(8, 1), (3, 0));
    let c = Cursors { wrapped: 0, writer: 3, reader: 6 };
    assert_eq!(c.read_span(), (6, 0));
}

#[test]
fn grants_do_not_overlap() {
    let mut state = AtomicState::new();
    let (mut w, mut r) = state.init([0u8; 8].to_vec()).unwrap();
    assert_eq!(w.try_write(&mut state, b"abcdef"), Some(6));
    let mut two = [0u8; 2];
    assert_eq!(r.try_read(&mut state, &mut two), Some(2));

    let mut reading = r.try_get_reader_grant(&mut state).unwrap();
    let mut writing = w.try_get_writer_grant(&mut state, 1).unwrap();
    assert_eq!(reading.len(), 4);
    assert_eq!(writing.len(), 2);

    // Scribbling over the write grant leaves the read grant alone
    writing.buf_mut(&mut state).copy_from_slice(b"XY");
    assert_eq!(writing.buf(&state), b"XY");
    assert_eq!(reading.buf(&state), b"cdef");
    // ... and the other way round
    reading.buf_mut(&mut state)[0] = b'C';
    assert_eq!(reading.buf(&state), b"Cdef");
    assert_eq!(writing.buf(&state), b"XY");

    // The reader goes on while the write grant is out, and the other way round
    reading.consume(&mut state, 3);
    writing.commit(&mut state, 99);
    assert_eq!(state.cursors(), Cursors { wrapped: 0, writer: 8, reader: 5 });
    let mut out = [0u8; 8];
    assert_eq!(r.try_read(&mut state, &mut out), Some(3));
    assert_eq!(&out[..3], b"fXY");
}

#[test]
fn wrap_while_a_read_grant_is_out() {
    let mut state = AtomicState::new();
    let (mut w, mut r) = state.init([0u8; 8].to_vec()).unwrap();
    assert_eq!(w.try_write(&mut state, b"abcdefgh"), Some(8));
    let mut five = [0u8; 5];
    assert_eq!(r.try_read(&mut state, &mut five), Some(5));

    let reading = r.try_get_reader_grant(&mut state).unwrap();
    assert_eq!(w.try_write(&mut state, b"ijk"), Some(3));
    assert_eq!(state.cursors(), Cursors { wrapped: 8, writer: 3, reader: 5 });
    assert_eq!(reading.buf(&state), b"fgh");
    reading.consume(&mut state, 3);
    assert_eq!(state.cursors(), Cursors { wrapped: 8, writer: 3, reader: 8 });
    let mut out = [0u8; 8];
    assert_eq!(r.try_read(&mut state, &mut out), Some(3));
    assert_eq!(&out[..3], b"ijk");
    assert_eq!(state.cursors(), Cursors { wrapped: 0, writer: 3, reader: 3 });
}

#[test]
fn committing_nothing_frees_the_grant() {
    let mut state = AtomicState::new();
    let (mut w, mut r) = state.init([0u8; 4].to_vec()).unwrap();
    assert_eq!(w.try_write(&mut state, b""), None);
    w.try_get_writer_grant(&mut state, 4).unwrap().commit(&mut state, 0);
    assert_eq!(state.cursors(), Cursors { wrapped: 0, writer: 0, reader: 0 });
    assert_eq!(w.try_write(&mut state, b"abcdef"), Some(4));
    assert_eq!(w.try_write(&mut state, b"g"), None);
    r.try_get_reader_grant(&mut state).unwrap().consume(&mut state, 0);
    let mut out = [0u8; 4];
    assert_eq!(r.try_read(&mut state, &mut out), Some(4));
    assert_eq!(&out, b"abcd");
}
