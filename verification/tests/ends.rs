use core::convert::Infallible;
use core::future::poll_fn;
use core::task::{Context, Poll, Waker};
use futures_executor::block_on;
use grantable_io::buffer::Error;
use grantable_io::cursors::Cursors;
use grantable_io::future::{DevConsumer, DevProducer};
use grantable_io::producer::{AppConsumer, AppProducer};
use grantable_io::soft::{SoftReader, SoftWriter};
use grantable_io::state::State;
use grantable_io::wait::Progress;
use grantable_io::{DeviceReader, DeviceWriter, GrantableIo, Reader, Writer};
use std::sync::atomic::{AtomicUsize, Ordering};
use std::sync::Arc;
use std::task::Wake;

/// Take `step` until it is done.
async fn run<T>(mut step: impl FnMut(&mut Context<'_>) -> Progress<T>) -> T {
    poll_fn(|cx| match step(cx) {
        Progress::Ready(value) => Poll::Ready(value),
        Progress::Wait => Poll::Pending,
    })
    .await
}

/// What `step` comes to when it is taken once: `None` if it has to wait.
fn once<T>(mut step: impl FnMut(&mut Context<'_>) -> Progress<T>) -> Option<T> {
    block_on(poll_fn(|cx| match step(cx) {
        Progress::Ready(value) => Poll::Ready(Some(value)),
        Progress::Wait => Poll::Ready(None),
    }))
}

struct Counter(AtomicUsize);

impl Wake for Counter {
    fn wake(self: Arc<Self>) {
        self.0.fetch_add(1, Ordering::SeqCst);
    }
}

impl Counter {
    fn new() -> (Arc<Counter>, Waker) {
        let counter = Arc::new(Counter(AtomicUsize::new(0)));
        let waker = Waker::from(counter.clone());
        (counter, waker)
    }

    fn count(&self) -> usize {
        self.0.load(Ordering::SeqCst)
    }
}

#[test]
fn app_test_buf_read() {
    const BUF: &[u8] = b"_foo_bar_baz";

    let mut serial_port = GrantableIo::<20, Infallible>::new();
    let (mut hard, mut soft) = serial_port.claim_reader();
    let state = serial_port.state();

    block_on(async {
        let mut done = 0;
        run(|cx| hard.write_all(state, cx, BUF, &mut done)).await;

        let mut buf = [0u8; 4];

        assert_eq!(run(|cx| soft.read(state, cx, &mut buf)).await.unwrap(), 4);
        assert_eq!(&buf, b"_foo");

        assert_eq!(run(|cx| soft.read(state, cx, &mut buf)).await.unwrap(), 4);
        assert_eq!(&buf, b"_bar");

        assert_eq!(run(|cx| soft.read(state, cx, &mut buf)).await.unwrap(), 4);
        assert_eq!(&buf, b"_baz");
    })
}

#[test]
fn mod_test_buf_read() {
    const BUF: &[u8] = b"_foo_bar_baz";

    let mut state: State<Infallible> = State::new();
    let (producer, consumer) = state.atomic.init(vec![0u8; 20]).unwrap();
    let mut hard = DevProducer::new(producer);
    let mut soft = AppConsumer::new(consumer);

    block_on(async {
        let mut done = 0;
        run(|cx| hard.write_all(&mut state, cx, BUF, &mut done)).await;

        let mut buf = [0u8; 4];

        assert_eq!(run(|cx| soft.read(&mut state, cx, &mut buf)).await.unwrap(), 4);
        assert_eq!(&buf, b"_foo");

        assert_eq!(run(|cx| soft.read(&mut state, cx, &mut buf)).await.unwrap(), 4);
        assert_eq!(&buf, b"_bar");

        assert_eq!(run(|cx| soft.read(&mut state, cx, &mut buf)).await.unwrap(), 4);
        assert_eq!(&buf, b"_baz");
    })
}

#[test]
fn test_buf_read() {
    const BUF: &[u8] = b"_foo_bar_baz";

    let mut state: State<Infallible> = State::new();
    let (producer, consumer) = state.atomic.init(vec![0u8; 20]).unwrap();
    let mut hardware = DevProducer::new(producer);
    let mut reader = SoftReader::new(consumer);

    block_on(async {
        let mut done = 0;
        run(|cx| hardware.write_all(&mut state, cx, BUF, &mut done)).await;

        let mut buf = [0u8; 4];
        assert_eq!(run(|cx| reader.read(&mut state, cx, &mut buf)).await.unwrap(), 4);
        assert_eq!(&buf, b"_foo");

        let mut buf = [0u8; 4];
        assert_eq!(run(|cx| reader.read(&mut state, cx, &mut buf)).await.unwrap(), 4);
        assert_eq!(&buf, b"_bar");

        let mut buf = [0u8; 4];
        assert_eq!(run(|cx| reader.read(&mut state, cx, &mut buf)).await.unwrap(), 4);
        assert_eq!(&buf, b"_baz");
    })
}

#[test]
fn claimed_once() {
    let mut io = GrantableIo::<4, Infallible>::new();
    assert!(io.try_claim_reader().is_some());
    assert!(io.try_claim_reader().is_none());
    assert!(io.try_claim_writer().is_none());
    assert_eq!(io.state().atomic.capacity(), 4);

    let mut io = GrantableIo::<4, Infallible>::new();
    io.state().atomic.init(vec![1u8, 2]).unwrap();
    assert!(io.try_claim_writer().is_none());
    assert_eq!(io.state().atomic.capacity(), 2);

    let mut io = GrantableIo::<4, Infallible>::new();
    let (_hard, mut soft): (DeviceReader, Writer) = io.claim_writer();
    let granted = once(|cx| match soft.buf_mut(io.state(), cx) {
        Progress::Ready(bytes) => Progress::Ready(bytes.unwrap().to_vec()),
        Progress::Wait => Progress::Wait,
    });
    assert_eq!(granted, Some(vec![0u8; 4]));
}

#[test]
fn a_waiting_reader_is_woken() {
    let mut io = GrantableIo::<4, u8>::new();
    let (mut hard, mut soft) = io.claim_reader();
    let state = io.state();
    let (counter, waker) = Counter::new();
    let mut cx = Context::from_waker(&waker);
    let mut buf = [0u8; 4];

    assert!(matches!(soft.read(state, &mut cx, &mut buf), Progress::Wait));
    assert_eq!(counter.count(), 0);
    let mut done = 0;
    assert!(once(|cx| hard.write_all(state, cx, b"abcdef", &mut done)).is_none());
    assert_eq!(done, 4);
    assert_eq!(counter.count(), 1);
    assert!(matches!(soft.read(state, &mut cx, &mut buf), Progress::Ready(Ok(4))));
    assert_eq!(&buf, b"abcd");

    // The rest goes in once there is room
    assert_eq!(once(|cx| hard.write_all(state, cx, b"abcdef", &mut done)), Some(()));
    assert_eq!(done, 6);
    assert!(matches!(soft.read(state, &mut cx, &mut buf), Progress::Ready(Ok(2))));
    assert_eq!(&buf, b"efcd");

    // An error wakes as well
    assert!(matches!(soft.read(state, &mut cx, &mut buf), Progress::Wait));
    hard.insert_error(state, 7);
    assert_eq!(counter.count(), 2);
    assert!(matches!(soft.read(state, &mut cx, &mut buf), Progress::Ready(Err(7))));

    // ... and so does asking for it
    assert!(matches!(soft.read(state, &mut cx, &mut buf), Progress::Wait));
    hard.wake_reader(state);
    assert_eq!(counter.count(), 3);
    assert!(matches!(soft.read(state, &mut cx, &mut buf), Progress::Wait));
}

#[test]
fn a_waiting_writer_is_woken() {
    let mut io = GrantableIo::<4, u8>::new();
    let (mut hard, mut soft) = io.claim_writer();
    let state = io.state();
    let (counter, waker) = Counter::new();
    let mut cx = Context::from_waker(&waker);
    let mut done = 0;

    assert!(matches!(soft.write_all(state, &mut cx, b"abcdef", &mut done), Progress::Wait));
    assert_eq!(done, 4);
    assert_eq!(counter.count(), 0);
    let mut buf = [0u8; 3];
    assert_eq!(once(|cx| hard.read(state, cx, &mut buf)), Some(3));
    assert_eq!(&buf, b"abc");
    assert_eq!(counter.count(), 1);
    let all = soft.write_all(state, &mut cx, b"abcdef", &mut done);
    assert!(matches!(all, Progress::Ready(Ok(()))));
    assert_eq!(done, 6);
    assert_eq!(once(|cx| hard.read(state, cx, &mut buf)), Some(1));
    assert_eq!(once(|cx| hard.read(state, cx, &mut buf)), Some(2));
    assert_eq!(&buf, b"efc");

    hard.insert_error(state, 9);
    assert!(matches!(soft.write(state, &mut cx, b"x"), Progress::Ready(Err(9))));
    assert!(matches!(soft.write(state, &mut cx, b"x"), Progress::Ready(Ok(1))));
    hard.wake_writer(state);
    assert_eq!(once(|cx| hard.read(state, cx, &mut buf)), Some(1));
    assert_eq!(&buf, b"xfc");
}

#[test]
fn a_held_grant_goes_before_an_error() {
    let mut io = GrantableIo::<4, u8>::new();
    let (mut hard, mut soft): (DeviceReader, Writer) = io.claim_writer();
    let state = io.state();
    assert!(once(|cx| match soft.buf_mut(state, cx) {
        Progress::Ready(bytes) => {
            bytes.unwrap()[..2].copy_from_slice(b"hi");
            Progress::Ready(())
        }
        Progress::Wait => Progress::Wait,
    })
    .is_some());
    hard.insert_error(state, 3);
    // The grant is used up first, then the error is reported
    let mut done = 0;
    assert_eq!(once(|cx| soft.write_all(state, cx, b"abcdef", &mut done)), Some(Err(3)));
    assert_eq!(done, 4);
    let mut buf = [0u8; 4];
    assert_eq!(once(|cx| hard.read(state, cx, &mut buf)), Some(4));
    assert_eq!(&buf, b"abcd");

    // Committing what was stored through the slice
    assert!(once(|cx| match soft.buf_mut(state, cx) {
        Progress::Ready(bytes) => {
            bytes.unwrap()[..2].copy_from_slice(b"hi");
            Progress::Ready(())
        }
        Progress::Wait => Progress::Wait,
    })
    .is_some());
    soft.commit(state, 2);
    assert_eq!(once(|cx| hard.read(state, cx, &mut buf)), Some(2));
    assert_eq!(&buf, b"hicd");
    // Without a grant, committing only wakes
    soft.commit(state, 2);
    assert!(once(|cx| hard.read(state, cx, &mut buf)).is_none());
}

#[test]
fn reading_in_place() {
    let mut io = GrantableIo::<8, u8>::new();
    let (mut hard, mut soft): (DeviceWriter, Reader) = io.claim_reader();
    let state = io.state();
    assert_eq!(once(|cx| hard.write(state, cx, b"abcd")), Some(4));
    let seen = once(|cx| match soft.fill_buf(state, cx) {
        Progress::Ready(bytes) => Progress::Ready(bytes.unwrap().to_vec()),
        Progress::Wait => Progress::Wait,
    });
    assert_eq!(seen, Some(b"abcd".to_vec()));
    // What arrives later is not part of the grant at hand
    assert_eq!(once(|cx| hard.write(state, cx, b"ef")), Some(2));
    let seen = once(|cx| match soft.fill_buf_mut(state, cx) {
        Progress::Ready(bytes) => {
            let bytes = bytes.unwrap();
            bytes[1] = b'B';
            Progress::Ready(bytes.to_vec())
        }
        Progress::Wait => Progress::Wait,
    });
    assert_eq!(seen, Some(b"aBcd".to_vec()));
    soft.release(state, 1);
    let mut buf = [0u8; 8];
    assert_eq!(once(|cx| soft.read(state, cx, &mut buf)), Some(Ok(5)));
    assert_eq!(&buf[..5], b"Bcdef");
    soft.release(state, 1);
    assert_eq!(state.atomic.cursors(), Cursors { wrapped: 0, writer: 6, reader: 6 });
}

#[test]
fn the_grant_at_hand() {
    let mut state: State<u8> = State::new();
    let (producer, consumer) = state.atomic.init(vec![0u8; 4]).unwrap();
    let mut soft = AppProducer::new(producer);
    let mut other = AppConsumer::new(consumer);
    assert!(soft.held_mut(&mut state).is_none());
    assert!(other.held_mut(&mut state).is_none());
    assert!(once(|cx| match soft.buf_mut(&mut state, cx) {
        Progress::Ready(bytes) => Progress::Ready(bytes.unwrap().len()),
        Progress::Wait => Progress::Wait,
    })
    .is_some());
    // An error does not come between
    state.error.set(1);
    soft.held_mut(&mut state).unwrap().copy_from_slice(b"wxyz");
    soft.commit(&mut state, 3);
    assert_eq!(state.error.take(), Some(1));
    assert!(once(|cx| match other.fill_buf(&mut state, cx) {
        Progress::Ready(bytes) => Progress::Ready(bytes.unwrap().len()),
        Progress::Wait => Progress::Wait,
    })
    .is_some());
    other.held_mut(&mut state).unwrap()[1] = b'X';
    let mut buf = [0u8; 4];
    assert_eq!(once(|cx| other.read(&mut state, cx, &mut buf)), Some(Ok(3)));
    assert_eq!(&buf[..3], b"wXy");

    let mut io = GrantableIo::<4, u8>::new();
    let (mut hard, mut soft) = io.claim_reader();
    assert!(soft.held_mut(io.state()).is_none());
    assert_eq!(once(|cx| hard.write(io.state(), cx, b"ab")), Some(2));
    assert!(once(|cx| match soft.fill_buf_mut(io.state(), cx) {
        Progress::Ready(bytes) => Progress::Ready(bytes.unwrap().len()),
        Progress::Wait => Progress::Wait,
    })
    .is_some());
    assert_eq!(soft.held_mut(io.state()).unwrap(), b"ab");

    let mut io = GrantableIo::<4, u8>::new();
    let (_hard, mut soft) = io.claim_writer();
    assert!(soft.held_mut(io.state()).is_none());
}

#[test]
fn an_error_goes_before_a_held_grant() {
    let mut state: State<u8> = State::new();
    let (producer, consumer) = state.atomic.init(vec![0u8; 4]).unwrap();
    let mut soft = AppProducer::new(producer);
    let mut hard = DevConsumer::new(consumer);
    assert!(once(|cx| match soft.buf_mut(&mut state, cx) {
        Progress::Ready(bytes) => {
            bytes.unwrap()[0] = b'q';
            Progress::Ready(())
        }
        Progress::Wait => Progress::Wait,
    })
    .is_some());
    hard.insert_error(&mut state, 3);
    assert_eq!(once(|cx| soft.write(&mut state, cx, b"xy")), Some(Err(3)));
    // The grant is still at hand, with what was stored in it
    soft.commit(&mut state, 1);
    let mut buf = [0u8; 4];
    assert_eq!(once(|cx| hard.read(&mut state, cx, &mut buf)), Some(1));
    assert_eq!(&buf[..1], b"q");
    let mut done = 0;
    assert!(once(|cx| soft.write_all(&mut state, cx, b"abcdef", &mut done)).is_none());
    assert_eq!(done, 4);
    assert_eq!(once(|cx| hard.read(&mut state, cx, &mut buf)), Some(3));
    assert_eq!(&buf[..3], b"abc");
    assert_eq!(once(|cx| soft.write_all(&mut state, cx, b"abcdef", &mut done)), Some(Ok(())));

    let mut state: State<u8> = State::new();
    let (producer, consumer) = state.atomic.init(vec![0u8; 4]).unwrap();
    let mut hard = DevProducer::new(producer);
    let mut soft = AppConsumer::new(consumer);
    assert_eq!(once(|cx| hard.write(&mut state, cx, b"ab")), Some(2));
    let look = |soft: &mut AppConsumer, state: &mut State<u8>| {
        once(|cx| match soft.fill_buf(state, cx) {
            Progress::Ready(bytes) => Progress::Ready(bytes.map(|bytes| bytes.to_vec())),
            Progress::Wait => Progress::Wait,
        })
    };
    assert_eq!(look(&mut soft, &mut state), Some(Ok(b"ab".to_vec())));
    hard.insert_error(&mut state, 4);
    assert_eq!(look(&mut soft, &mut state), Some(Err(4)));
    assert_eq!(look(&mut soft, &mut state), Some(Ok(b"ab".to_vec())));
    assert!(once(|cx| match soft.fill_buf_mut(&mut state, cx) {
        Progress::Ready(bytes) => {
            bytes.unwrap()[0] = b'A';
            Progress::Ready(())
        }
        Progress::Wait => Progress::Wait,
    })
    .is_some());
    assert_eq!(look(&mut soft, &mut state), Some(Ok(b"Ab".to_vec())));
    soft.release(&mut state, 2);
    assert_eq!(look(&mut soft, &mut state), None);
}

#[test]
fn a_soft_reader_sees_what_has_arrived() {
    let mut state: State<u8> = State::new();
    let (producer, consumer) = state.atomic.init(vec![0u8; 8]).unwrap();
    let mut hard = DeviceWriter::new(producer);
    let mut soft = SoftReader::new(consumer);
    let look = |soft: &mut SoftReader, state: &mut State<u8>| {
        once(|cx| match soft.fill_buf(state, cx) {
            Progress::Ready(bytes) => Progress::Ready(bytes.map(|bytes| bytes.to_vec())),
            Progress::Wait => Progress::Wait,
        })
    };
    assert_eq!(look(&mut soft, &mut state), None);
    assert_eq!(once(|cx| hard.write(&mut state, cx, b"ab")), Some(2));
    assert_eq!(look(&mut soft, &mut state), Some(Ok(b"ab".to_vec())));
    assert_eq!(once(|cx| hard.write(&mut state, cx, b"cd")), Some(2));
    assert_eq!(look(&mut soft, &mut state), Some(Ok(b"abcd".to_vec())));
    hard.insert_error(&mut state, 1);
    assert_eq!(look(&mut soft, &mut state), Some(Err(1)));
    soft.consume(&mut state, 3);
    assert_eq!(look(&mut soft, &mut state), Some(Ok(b"d".to_vec())));
    soft.consume(&mut state, 1);
    soft.consume(&mut state, 1);
    assert_eq!(look(&mut soft, &mut state), None);
}

#[test]
fn a_soft_writer_hands_its_grants_out() {
    let mut state: State<u8> = State::new();
    let (producer, consumer) = state.atomic.init(vec![0u8; 4]).unwrap();
    let mut soft = SoftWriter::new(producer);
    let mut hard = DeviceReader::new(consumer);
    let mut buf = [0u8; 4];

    let grant = once(|cx| soft.grant_writer(&mut state, cx)).unwrap().unwrap();
    assert_eq!(grant.copy_max_from(&mut state, b"abcdef"), 4);
    assert!(once(|cx| soft.write(&mut state, cx, b"x")).is_none());
    assert_eq!(once(|cx| hard.read(&mut state, cx, &mut buf)), Some(4));
    assert_eq!(&buf, b"abcd");

    hard.insert_error(&mut state, 8);
    assert_eq!(once(|cx| soft.write(&mut state, cx, b"x")), Some(Err(8)));
    assert_eq!(once(|cx| soft.write(&mut state, cx, b"x")), Some(Ok(1)));
    let mut done = 0;
    assert!(once(|cx| soft.write_all(&mut state, cx, b"12345", &mut done)).is_none());
    assert_eq!(done, 3);
    assert_eq!(soft.flush::<u8>(), Ok(()));
    assert_eq!(once(|cx| hard.read(&mut state, cx, &mut buf)), Some(4));
    assert_eq!(&buf, b"x123");
}

#[test]
fn why_there_is_no_grant() {
    let mut state: State<u8> = State::new();
    let (mut producer, mut consumer) = state.atomic.init(vec![0u8; 2]).unwrap();
    let state = &mut state.atomic;
    assert!(matches!(consumer.read(state), Err(Error::InsufficientSize)));
    let grant = producer.grant_max_remaining(state).unwrap();
    assert!(matches!(producer.grant_max_remaining(state), Err(Error::GrantInProgress)));
    grant.commit(state, 2);
    assert!(matches!(producer.grant_max_remaining(state), Err(Error::InsufficientSize)));
    let grant = consumer.read(state).unwrap();
    assert!(matches!(consumer.read(state), Err(Error::GrantInProgress)));
    assert_eq!(grant.len(), 2);
}

#[test]
fn connecting_a_device_writer() {
    let mut state: State<u8> = State::new();
    let (producer, consumer) = state.atomic.init(vec![0u8; 4]).unwrap();
    let mut hard = DeviceWriter::new(producer);
    let mut soft = Reader::new(consumer);
    let mut buf = [0u8; 4];

    // Bytes that were read are committed
    let mut grant = once(|cx| hard.get_writer_grant(&mut state, cx)).unwrap();
    grant.buf_mut(&mut state.atomic)[..2].copy_from_slice(b"ab");
    assert!(hard.embedded_io_connect(&mut state, grant, Ok(2)));
    assert_eq!(once(|cx| soft.read(&mut state, cx, &mut buf)), Some(Ok(2)));
    assert_eq!(&buf[..2], b"ab");

    // An error is inserted, and the grant is free again
    let grant = once(|cx| hard.get_writer_grant(&mut state, cx)).unwrap();
    let length = |e: &str| e.len() as u8;
    assert!(hard.embedded_io_connect_mapped(&mut state, grant, Err("five"), length));
    assert_eq!(once(|cx| soft.read(&mut state, cx, &mut buf)), Some(Err(4)));
    let grant = once(|cx| hard.get_writer_grant(&mut state, cx)).unwrap();
    assert!(hard.embedded_io_connect(&mut state, grant, Err(6)));
    assert_eq!(once(|cx| soft.read(&mut state, cx, &mut buf)), Some(Err(6)));

    // The end of the file ends it
    let grant = once(|cx| hard.get_writer_grant(&mut state, cx)).unwrap();
    assert!(!hard.embedded_io_connect(&mut state, grant, Ok(0)));
    assert!(once(|cx| soft.read(&mut state, cx, &mut buf)).is_none());
    assert!(once(|cx| hard.get_writer_grant(&mut state, cx)).is_some());
}

#[test]
fn connecting_a_device_reader() {
    let mut state: State<u8> = State::new();
    let (producer, consumer) = state.atomic.init(vec![0u8; 4]).unwrap();
    let mut soft = Writer::new(producer);
    let mut hard = DeviceReader::new(consumer);
    assert_eq!(once(|cx| soft.write(&mut state, cx, b"abcd")), Some(Ok(4)));

    let grant = once(|cx| hard.get_reader_grant(&mut state, cx)).unwrap();
    assert_eq!(grant.buf(&state.atomic), b"abcd");
    assert!(hard.embedded_io_connect(&mut state, grant, Ok(3)));
    let grant = once(|cx| hard.get_reader_grant(&mut state, cx)).unwrap();
    assert_eq!(grant.buf(&state.atomic), b"d");
    assert!(hard.embedded_io_connect_mapped(&mut state, grant, Err("e"), |e: &str| e.len() as u8));
    assert_eq!(once(|cx| soft.write(&mut state, cx, b"x")), Some(Err(1)));
    let grant = once(|cx| hard.get_reader_grant(&mut state, cx)).unwrap();
    assert_eq!(grant.buf(&state.atomic), b"d");
    assert!(!hard.embedded_io_connect(&mut state, grant, Ok(0)));
    assert_eq!(state.atomic.readable_bytes(), 1);
}

#[test]
fn connecting_with_grant_futures() {
    let mut state: State<u8> = State::new();
    let (producer, consumer) = state.atomic.init(vec![0u8; 4]).unwrap();
    let mut hard = DevProducer::new(producer);
    let mut other = DevConsumer::new(consumer);
    let mut buf = [0u8; 4];

    let mut grant = once(|cx| hard.get_writer_grant().poll(&mut state, cx)).unwrap();
    grant.buf_mut(&mut state.atomic).copy_from_slice(b"wxyz");
    assert!(hard.embedded_io_connect(&mut state, grant, Ok(9)));
    assert!(once(|cx| hard.get_writer_grant().poll(&mut state, cx)).is_none());
    assert_eq!(once(|cx| other.read(&mut state, cx, &mut buf)), Some(4));
    assert_eq!(&buf, b"wxyz");
    let grant = once(|cx| hard.get_writer_grant().poll(&mut state, cx)).unwrap();
    assert!(hard.embedded_io_connect_mapped(&mut state, grant, Err(1u16), |e: u16| e as u8 + 1));
    assert_eq!(state.error.take(), Some(2));
    let grant = once(|cx| hard.get_writer_grant().poll(&mut state, cx)).unwrap();
    assert!(!hard.embedded_io_connect(&mut state, grant, Ok(0)));
    other.insert_error(&mut state, 5);
    assert_eq!(state.error.take(), Some(5));
}

#[test]
fn a_stored_wakeup_is_taken_once() {
    let mut state: State<u8> = State::new();
    let (producer, consumer) = state.atomic.init(vec![0u8; 1]).unwrap();
    let mut hard = DevProducer::new(producer);
    let mut soft = Reader::new(consumer);
    let (counter, waker) = Counter::new();
    let mut cx = Context::from_waker(&waker);
    let mut one = [0u8; 1];

    assert!(matches!(hard.write(&mut state, &mut cx, b"a"), Progress::Ready(1)));
    // The waker of the write that was done is still stored, and is called
    assert!(matches!(soft.read(&mut state, &mut cx, &mut one), Progress::Ready(Ok(1))));
    assert_eq!(counter.count(), 1);
    assert!(matches!(hard.write(&mut state, &mut cx, b"b"), Progress::Ready(1)));
    // The wakeup was taken by that write: this one stores its waker
    assert!(matches!(hard.write(&mut state, &mut cx, b"c"), Progress::Wait));
    assert!(matches!(soft.read(&mut state, &mut cx, &mut one), Progress::Ready(Ok(1))));
    assert_eq!(&one, b"b");
    assert_eq!(counter.count(), 2);
}

#[test]
fn everything_comes_out_in_order() {
    let mut io = GrantableIo::<7, Infallible>::new();
    let (mut hard, mut soft) = io.claim_reader();
    let state = io.state();
    let sent: Vec<u8> = (0..200u32).map(|i| (i * 7 % 251) as u8).collect();
    let mut got: Vec<u8> = Vec::new();
    let mut done = 0;
    let mut round = 0usize;
    while got.len() < sent.len() {
        let _ = once(|cx| hard.write_all(state, cx, &sent, &mut done));
        let mut buf = [0u8; 5];
        let room = 1 + round % 5;
        if let Some(n) = once(|cx| soft.read(state, cx, &mut buf[..room])) {
            got.extend_from_slice(&buf[..n.unwrap()]);
        }
        assert_eq!(state.atomic.readable_bytes() + got.len(), done);
        round += 1;
    }
    assert_eq!(got, sent);
}

#[test]
fn more_than_fits_goes_in_step_by_step() {
    // 5 bytes through 2, with a read between two steps
    let mut state: State<u8> = State::new();
    let (producer, consumer) = state.atomic.init(vec![0u8; 2]).unwrap();
    let mut hard = DeviceWriter::new(producer);
    let mut soft = Reader::new(consumer);
    let (mut done, mut got) = (0, Vec::new());
    let mut steps = 1;
    while once(|cx| hard.write_all(&mut state, cx, b"abcde", &mut done)).is_none() {
        assert!(!state.atomic.write_granted());
        let mut buf = [0u8; 1];
        assert_eq!(once(|cx| soft.read(&mut state, cx, &mut buf)), Some(Ok(1)));
        got.push(buf[0]);
        steps += 1;
    }
    assert_eq!((done, steps), (5, 4));
    assert_eq!(got, b"abc");
    assert!(!state.atomic.write_granted());
    assert_eq!(state.atomic.cursors(), Cursors { wrapped: 2, writer: 1, reader: 1 });

    let mut state: State<u8> = State::new();
    let (producer, consumer) = state.atomic.init(vec![0u8; 2]).unwrap();
    let mut hard = DevProducer::new(producer);
    let mut soft = AppConsumer::new(consumer);
    let mut done = 0;
    let mut buf = [0u8; 2];
    assert!(once(|cx| hard.write_all(&mut state, cx, b"abc", &mut done)).is_none());
    assert_eq!(once(|cx| soft.read(&mut state, cx, &mut buf)), Some(Ok(2)));
    assert_eq!(once(|cx| hard.write_all(&mut state, cx, b"abc", &mut done)), Some(()));
    assert_eq!(once(|cx| hard.write(&mut state, cx, b"d")), Some(1));
    assert_eq!(once(|cx| soft.read(&mut state, cx, &mut buf)), Some(Ok(2)));
    assert_eq!(&buf, b"cd");

    let mut state: State<u8> = State::new();
    let (producer, consumer) = state.atomic.init(vec![0u8; 2]).unwrap();
    let mut soft = SoftWriter::new(producer);
    let mut hard = DeviceReader::new(consumer);
    let mut done = 0;
    assert!(once(|cx| soft.write_all(&mut state, cx, b"abc", &mut done)).is_none());
    assert!(soft.may_ask(&state));
    assert_eq!(once(|cx| hard.read(&mut state, cx, &mut buf)), Some(2));
    assert_eq!(once(|cx| soft.write_all(&mut state, cx, b"abc", &mut done)), Some(Ok(())));
    assert_eq!(once(|cx| hard.read(&mut state, cx, &mut buf)), Some(1));
    assert_eq!(&buf, b"cb");

    let mut state: State<u8> = State::new();
    let (producer, consumer) = state.atomic.init(vec![0u8; 2]).unwrap();
    let mut soft = AppProducer::new(producer);
    let mut hard = DevConsumer::new(consumer);
    let mut done = 0;
    assert!(once(|cx| soft.write_all(&mut state, cx, b"abc", &mut done)).is_none());
    assert_eq!(once(|cx| hard.read(&mut state, cx, &mut buf)), Some(2));
    assert_eq!(once(|cx| soft.write_all(&mut state, cx, b"abc", &mut done)), Some(Ok(())));
    assert_eq!(once(|cx| hard.read(&mut state, cx, &mut buf)), Some(1));
    assert_eq!(&buf, b"cb");
}

#[test]
fn nothing_left_to_write_beside_a_grant() {
    let mut state: State<u8> = State::new();
    let (producer, _consumer) = state.atomic.init(vec![0u8; 2]).unwrap();
    let mut soft = SoftWriter::new(producer);
    assert!(soft.may_ask(&state));
    let grant = once(|cx| soft.grant_writer(&mut state, cx)).unwrap().unwrap();
    assert!(!soft.may_ask(&state));
    let mut done = 0;
    assert_eq!(once(|cx| soft.write_all(&mut state, cx, b"", &mut done)), Some(Ok(())));
    assert!(!soft.may_ask(&state));
    state.error.set(3);
    assert!(state.error.is_set());
    assert!(soft.may_ask(&state));
    assert_eq!(once(|cx| soft.write_all(&mut state, cx, b"a", &mut done)), Some(Err(3)));
    assert!(!state.error.is_set());
    grant.give_back(&mut state);
    assert!(soft.may_ask(&state));
    assert_eq!(once(|cx| soft.write_all(&mut state, cx, b"a", &mut done)), Some(Ok(())));
}

#[test]
fn giving_back_wakes_nobody() {
    let mut io = GrantableIo::<4, u8>::new();
    let (mut hard, mut soft) = io.claim_writer();
    let state = io.state();
    let (counter, waker) = Counter::new();
    let mut cx = Context::from_waker(&waker);
    let mut buf = [0u8; 4];
    soft.give_back(state);
    assert!(matches!(hard.read(state, &mut cx, &mut buf), Progress::Wait));
    assert!(once(|cx| match soft.buf_mut(state, cx) {
        Progress::Ready(bytes) => Progress::Ready(bytes.unwrap().len()),
        Progress::Wait => Progress::Wait,
    })
    .is_some());
    assert!(state.atomic.write_granted());
    soft.give_back(state);
    assert!(!state.atomic.write_granted());
    assert_eq!(counter.count(), 0);
    assert_eq!(once(|cx| soft.write(state, cx, b"abcd")), Some(Ok(4)));
    assert_eq!(counter.count(), 1);

    let mut state: State<u8> = State::new();
    let (producer, consumer) = state.atomic.init(vec![0u8; 2]).unwrap();
    let mut hard = AppProducer::new(producer);
    let mut soft = AppConsumer::new(consumer);
    assert_eq!(once(|cx| hard.write(&mut state, cx, b"ab")), Some(Ok(2)));
    assert!(matches!(hard.write(&mut state, &mut cx, b"c"), Progress::Wait));
    assert!(once(|cx| match soft.fill_buf(&mut state, cx) {
        Progress::Ready(bytes) => Progress::Ready(bytes.unwrap().len()),
        Progress::Wait => Progress::Wait,
    })
    .is_some());
    soft.give_back(&mut state);
    assert_eq!(counter.count(), 1);
    assert_eq!(state.atomic.readable_bytes(), 2);
    soft.release(&mut state, 0);
    assert_eq!(counter.count(), 2);

    // The same for the other two
    hard.give_back(&mut state);
    let mut io = GrantableIo::<4, u8>::new();
    let (mut hard, mut soft) = io.claim_reader();
    assert_eq!(once(|cx| hard.write(io.state(), cx, b"ab")), Some(2));
    assert!(once(|cx| match soft.fill_buf(io.state(), cx) {
        Progress::Ready(bytes) => Progress::Ready(bytes.unwrap().len()),
        Progress::Wait => Progress::Wait,
    })
    .is_some());
    soft.give_back(io.state());
    assert_eq!(once(|cx| soft.read(io.state(), cx, &mut buf)), Some(Ok(2)));
}

#[test]
fn a_grant_future_may_take_a_wakeup() {
    let mut state: State<u8> = State::new();
    let (producer, consumer) = state.atomic.init(vec![0u8; 2]).unwrap();
    let mut hard = DevConsumer::new(consumer);
    let mut soft = Writer::new(producer);
    let (counter, waker) = Counter::new();
    let mut cx = Context::from_waker(&waker);
    let mut buf = [0u8; 2];
    // A wakeup with nothing to read is taken, and the waker is not stored
    soft.commit(&mut state, 0);
    assert!(matches!(hard.read(&mut state, &mut cx, &mut buf), Progress::Wait));
    soft.commit(&mut state, 0);
    assert_eq!(counter.count(), 0);
    // The second step in a row stores it
    assert!(matches!(hard.read(&mut state, &mut cx, &mut buf), Progress::Wait));
    assert!(matches!(hard.read(&mut state, &mut cx, &mut buf), Progress::Wait));
    assert_eq!(once(|cx| soft.write(&mut state, cx, b"ab")), Some(Ok(2)));
    assert_eq!(counter.count(), 1);
    assert!(matches!(hard.read(&mut state, &mut cx, &mut buf), Progress::Ready(2)));
    assert_eq!(&buf, b"ab");
}
