# Grantable IO

Ring buffers which can be written to and read from via non-overlapping grants. One end
of a stream belongs to a device, the other to an application, and neither knows the
type of the other.

```rust
let mut io = GrantableIo::<20, Infallible>::new();
let (mut device, mut reader) = io.claim_reader();
let state = io.state();

let mut done = 0;
device.write_all(state, cx, b"_foo_bar_baz", &mut done);
reader.read(state, cx, &mut buf);
```

## Layout

- `src/ring.rs`: what a ring buffer is, as mathematics.
- `src/cursors.rs`, `src/buffer.rs`: the buffer, its two halves and their grants.
- `src/laws.rs`: what holds of the buffer as a whole: grants do not overlap, and what
  is read is what was written, in order, once.
- `src/interleaving.rs`: the same, with the two halves taking their steps in any order.
- `src/app.rs`, `src/producer.rs`, `src/soft.rs`: the application's ends. They differ in
  what becomes of an error and of a grant at hand.
- `src/dev.rs`, `src/future.rs`: the device's ends.
- `src/atomic.rs`, `src/wait.rs`: the atomic cells of `portable_atomic` and the wait
  cells of `maitake_sync`, with the contracts that the proofs rest on.
- `app/`: the async interface. It shares the state behind a lock and waits.

## Sharing

A call borrows what the two ends share exclusively, so its contract can say exactly
what it does. Ends in different tasks share it behind a lock, as `app/` does. A call
that may have to wait does not: it stores the caller's waker, returns `Progress::Wait`,
and is made again after a wakeup. The steps in `src/future.rs` look at their wait cell
once, and may find a wakeup there in place of storing the waker: a step of theirs that
returns `Progress::Wait` is made a second time at once.

A grant has to be given back, with `commit` or `consume`: dropping one in the library
leaves it out. The grants of `app/` give themselves back.
