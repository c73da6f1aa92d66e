use grantable_io::error::AtomicError;

#[test]
fn basic_take_then_set() {
    let mut error: AtomicError<&'static str> = AtomicError::new();

    assert_eq!(error.take(), None);

    error.set("The first");

    assert_eq!(error.take(), Some("The first"));
    assert_eq!(error.take(), None);

    error.set("The forgotten");
    error.set("The finisher");

    assert_eq!(error.take(), Some("The finisher"));
    assert_eq!(error.take(), None);
}
