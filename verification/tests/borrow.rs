use sharedmem::borrow::BorrowArbiter;

#[test]
fn a_writer_is_refused_while_a_reader_holds() {
    let mut arbiter = BorrowArbiter::new();
    assert!(arbiter.try_borrow());
    assert!(!arbiter.try_borrow_mut());
    assert!(arbiter.release());
    assert!(arbiter.try_borrow_mut());
    assert!(arbiter.release_mut());
    assert!(arbiter.try_borrow());
}

#[test]
fn readers_share() {
    let mut arbiter = BorrowArbiter::new();
    assert!(arbiter.try_borrow());
    assert!(arbiter.try_borrow());
    assert!(arbiter.try_borrow());
    assert!(arbiter.release());
    assert!(arbiter.release());
    assert!(!arbiter.try_borrow_mut());
    assert!(arbiter.release());
    assert!(arbiter.try_borrow_mut());
}

#[test]
fn a_writer_excludes_everyone() {
    let mut arbiter = BorrowArbiter::new();
    assert!(arbiter.try_borrow_mut());
    assert!(!arbiter.try_borrow());
    assert!(!arbiter.try_borrow_mut());
    assert!(arbiter.release_mut());
    assert!(arbiter.try_borrow());
}

#[test]
fn a_refusal_changes_nothing() {
    let mut arbiter = BorrowArbiter::new();
    assert!(arbiter.try_borrow());
    assert!(!arbiter.try_borrow_mut());
    assert!(!arbiter.try_borrow_mut());
    assert!(arbiter.release());
    assert!(arbiter.try_borrow_mut());
    assert!(!arbiter.try_borrow());
    assert!(arbiter.release_mut());
    assert!(arbiter.try_borrow_mut());
}

#[test]
fn nothing_is_released_that_was_not_borrowed() {
    let mut arbiter = BorrowArbiter::new();
    assert!(!arbiter.release());
    assert!(!arbiter.release_mut());
    assert!(arbiter.try_borrow());
    assert!(!arbiter.release_mut());
    assert!(arbiter.release());
    assert!(!arbiter.release());
    assert!(arbiter.try_borrow_mut());
    assert!(!arbiter.release());
    assert!(arbiter.release_mut());
    assert!(!arbiter.release_mut());
}
