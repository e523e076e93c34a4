use godot_cell::cell::AccessCell;
use godot_cell::cell::AccessError;

#[test]
fn two_shared_borrows_then_exclusive() {
    // cell holds 0; two shared borrows succeed; an exclusive attempt fails
    // while they are outstanding; after both are released it succeeds.
    let mut cell = AccessCell::new(0_i64);
    let g1 = cell.borrow().unwrap();
    let g2 = cell.borrow().unwrap();
    let err = cell.borrow_mut();
    assert!(matches!(err, Err(AccessError::AlreadyBorrowed { .. })));
    cell.release_shared_guard(g1);
    cell.release_shared_guard(g2);
    let m = cell.borrow_mut();
    assert!(m.is_ok());
}

#[test]
fn two_shared_borrows_read_same_value() {
    let mut cell = AccessCell::new(42_u32);
    let g1 = cell.borrow().unwrap();
    let g2 = cell.borrow().unwrap();
    assert_eq!(*cell.read(&g1), 42);
    assert_eq!(*cell.read(&g2), 42);
    // releasing one borrow does not affect the other's validity
    cell.release_shared_guard(g1);
    assert_eq!(*cell.read(&g2), 42);
    cell.release_shared_guard(g2);
}

#[test]
fn shared_borrow_fails_while_exclusive() {
    let mut cell = AccessCell::new(5_u8);
    let m = cell.borrow_mut().unwrap();
    let err = cell.borrow();
    assert!(matches!(err, Err(AccessError::AlreadyExclusivelyBorrowed { .. })));
    cell.release_exclusive_guard(m, true);
}

#[test]
fn exclusive_borrow_fails_while_shared() {
    let mut cell = AccessCell::new(5_u8);
    let g = cell.borrow().unwrap();
    let err = cell.borrow_mut();
    assert!(matches!(err, Err(AccessError::AlreadyBorrowed { .. })));
    cell.release_shared_guard(g);
}

#[test]
fn exclusive_borrow_fails_while_exclusive() {
    let mut cell = AccessCell::new(5_u8);
    let m = cell.borrow_mut().unwrap();
    let err = cell.borrow_mut();
    assert!(matches!(err, Err(AccessError::AlreadyBorrowed { .. })));
    cell.release_exclusive_guard(m, true);
}

#[test]
fn orderly_release_frees_the_cell() {
    let mut cell = AccessCell::new(1_i32);
    let m = cell.borrow_mut().unwrap();
    cell.write(&m, 2);
    assert_eq!(*cell.read_mut(&m), 2);
    cell.release_exclusive_guard(m, true);
    // both kinds of borrow succeed again, and the written value is seen
    let g = cell.borrow().unwrap();
    assert_eq!(*cell.read(&g), 2);
    cell.release_shared_guard(g);
    let m2 = cell.borrow_mut();
    assert!(m2.is_ok());
    cell.release_exclusive_guard(m2.unwrap(), true);
}

#[test]
fn abnormal_release_poisons_the_cell() {
    // an exclusive borrow torn down abnormally poisons the cell; a later
    // shared borrow fails with Poisoned
    let mut cell = AccessCell::new(3_u64);
    let m = cell.borrow_mut().unwrap();
    cell.release_exclusive_guard(m, false);
    let err = cell.borrow();
    assert!(matches!(err, Err(AccessError::Poisoned)));
}

#[test]
fn poisoning_is_permanent() {
    let mut cell = AccessCell::new(3_u64);
    let m = cell.borrow_mut().unwrap();
    cell.release_exclusive_guard(m, false);
    // arbitrarily many further attempts of either kind keep failing
    for _ in 0..100 {
        assert!(matches!(cell.borrow(), Err(AccessError::Poisoned)));
        assert!(matches!(cell.borrow_mut(), Err(AccessError::Poisoned)));
    }
}

#[test]
fn conflict_report_is_nonempty_for_exclusive_holder() {
    let mut cell = AccessCell::new(0_u8);
    let m = cell.borrow_mut().unwrap();
    match cell.borrow() {
        Err(AccessError::AlreadyExclusivelyBorrowed { report }) => {
            assert!(!report.is_empty());
        }
        _ => panic!("expected a conflict error carrying a report"),
    }
    cell.release_exclusive_guard(m, true);
}

#[test]
fn conflict_report_is_nonempty_for_shared_holders() {
    let mut cell = AccessCell::new(0_u8);
    let g1 = cell.borrow().unwrap();
    let g2 = cell.borrow().unwrap();
    match cell.borrow_mut() {
        Err(AccessError::AlreadyBorrowed { report }) => {
            assert!(!report.is_empty());
        }
        _ => panic!("expected a conflict error carrying a report"),
    }
    cell.release_shared_guard(g1);
    cell.release_shared_guard(g2);
}

#[test]
fn error_message_names_the_kind() {
    let mut cell = AccessCell::new(0_u8);
    let m = cell.borrow_mut().unwrap();
    let msg = cell.borrow().unwrap_err().message();
    assert!(msg.starts_with("already exclusively borrowed\n"));
    cell.release_exclusive_guard(m, false);
    let msg = cell.borrow().unwrap_err().message();
    assert_eq!(msg, "poisoned");
}

#[test]
fn already_borrowed_message_carries_report() {
    let mut cell = AccessCell::new(0_u8);
    let g = cell.borrow().unwrap();
    let err = cell.borrow_mut().unwrap_err();
    let msg = err.message();
    assert!(msg.starts_with("already borrowed\n"));
    assert!(msg.len() > "already borrowed\n".len());
    cell.release_shared_guard(g);
}

#[test]
fn into_inner_returns_the_value() {
    let mut cell = AccessCell::new(String::from("payload"));
    let m = cell.borrow_mut().unwrap();
    cell.write(&m, String::from("changed"));
    cell.release_exclusive_guard(m, true);
    assert_eq!(cell.into_inner(), "changed");
}

#[test]
fn interleaved_shared_release_orders() {
    // release in acquisition order and in reverse order both work
    let mut cell = AccessCell::new(9_i16);
    let g1 = cell.borrow().unwrap();
    let g2 = cell.borrow().unwrap();
    let g3 = cell.borrow().unwrap();
    cell.release_shared_guard(g2);
    assert_eq!(*cell.read(&g1), 9);
    assert_eq!(*cell.read(&g3), 9);
    cell.release_shared_guard(g3);
    cell.release_shared_guard(g1);
    assert!(cell.borrow_mut().is_ok());
}
