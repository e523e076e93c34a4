use godot_cell::debug_state::DebugState;
use godot_cell::state::AccessState;

#[test]
fn ledger_ids_are_monotonic() {
    let mut d = DebugState::new();
    let a = d.track_shared_borrow();
    let b = d.track_shared_borrow();
    let c = d.track_shared_borrow();
    assert_eq!(a, 0);
    assert_eq!(b, 1);
    assert_eq!(c, 2);
    d.untrack_shared_borrow(a);
    d.untrack_shared_borrow(b);
    d.untrack_shared_borrow(c);
    // ids are never reused, even after every borrow was untracked
    let e = d.track_shared_borrow();
    assert_eq!(e, 3);
    d.untrack_shared_borrow(e);
}

#[test]
fn ledger_untrack_in_any_order() {
    let mut d = DebugState::new();
    let a = d.track_shared_borrow();
    let b = d.track_shared_borrow();
    let c = d.track_shared_borrow();
    d.untrack_shared_borrow(b);
    d.untrack_shared_borrow(c);
    d.untrack_shared_borrow(a);
    assert!(d.borrow_locations().is_empty());
}

#[test]
fn ledger_report_reflects_tracked_borrows() {
    let mut d = DebugState::new();
    assert!(d.borrow_locations().is_empty());
    let a = d.track_shared_borrow();
    assert!(!d.borrow_locations().is_empty());
    d.untrack_shared_borrow(a);
    assert!(d.borrow_locations().is_empty());
}

#[test]
fn ledger_mutable_snapshot_round_trip() {
    let mut d = DebugState::new();
    d.track_mutable_borrow(Some(String::from("somewhere in the host")));
    assert_eq!(d.borrow_locations(), "somewhere in the host");
    let site = d.untrack_mutable_borrow();
    assert_eq!(site, "somewhere in the host");
    assert!(d.borrow_locations().is_empty());
}

#[test]
fn ledger_captures_mutable_snapshot_itself() {
    let mut d = DebugState::new();
    d.track_mutable_borrow(None);
    assert!(!d.borrow_locations().is_empty());
    let site = d.untrack_mutable_borrow();
    assert!(!site.is_empty());
}

#[test]
fn ledger_shared_sites_win_over_mutable() {
    // while shared snapshots are tracked, the report renders those
    let mut d = DebugState::new();
    d.track_mutable_borrow(Some(String::from("writer")));
    let a = d.track_shared_borrow();
    let report = d.borrow_locations();
    assert!(!report.is_empty());
    d.untrack_shared_borrow(a);
    assert_eq!(d.borrow_locations(), "writer");
    d.untrack_mutable_borrow();
}

#[test]
fn state_shared_transitions() {
    let mut s = AccessState::Free;
    assert!(s.acquire_shared());
    assert_eq!(s, AccessState::Shared(1));
    assert!(s.acquire_shared());
    assert_eq!(s, AccessState::Shared(2));
    assert!(!s.acquire_exclusive());
    assert_eq!(s, AccessState::Shared(2));
    s.release_shared();
    assert_eq!(s, AccessState::Shared(1));
    s.release_shared();
    assert_eq!(s, AccessState::Free);
}

#[test]
fn state_exclusive_transitions() {
    let mut s = AccessState::Free;
    assert!(s.acquire_exclusive());
    assert_eq!(s, AccessState::Exclusive);
    assert!(!s.acquire_shared());
    assert!(!s.acquire_exclusive());
    assert_eq!(s, AccessState::Exclusive);
    s.release_exclusive(true);
    assert_eq!(s, AccessState::Free);
}

#[test]
fn state_poisoning_transitions() {
    let mut s = AccessState::Free;
    assert!(s.acquire_exclusive());
    s.release_exclusive(false);
    assert_eq!(s, AccessState::Poisoned);
    assert!(!s.acquire_shared());
    assert!(!s.acquire_exclusive());
    assert_eq!(s, AccessState::Poisoned);
}
