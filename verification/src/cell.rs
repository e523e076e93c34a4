//! The access cell: dynamically checked shared/exclusive access to a value.
//!
//! An [`AccessCell`] owns a protected value together with an
//! [`AccessState`] and a [`DebugState`]. Callers ask for read-only access
//! with [`AccessCell::borrow`] or read-write access with
//! [`AccessCell::borrow_mut`]; a successful attempt hands back a guard, and
//! a conflicting attempt fails with an [`AccessError`] that carries the
//! ledger's report of the conflicting acquisition sites. Guards are handed
//! back to the cell to release the access they represent; a read-write
//! guard handed back after an abnormal teardown poisons the cell for good.

use vstd::prelude::*;

use crate::debug_state::DebugState;
use crate::debug_state::lemma_report_nonempty;
use crate::debug_state::lemma_shared_len_le_counter;
use crate::debug_state::report_of;
use crate::state::AccessState;

verus! {

/// Why a borrow attempt failed.
#[derive(Debug)]
pub enum AccessError {
    /// Read-write access was requested while any access — read-only or
    /// read-write — was outstanding. `report` renders where each
    /// conflicting access was acquired.
    AlreadyBorrowed {
        /// Rendered acquisition sites of the conflicting accesses.
        report: String,
    },
    /// Read-only access was requested while read-write access was
    /// outstanding. `report` renders where the conflicting access was
    /// acquired.
    AlreadyExclusivelyBorrowed {
        /// Rendered acquisition site of the conflicting access.
        report: String,
    },
    /// Access was requested after a read-write borrow had been torn down
    /// abnormally; the cell refuses every further access.
    Poisoned,
}

impl AccessError {
    /// The rendered text of this error: the kind's name, then the conflict
    /// report that accompanies it.
    pub open spec fn message_spec(self) -> Seq<char> {
        match self {
            AccessError::AlreadyBorrowed { report } => "already borrowed\n"@ + report@,
            AccessError::AlreadyExclusivelyBorrowed { report } => "already exclusively borrowed\n"@
                + report@,
            AccessError::Poisoned => "poisoned"@,
        }
    }

    /// Renders this error as text for logging or propagation.
    pub fn message(&self) -> (m: String)
        ensures
            m@ == self.message_spec(),
    {
        match self {
            AccessError::AlreadyBorrowed { report } => {
                let mut m = String::from_str("already borrowed\n");
                m.append(report.as_str());
                m
            }
            AccessError::AlreadyExclusivelyBorrowed { report } => {
                let mut m = String::from_str("already exclusively borrowed\n");
                m.append(report.as_str());
                m
            }
            AccessError::Poisoned => String::from_str("poisoned"),
        }
    }
}

/// A live read-only borrow of one cell. Handing the guard back to
/// [`AccessCell::release_shared_guard`] releases the borrow it represents;
/// the guard cannot be duplicated, so the borrow cannot be released twice.
#[derive(Debug)]
pub struct SharedGuard {
    id: u64,
}

impl SharedGuard {
    /// The ledger key under which this borrow's acquisition site is tracked.
    pub closed spec fn key(self) -> u64 {
        self.id
    }
}

/// The live read-write borrow of one cell. Handing the guard back to
/// [`AccessCell::release_exclusive_guard`] tears the borrow down, orderly or
/// abnormally; the guard cannot be duplicated, so the teardown happens once.
#[derive(Debug)]
pub struct ExclusiveGuard {
    _private: (),
}

/// A value protected by dynamically checked shared/exclusive access.
pub struct AccessCell<T> {
    value: T,
    state: AccessState,
    tracker: DebugState,
}

impl<T> AccessCell<T> {
    /// The protected value.
    pub closed spec fn stored(self) -> T {
        self.value
    }

    /// The borrow-tracking state machine.
    pub closed spec fn borrow_state(self) -> AccessState {
        self.state
    }

    /// The diagnostic ledger.
    pub closed spec fn ledger(self) -> DebugState {
        self.tracker
    }

    /// Cell invariant: the state machine and the ledger agree. The ledger
    /// holds exactly one record per outstanding read-only borrow, and holds
    /// a (non-empty) read-write site exactly while the read-write borrow is
    /// outstanding.
    pub open spec fn wf(self) -> bool {
        &&& self.borrow_state().wf()
        &&& self.ledger().wf()
        &&& self.ledger().shared_seq().len() == self.borrow_state().shared_count()
        &&& (self.borrow_state() is Exclusive <==> self.ledger().mutable_site() is Some)
        &&& (self.ledger().mutable_site() matches Some(s) ==> s.len() > 0)
    }

    /// Wraps `value`. The new cell is `Free`, with an empty ledger.
    pub fn new(value: T) -> (c: AccessCell<T>)
        ensures
            c.wf(),
            c.borrow_state() == AccessState::Free,
            c.stored() == value,
            c.ledger().counter() == 0,
            c.ledger().shared_seq().len() == 0,
    {
        AccessCell { value, state: AccessState::Free, tracker: DebugState::new() }
    }

    /// Attempts to acquire read-only access.
    ///
    /// Succeeds exactly when the cell is `Free` or already shared, handing
    /// back a guard with a fresh ledger key and leaving every other borrow
    /// tracked as before. Fails with `AlreadyExclusivelyBorrowed` — carrying
    /// the non-empty report of the conflicting acquisition site — while
    /// read-write access is outstanding, and with `Poisoned` after an
    /// abnormal teardown; a failed attempt leaves the cell untouched.
    pub fn borrow(&mut self) -> (r: Result<SharedGuard, AccessError>)
        requires
            old(self).wf(),
            old(self).ledger().counter() < u64::MAX,
        ensures
            final(self).wf(),
            final(self).stored() == old(self).stored(),
            r is Ok <==> old(self).borrow_state().can_acquire_shared(),
            r is Ok ==> final(self).borrow_state() == old(self).borrow_state().after_acquire_shared(),
            r matches Ok(g) ==> g.key() == old(self).ledger().counter(),
            r is Ok ==> final(self).ledger().counter() == old(self).ledger().counter() + 1,
            r is Ok ==> final(self).ledger().tracks(old(self).ledger().counter()),
            r is Ok ==> !old(self).ledger().tracks(old(self).ledger().counter()),
            r is Ok ==> (forall|x: u64|
                x != old(self).ledger().counter() ==> (#[trigger] final(self).ledger().tracks(x)
                    <==> old(self).ledger().tracks(x))),
            r is Ok ==> final(self).ledger().mutable_site() == old(self).ledger().mutable_site(),
            r is Err ==> *final(self) == *old(self),
            old(self).borrow_state() is Exclusive ==> (r matches Err(e) && e matches
                AccessError::AlreadyExclusivelyBorrowed { report } && report@ == report_of(
                old(self).ledger().shared_seq(),
                old(self).ledger().mutable_site(),
            ) && report@.len() > 0),
            old(self).borrow_state() is Poisoned ==> (r matches Err(e) && e is Poisoned),
    {
        match self.state {
            AccessState::Exclusive => {
                proof {
                    lemma_report_nonempty(self.tracker);
                }
                let report = self.tracker.borrow_locations();
                Err(AccessError::AlreadyExclusivelyBorrowed { report })
            }
            AccessState::Poisoned => Err(AccessError::Poisoned),
            _ => {
                proof {
                    lemma_shared_len_le_counter(self.tracker);
                }
                let id = self.tracker.track_shared_borrow();
                let _acquired = self.state.acquire_shared();
                Ok(SharedGuard { id })
            }
        }
    }

    /// Attempts to acquire read-write access.
    ///
    /// Succeeds exactly when the cell is `Free`. Fails with
    /// `AlreadyBorrowed` — carrying the non-empty report of every
    /// conflicting acquisition site, most recent first — while any access is
    /// outstanding, and with `Poisoned` after an abnormal teardown; a failed
    /// attempt leaves the cell untouched.
    pub fn borrow_mut(&mut self) -> (r: Result<ExclusiveGuard, AccessError>)
        requires
            old(self).wf(),
        ensures
            final(self).wf(),
            final(self).stored() == old(self).stored(),
            r is Ok <==> old(self).borrow_state() is Free,
            r is Ok ==> final(self).borrow_state() is Exclusive,
            r is Ok ==> final(self).ledger().counter() == old(self).ledger().counter(),
            r is Ok ==> final(self).ledger().shared_seq() == old(self).ledger().shared_seq(),
            r is Err ==> *final(self) == *old(self),
            (old(self).borrow_state() is Shared || old(self).borrow_state() is Exclusive) ==> (
            r matches Err(e) && e matches AccessError::AlreadyBorrowed { report } && report@
                == report_of(old(self).ledger().shared_seq(), old(self).ledger().mutable_site())
                && report@.len() > 0),
            old(self).borrow_state() is Poisoned ==> (r matches Err(e) && e is Poisoned),
    {
        match self.state {
            AccessState::Free => {
                self.tracker.track_mutable_borrow(None);
                let _acquired = self.state.acquire_exclusive();
                Ok(ExclusiveGuard { _private: () })
            }
            AccessState::Poisoned => Err(AccessError::Poisoned),
            _ => {
                proof {
                    lemma_report_nonempty(self.tracker);
                }
                let report = self.tracker.borrow_locations();
                Err(AccessError::AlreadyBorrowed { report })
            }
        }
    }

    /// Releases the read-only borrow that `guard` represents, consuming the
    /// guard. One reader fewer is outstanding afterwards — `Free` again when
    /// it was the last — and every other borrow stays tracked untouched.
    pub fn release_shared_guard(&mut self, guard: SharedGuard)
        requires
            old(self).wf(),
            old(self).ledger().tracks(guard.key()),
        ensures
            final(self).wf(),
            final(self).stored() == old(self).stored(),
            final(self).borrow_state() == old(self).borrow_state().after_release_shared(),
            final(self).ledger().counter() == old(self).ledger().counter(),
            final(self).ledger().shared_seq().len() == old(self).ledger().shared_seq().len() - 1,
            !final(self).ledger().tracks(guard.key()),
            forall|x: u64|
                x != guard.key() ==> (#[trigger] final(self).ledger().tracks(x) <==> old(
                    self,
                ).ledger().tracks(x)),
            final(self).ledger().mutable_site() == old(self).ledger().mutable_site(),
    {
        proof {
            let s = self.tracker.shared_seq();
            let i = choose|i: int| 0 <= i < s.len() && (#[trigger] s[i]).id == guard.key();
            assert(s.len() > 0);
        }
        self.tracker.untrack_shared_borrow(guard.id);
        self.state.release_shared();
    }

    /// Tears down the read-write borrow that `guard` represents, consuming
    /// the guard. `orderly` says whether the borrower's scoped work
    /// completed normally: an orderly teardown returns the cell to `Free`,
    /// an abnormal one poisons it permanently. Either way the ledger's
    /// read-write record is cleared.
    #[allow(unused_variables)]
    pub fn release_exclusive_guard(&mut self, guard: ExclusiveGuard, orderly: bool)
        requires
            old(self).wf(),
            old(self).borrow_state() is Exclusive,
        ensures
            final(self).wf(),
            final(self).stored() == old(self).stored(),
            final(self).borrow_state() == AccessState::after_release_exclusive(orderly),
            final(self).ledger().counter() == old(self).ledger().counter(),
            final(self).ledger().shared_seq() == old(self).ledger().shared_seq(),
            final(self).ledger().mutable_site() is None,
    {
        let _ = self.tracker.untrack_mutable_borrow();
        self.state.release_exclusive(orderly);
    }

    /// Reads the protected value through a live read-only guard.
    #[allow(unused_variables)]
    pub fn read<'a>(&'a self, guard: &SharedGuard) -> (v: &'a T)
        requires
            self.wf(),
            self.ledger().tracks(guard.key()),
        ensures
            *v == self.stored(),
    {
        &self.value
    }

    /// Reads the protected value through the read-write guard.
    #[allow(unused_variables)]
    pub fn read_mut<'a>(&'a self, guard: &ExclusiveGuard) -> (v: &'a T)
        requires
            self.wf(),
            self.borrow_state() is Exclusive,
        ensures
            *v == self.stored(),
    {
        &self.value
    }

    /// Replaces the protected value through the read-write guard; the
    /// borrow-tracking state and the ledger stay untouched.
    #[allow(unused_variables)]
    pub fn write(&mut self, guard: &ExclusiveGuard, value: T)
        requires
            old(self).wf(),
            old(self).borrow_state() is Exclusive,
        ensures
            final(self).wf(),
            final(self).stored() == value,
            final(self).borrow_state() == old(self).borrow_state(),
            final(self).ledger() == old(self).ledger(),
    {
        self.value = value;
    }

    /// Consumes the cell and hands the protected value back. Destroying a
    /// cell while any borrow is outstanding, or after poisoning, is a
    /// defect of the surrounding ownership layer and is excluded by
    /// contract.
    pub fn into_inner(self) -> (v: T)
        requires
            self.wf(),
            self.borrow_state() is Free,
        ensures
            v == self.stored(),
    {
        let AccessCell { value, state: _, tracker: _ } = self;
        value
    }
}

/// Law (diagnostics): while a cell has any outstanding borrow, the ledger
/// holds exactly one record per outstanding read-only borrow — all with
/// distinct ids — and the rendered conflict report is non-empty text.
pub proof fn lemma_diagnostics_match_state<T>(c: AccessCell<T>)
    requires
        c.wf(),
        c.borrow_state() is Shared || c.borrow_state() is Exclusive,
    ensures
        c.ledger().shared_seq().len() == c.borrow_state().shared_count(),
        forall|i: int, j: int|
            #![trigger c.ledger().shared_seq()[i], c.ledger().shared_seq()[j]]
            0 <= i < j < c.ledger().shared_seq().len() ==> c.ledger().shared_seq()[i].id != c.ledger().shared_seq()[j].id,
        report_of(c.ledger().shared_seq(), c.ledger().mutable_site()).len() > 0,
{
    lemma_report_nonempty(c.ledger());
}

} // verus!
