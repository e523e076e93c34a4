//! The borrow-tracking state machine of an access cell.
//!
//! An [`AccessState`] records how the protected value is currently borrowed:
//! not at all, by `n` readers, by one writer, or poisoned after a writer
//! aborted abnormally. The four transition methods are the only way the
//! state ever changes.

use vstd::prelude::*;

verus! {

/// How a cell's protected value is currently borrowed.
///
/// `Shared` and `Exclusive` can never coexist: the type itself admits only
/// one of the four shapes at a time. `Poisoned` is terminal; no acquisition
/// ever succeeds from it again.
#[derive(Clone, Copy, Debug, PartialEq, Eq, Structural)]
pub enum AccessState {
    /// No outstanding access.
    Free,
    /// `n >= 1` concurrent read-only accesses outstanding.
    Shared(u64),
    /// Exactly one read-write access outstanding.
    Exclusive,
    /// A read-write access was torn down abnormally; the protected value's
    /// invariants can no longer be trusted.
    Poisoned,
}

/// One attempted operation on the state machine, used to state laws over
/// whole operation sequences.
pub enum AccessOp {
    /// An attempt to acquire one more read-only access.
    AcquireShared,
    /// An attempt to acquire the single read-write access.
    AcquireExclusive,
    /// Release of one read-only access.
    ReleaseShared,
    /// Teardown of the read-write access; `orderly` tells whether the holder
    /// completed normally.
    ReleaseExclusive { orderly: bool },
}

impl AccessState {
    /// A well-formed state never records zero readers under `Shared`.
    pub open spec fn wf(self) -> bool {
        self matches AccessState::Shared(n) ==> n >= 1
    }

    /// The number of outstanding read-only accesses.
    pub open spec fn shared_count(self) -> nat {
        match self {
            AccessState::Shared(n) => n as nat,
            _ => 0,
        }
    }

    /// A read-only acquisition succeeds exactly from `Free` or `Shared`.
    pub open spec fn can_acquire_shared(self) -> bool {
        self is Free || self is Shared
    }

    /// A read-write acquisition succeeds exactly from `Free`.
    pub open spec fn can_acquire_exclusive(self) -> bool {
        self is Free
    }

    /// A read-only release is only meaningful while readers are outstanding.
    pub open spec fn can_release_shared(self) -> bool {
        self matches AccessState::Shared(n) && n >= 1
    }

    /// The state after a successful read-only acquisition.
    pub open spec fn after_acquire_shared(self) -> AccessState {
        AccessState::Shared((self.shared_count() + 1) as u64)
    }

    /// The state after one read-only release.
    pub open spec fn after_release_shared(self) -> AccessState {
        if self.shared_count() > 1 {
            AccessState::Shared((self.shared_count() - 1) as u64)
        } else {
            AccessState::Free
        }
    }

    /// The state after the read-write access is torn down: back to `Free`
    /// when the holder completed normally, `Poisoned` when it aborted.
    pub open spec fn after_release_exclusive(orderly: bool) -> AccessState {
        if orderly {
            AccessState::Free
        } else {
            AccessState::Poisoned
        }
    }

    /// Attempts to acquire one more read-only access.
    ///
    /// Succeeds from `Free` and `Shared(n)`, moving to `Shared(n + 1)`;
    /// fails, leaving the state untouched, from `Exclusive` and `Poisoned`.
    pub fn acquire_shared(&mut self) -> (ok: bool)
        requires
            old(self).wf(),
            old(self).shared_count() < u64::MAX,
        ensures
            final(self).wf(),
            ok == old(self).can_acquire_shared(),
            ok ==> *final(self) == old(self).after_acquire_shared(),
            !ok ==> *final(self) == *old(self),
    {
        match *self {
            AccessState::Free => {
                *self = AccessState::Shared(1);
                true
            }
            AccessState::Shared(n) => {
                *self = AccessState::Shared(n + 1);
                true
            }
            _ => false,
        }
    }

    /// Attempts to acquire the single read-write access.
    ///
    /// Succeeds only from `Free`; fails, leaving the state untouched, from
    /// every other state.
    pub fn acquire_exclusive(&mut self) -> (ok: bool)
        requires
            old(self).wf(),
        ensures
            final(self).wf(),
            ok == old(self).can_acquire_exclusive(),
            ok ==> *final(self) == AccessState::Exclusive,
            !ok ==> *final(self) == *old(self),
    {
        match *self {
            AccessState::Free => {
                *self = AccessState::Exclusive;
                true
            }
            _ => false,
        }
    }

    /// Releases one read-only access: `Shared(n)` moves to `Shared(n - 1)`
    /// when `n > 1`, else to `Free`. Calling this in any other state is a
    /// defect of the caller, excluded by contract.
    pub fn release_shared(&mut self)
        requires
            old(self).can_release_shared(),
        ensures
            final(self).wf(),
            *final(self) == old(self).after_release_shared(),
    {
        match *self {
            AccessState::Shared(n) => {
                if n > 1 {
                    *self = AccessState::Shared(n - 1);
                } else {
                    *self = AccessState::Free;
                }
            }
            // a release without an outstanding read-only access is a defect
            // of the surrounding bookkeeping; misuse stops loudly here
            _ => vstd::pervasive::unreached(),
        }
    }

    /// Tears down the read-write access: to `Free` when the holder finished
    /// normally, to `Poisoned` when it aborted. Calling this in any other
    /// state is a defect of the caller, excluded by contract.
    pub fn release_exclusive(&mut self, orderly: bool)
        requires
            *old(self) is Exclusive,
        ensures
            final(self).wf(),
            *final(self) == AccessState::after_release_exclusive(orderly),
    {
        if orderly {
            *self = AccessState::Free;
        } else {
            *self = AccessState::Poisoned;
        }
    }
}

/// The effect of one attempted operation: a transition when the operation is
/// allowed, no change when the attempt fails. An acquisition of a read-only
/// access is modelled only while the reader count has headroom, mirroring
/// the machine limit of the executable counterpart.
pub open spec fn apply_op(s: AccessState, op: AccessOp) -> AccessState {
    match op {
        AccessOp::AcquireShared => {
            if s.can_acquire_shared() && s.shared_count() < u64::MAX {
                s.after_acquire_shared()
            } else {
                s
            }
        }
        AccessOp::AcquireExclusive => {
            if s.can_acquire_exclusive() {
                AccessState::Exclusive
            } else {
                s
            }
        }
        AccessOp::ReleaseShared => {
            if s.can_release_shared() {
                s.after_release_shared()
            } else {
                s
            }
        }
        AccessOp::ReleaseExclusive { orderly } => {
            if s is Exclusive {
                AccessState::after_release_exclusive(orderly)
            } else {
                s
            }
        }
    }
}

/// The state after a whole sequence of attempted operations, applied in order.
pub open spec fn run_ops(s: AccessState, ops: Seq<AccessOp>) -> AccessState
    decreases ops.len(),
{
    if ops.len() == 0 {
        s
    } else {
        run_ops(apply_op(s, ops[0]), ops.subrange(1, ops.len() as int))
    }
}

/// Law: under every sequence of borrow and release operations the state
/// stays well formed — at any point it records either no access, or `n >= 1`
/// read-only accesses, or exactly one read-write access, or poisoning, and
/// never a mixture of read-only and read-write access.
pub proof fn lemma_ops_preserve_wf(s: AccessState, ops: Seq<AccessOp>)
    requires
        s.wf(),
    ensures
        run_ops(s, ops).wf(),
    decreases ops.len(),
{
    if ops.len() > 0 {
        lemma_ops_preserve_wf(apply_op(s, ops[0]), ops.subrange(1, ops.len() as int));
    }
}

/// Law: read-only and read-write access exclude each other. While the
/// read-write access is outstanding no acquisition of either kind succeeds,
/// and while read-only accesses are outstanding no read-write acquisition
/// succeeds.
pub proof fn lemma_shared_exclusive_conflict()
    ensures
        !AccessState::Exclusive.can_acquire_shared(),
        !AccessState::Exclusive.can_acquire_exclusive(),
        forall|n: u64| !(#[trigger] AccessState::Shared(n).can_acquire_exclusive()),
{
}

/// Law: an orderly teardown of the read-write access returns the state to
/// `Free`, from which both a read-only and a read-write acquisition succeed
/// again.
pub proof fn lemma_orderly_release_enables_reborrow()
    ensures
        AccessState::after_release_exclusive(true) == AccessState::Free,
        AccessState::Free.can_acquire_shared(),
        AccessState::Free.can_acquire_exclusive(),
{
}

/// Law: from a free state two read-only acquisitions in a row both succeed,
/// leaving two readers outstanding; releasing either one leaves the other
/// outstanding, and releasing the last returns the state to `Free`.
pub proof fn lemma_two_shared_borrows()
    ensures
        AccessState::Free.can_acquire_shared(),
        AccessState::Free.after_acquire_shared() == AccessState::Shared(1),
        AccessState::Shared(1).can_acquire_shared(),
        AccessState::Shared(1).after_acquire_shared() == AccessState::Shared(2),
        AccessState::Shared(2).can_release_shared(),
        AccessState::Shared(2).after_release_shared() == AccessState::Shared(1),
        AccessState::Shared(1).can_release_shared(),
        AccessState::Shared(1).after_release_shared() == AccessState::Free,
{
}

/// Law: an abnormal teardown of the read-write access poisons the state, and
/// poisoning is terminal — no acquisition ever succeeds from `Poisoned`, and
/// arbitrarily many further attempted operations leave it poisoned.
pub proof fn lemma_poisoned_is_terminal(ops: Seq<AccessOp>)
    ensures
        AccessState::after_release_exclusive(false) == AccessState::Poisoned,
        !AccessState::Poisoned.can_acquire_shared(),
        !AccessState::Poisoned.can_acquire_exclusive(),
        run_ops(AccessState::Poisoned, ops) == AccessState::Poisoned,
    decreases ops.len(),
{
    if ops.len() > 0 {
        assert(apply_op(AccessState::Poisoned, ops[0]) == AccessState::Poisoned);
        lemma_poisoned_is_terminal(ops.subrange(1, ops.len() as int));
    }
}

} // verus!
