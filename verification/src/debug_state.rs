//! The diagnostic ledger of an access cell.
//!
//! A [`DebugState`] remembers where every outstanding borrow was acquired:
//! one rendered call-stack snapshot per outstanding read-only borrow, keyed
//! by a monotonically increasing id, plus at most one snapshot for the
//! outstanding read-write borrow. [`DebugState::borrow_locations`] renders
//! the tracked snapshots into the text that accompanies a conflict error.

use vstd::prelude::*;

verus! {

/// One tracked read-only borrow: the ledger key handed back to the borrower
/// and the acquisition site captured when the borrow succeeded.
#[derive(Debug)]
pub struct SharedRecord {
    /// Ledger key, unique within one ledger's lifetime.
    pub id: u64,
    /// Rendered call-stack snapshot; never empty.
    pub site: String,
}

/// Acquisition-site ledger for the outstanding borrows of one cell.
///
/// Shared records are kept in order of acquisition, so their ids are
/// strictly increasing and all below the id counter.
#[derive(Debug)]
pub struct DebugState {
    shared_borrow_count: u64,
    shared_borrows: Vec<SharedRecord>,
    mutable_borrow: Option<String>,
}

/// Relies on `std::backtrace::Backtrace::capture`: renders the call stack at
/// the point of the call. The text depends on the machine, the build and the
/// environment, so nothing is promised of it.
#[verifier::external_body]
fn capture_backtrace_text() -> String {
    format!("{}", std::backtrace::Backtrace::capture())
}

/// Captures an acquisition-site snapshot. When the captured call stack
/// renders as empty text, fixed placeholder text is substituted, so a
/// conflict report built from snapshots is never silently blank.
fn capture_site() -> (site: String)
    ensures
        site@.len() > 0,
{
    let raw = capture_backtrace_text();
    if raw.as_str().is_empty() {
        let fallback = String::from_str("acquisition site unavailable");
        proof {
            reveal_strlit("acquisition site unavailable");
        }
        fallback
    } else {
        raw
    }
}

/// The concatenation of the acquisition sites of `records` at indices
/// `upto - 1` down to `0`: most recently acquired first.
pub open spec fn sites_below(records: Seq<SharedRecord>, upto: int) -> Seq<char>
    decreases upto,
{
    if upto <= 0 {
        Seq::empty()
    } else {
        records[upto - 1].site@ + sites_below(records, upto - 1)
    }
}

/// The conflict report rendered from a ledger: every tracked shared
/// acquisition site, most recent first, when any is tracked; else the
/// read-write acquisition site, when one is tracked; else empty text.
pub open spec fn report_of(shared: Seq<SharedRecord>, mutable: Option<Seq<char>>) -> Seq<char> {
    if shared.len() > 0 {
        sites_below(shared, shared.len() as int)
    } else if mutable is Some {
        mutable->0
    } else {
        Seq::empty()
    }
}

impl DebugState {
    /// The counter from which shared-borrow ids are drawn; it only grows.
    pub closed spec fn counter(self) -> u64 {
        self.shared_borrow_count
    }

    /// The tracked shared-borrow records, in order of acquisition.
    pub closed spec fn shared_seq(self) -> Seq<SharedRecord> {
        self.shared_borrows@
    }

    /// The tracked read-write acquisition site, if one is outstanding.
    pub closed spec fn mutable_site(self) -> Option<Seq<char>> {
        match self.mutable_borrow {
            Some(s) => Some(s@),
            None => None,
        }
    }

    /// Ledger invariant: shared-borrow ids are strictly increasing, all ids
    /// lie below the counter, and every tracked site is non-empty text.
    pub open spec fn wf(self) -> bool {
        &&& (forall|i: int, j: int|
            #![trigger self.shared_seq()[i], self.shared_seq()[j]]
            0 <= i < j < self.shared_seq().len()
                ==> self.shared_seq()[i].id < self.shared_seq()[j].id)
        &&& (forall|i: int|
            0 <= i < self.shared_seq().len()
                ==> (#[trigger] self.shared_seq()[i]).id < self.counter())
        &&& (forall|i: int|
            0 <= i < self.shared_seq().len()
                ==> (#[trigger] self.shared_seq()[i]).site@.len() > 0)
    }

    /// Whether a shared borrow with ledger key `id` is currently tracked.
    pub open spec fn tracks(self, id: u64) -> bool {
        exists|i: int|
            0 <= i < self.shared_seq().len() && (#[trigger] self.shared_seq()[i]).id == id
    }

    /// The index of the tracked record with ledger key `id`.
    pub open spec fn id_index(self, id: u64) -> int {
        choose|i: int|
            0 <= i < self.shared_seq().len() && (#[trigger] self.shared_seq()[i]).id == id
    }

    /// Creates an empty ledger: nothing tracked, ids starting at zero.
    pub fn new() -> (d: DebugState)
        ensures
            d.wf(),
            d.counter() == 0,
            d.shared_seq().len() == 0,
            d.mutable_site() is None,
    {
        DebugState { shared_borrow_count: 0, shared_borrows: Vec::new(), mutable_borrow: None }
    }

    /// Captures the current call-stack snapshot, stores it under a freshly
    /// allocated id, and returns that id. The id is fresh: it was not
    /// tracked before, and every previously tracked id stays tracked.
    pub fn track_shared_borrow(&mut self) -> (id: u64)
        requires
            old(self).wf(),
            old(self).counter() < u64::MAX,
        ensures
            final(self).wf(),
            id == old(self).counter(),
            final(self).counter() == old(self).counter() + 1,
            final(self).shared_seq().len() == old(self).shared_seq().len() + 1,
            forall|i: int|
                0 <= i < old(self).shared_seq().len()
                    ==> #[trigger] final(self).shared_seq()[i] == old(self).shared_seq()[i],
            final(self).shared_seq().last().id == id,
            final(self).shared_seq().last().site@.len() > 0,
            final(self).mutable_site() == old(self).mutable_site(),
            final(self).tracks(id),
            !old(self).tracks(id),
            forall|x: u64|
                x != id ==> (#[trigger] final(self).tracks(x) <==> old(self).tracks(x)),
    {
        let count = self.shared_borrow_count;
        self.shared_borrow_count = count + 1;
        let site = capture_site();
        self.shared_borrows.push(SharedRecord { id: count, site });
        proof {
            let o = old(self).shared_seq();
            let n = self.shared_seq();
            assert forall|i: int, j: int|
                #![trigger n[i], n[j]]
                0 <= i < j < n.len() implies n[i].id < n[j].id by {
                if j < o.len() {
                    assert(o[i].id < o[j].id);
                } else {
                    assert(n[j].id == count);
                    assert(o[i].id < old(self).counter());
                }
            }
            assert(n[o.len() as int].id == count);
            assert(self.tracks(count));
            assert(!old(self).tracks(count)) by {
                if old(self).tracks(count) {
                    let i = choose|i: int| 0 <= i < o.len() && (#[trigger] o[i]).id == count;
                    assert(o[i].id < old(self).counter());
                }
            }
            assert forall|x: u64|
                x != count implies (#[trigger] self.tracks(x) <==> old(self).tracks(x)) by {
                if self.tracks(x) {
                    let i = choose|i: int| 0 <= i < n.len() && (#[trigger] n[i]).id == x;
                    if i < o.len() {
                        assert(o[i].id == x);
                    }
                }
                if old(self).tracks(x) {
                    let i = choose|i: int| 0 <= i < o.len() && (#[trigger] o[i]).id == x;
                    assert(n[i].id == x);
                }
            }
        }
        count
    }

    /// Removes the stored snapshot for `id`. A call with an id that is not
    /// tracked would indicate a defect in the cell's own bookkeeping, and is
    /// excluded by contract. Every other tracked id stays tracked.
    pub fn untrack_shared_borrow(&mut self, id: u64)
        requires
            old(self).wf(),
            old(self).tracks(id),
        ensures
            final(self).wf(),
            final(self).counter() == old(self).counter(),
            final(self).mutable_site() == old(self).mutable_site(),
            final(self).shared_seq() == old(self).shared_seq().remove(old(self).id_index(id)),
            final(self).shared_seq().len() == old(self).shared_seq().len() - 1,
            !final(self).tracks(id),
            forall|x: u64|
                x != id ==> (#[trigger] final(self).tracks(x) <==> old(self).tracks(x)),
    {
        let ghost o = old(self).shared_seq();
        let ghost idx = old(self).id_index(id);
        proof {
            assert(0 <= idx < o.len() && o[idx].id == id);
        }
        let len = self.shared_borrows.len();
        let mut i: usize = 0;
        while self.shared_borrows[i].id != id
            invariant
                *self == *old(self),
                old(self).wf(),
                0 <= idx < self.shared_seq().len(),
                self.shared_seq()[idx].id == id,
                len == self.shared_seq().len(),
                i as int <= idx,
            decreases idx - i as int,
        {
            proof {
                assert(self.shared_seq()[i as int].id != id);
                assert((i as int) < idx);
                assert(self.shared_seq()[i as int].id < self.shared_seq()[idx].id);
            }
            i = i + 1;
        }
        proof {
            if i as int != idx {
                if (i as int) < idx {
                    assert(self.shared_seq()[i as int].id < self.shared_seq()[idx].id);
                } else {
                    assert(self.shared_seq()[idx].id < self.shared_seq()[i as int].id);
                }
            }
            assert(i as int == idx);
            o.remove_ensures(idx);
        }
        let _removed = self.shared_borrows.remove(i);
        proof {
            let n = self.shared_seq();
            assert forall|a: int, b: int|
                #![trigger n[a], n[b]]
                0 <= a < b < n.len() implies n[a].id < n[b].id by {
                let oa: int = if a < idx { a } else { a + 1 };
                let ob: int = if b < idx { b } else { b + 1 };
                assert(n[a] == o[oa]);
                assert(n[b] == o[ob]);
                assert(o[oa].id < o[ob].id);
            }
            assert forall|k: int| 0 <= k < n.len() implies (#[trigger] n[k]).id < self.counter()
                && n[k].site@.len() > 0 by {
                let ok: int = if k < idx { k } else { k + 1 };
                assert(n[k] == o[ok]);
            }
            assert(!self.tracks(id)) by {
                if self.tracks(id) {
                    let k = choose|k: int| 0 <= k < n.len() && (#[trigger] n[k]).id == id;
                    let ok: int = if k < idx { k } else { k + 1 };
                    assert(n[k] == o[ok]);
                    assert(ok != idx);
                    if ok < idx {
                        assert(o[ok].id < o[idx].id);
                    } else {
                        assert(o[idx].id < o[ok].id);
                    }
                }
            }
            assert forall|x: u64|
                x != id implies (#[trigger] self.tracks(x) <==> old(self).tracks(x)) by {
                if self.tracks(x) {
                    let k = choose|k: int| 0 <= k < n.len() && (#[trigger] n[k]).id == x;
                    let ok: int = if k < idx { k } else { k + 1 };
                    assert(o[ok].id == x);
                }
                if old(self).tracks(x) {
                    let k = choose|k: int| 0 <= k < o.len() && (#[trigger] o[k]).id == x;
                    assert(k != idx);
                    if k < idx {
                        assert(n[k].id == x);
                    } else {
                        assert(n[k - 1].id == x);
                    }
                }
            }
        }
    }

    /// Records the single outstanding read-write acquisition site, using the
    /// caller-supplied snapshot when one is given and capturing one itself
    /// otherwise. A call while a read-write snapshot is already recorded
    /// would indicate a defect in the cell's own state machine, and is
    /// excluded by contract.
    pub fn track_mutable_borrow(&mut self, backtrace: Option<String>)
        requires
            old(self).mutable_site() is None,
        ensures
            final(self).counter() == old(self).counter(),
            final(self).shared_seq() == old(self).shared_seq(),
            final(self).mutable_site() is Some,
            backtrace matches Some(b) ==> final(self).mutable_site() == Some(b@),
            backtrace is None ==> (final(self).mutable_site() matches Some(s) && s.len() > 0),
            old(self).wf() ==> final(self).wf(),
    {
        if self.mutable_borrow.is_some() {
            // a second read-write record would mean the cell's own state
            // machine failed; misuse stops loudly here
            vstd::pervasive::unreached::<()>();
        }
        self.mutable_borrow = Some(
            match backtrace {
                Some(b) => b,
                None => capture_site(),
            },
        );
        proof {
            if old(self).wf() {
                let o = old(self).shared_seq();
                let n = self.shared_seq();
                assert(n == o);
                assert forall|i: int, j: int|
                    #![trigger n[i], n[j]]
                    0 <= i < j < n.len() implies n[i].id < n[j].id by {
                    assert(o[i].id < o[j].id);
                }
                assert forall|i: int| 0 <= i < n.len() implies (#[trigger] n[i]).id
                    < self.counter() && n[i].site@.len() > 0 by {
                    assert(o[i].id < old(self).counter());
                    assert(o[i].site@.len() > 0);
                }
            }
        }
    }

    /// Clears and returns the recorded read-write acquisition site, so that
    /// a poisoning teardown can surface what was happening when the cell was
    /// poisoned. A call with no site recorded is excluded by contract.
    pub fn untrack_mutable_borrow(&mut self) -> (site: String)
        requires
            old(self).mutable_site() is Some,
        ensures
            old(self).mutable_site() == Some(site@),
            final(self).mutable_site() is None,
            final(self).counter() == old(self).counter(),
            final(self).shared_seq() == old(self).shared_seq(),
            old(self).wf() ==> final(self).wf(),
    {
        let taken = self.mutable_borrow.take();
        taken.unwrap()
    }

    /// Renders the currently tracked acquisition sites: all shared sites,
    /// most recently acquired first, if any are tracked; else the read-write
    /// site, if one is tracked; else empty text.
    pub fn borrow_locations(&self) -> (report: String)
        ensures
            report@ == report_of(self.shared_seq(), self.mutable_site()),
    {
        let n = self.shared_borrows.len();
        if n > 0 {
            let ghost s = self.shared_seq();
            let mut out = String::new();
            let mut i: usize = n;
            while i > 0
                invariant
                    s == self.shared_seq(),
                    i <= s.len(),
                    n == s.len(),
                    out@ + sites_below(s, i as int) =~= sites_below(s, n as int),
                decreases i,
            {
                let ghost out0 = out@;
                i = i - 1;
                out.append(self.shared_borrows[i].site.as_str());
                proof {
                    assert(sites_below(s, i + 1) == s[i as int].site@ + sites_below(s, i as int));
                    assert((out0 + s[i as int].site@) + sites_below(s, i as int) =~= out0 + (
                    s[i as int].site@ + sites_below(s, i as int)));
                }
            }
            proof {
                assert(sites_below(s, 0) == Seq::<char>::empty());
                assert(out@ + Seq::<char>::empty() =~= out@);
                assert(out@ =~= report_of(self.shared_seq(), self.mutable_site()));
            }
            out
        } else {
            match &self.mutable_borrow {
                Some(site) => site.clone(),
                None => String::new(),
            }
        }
    }
}

/// Under the ledger invariant the number of tracked shared borrows never
/// exceeds the id counter: the ids are strictly increasing and all below it.
pub proof fn lemma_shared_len_le_counter(d: DebugState)
    requires
        d.wf(),
    ensures
        d.shared_seq().len() <= d.counter(),
{
    if d.shared_seq().len() > 0 {
        lemma_id_at_least_index(d.shared_seq(), d.shared_seq().len() - 1);
    }
}

proof fn lemma_id_at_least_index(s: Seq<SharedRecord>, i: int)
    requires
        forall|a: int, b: int|
            #![trigger s[a], s[b]]
            0 <= a < b < s.len() ==> s[a].id < s[b].id,
        0 <= i < s.len(),
    ensures
        s[i].id >= i,
    decreases i,
{
    if i > 0 {
        lemma_id_at_least_index(s, i - 1);
        assert(s[i - 1].id < s[i].id);
    }
}

/// Law (diagnostics): while any borrow is tracked — at least one shared
/// record, or a non-empty read-write site — the rendered conflict report is
/// non-empty text.
pub proof fn lemma_report_nonempty(d: DebugState)
    requires
        d.wf(),
        d.shared_seq().len() > 0 || (d.mutable_site() matches Some(s) && s.len() > 0),
    ensures
        report_of(d.shared_seq(), d.mutable_site()).len() > 0,
{
    if d.shared_seq().len() > 0 {
        let n = d.shared_seq().len() as int;
        assert(sites_below(d.shared_seq(), n) == d.shared_seq()[n - 1].site@ + sites_below(
            d.shared_seq(),
            n - 1,
        ));
        assert(d.shared_seq()[n - 1].site@.len() > 0);
    }
}

} // verus!
