//! The transfer resolution adapter: the outbound transfers that have been
//! asked of the token ledger and whose outcome is not yet known.
//!
//! A withdrawal or a reward payout debits the stake ledger first and records
//! its intent here under a fresh handle. The outcome arrives later, by handle:
//! a success only forgets the intent, a failure hands it back so that the
//! debit can be undone.

use vstd::prelude::*;
use crate::error::LedgerError;

verus! {

/// What an outbound transfer pays out.
#[derive(Clone, Copy, PartialEq, Eq, Debug, Structural)]
pub enum TransferKind {
    /// Principal that was withdrawn.
    Withdrawal,
    /// Reward that was claimed.
    RewardPayout,
}

/// An outbound transfer whose outcome is not yet known.
#[derive(PartialEq, Eq, Debug)]
pub struct PendingTransfer {
    /// The handle under which the outcome will be reported.
    pub handle: u64,
    /// The account that is paid, and that is credited back on failure.
    pub account: String,
    /// The number of token units sent.
    pub amount: u128,
    /// What was debited for it.
    pub kind: TransferKind,
}

/// A [`PendingTransfer`] as a plain value.
pub struct PendingView {
    /// The handle under which the outcome will be reported.
    pub handle: u64,
    /// The account that is paid, and that is credited back on failure.
    pub account: Seq<char>,
    /// The number of token units sent.
    pub amount: u128,
    /// What was debited for it.
    pub kind: TransferKind,
}

impl View for PendingTransfer {
    type V = PendingView;

    open spec fn view(&self) -> PendingView {
        PendingView {
            handle: self.handle,
            account: self.account@,
            amount: self.amount,
            kind: self.kind,
        }
    }
}

impl PendingTransfer {
    /// A copy of the intent.
    pub fn duplicate(&self) -> (copy: PendingTransfer)
        ensures
            copy@ == self@,
    {
        PendingTransfer {
            handle: self.handle,
            account: self.account.clone(),
            amount: self.amount,
            kind: self.kind,
        }
    }
}

/// The answer of an operation that asks for a transfer, with the transfer as
/// a plain value.
pub open spec fn intent_view(answer: Result<PendingTransfer, LedgerError>) -> Result<
    PendingView,
    LedgerError,
> {
    match answer {
        Ok(intent) => Ok(intent@),
        Err(e) => Err(e),
    }
}

/// What a [`TransferAdapter`] holds.
pub struct AdapterView {
    /// The unresolved transfers, by handle.
    pub pending: Map<u64, PendingView>,
    /// The handle that the next transfer gets.
    pub next_handle: u64,
}

impl AdapterView {
    /// No transfer pending, handles counted from `next_handle`.
    pub open spec fn starting_at(next_handle: u64) -> AdapterView {
        AdapterView { pending: Map::empty(), next_handle }
    }

    /// Each pending transfer is filed under its own handle, and every handle
    /// in use lies below the next one to be given out.
    pub open spec fn wf(self) -> bool {
        forall|handle: u64| #[trigger]
            self.pending.contains_key(handle) ==> handle < self.next_handle
                && self.pending[handle].handle == handle
    }

    /// Whether a further handle can be given out.
    pub open spec fn has_room(self) -> bool {
        self.next_handle < u64::MAX
    }

    /// The intent that [`TransferAdapter::request_transfer`] files.
    pub open spec fn next_intent(self, to: Seq<char>, amount: u128, kind: TransferKind)
        -> PendingView {
        PendingView { handle: self.next_handle, account: to, amount, kind }
    }

    /// The adapter once a transfer of `amount` to `to` is filed.
    pub open spec fn requested(self, to: Seq<char>, amount: u128, kind: TransferKind)
        -> AdapterView {
        AdapterView {
            pending: self.pending.insert(self.next_handle, self.next_intent(to, amount, kind)),
            next_handle: (self.next_handle + 1) as u64,
        }
    }

    /// Whether `intent` can be taken in as pending: its handle was given out
    /// and is not in use.
    pub open spec fn admits(self, intent: PendingView) -> bool {
        intent.handle < self.next_handle && !self.pending.contains_key(intent.handle)
    }

    /// The adapter once `intent` is taken in as pending.
    pub open spec fn reinstated(self, intent: PendingView) -> AdapterView {
        AdapterView {
            pending: self.pending.insert(intent.handle, intent),
            next_handle: self.next_handle,
        }
    }

    /// The adapter once the transfer under `handle` is forgotten.
    pub open spec fn resolved(self, handle: u64) -> AdapterView {
        AdapterView { pending: self.pending.remove(handle), next_handle: self.next_handle }
    }
}

/// The transfers of `list`, by handle.
pub open spec fn pending_by_handle(list: Seq<PendingTransfer>) -> Map<u64, PendingView> {
    Map::new(
        |handle: u64| exists|i: int| 0 <= i < list.len() && #[trigger] list[i].handle == handle,
        |handle: u64|
            list[choose|i: int| 0 <= i < list.len() && #[trigger] list[i].handle == handle]@,
    )
}

/// No two transfers of `list` share a handle.
pub open spec fn distinct_handles(list: Seq<PendingTransfer>) -> bool {
    forall|i: int, j: int|
        0 <= i < list.len() && 0 <= j < list.len() && i != j ==> #[trigger] list[i].handle
            != #[trigger] list[j].handle
}

/// In a list without a repeated handle, each transfer is the one filed under
/// its handle.
pub proof fn lemma_pending_lookup(list: Seq<PendingTransfer>, i: int)
    requires
        distinct_handles(list),
        0 <= i < list.len(),
    ensures
        pending_by_handle(list).contains_key(list[i].handle),
        pending_by_handle(list)[list[i].handle] == list[i]@,
{
    let handle = list[i].handle;
    let j = choose|j: int| 0 <= j < list.len() && #[trigger] list[j].handle == handle;
    assert(j == i);
}

proof fn lemma_pending_push(list: Seq<PendingTransfer>, intent: PendingTransfer)
    requires
        distinct_handles(list),
        forall|i: int| 0 <= i < list.len() ==> #[trigger] list[i].handle != intent.handle,
    ensures
        distinct_handles(list.push(intent)),
        pending_by_handle(list.push(intent)) == pending_by_handle(list).insert(
            intent.handle,
            intent@,
        ),
{
    let longer = list.push(intent);
    assert(distinct_handles(longer));
    let before = pending_by_handle(list);
    let after = pending_by_handle(longer);
    assert forall|handle: u64| after.contains_key(handle) <==> before.insert(
        intent.handle,
        intent@,
    ).contains_key(handle) by {
        if after.contains_key(handle) {
            let i = choose|i: int| 0 <= i < longer.len() && #[trigger] longer[i].handle == handle;
            if i < list.len() {
                assert(list[i].handle == handle);
            }
        }
        if before.contains_key(handle) {
            let i = choose|i: int| 0 <= i < list.len() && #[trigger] list[i].handle == handle;
            assert(longer[i].handle == handle);
        }
        if handle == intent.handle {
            assert(longer[list.len() as int].handle == handle);
        }
    }
    assert forall|handle: u64| after.contains_key(handle) implies after[handle] == before.insert(
        intent.handle,
        intent@,
    )[handle] by {
        let i = choose|i: int| 0 <= i < longer.len() && #[trigger] longer[i].handle == handle;
        lemma_pending_lookup(longer, i);
        if i < list.len() {
            assert(list[i].handle == handle);
            lemma_pending_lookup(list, i);
        }
    }
    assert(after =~= before.insert(intent.handle, intent@));
}

proof fn lemma_pending_remove(list: Seq<PendingTransfer>, at: int)
    requires
        distinct_handles(list),
        0 <= at < list.len(),
    ensures
        distinct_handles(list.remove(at)),
        pending_by_handle(list.remove(at)) == pending_by_handle(list).remove(list[at].handle),
{
    let shorter = list.remove(at);
    let before = pending_by_handle(list);
    let after = pending_by_handle(shorter);
    let gone = list[at].handle;
    assert forall|i: int, j: int|
        0 <= i < shorter.len() && 0 <= j < shorter.len() && i != j implies #[trigger] shorter[i].handle
        != #[trigger] shorter[j].handle by {
        let from_i = if i < at { i } else { i + 1 };
        let from_j = if j < at { j } else { j + 1 };
        assert(shorter[i] == list[from_i]);
        assert(shorter[j] == list[from_j]);
    }
    assert forall|handle: u64| after.contains_key(handle) <==> before.remove(gone).contains_key(
        handle,
    ) by {
        if after.contains_key(handle) {
            let i = choose|i: int| 0 <= i < shorter.len() && #[trigger] shorter[i].handle == handle;
            let from = if i < at { i } else { i + 1 };
            assert(shorter[i] == list[from]);
            assert(list[from].handle == handle);
        }
        if before.remove(gone).contains_key(handle) {
            let i = choose|i: int| 0 <= i < list.len() && #[trigger] list[i].handle == handle;
            let to = if i < at { i } else { i - 1 };
            assert(shorter[to] == list[i]);
            assert(shorter[to].handle == handle);
        }
    }
    assert forall|handle: u64| after.contains_key(handle) implies after[handle] == before.remove(
        gone,
    )[handle] by {
        let i = choose|i: int| 0 <= i < shorter.len() && #[trigger] shorter[i].handle == handle;
        let from = if i < at { i } else { i + 1 };
        assert(shorter[i] == list[from]);
        lemma_pending_lookup(shorter, i);
        lemma_pending_lookup(list, from);
    }
    assert(after =~= before.remove(gone));
}

struct AdapterParts {
    pending: Vec<PendingTransfer>,
    next_handle: u64,
}

impl AdapterParts {
    spec fn view(self) -> AdapterView {
        AdapterView { pending: pending_by_handle(self.pending@), next_handle: self.next_handle }
    }

    spec fn inv(self) -> bool {
        &&& distinct_handles(self.pending@)
        &&& forall|i: int|
            0 <= i < self.pending@.len() ==> #[trigger] self.pending@[i].handle < self.next_handle
    }

    proof fn lemma_inv_wf(self)
        requires
            self.inv(),
        ensures
            self.view().wf(),
    {
        let list = self.pending@;
        assert forall|handle: u64| #[trigger]
            self.view().pending.contains_key(handle) implies handle < self.next_handle
            && self.view().pending[handle].handle == handle by {
            let i = choose|i: int| 0 <= i < list.len() && #[trigger] list[i].handle == handle;
            lemma_pending_lookup(list, i);
        }
    }

    fn blank(next_handle: u64) -> (parts: AdapterParts)
        ensures
            parts.inv(),
            parts.view() == AdapterView::starting_at(next_handle),
    {
        let parts = AdapterParts { pending: Vec::new(), next_handle };
        assert(parts.view().pending =~= Map::<u64, PendingView>::empty());
        parts
    }

    /// The place of the transfer filed under `handle`, if there is one.
    fn position(&self, handle: u64) -> (at: Option<usize>)
        ensures
            match at {
                Some(i) => i < self.pending@.len() && self.pending@[i as int].handle == handle,
                None => forall|i: int|
                    0 <= i < self.pending@.len() ==> #[trigger] self.pending@[i].handle != handle,
            },
    {
        let mut i: usize = 0;
        while i < self.pending.len()
            invariant
                i <= self.pending@.len(),
                forall|j: int| 0 <= j < i ==> #[trigger] self.pending@[j].handle != handle,
            decreases self.pending@.len() - i,
        {
            if self.pending[i].handle == handle {
                return Some(i);
            }
            i += 1;
        }
        None
    }
}

/// The transfer resolution adapter.
pub struct TransferAdapter {
    parts: AdapterParts,
}

impl View for TransferAdapter {
    type V = AdapterView;

    closed spec fn view(&self) -> AdapterView {
        self.parts.view()
    }
}

impl TransferAdapter {
    #[verifier::type_invariant]
    spec fn inv(self) -> bool {
        self.parts.inv()
    }

    /// An adapter with no transfer pending that gives out handles from
    /// `next_handle` on.
    pub fn new(next_handle: u64) -> (adapter: TransferAdapter)
        ensures
            adapter@ == AdapterView::starting_at(next_handle),
            adapter@.wf(),
    {
        let parts = AdapterParts::blank(next_handle);
        proof {
            parts.lemma_inv_wf();
        }
        TransferAdapter { parts }
    }

    /// The handle that the next transfer gets.
    pub fn next_handle(&self) -> (handle: u64)
        ensures
            handle == self@.next_handle,
            self@.wf(),
    {
        proof {
            use_type_invariant(self);
            self.parts.lemma_inv_wf();
        }
        self.parts.next_handle
    }

    /// Files the intent to transfer `amount` to `to` and returns its handle.
    /// Fails with `ArithmeticOverflow`, filing nothing, once the handles are
    /// used up.
    pub fn request_transfer(&mut self, to: &str, amount: u128, kind: TransferKind) -> (r: Result<
        u64,
        LedgerError,
    >)
        ensures
            old(self)@.has_room() ==> r == Ok::<u64, LedgerError>(old(self)@.next_handle)
                && final(self)@ == old(self)@.requested(to@, amount, kind),
            !old(self)@.has_room() ==> r == Err::<u64, LedgerError>(
                LedgerError::ArithmeticOverflow,
            ) && final(self)@ == old(self)@,
            final(self)@.wf(),
    {
        proof {
            use_type_invariant(&*self);
            self.parts.lemma_inv_wf();
        }
        if self.parts.next_handle == u64::MAX {
            return Err(LedgerError::ArithmeticOverflow);
        }
        let mut parts = AdapterParts::blank(0);
        std::mem::swap(&mut parts, &mut self.parts);
        let handle: u64 = parts.next_handle;
        let intent = PendingTransfer { handle, account: to.to_owned(), amount, kind };
        proof {
            lemma_pending_push(parts.pending@, intent);
        }
        parts.pending.push(intent);
        parts.next_handle = handle + 1;
        proof {
            parts.lemma_inv_wf();
        }
        self.parts = parts;
        Ok(handle)
    }

    /// Takes `intent` in as pending again, for an adapter that is rebuilt
    /// from what was kept of it. Answers whether it did: only an intent
    /// whose handle was given out and is not in use is taken in.
    pub fn reinstate(&mut self, intent: PendingTransfer) -> (taken: bool)
        ensures
            taken == old(self)@.admits(intent@),
            taken ==> final(self)@ == old(self)@.reinstated(intent@),
            !taken ==> final(self)@ == old(self)@,
            final(self)@.wf(),
    {
        proof {
            use_type_invariant(&*self);
            self.parts.lemma_inv_wf();
        }
        if intent.handle >= self.parts.next_handle {
            return false;
        }
        match self.parts.position(intent.handle) {
            Some(i) => {
                proof {
                    lemma_pending_lookup(self.parts.pending@, i as int);
                }
                false
            },
            None => {
                let mut parts = AdapterParts::blank(0);
                std::mem::swap(&mut parts, &mut self.parts);
                proof {
                    lemma_pending_push(parts.pending@, intent);
                }
                parts.pending.push(intent);
                proof {
                    parts.lemma_inv_wf();
                }
                self.parts = parts;
                true
            },
        }
    }

    /// A copy of the transfer filed under `handle`, if it is pending.
    pub fn pending(&self, handle: u64) -> (intent: Option<PendingTransfer>)
        ensures
            match intent {
                Some(p) => self@.pending.contains_key(handle) && p@ == self@.pending[handle],
                None => !self@.pending.contains_key(handle),
            },
            self@.wf(),
    {
        proof {
            use_type_invariant(self);
            self.parts.lemma_inv_wf();
        }
        match self.parts.position(handle) {
            Some(i) => {
                proof {
                    lemma_pending_lookup(self.parts.pending@, i as int);
                }
                Some(self.parts.pending[i].duplicate())
            },
            None => None,
        }
    }

    /// Forgets the transfer filed under `handle` and hands it out; without
    /// such a transfer nothing changes.
    pub fn resolve(&mut self, handle: u64) -> (intent: Option<PendingTransfer>)
        ensures
            match intent {
                Some(p) => old(self)@.pending.contains_key(handle) && p@ == old(
                    self,
                )@.pending[handle] && final(self)@ == old(self)@.resolved(handle),
                None => !old(self)@.pending.contains_key(handle) && final(self)@ == old(self)@,
            },
            final(self)@.wf(),
    {
        proof {
            use_type_invariant(&*self);
            self.parts.lemma_inv_wf();
        }
        match self.parts.position(handle) {
            Some(i) => {
                let mut parts = AdapterParts::blank(0);
                std::mem::swap(&mut parts, &mut self.parts);
                proof {
                    lemma_pending_lookup(parts.pending@, i as int);
                    lemma_pending_remove(parts.pending@, i as int);
                }
                let intent = parts.pending.remove(i);
                assert forall|j: int| 0 <= j < parts.pending@.len() implies #[trigger]
                    parts.pending@[j].handle < parts.next_handle by {
                    let from = if j < i { j } else { j + 1 };
                    assert(parts.pending@[j] == old(self).parts.pending@[from]);
                }
                proof {
                    parts.lemma_inv_wf();
                }
                self.parts = parts;
                Some(intent)
            },
            None => None,
        }
    }

    /// Copies of the pending transfers.
    pub fn pending_transfers(&self) -> (list: Vec<PendingTransfer>)
        ensures
            distinct_handles(list@),
            pending_by_handle(list@) == self@.pending,
            self@.wf(),
    {
        proof {
            use_type_invariant(self);
            self.parts.lemma_inv_wf();
        }
        let mut list: Vec<PendingTransfer> = Vec::new();
        let mut i: usize = 0;
        while i < self.parts.pending.len()
            invariant
                i <= self.parts.pending@.len(),
                list@.len() == i,
                forall|j: int| 0 <= j < i ==> #[trigger] list@[j]@ == self.parts.pending@[j]@,
            decreases self.parts.pending@.len() - i,
        {
            list.push(self.parts.pending[i].duplicate());
            i += 1;
        }
        proof {
            lemma_pending_same(list@, self.parts.pending@);
        }
        list
    }
}

proof fn lemma_pending_same(copy: Seq<PendingTransfer>, list: Seq<PendingTransfer>)
    requires
        copy.len() == list.len(),
        forall|j: int| 0 <= j < list.len() ==> #[trigger] copy[j]@ == list[j]@,
        distinct_handles(list),
    ensures
        distinct_handles(copy),
        pending_by_handle(copy) == pending_by_handle(list),
{
    assert forall|i: int, j: int|
        0 <= i < copy.len() && 0 <= j < copy.len() && i != j implies #[trigger] copy[i].handle
        != #[trigger] copy[j].handle by {
        assert(copy[i]@ == list[i]@);
        assert(copy[j]@ == list[j]@);
    }
    let a = pending_by_handle(copy);
    let b = pending_by_handle(list);
    assert forall|handle: u64| a.contains_key(handle) <==> b.contains_key(handle) by {
        if a.contains_key(handle) {
            let i = choose|i: int| 0 <= i < copy.len() && #[trigger] copy[i].handle == handle;
            assert(copy[i]@ == list[i]@);
            assert(list[i].handle == handle);
        }
        if b.contains_key(handle) {
            let i = choose|i: int| 0 <= i < list.len() && #[trigger] list[i].handle == handle;
            assert(copy[i]@ == list[i]@);
            assert(copy[i].handle == handle);
        }
    }
    assert forall|handle: u64| a.contains_key(handle) implies a[handle] == b[handle] by {
        let i = choose|i: int| 0 <= i < copy.len() && #[trigger] copy[i].handle == handle;
        assert(copy[i]@ == list[i]@);
        lemma_pending_lookup(copy, i);
        lemma_pending_lookup(list, i);
    }
    assert(a =~= b);
}

} // verus!
