//! The stake record store: one record per account, and the accounts in the
//! order in which they first staked.

use vstd::prelude::*;
use vstd::hash_map::StringHashMap;
use crate::accrual::StakeInfo;

verus! {

/// The collections that a host keeps for the ledger, each under a key prefix
/// of its own.
#[derive(Clone, Copy, PartialEq, Eq, Debug, Structural)]
pub enum StorageKey {
    /// The stake records, by account.
    StakeInfoKey,
}

impl StorageKey {
    /// The key prefix of the collection: the single byte that numbers the
    /// variant.
    pub open spec fn prefix(self) -> Seq<u8> {
        match self {
            StorageKey::StakeInfoKey => seq![0u8],
        }
    }

    /// The key prefix under which a host stores the collection.
    pub fn into_storage_key(self) -> (key: Vec<u8>)
        ensures
            key@ == self.prefix(),
    {
        let mut key: Vec<u8> = Vec::new();
        match self {
            StorageKey::StakeInfoKey => key.push(0u8),
        }
        key
    }
}

/// What a [`StakeStore`] holds.
pub struct RecordsView {
    /// The accounts that have a record, in the order of their first stake.
    pub stakers: Seq<Seq<char>>,
    /// The record of each account.
    pub records: Map<Seq<char>, StakeInfo>,
}

/// The principal of the accounts listed in `stakers`, summed.
pub open spec fn staked_sum(stakers: Seq<Seq<char>>, records: Map<Seq<char>, StakeInfo>) -> nat
    decreases stakers.len(),
{
    if stakers.len() == 0 {
        0
    } else {
        staked_sum(stakers.drop_last(), records) + records[stakers.last()].amount_staked as nat
    }
}

impl RecordsView {
    /// The store without any record.
    pub open spec fn empty() -> RecordsView {
        RecordsView { stakers: Seq::empty(), records: Map::empty() }
    }

    /// `stakers` lists each account that has a record, once.
    pub open spec fn wf(self) -> bool {
        &&& self.stakers.no_duplicates()
        &&& forall|account: Seq<char>|
            self.records.contains_key(account) <==> self.stakers.contains(account)
    }

    /// Whether `account` has a record.
    pub open spec fn contains(self, account: Seq<char>) -> bool {
        self.records.contains_key(account)
    }

    /// The record of `account`, if it has one.
    pub open spec fn get(self, account: Seq<char>) -> Option<StakeInfo> {
        if self.records.contains_key(account) {
            Some(self.records[account])
        } else {
            None
        }
    }

    /// The store once `record` is written for `account`: a first record
    /// appends the account to `stakers`, a later one replaces the record.
    pub open spec fn put(self, account: Seq<char>, record: StakeInfo) -> RecordsView {
        RecordsView {
            stakers: if self.records.contains_key(account) {
                self.stakers
            } else {
                self.stakers.push(account)
            },
            records: self.records.insert(account, record),
        }
    }

    /// The principal of all records, summed.
    pub open spec fn total_staked(self) -> nat {
        staked_sum(self.stakers, self.records)
    }
}

/// A record that is not listed does not count: writing it leaves the sum over
/// `stakers` unchanged.
proof fn lemma_sum_ignores_unlisted(
    stakers: Seq<Seq<char>>,
    records: Map<Seq<char>, StakeInfo>,
    account: Seq<char>,
    record: StakeInfo,
)
    requires
        !stakers.contains(account),
    ensures
        staked_sum(stakers, records.insert(account, record)) == staked_sum(stakers, records),
    decreases stakers.len(),
{
    if stakers.len() > 0 {
        let rest = stakers.drop_last();
        assert(stakers[stakers.len() - 1] == stakers.last());
        assert forall|other: Seq<char>| rest.contains(other) implies stakers.contains(other) by {
            let i = choose|i: int| 0 <= i < rest.len() && rest[i] == other;
            assert(stakers[i] == other);
        }
        lemma_sum_ignores_unlisted(rest, records, account, record);
    }
}

/// Replacing the record of a listed account moves the sum over `stakers` by
/// the difference of the two principals.
proof fn lemma_sum_replaces_listed(
    stakers: Seq<Seq<char>>,
    records: Map<Seq<char>, StakeInfo>,
    account: Seq<char>,
    record: StakeInfo,
)
    requires
        stakers.no_duplicates(),
        stakers.contains(account),
    ensures
        staked_sum(stakers, records.insert(account, record)) + records[account].amount_staked
            == staked_sum(stakers, records) + record.amount_staked,
    decreases stakers.len(),
{
    let rest = stakers.drop_last();
    let last = stakers.last();
    assert(stakers[stakers.len() - 1] == last);
    assert(rest.no_duplicates());
    if last == account {
        assert(!rest.contains(account)) by {
            if rest.contains(account) {
                let i = choose|i: int| 0 <= i < rest.len() && rest[i] == account;
                assert(stakers[i] == stakers[stakers.len() - 1]);
            }
        }
        lemma_sum_ignores_unlisted(rest, records, account, record);
    } else {
        let i = choose|i: int| 0 <= i < stakers.len() && stakers[i] == account;
        assert(rest[i] == account);
        lemma_sum_replaces_listed(rest, records, account, record);
    }
}

/// No record holds more than the sum of all of them.
proof fn lemma_sum_bounds_listed(
    stakers: Seq<Seq<char>>,
    records: Map<Seq<char>, StakeInfo>,
    account: Seq<char>,
)
    requires
        stakers.contains(account),
    ensures
        records[account].amount_staked <= staked_sum(stakers, records),
    decreases stakers.len(),
{
    let rest = stakers.drop_last();
    assert(stakers[stakers.len() - 1] == stakers.last());
    if stakers.last() != account {
        let i = choose|i: int| 0 <= i < stakers.len() && stakers[i] == account;
        assert(rest[i] == account);
        lemma_sum_bounds_listed(rest, records, account);
    }
}

/// Writing a record keeps the store well formed and moves the sum of all
/// principals by exactly what the written record adds or takes away.
pub proof fn lemma_put_total(store: RecordsView, account: Seq<char>, record: StakeInfo)
    requires
        store.wf(),
    ensures
        store.put(account, record).wf(),
        store.contains(account) ==> store.put(account, record).total_staked()
            + store.records[account].amount_staked == store.total_staked() + record.amount_staked,
        !store.contains(account) ==> store.put(account, record).total_staked()
            == store.total_staked() + record.amount_staked,
        store.contains(account) ==> store.put(account, record).stakers == store.stakers,
        !store.contains(account) ==> store.put(account, record).stakers.len()
            == store.stakers.len() + 1,
{
    let after = store.put(account, record);
    if store.contains(account) {
        lemma_sum_replaces_listed(store.stakers, store.records, account, record);
        assert forall|other: Seq<char>|
            after.records.contains_key(other) <==> after.stakers.contains(other) by {}
    } else {
        lemma_sum_ignores_unlisted(store.stakers, store.records, account, record);
        assert(after.stakers.drop_last() =~= store.stakers);
        assert(after.stakers.last() == account);
        assert(!store.stakers.contains(account));
        assert forall|i: int, j: int|
            0 <= i < after.stakers.len() && 0 <= j < after.stakers.len() && i != j implies after.stakers[i]
            != after.stakers[j] by {
            if i < store.stakers.len() && j < store.stakers.len() {
                assert(store.stakers[i] != store.stakers[j]);
            } else if i < store.stakers.len() {
                assert(store.stakers[i] != account);
            } else {
                assert(store.stakers[j] != account);
            }
        }
        assert forall|other: Seq<char>|
            after.records.contains_key(other) <==> after.stakers.contains(other) by {
            if after.stakers.contains(other) {
                let i = choose|i: int| 0 <= i < after.stakers.len() && after.stakers[i] == other;
                if i < store.stakers.len() {
                    assert(store.stakers[i] == other);
                    assert(store.stakers.contains(other));
                }
            }
            if after.records.contains_key(other) {
                if other == account {
                    assert(after.stakers[after.stakers.len() - 1] == other);
                } else {
                    assert(store.records.contains_key(other));
                    assert(store.stakers.contains(other));
                    let i = choose|i: int| 0 <= i < store.stakers.len() && store.stakers[i] == other;
                    assert(after.stakers[i] == other);
                }
            }
        }
    }
}

/// Each record's principal is at most the sum of all principals.
pub proof fn lemma_record_within_total(store: RecordsView, account: Seq<char>)
    requires
        store.wf(),
        store.contains(account),
    ensures
        store.records[account].amount_staked <= store.total_staked(),
{
    lemma_sum_bounds_listed(store.stakers, store.records, account);
}

struct StoreParts {
    index: StringHashMap<StakeInfo>,
    accounts: Vec<String>,
}

impl StoreParts {
    spec fn view(self) -> RecordsView {
        RecordsView {
            stakers: Seq::new(self.accounts@.len(), |i: int| self.accounts@[i]@),
            records: self.index@,
        }
    }

    fn blank() -> (parts: StoreParts)
        ensures
            parts.view() == RecordsView::empty(),
    {
        let parts = StoreParts { index: StringHashMap::new(), accounts: Vec::new() };
        assert(parts.view().stakers =~= Seq::<Seq<char>>::empty());
        parts
    }
}

/// The stake record store.
pub struct StakeStore {
    parts: StoreParts,
}

impl View for StakeStore {
    type V = RecordsView;

    closed spec fn view(&self) -> RecordsView {
        self.parts.view()
    }
}

impl StakeStore {
    #[verifier::type_invariant]
    spec fn inv(self) -> bool {
        self.parts.view().wf()
    }

    /// A store without any record.
    pub fn new() -> (store: StakeStore)
        ensures
            store@ == RecordsView::empty(),
            store@.wf(),
    {
        StakeStore { parts: StoreParts::blank() }
    }

    /// Whether `account` has a record.
    pub fn contains(&self, account: &str) -> (found: bool)
        ensures
            found == self@.contains(account@),
            self@.wf(),
    {
        proof {
            use_type_invariant(self);
        }
        self.parts.index.contains_key(account)
    }

    /// A copy of the record of `account`, if it has one.
    pub fn get(&self, account: &str) -> (record: Option<StakeInfo>)
        ensures
            record == self@.get(account@),
            self@.wf(),
    {
        proof {
            use_type_invariant(self);
        }
        match self.parts.index.get(account) {
            Some(record) => Some(*record),
            None => None,
        }
    }

    /// Writes `record` for `account`, as its first record or in place of the
    /// one it had.
    pub fn put(&mut self, account: &str, record: StakeInfo)
        ensures
            final(self)@ == old(self)@.put(account@, record),
            final(self)@.wf(),
    {
        proof {
            use_type_invariant(&*self);
            lemma_put_total(self@, account@, record);
        }
        let mut parts = StoreParts::blank();
        std::mem::swap(&mut parts, &mut self.parts);
        let ghost before = parts.view();
        if !parts.index.contains_key(account) {
            parts.accounts.push(account.to_owned());
        }
        parts.index.insert(account.to_owned(), record);
        assert(parts.view().stakers =~= before.put(account@, record).stakers);
        self.parts = parts;
    }

    /// The number of accounts that have a record.
    pub fn len(&self) -> (count: usize)
        ensures
            count == self@.stakers.len(),
            self@.wf(),
    {
        proof {
            use_type_invariant(self);
        }
        self.parts.accounts.len()
    }

    /// The accounts that have a record, in the order of their first stake.
    pub fn stakers(&self) -> (accounts: Vec<String>)
        ensures
            accounts@.len() == self@.stakers.len(),
            forall|i: int| 0 <= i < accounts@.len() ==> accounts@[i]@ == self@.stakers[i],
            self@.wf(),
    {
        proof {
            use_type_invariant(self);
        }
        let mut accounts: Vec<String> = Vec::new();
        let mut i: usize = 0;
        while i < self.parts.accounts.len()
            invariant
                i <= self.parts.accounts@.len(),
                accounts@.len() == i,
                forall|j: int| 0 <= j < i ==> accounts@[j]@ == self.parts.accounts@[j]@,
            decreases self.parts.accounts@.len() - i,
        {
            accounts.push(self.parts.accounts[i].clone());
            i += 1;
        }
        accounts
    }
}

} // verus!
