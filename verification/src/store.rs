//! A model of the destination store: rows keyed by their base-58 key
//! text, written insert-if-absent, inside a transaction that commits
//! or rolls back as a whole.  The surrounding application mirrors this
//! model row for row into the real relational sink.

use vstd::prelude::*;

verus! {

/// One destination row, as the destination schema stores it.
pub struct AccountRow {
    /// Base-58 text of the record's key; the destination's primary
    /// key.
    pub pubkey: String,
    /// Balance held by the record.
    pub lamports: u64,
    /// Base-58 text of the record's owner key.
    pub owner: String,
    /// The record's payload.
    pub data: Vec<u8>,
}

/// Mathematical value of one destination row.
#[verifier::ext_equal]
pub struct RowModel {
    pub pubkey: Seq<char>,
    pub lamports: u64,
    pub owner: Seq<char>,
    pub data: Seq<u8>,
}

impl View for AccountRow {
    type V = RowModel;

    open spec fn view(&self) -> RowModel {
        RowModel {
            pubkey: self.pubkey@,
            lamports: self.lamports,
            owner: self.owner@,
            data: self.data@,
        }
    }
}

/// Whether some row of `rows` already carries the key `key`.
pub open spec fn spec_contains_key(rows: Seq<RowModel>, key: Seq<char>) -> bool {
    exists|i: int| 0 <= i < rows.len() && rows[i].pubkey == key
}

/// Insert-if-absent: a row whose key is already present is silently
/// ignored; otherwise the row is appended.
pub open spec fn spec_insert(rows: Seq<RowModel>, row: RowModel) -> Seq<RowModel> {
    if spec_contains_key(rows, row.pubkey) {
        rows
    } else {
        rows.push(row)
    }
}

/// Apply a whole batch in order, insert-if-absent row by row.
pub open spec fn spec_apply(rows: Seq<RowModel>, batch: Seq<RowModel>) -> Seq<RowModel>
    decreases batch.len(),
{
    if batch.len() == 0 {
        rows
    } else {
        spec_apply(spec_insert(rows, batch[0]), batch.skip(1))
    }
}

proof fn lemma_insert_keys(rows: Seq<RowModel>, row: RowModel, key: Seq<char>)
    ensures
        spec_contains_key(spec_insert(rows, row), key) <==> (spec_contains_key(rows, key)
            || row.pubkey == key),
{
    let after = spec_insert(rows, row);
    if spec_contains_key(rows, key) {
        let i = choose|i: int| 0 <= i < rows.len() && rows[i].pubkey == key;
        assert(after[i].pubkey == key);
    }
    if row.pubkey == key && !spec_contains_key(rows, row.pubkey) {
        assert(after[rows.len() as int].pubkey == key);
    }
    if spec_contains_key(after, key) && !spec_contains_key(rows, key) {
        let i = choose|i: int| 0 <= i < after.len() && after[i].pubkey == key;
        assert(i == rows.len());
    }
}

proof fn lemma_apply_keys(rows: Seq<RowModel>, batch: Seq<RowModel>, key: Seq<char>)
    ensures
        spec_contains_key(spec_apply(rows, batch), key) <==> (spec_contains_key(rows, key)
            || exists|i: int| 0 <= i < batch.len() && batch[i].pubkey == key),
    decreases batch.len(),
{
    if batch.len() == 0 {
    } else {
        lemma_insert_keys(rows, batch[0], key);
        lemma_apply_keys(spec_insert(rows, batch[0]), batch.skip(1), key);
        let rest = batch.skip(1);
        assert(forall|i: int| 0 <= i < rest.len() ==> rest[i] == batch[i + 1]);
        if exists|i: int| 0 <= i < batch.len() && batch[i].pubkey == key {
            let i = choose|i: int| 0 <= i < batch.len() && batch[i].pubkey == key;
            if i > 0 {
                assert(rest[i - 1].pubkey == key);
            }
        }
        if exists|i: int| 0 <= i < rest.len() && rest[i].pubkey == key {
            let i = choose|i: int| 0 <= i < rest.len() && rest[i].pubkey == key;
            assert(batch[i + 1].pubkey == key);
        }
    }
}

proof fn lemma_apply_absorbed(rows: Seq<RowModel>, batch: Seq<RowModel>)
    requires
        forall|i: int| 0 <= i < batch.len() ==> spec_contains_key(rows, (#[trigger] batch[i]).pubkey),
    ensures
        spec_apply(rows, batch) == rows,
    decreases batch.len(),
{
    if batch.len() == 0 {
    } else {
        assert(spec_insert(rows, batch[0]) == rows);
        let rest = batch.skip(1);
        assert(forall|i: int| 0 <= i < rest.len() ==> rest[i] == batch[i + 1]);
        lemma_apply_absorbed(rows, rest);
    }
}

/// Applying one batch twice leaves the store exactly as applying it
/// once: a second identical run against the already-written store adds
/// no rows.
pub proof fn lemma_apply_idempotent(rows: Seq<RowModel>, batch: Seq<RowModel>)
    ensures
        spec_apply(spec_apply(rows, batch), batch) == spec_apply(rows, batch),
{
    let once = spec_apply(rows, batch);
    assert forall|i: int| 0 <= i < batch.len() implies spec_contains_key(
        once,
        (#[trigger] batch[i]).pubkey,
    ) by {
        lemma_apply_keys(rows, batch, batch[i].pubkey);
    }
    lemma_apply_absorbed(once, batch);
}

/// The destination table: rows in insertion order, each key at most
/// once.
pub struct AccountStore {
    rows: Vec<AccountRow>,
}

impl View for AccountStore {
    type V = Seq<RowModel>;

    closed spec fn view(&self) -> Seq<RowModel> {
        self.rows@.map_values(|r: AccountRow| r@)
    }
}

impl AccountStore {
    /// An empty destination.
    pub fn new() -> (s: Self)
        ensures
            s@ == Seq::<RowModel>::empty(),
    {
        let s = AccountStore { rows: Vec::new() };
        proof {
            assert(s@ =~= Seq::<RowModel>::empty());
        }
        s
    }

    /// How many rows the destination holds.
    pub fn row_count(&self) -> (n: usize)
        ensures
            n == self@.len(),
    {
        self.rows.len()
    }

    /// Whether a row with this key is already present.
    pub fn contains_key(&self, key: &String) -> (b: bool)
        ensures
            b == spec_contains_key(self@, key@),
    {
        let n = self.rows.len();
        let mut i: usize = 0;
        while i < n
            invariant
                i <= n,
                n == self@.len(),
                self@ == self.rows@.map_values(|r: AccountRow| r@),
                forall|k: int| 0 <= k < i ==> self@[k].pubkey != key@,
            decreases n - i,
        {
            if self.rows[i].pubkey == *key {
                proof {
                    assert(self@[i as int] == self.rows@[i as int]@);
                }
                return true;
            }
            i += 1;
        }
        false
    }

    /// Insert the row unless its key is already present; report
    /// whether it was inserted.
    pub fn insert_if_absent(&mut self, row: AccountRow) -> (inserted: bool)
        ensures
            final(self)@ == spec_insert(old(self)@, row@),
            inserted == !spec_contains_key(old(self)@, row@.pubkey),
    {
        if self.contains_key(&row.pubkey) {
            false
        } else {
            let ghost before = self@;
            self.rows.push(row);
            proof {
                assert(self@ =~= before.push(row@));
            }
            true
        }
    }

    /// The row at position `i`, in insertion order.
    pub fn get_row(&self, i: usize) -> (r: &AccountRow)
        requires
            i < self@.len(),
        ensures
            r@ == self@[i as int],
    {
        &self.rows[i]
    }
}

/// A transaction over the store.  Rows staged while the transaction is
/// open touch the store only at commit; rolling back returns the store
/// exactly as it was when the transaction began, however many rows
/// were staged.
pub struct StoreTransaction {
    base: AccountStore,
    staged: Vec<AccountRow>,
}

impl StoreTransaction {
    /// The store as it was when the transaction began.
    pub closed spec fn base_rows(&self) -> Seq<RowModel> {
        self.base@
    }

    /// The rows staged so far, oldest first.
    pub closed spec fn staged_rows(&self) -> Seq<RowModel> {
        self.staged@.map_values(|r: AccountRow| r@)
    }

    /// Begin a transaction, taking exclusive hold of the store.
    pub fn begin(store: AccountStore) -> (tx: Self)
        ensures
            tx.base_rows() == store@,
            tx.staged_rows() == Seq::<RowModel>::empty(),
    {
        let tx = StoreTransaction { base: store, staged: Vec::new() };
        proof {
            assert(tx.staged_rows() =~= Seq::<RowModel>::empty());
        }
        tx
    }

    /// Stage one row for the batch; the store itself is untouched.
    pub fn stage(&mut self, row: AccountRow)
        ensures
            final(self).base_rows() == old(self).base_rows(),
            final(self).staged_rows() == old(self).staged_rows().push(row@),
    {
        let ghost before = self.staged_rows();
        self.staged.push(row);
        proof {
            assert(self.staged_rows() =~= before.push(row@));
        }
    }

    /// How many rows are staged.
    pub fn staged_count(&self) -> (n: usize)
        ensures
            n == self.staged_rows().len(),
    {
        self.staged.len()
    }

    /// Commit: apply every staged row to the store, insert-if-absent,
    /// in staging order, and release the store.
    pub fn commit(self) -> (store: AccountStore)
        ensures
            store@ == spec_apply(self.base_rows(), self.staged_rows()),
    {
        let StoreTransaction { base, staged } = self;
        let ghost base0 = base@;
        let ghost staged0 = staged@.map_values(|r: AccountRow| r@);
        let mut store = base;
        let mut batch = staged;
        proof {
            assert(batch@.map_values(|r: AccountRow| r@) =~= staged0);
        }
        while batch.len() > 0
            invariant
                spec_apply(store@, batch@.map_values(|r: AccountRow| r@)) == spec_apply(
                    base0,
                    staged0,
                ),
            decreases batch@.len(),

        {
            let ghost batch_before = batch@.map_values(|r: AccountRow| r@);
            let row = batch.remove(0);
            proof {
                assert(batch@.map_values(|r: AccountRow| r@) =~= batch_before.skip(1));
            }
            store.insert_if_absent(row);
        }
        proof {
            assert(batch@.map_values(|r: AccountRow| r@) =~= Seq::<RowModel>::empty());
        }
        store
    }

    /// Roll back: release the store unchanged, discarding every staged
    /// row.
    pub fn rollback(self) -> (store: AccountStore)
        ensures
            store@ == self.base_rows(),
    {
        self.base
    }
}

} // verus!
