//! The extraction pipeline: drain a sequence of containers in order,
//! keep exactly the records owned by the target key, and persist their
//! rows in one atomic, insert-if-absent batch.
//!
//! When the same key appears in more than one accepted record — within
//! one container or across containers — the first-encountered row is
//! kept and later ones are silently ignored, regardless of their write
//! version.  That is the insert-if-absent write mode's behaviour, made
//! explicit here and asserted by a test.

use vstd::prelude::*;
use vstd::array::array_index_get;
use crate::ContainerError;
use crate::append_vec::AppendVec;
use crate::encode::{bs58_encode, bs58_of};
use crate::iterator::append_vec_iter;
use crate::layout::{RecordModel, spec_records};
use crate::store::{
    AccountRow, AccountStore, RowModel, StoreTransaction, spec_apply,
};

verus! {

/// The destination row a matching record contributes: key and owner in
/// base-58 text, balance and payload carried over.
pub open spec fn spec_row_of(r: RecordModel) -> RowModel {
    RowModel {
        pubkey: bs58_of(r.meta.pubkey),
        lamports: r.account_meta.lamports,
        owner: bs58_of(r.account_meta.owner),
        data: r.data,
    }
}

/// The rows of the records owned by `target`, in record order.
pub open spec fn spec_matching_rows(recs: Seq<RecordModel>, target: Seq<u8>) -> Seq<RowModel>
    decreases recs.len(),
{
    if recs.len() == 0 {
        Seq::empty()
    } else {
        let rest = spec_matching_rows(recs.drop_last(), target);
        if recs.last().account_meta.owner == target {
            rest.push(spec_row_of(recs.last()))
        } else {
            rest
        }
    }
}

/// The matching rows are exactly the records that pass the owner
/// filter, each turned into its row, in container order: one row per
/// matching record and no other.
pub proof fn lemma_matching_rows_is_filter(recs: Seq<RecordModel>, target: Seq<u8>)
    ensures
        spec_matching_rows(recs, target) == recs.filter(
            |r: RecordModel| r.account_meta.owner == target,
        ).map_values(|r: RecordModel| spec_row_of(r)),
    decreases recs.len(),
{
    reveal(Seq::filter);
    let pred = |r: RecordModel| r.account_meta.owner == target;
    if recs.len() == 0 {
        assert(spec_matching_rows(recs, target) =~= recs.filter(pred).map_values(
            |r: RecordModel| spec_row_of(r),
        ));
    } else {
        lemma_matching_rows_is_filter(recs.drop_last(), target);
        assert(spec_matching_rows(recs, target) =~= recs.filter(pred).map_values(
            |r: RecordModel| spec_row_of(r),
        ));
    }
}

/// The rows a sequence of construction attempts contributes, in input
/// order.  An attempt that failed construction contributes none: the
/// pipeline aborts on it without staging or writing anything.
pub open spec fn spec_batch(
    inputs: Seq<Result<AppendVec, ContainerError>>,
    target: Seq<u8>,
) -> Seq<RowModel>
    decreases inputs.len(),
{
    if inputs.len() == 0 {
        Seq::empty()
    } else {
        spec_batch(inputs.drop_last(), target) + (match inputs.last() {
            Ok(av) => spec_matching_rows(spec_records(av@), target),
            Err(_) => Seq::empty(),
        })
    }
}

/// Compare two 32-byte keys for exact equality.
fn bytes32_eq(a: &[u8; 32], b: &[u8; 32]) -> (r: bool)
    ensures
        r == (a@ == b@),
{
    let mut i: usize = 0;
    while i < 32
        invariant
            i <= 32,
            forall|k: int| 0 <= k < i ==> a@[k] == b@[k],
        decreases 32 - i,
    {
        if *array_index_get(a, i) != *array_index_get(b, i) {
            return false;
        }
        i += 1;
    }
    proof {
        assert(a@ =~= b@);
    }
    true
}

/// Walks containers, filters records by the target owner key and
/// persists the matches into the destination store, insert-if-absent,
/// in one transaction per run.
pub struct RawProgramAccountDumper {
    store: AccountStore,
    program_id: [u8; 32],
}

impl RawProgramAccountDumper {
    /// The rows the destination holds.
    pub closed spec fn store_rows(&self) -> Seq<RowModel> {
        self.store@
    }

    /// The 32-byte owner key the pipeline filters by.
    pub closed spec fn target(&self) -> Seq<u8> {
        self.program_id@
    }

    /// A pipeline over an empty destination, filtering by
    /// `program_id`.
    pub fn new(program_id: [u8; 32]) -> (d: Self)
        ensures
            d.store_rows() == Seq::<RowModel>::empty(),
            d.target() == program_id@,
    {
        RawProgramAccountDumper { store: AccountStore::new(), program_id }
    }

    /// The destination store, for inspection.
    pub fn store(&self) -> (s: &AccountStore)
        ensures
            s@ == self.store_rows(),
    {
        &self.store
    }

    /// Drain every container in input order, stage a row for each
    /// record owned by the target, and commit the whole batch at once.
    /// A failed construction attempt aborts the run before anything is
    /// written: the destination is left exactly as it was.  On success
    /// returns the count of records accepted by the filter, which may
    /// exceed the rows actually added, because rows whose key is
    /// already present are silently ignored.
    #[verifier::loop_isolation(false)]
    pub fn insert_all(&mut self, inputs: Vec<Result<AppendVec, ContainerError>>) -> (r: Result<
        usize,
        ContainerError,
    >)
        ensures
            final(self).target() == old(self).target(),
            match r {
                Ok(count) => {
                    &&& forall|i: int| 0 <= i < inputs@.len() ==> (#[trigger] inputs@[i]) is Ok
                    &&& count == spec_batch(inputs@, old(self).target()).len()
                    &&& final(self).store_rows() == spec_apply(
                        old(self).store_rows(),
                        spec_batch(inputs@, old(self).target()),
                    )
                },
                Err(e) => {
                    &&& final(self).store_rows() == old(self).store_rows()
                    &&& exists|i: int|
                        {
                            &&& 0 <= i < inputs@.len()
                            &&& inputs@[i] == Err::<AppendVec, ContainerError>(e)
                            &&& forall|j: int| 0 <= j < i ==> (#[trigger] inputs@[j]) is Ok
                        }
                },
            },
    {
        let ghost base0 = self.store@;
        let ghost target0 = self.program_id@;
        let mut held = AccountStore::new();
        core::mem::swap(&mut self.store, &mut held);
        let mut tx = StoreTransaction::begin(held);
        let n = inputs.len();
        let mut idx: usize = 0;
        proof {
            assert(tx.staged_rows() =~= spec_batch(inputs@.take(0), target0));
        }
        while idx < n
            invariant
                idx <= n,
                n == inputs@.len(),
                self.program_id@ == target0,
                tx.base_rows() == base0,
                tx.staged_rows() == spec_batch(inputs@.take(idx as int), target0),
                forall|j: int| 0 <= j < idx ==> (#[trigger] inputs@[j]) is Ok,
            decreases n - idx,
        {
            match &inputs[idx] {
                Err(e) => {
                    let err = *e;
                    self.store = tx.rollback();
                    proof {
                        assert(inputs@[idx as int] == Err::<AppendVec, ContainerError>(err));
                    }
                    return Err(err);
                },
                Ok(av) => {
                    let mut it = append_vec_iter(av);
                    let mut done = false;
                    while !done
                        invariant
                            it.source() == av@,
                            tx.base_rows() == base0,
                            tx.staged_rows() == spec_batch(inputs@.take(idx as int), target0)
                                + spec_matching_rows(it.emitted(), target0),
                            it.emitted().len() <= spec_records(av@).len(),
                            done ==> it.emitted() == spec_records(av@),
                        decreases
                                spec_records(av@).len() - it.emitted().len(),
                                (if done {
                                    0int
                                } else {
                                    1int
                                }),
                    {
                        let ghost emitted0 = it.emitted();
                        match it.next_account() {
                            None => {
                                done = true;
                            },
                            Some(acc) => {
                                proof {
                                    assert(it.emitted().drop_last() =~= emitted0);
                                    assert(it.emitted().last() == acc@);
                                }
                                if bytes32_eq(&acc.account_meta.owner, &self.program_id) {
                                    let ghost gacc = acc@;
                                    let pubkey = bs58_encode(acc.meta.pubkey.as_slice());
                                    let owner = bs58_encode(acc.account_meta.owner.as_slice());
                                    let row = AccountRow {
                                        pubkey,
                                        lamports: acc.account_meta.lamports,
                                        owner,
                                        data: acc.data,
                                    };
                                    proof {
                                        assert(row@ == spec_row_of(gacc));
                                        assert(spec_matching_rows(it.emitted(), target0)
                                            == spec_matching_rows(emitted0, target0).push(
                                            spec_row_of(gacc),
                                        ));
                                    }
                                    tx.stage(row);
                                    proof {
                                        assert(tx.staged_rows() =~= spec_batch(
                                            inputs@.take(idx as int),
                                            target0,
                                        ) + spec_matching_rows(it.emitted(), target0));
                                    }
                                } else {
                                    proof {
                                        assert(spec_matching_rows(it.emitted(), target0)
                                            == spec_matching_rows(emitted0, target0));
                                    }
                                }
                            },
                        }
                    }
                    proof {
                        assert(inputs@.take(idx as int + 1).drop_last() =~= inputs@.take(
                            idx as int,
                        ));
                        assert(inputs@.take(idx as int + 1).last() == inputs@[idx as int]);
                    }
                },
            }
            idx += 1;
        }
        proof {
            assert(inputs@.take(n as int) =~= inputs@);
        }
        let count = tx.staged_count();
        self.store = tx.commit();
        Ok(count)
    }
}

} // verus!
