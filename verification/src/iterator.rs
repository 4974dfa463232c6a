//! Forward-only iteration over a container's records: a state machine
//! that advances one record at a time and moves to a terminal
//! exhausted state on the first bounds failure.  Exhaustion is the
//! normal, error-free termination path both for a well-formed
//! container that reaches its logical end and for a truncated one.

use vstd::prelude::*;
use crate::append_vec::{AppendVec, StoredAccountMeta};
use crate::layout::{RecordModel, spec_record_at, spec_records, spec_records_from};

verus! {

/// A single-pass, non-restartable walk over the records of one
/// container.  Several independent iterators may walk the same
/// container at once; each keeps its own position.
pub struct AppendVecIterator<'a> {
    vec: &'a AppendVec,
    /// Offset where the next record would begin, meaningful while the
    /// iterator is not exhausted.
    offset: usize,
    /// Whether the terminal exhausted state has been reached.
    done: bool,
    /// The records emitted so far, oldest first.
    emitted: Ghost<Seq<RecordModel>>,
}

impl<'a> AppendVecIterator<'a> {
    #[verifier::type_invariant]
    spec fn wf(self) -> bool {
        if self.done {
            spec_records(self.vec@) == self.emitted@
        } else {
            spec_records(self.vec@) == self.emitted@ + spec_records_from(
                self.vec@,
                self.offset as int,
            )
        }
    }

    /// The content of the container being walked.
    pub closed spec fn source(&self) -> Seq<u8> {
        self.vec@
    }

    /// The records emitted so far, oldest first.
    pub closed spec fn emitted(&self) -> Seq<RecordModel> {
        self.emitted@
    }

    /// Emit the record at the current position and advance past it, or
    /// move to the exhausted state if no whole record fits there.
    /// Exhaustion means every record of the container has been
    /// emitted.
    pub fn next_account(&mut self) -> (r: Option<StoredAccountMeta>)
        ensures
            final(self).source() == old(self).source(),
            match r {
                Some(acc) => {
                    &&& final(self).emitted() == old(self).emitted().push(acc@)
                    &&& old(self).emitted().len() < spec_records(old(self).source()).len()
                    &&& acc@ == spec_records(old(self).source())[old(self).emitted().len() as int]
                },
                None => {
                    &&& final(self).emitted() == old(self).emitted()
                    &&& final(self).emitted() == spec_records(final(self).source())
                },
            },
    {
        proof {
            use_type_invariant(&*self);
        }
        if self.done {
            return None;
        }
        match self.vec.get_account(self.offset) {
            Some((acc, next)) => {
                proof {
                    let src = self.vec@;
                    let o = self.offset as int;
                    let m = spec_record_at(src, o)->Some_0;
                    if m.next_offset() <= src.len() {
                        assert(spec_records_from(src, o) == seq![m] + spec_records_from(
                            src,
                            m.next_offset(),
                        ));
                    } else {
                        assert(spec_records_from(src, o) == seq![m]);
                        assert(spec_record_at(src, next as int) is None);
                        assert(spec_records_from(src, next as int) =~= Seq::<
                            RecordModel,
                        >::empty());
                    }
                    assert(self.emitted@ + spec_records_from(src, o) == (self.emitted@.push(m))
                        + spec_records_from(src, next as int)) by {
                        assert(self.emitted@ + spec_records_from(src, o) =~= (self.emitted@.push(
                            m,
                        )) + spec_records_from(src, next as int));
                    }
                }
                let ghost new_emitted = self.emitted@.push(acc@);
                *self = AppendVecIterator {
                    vec: self.vec,
                    offset: next,
                    done: false,
                    emitted: Ghost(new_emitted),
                };
                Some(acc)
            },
            None => {
                proof {
                    assert(spec_records_from(self.vec@, self.offset as int) =~= Seq::<
                        RecordModel,
                    >::empty());
                    assert(spec_records(self.vec@) =~= self.emitted@);
                }
                *self = AppendVecIterator {
                    vec: self.vec,
                    offset: self.offset,
                    done: true,
                    emitted: Ghost(self.emitted@),
                };
                None
            },
        }
    }
}

/// Start a walk over the records of `vec`, positioned at the first
/// record.
pub fn append_vec_iter<'a>(vec: &'a AppendVec) -> (it: AppendVecIterator<'a>)
    ensures
        it.source() == vec@,
        it.emitted() == Seq::<RecordModel>::empty(),
{
    proof {
        assert(Seq::<RecordModel>::empty() + spec_records_from(vec@, 0) =~= spec_records_from(
            vec@,
            0,
        ));
    }
    AppendVecIterator { vec, offset: 0, done: false, emitted: Ghost(Seq::empty()) }
}

/// Drain a fresh iterator over `vec` to exhaustion and return every
/// record it emits, in container order.
pub fn collect_accounts(vec: &AppendVec) -> (v: Vec<StoredAccountMeta>)
    ensures
        v@.map_values(|acc: StoredAccountMeta| acc@) == spec_records(vec@),
{
    let mut it = append_vec_iter(vec);
    let mut v: Vec<StoredAccountMeta> = Vec::new();
    loop
        invariant
            it.source() == vec@,
            it.emitted() == v@.map_values(|acc: StoredAccountMeta| acc@),
            it.emitted().len() <= spec_records(vec@).len(),
        decreases spec_records(vec@).len() - it.emitted().len(),
    {
        match it.next_account() {
            Some(acc) => {
                proof {
                    assert(it.emitted() =~= v@.push(acc).map_values(
                        |a: StoredAccountMeta| a@,
                    ));
                }
                v.push(acc);
            },
            None => {
                return v;
            },
        }
    }
}

} // verus!
