//! The container reader: an immutable byte region of which a prefix
//! (`current_len` bytes) holds valid record data, with bounds-checked,
//! alignment-aware accessors that decode records field by field at
//! known byte offsets.

use vstd::prelude::*;
use vstd::array::ArrayAdditionalExecFns;
use vstd::bytes::u64_from_le_bytes;
use vstd::slice::{slice_index_get, slice_subrange, slice_to_vec};
use crate::ContainerError;
use crate::layout::{
    ACCOUNT_META_SIZE, AccountMetaModel, HASH_SIZE, MAXIMUM_APPEND_VEC_FILE_SIZE, RecordModel,
    STORED_META_SIZE, StoredMetaModel, align8, spec_account_meta, spec_align8, spec_meta_end,
    spec_record_at, spec_stored_meta,
};

verus! {

/// Decoded record header: write version, payload length and the
/// record's 32-byte key.
#[derive(Clone, Debug, PartialEq, Eq)]
pub struct StoredMeta {
    /// Global write version assigned by the original writer; not used
    /// for ordering in this read path.
    pub write_version: u64,
    /// Length in bytes of the record's payload.
    pub data_len: u64,
    /// Key of the record.
    pub pubkey: [u8; 32],
}

impl View for StoredMeta {
    type V = StoredMetaModel;

    open spec fn view(&self) -> StoredMetaModel {
        StoredMetaModel {
            write_version: self.write_version,
            data_len: self.data_len,
            pubkey: self.pubkey@,
        }
    }
}

/// Decoded record attributes: balance, rent epoch, owner key and the
/// executable flag.
#[derive(Clone, Debug, PartialEq, Eq)]
pub struct AccountMeta {
    /// Balance held by the record.
    pub lamports: u64,
    /// Epoch at which the record next owes rent.
    pub rent_epoch: u64,
    /// Key of the entity that owns the record; the extraction filter
    /// compares against it.
    pub owner: [u8; 32],
    /// Whether the record's payload is a loaded, read-only program.
    pub executable: bool,
}

impl View for AccountMeta {
    type V = AccountMetaModel;

    open spec fn view(&self) -> AccountMetaModel {
        AccountMetaModel {
            lamports: self.lamports,
            rent_epoch: self.rent_epoch,
            owner: self.owner@,
            executable: self.executable,
        }
    }
}

/// One fully decoded record.  Every field is an owned copy of the
/// bytes it was decoded from, so a record stays valid independently of
/// its container.
#[derive(Clone, Debug, PartialEq, Eq)]
pub struct StoredAccountMeta {
    pub meta: StoredMeta,
    pub account_meta: AccountMeta,
    /// The record's payload, exactly `meta.data_len` bytes.
    pub data: Vec<u8>,
    /// Offset of the record's first byte in the container.
    pub offset: usize,
    /// Bytes from the record's first byte to the 8-byte-aligned start
    /// of the following record.
    pub stored_size: usize,
    /// Content hash stored with the record.
    pub hash: [u8; 32],
}

impl View for StoredAccountMeta {
    type V = RecordModel;

    open spec fn view(&self) -> RecordModel {
        RecordModel {
            meta: self.meta@,
            account_meta: self.account_meta@,
            hash: self.hash@,
            data: self.data@,
            offset: self.offset as int,
            stored_size: self.stored_size as int,
        }
    }
}

/// An owned copy of everything one record stores about its account,
/// held as plain values independent of any container.
#[derive(Clone, Debug, PartialEq, Eq)]
pub struct Account {
    /// Balance held by the account.
    pub lamports: u64,
    /// The account's payload.
    pub data: Vec<u8>,
    /// Key of the entity that owns the account.
    pub owner: [u8; 32],
    /// Whether the account's payload is a loaded, read-only program.
    pub executable: bool,
    /// Epoch at which the account next owes rent.
    pub rent_epoch: u64,
}

impl StoredAccountMeta {
    /// Return a new account value by copying all the data this record
    /// references.
    pub fn clone_account(&self) -> (a: Account)
        ensures
            a.lamports == self@.account_meta.lamports,
            a.data@ == self@.data,
            a.owner@ == self@.account_meta.owner,
            a.executable == self@.account_meta.executable,
            a.rent_epoch == self@.account_meta.rent_epoch,
    {
        Account {
            lamports: self.account_meta.lamports,
            owner: self.account_meta.owner,
            executable: self.account_meta.executable,
            rent_epoch: self.account_meta.rent_epoch,
            data: slice_to_vec(self.data.as_slice()),
        }
    }
}

/// Copy 32 bytes out of `s` starting at `offset`.
fn read_bytes32(s: &[u8], offset: usize) -> (r: [u8; 32])
    requires
        offset + 32 <= s@.len(),
    ensures
        r@ == s@.subrange(offset as int, offset as int + 32),
{
    let mut r: [u8; 32] = [0; 32];
    let n = s.len();
    let mut i: usize = 0;
    while i < 32
        invariant
            i <= 32,
            n == s@.len(),
            offset + 32 <= s@.len(),
            forall|k: int| 0 <= k < i ==> r@[k] == s@[offset + k],
        decreases 32 - i,
    {
        r[i] = *slice_index_get(s, offset + i);
        i += 1;
    }
    proof {
        assert(r@ =~= s@.subrange(offset as int, offset as int + 32));
    }
    r
}

/// A read-only block of memory that stores a sequence of records.  Of
/// its `capacity` bytes, the first `current_len` hold valid record
/// data; the rest is unused allocated space.  The region is never
/// mutated once constructed.
pub struct AppendVec {
    /// The backing region; its full length is the container's capacity.
    data: Vec<u8>,
    /// The number of bytes used to store records, not the number of
    /// records.
    current_len: usize,
}

impl View for AppendVec {
    type V = Seq<u8>;

    /// The container's logical content: the prefix of the backing
    /// region that holds valid record data.
    closed spec fn view(&self) -> Seq<u8> {
        self.data@.take(self.current_len as int)
    }
}

/// The construction-time sanitization rule, as a decision over
/// unbounded integers: an empty region is too small, one over the
/// maximum (or on a platform that cannot address the maximum) is too
/// large, and a logical length over the capacity is inconsistent.
pub open spec fn spec_sanitize(current_len: int, file_size: int) -> Result<(), ContainerError> {
    if file_size == 0 {
        Err(ContainerError::TooSmall)
    } else if usize::MAX < MAXIMUM_APPEND_VEC_FILE_SIZE || file_size
        > MAXIMUM_APPEND_VEC_FILE_SIZE {
        Err(ContainerError::TooLarge)
    } else if current_len > file_size {
        Err(ContainerError::InconsistentLength)
    } else {
        Ok(())
    }
}

impl AppendVec {
    #[verifier::type_invariant]
    spec fn wf(self) -> bool {
        &&& 1 <= self.data@.len()
        &&& self.data@.len() <= MAXIMUM_APPEND_VEC_FILE_SIZE
        &&& self.current_len <= self.data@.len()
        &&& MAXIMUM_APPEND_VEC_FILE_SIZE <= usize::MAX
    }

    /// Total bytes allocated for the container on its backing medium.
    pub closed spec fn spec_capacity(&self) -> nat {
        self.data@.len()
    }

    /// Validate a declared logical length against the backing region's
    /// size before construction.
    pub fn sanitize_len_and_size(current_len: usize, file_size: usize) -> (r: Result<
        (),
        ContainerError,
    >)
        ensures
            r == spec_sanitize(current_len as int, file_size as int),
            r is Ok <==> {
                &&& 1 <= file_size <= MAXIMUM_APPEND_VEC_FILE_SIZE
                &&& current_len <= file_size
                &&& MAXIMUM_APPEND_VEC_FILE_SIZE <= usize::MAX
            },
    {
        if file_size == 0 {
            Err(ContainerError::TooSmall)
        } else if (usize::MAX as u64) < MAXIMUM_APPEND_VEC_FILE_SIZE || (file_size as u64)
            > MAXIMUM_APPEND_VEC_FILE_SIZE {
            Err(ContainerError::TooLarge)
        } else if current_len > file_size {
            Err(ContainerError::InconsistentLength)
        } else {
            Ok(())
        }
    }

    /// Construct a container over `data`, of which the first
    /// `current_len` bytes hold valid record data.  The capacity is
    /// the full length of `data`.  Fails exactly when the sanitization
    /// rule refuses the pair.
    pub fn new_from_bytes(data: Vec<u8>, current_len: usize) -> (r: Result<
        AppendVec,
        ContainerError,
    >)
        ensures
            match r {
                Ok(av) => {
                    &&& spec_sanitize(current_len as int, data@.len() as int) is Ok
                    &&& av@ == data@.take(current_len as int)
                    &&& av@.len() == current_len
                    &&& av.spec_capacity() == data@.len()
                },
                Err(e) => spec_sanitize(current_len as int, data@.len() as int) == Err::<
                    (),
                    ContainerError,
                >(e),
            },
    {
        match Self::sanitize_len_and_size(current_len, data.len()) {
            Err(e) => Err(e),
            Ok(()) => Ok(AppendVec { data, current_len }),
        }
    }

    /// Bytes of the container populated with valid record data.
    pub fn len(&self) -> (r: usize)
        ensures
            r == self@.len(),
    {
        proof {
            use_type_invariant(self);
        }
        self.current_len
    }

    /// Whether the container holds no valid record data at all.
    pub fn is_empty(&self) -> (r: bool)
        ensures
            r == (self@.len() == 0),
    {
        self.len() == 0
    }

    /// Total bytes allocated for the container.
    pub fn capacity(&self) -> (r: u64)
        ensures
            r == self.spec_capacity(),
    {
        proof {
            use_type_invariant(self);
        }
        self.data.len() as u64
    }

    /// How many more bytes the backing region could store beyond the
    /// valid data.
    pub fn remaining_bytes(&self) -> (r: u64)
        ensures
            r == self.spec_capacity() - self@.len(),
    {
        proof {
            use_type_invariant(self);
        }
        self.capacity() - (self.len() as u64)
    }

    /// A view of exactly `size` bytes at `offset`, if that extent lies
    /// within the valid data; `None` exactly when `offset + size`
    /// overflows or exceeds the logical length.  Also returns the
    /// 8-byte-aligned offset immediately after the extent.
    pub fn get_slice(&self, offset: usize, size: usize) -> (r: Option<(&[u8], usize)>)
        ensures
            r is Some <==> offset + size <= self@.len(),
            r matches Some((s, next)) ==> {
                &&& s@ == self@.subrange(offset as int, offset as int + size as int)
                &&& s@.len() == size
                &&& next == spec_align8(offset as int + size as int)
                &&& offset + size <= next
            },
    {
        proof {
            use_type_invariant(self);
        }
        let end = match offset.checked_add(size) {
            None => { return None; },
            Some(e) => e,
        };
        if end > self.current_len {
            return None;
        }
        let s = slice_subrange(self.data.as_slice(), offset, end);
        let next = align8(end);
        proof {
            assert(s@ =~= self@.subrange(offset as int, offset as int + size as int));
        }
        Some((s, next))
    }

    /// Decode the record header at `offset`; `None` exactly when its
    /// 48 bytes do not fit in the valid data.
    pub fn get_stored_meta(&self, offset: usize) -> (r: Option<(StoredMeta, usize)>)
        ensures
            r is Some <==> spec_meta_end(offset as int) <= self@.len(),
            r matches Some((m, next)) ==> {
                &&& m@ == spec_stored_meta(
                    self@.subrange(offset as int, spec_meta_end(offset as int)),
                )
                &&& next == spec_align8(spec_meta_end(offset as int))
                &&& offset <= next
            },
    {
        match self.get_slice(offset, STORED_META_SIZE) {
            None => None,
            Some((s, next)) => {
                let write_version = u64_from_le_bytes(slice_subrange(s, 0, 8));
                let data_len = u64_from_le_bytes(slice_subrange(s, 8, 16));
                let pubkey = read_bytes32(s, 16);
                Some((StoredMeta { write_version, data_len, pubkey }, next))
            },
        }
    }

    /// Decode the record attributes at `offset`; `None` exactly when
    /// their 56 bytes do not fit in the valid data.
    pub fn get_account_meta(&self, offset: usize) -> (r: Option<(AccountMeta, usize)>)
        ensures
            r is Some <==> offset + ACCOUNT_META_SIZE <= self@.len(),
            r matches Some((m, next)) ==> {
                &&& m@ == spec_account_meta(
                    self@.subrange(offset as int, offset as int + ACCOUNT_META_SIZE),
                )
                &&& next == spec_align8(offset as int + ACCOUNT_META_SIZE)
                &&& offset <= next
            },
    {
        match self.get_slice(offset, ACCOUNT_META_SIZE) {
            None => None,
            Some((s, next)) => {
                let lamports = u64_from_le_bytes(slice_subrange(s, 0, 8));
                let rent_epoch = u64_from_le_bytes(slice_subrange(s, 8, 16));
                let owner = read_bytes32(s, 16);
                let executable = *slice_index_get(s, 48) != 0;
                Some((AccountMeta { lamports, rent_epoch, owner, executable }, next))
            },
        }
    }

    /// Copy the 32-byte content hash at `offset`; `None` exactly when
    /// it does not fit in the valid data.
    pub fn get_hash(&self, offset: usize) -> (r: Option<([u8; 32], usize)>)
        ensures
            r is Some <==> offset + HASH_SIZE <= self@.len(),
            r matches Some((h, next)) ==> {
                &&& h@ == self@.subrange(offset as int, offset as int + HASH_SIZE)
                &&& next == spec_align8(offset as int + HASH_SIZE)
                &&& offset <= next
            },
    {
        match self.get_slice(offset, HASH_SIZE) {
            None => None,
            Some((s, next)) => Some((read_bytes32(s, 0), next)),
        }
    }

    /// Decode the whole record at `offset`: header, attributes,
    /// content hash and payload in sequence, each read chained on the
    /// aligned offset after the previous one.  Any bounds failure
    /// along the chain makes the whole record `None`.  Also returns
    /// the aligned offset where the next record would begin.
    pub fn get_account(&self, offset: usize) -> (r: Option<(StoredAccountMeta, usize)>)
        ensures
            match spec_record_at(self@, offset as int) {
                None => r is None,
                Some(m) => {
                    &&& r matches Some((acc, next))
                    &&& acc@ == m
                    &&& next == m.next_offset()
                },
            },
    {
        proof {
            use_type_invariant(self);
        }
        let (meta, next) = match self.get_stored_meta(offset) {
            None => { return None; },
            Some(x) => x,
        };
        let (account_meta, next2) = match self.get_account_meta(next) {
            None => { return None; },
            Some(x) => x,
        };
        let (hash, next3) = match self.get_hash(next2) {
            None => { return None; },
            Some(x) => x,
        };
        let data_len = meta.data_len as usize;
        let (data_slice, next4) = match self.get_slice(next3, data_len) {
            None => { return None; },
            Some(x) => x,
        };
        let data = slice_to_vec(data_slice);
        let stored_size = next4 - offset;
        proof {
            let m = spec_record_at(self@, offset as int)->Some_0;
            assert(StoredAccountMeta {
                meta,
                account_meta,
                data,
                offset,
                stored_size,
                hash,
            }@ =~= m);
        }
        Some((StoredAccountMeta { meta, account_meta, data, offset, stored_size, hash }, next4))
    }
}

} // verus!
