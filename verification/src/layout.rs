//! Byte-exact model of the container format.
//!
//! A container is a sequence of records.  Each record is laid out as a
//! fixed-size header, fixed-size attributes, a 32-byte content hash and
//! a variable-length payload, with every part followed by padding up to
//! the next 8-byte boundary.  The spec functions here parse a byte
//! sequence into the records it holds; they are the ground truth that
//! the executable accessors are proved against.

use vstd::prelude::*;
use vstd::bytes::spec_u64_from_le_bytes;

verus! {

/// Record parts are aligned at the next multiple of this boundary.
pub const ALIGN_BOUNDARY_OFFSET: usize = 8;

/// Largest capacity a container may have: 16 GiB.
pub const MAXIMUM_APPEND_VEC_FILE_SIZE: u64 = 16 * 1024 * 1024 * 1024;

/// Encoded size of a record header: `write_version` and `data_len`
/// (8 bytes each, little endian) followed by a 32-byte key.
pub const STORED_META_SIZE: usize = 48;

/// Encoded size of the record attributes: `lamports` and `rent_epoch`
/// (8 bytes each, little endian), a 32-byte owner key, one executable
/// flag byte, and 7 bytes of padding to the natural alignment.
pub const ACCOUNT_META_SIZE: usize = 56;

/// Encoded size of the content hash.
pub const HASH_SIZE: usize = 32;

/// `n` rounded up to the next multiple of 8.
pub open spec fn spec_align8(n: int) -> int {
    ((n + 7) / 8) * 8
}

pub proof fn lemma_align8_bounds(n: int)
    requires
        0 <= n,
    ensures
        n <= spec_align8(n) < n + 8,
        spec_align8(n) % 8 == 0,
{
    assert(n <= ((n + 7) / 8) * 8 < n + 8 && (((n + 7) / 8) * 8) % 8 == 0)
        by (nonlinear_arith)
        requires 0 <= n;
}

pub proof fn lemma_align8_mono(a: int, b: int)
    requires
        0 <= a <= b,
    ensures
        spec_align8(a) <= spec_align8(b),
{
    assert(((a + 7) / 8) * 8 <= ((b + 7) / 8) * 8) by (nonlinear_arith)
        requires 0 <= a <= b;
}

pub proof fn lemma_align8_of_aligned(n: int)
    requires
        0 <= n,
        n % 8 == 0,
    ensures
        spec_align8(n) == n,
{
    assert(((n + 7) / 8) * 8 == n) by (nonlinear_arith)
        requires 0 <= n && n % 8 == 0;
}

/// Round an offset up to the next 8-byte boundary.
pub fn align8(n: usize) -> (r: usize)
    requires
        n + 7 <= usize::MAX,
    ensures
        r as int == spec_align8(n as int),
        n <= r < n + 8,
        r % 8 == 0,
{
    proof {
        lemma_align8_bounds(n as int);
    }
    (n + 7) / 8 * 8
}

/// Decoded record header.
#[verifier::ext_equal]
pub struct StoredMetaModel {
    /// Global write version assigned by the original writer; carried
    /// through unchanged and not used for ordering in this read path.
    pub write_version: u64,
    /// Length in bytes of the record's payload.
    pub data_len: u64,
    /// 32-byte key of the record.
    pub pubkey: Seq<u8>,
}

/// Decoded record attributes.
#[verifier::ext_equal]
pub struct AccountMetaModel {
    /// Balance held by the record.
    pub lamports: u64,
    /// Epoch at which the record next owes rent.
    pub rent_epoch: u64,
    /// 32-byte key of the entity that owns the record.
    pub owner: Seq<u8>,
    /// Whether the executable flag byte is set.
    pub executable: bool,
}

/// One fully decoded record together with its position in the
/// container.
#[verifier::ext_equal]
pub struct RecordModel {
    pub meta: StoredMetaModel,
    pub account_meta: AccountMetaModel,
    /// 32-byte content hash stored with the record.
    pub hash: Seq<u8>,
    /// The payload, exactly `meta.data_len` bytes.
    pub data: Seq<u8>,
    /// Offset of the record's first byte in the container.
    pub offset: int,
    /// Bytes from the record's first byte to the 8-byte-aligned start
    /// of the following record.
    pub stored_size: int,
}

/// End of the header read starting at `offset`.
pub open spec fn spec_meta_end(offset: int) -> int {
    offset + STORED_META_SIZE
}

/// End of the attributes read that follows the header.
pub open spec fn spec_account_meta_end(offset: int) -> int {
    spec_align8(spec_meta_end(offset)) + ACCOUNT_META_SIZE
}

/// End of the content-hash read that follows the attributes.
pub open spec fn spec_hash_end(offset: int) -> int {
    spec_align8(spec_account_meta_end(offset)) + HASH_SIZE
}

/// Start of the payload.
pub open spec fn spec_data_start(offset: int) -> int {
    spec_align8(spec_hash_end(offset))
}

/// End of the payload: the last byte of the record proper, before the
/// trailing alignment padding.
pub open spec fn spec_data_end(offset: int, data_len: int) -> int {
    spec_data_start(offset) + data_len
}

impl RecordModel {
    /// Offset of the first byte after this record's trailing padding,
    /// where the next record would begin.
    pub open spec fn next_offset(self) -> int {
        self.offset + self.stored_size
    }

    /// End of this record's payload within the container.
    pub open spec fn data_end(self) -> int {
        spec_data_end(self.offset, self.meta.data_len as int)
    }
}

/// Decode a record header from its 48 encoded bytes.
pub open spec fn spec_stored_meta(bytes: Seq<u8>) -> StoredMetaModel
    recommends
        bytes.len() == STORED_META_SIZE,
{
    StoredMetaModel {
        write_version: spec_u64_from_le_bytes(bytes.subrange(0, 8)),
        data_len: spec_u64_from_le_bytes(bytes.subrange(8, 16)),
        pubkey: bytes.subrange(16, 48),
    }
}

/// Decode record attributes from their 56 encoded bytes.
pub open spec fn spec_account_meta(bytes: Seq<u8>) -> AccountMetaModel
    recommends
        bytes.len() == ACCOUNT_META_SIZE,
{
    AccountMetaModel {
        lamports: spec_u64_from_le_bytes(bytes.subrange(0, 8)),
        rent_epoch: spec_u64_from_le_bytes(bytes.subrange(8, 16)),
        owner: bytes.subrange(16, 48),
        executable: bytes[48] != 0,
    }
}

/// Parse the record that starts at `offset`, if its every part lies
/// within `data`.  Each part is bounds-checked in turn, exactly as the
/// executable accessor chains its bounds-checked reads; the first
/// failing check makes the whole record `None`.
pub open spec fn spec_record_at(data: Seq<u8>, offset: int) -> Option<RecordModel> {
    let len = data.len() as int;
    if offset < 0 {
        None
    } else if spec_meta_end(offset) > len {
        None
    } else {
        let meta = spec_stored_meta(data.subrange(offset, spec_meta_end(offset)));
        if spec_account_meta_end(offset) > len {
            None
        } else if spec_hash_end(offset) > len {
            None
        } else if spec_data_end(offset, meta.data_len as int) > len {
            None
        } else {
            let am_start = spec_align8(spec_meta_end(offset));
            let h_start = spec_align8(spec_account_meta_end(offset));
            let d_start = spec_data_start(offset);
            let d_end = spec_data_end(offset, meta.data_len as int);
            Some(RecordModel {
                meta,
                account_meta: spec_account_meta(
                    data.subrange(am_start, am_start + ACCOUNT_META_SIZE),
                ),
                hash: data.subrange(h_start, h_start + HASH_SIZE),
                data: data.subrange(d_start, d_end),
                offset,
                stored_size: spec_align8(d_end) - offset,
            })
        }
    }
}

/// Basic facts about a successfully parsed record.
pub proof fn lemma_record_at_bounds(data: Seq<u8>, offset: int)
    requires
        spec_record_at(data, offset) is Some,
    ensures
        ({
            let r = spec_record_at(data, offset)->Some_0;
            &&& 0 <= offset
            &&& r.offset == offset
            &&& offset + STORED_META_SIZE + ACCOUNT_META_SIZE + HASH_SIZE <= r.data_end()
            &&& r.data_end() <= data.len()
            &&& r.next_offset() == spec_align8(r.data_end())
            &&& r.data_end() <= r.next_offset()
            &&& r.stored_size == r.next_offset() - offset
            &&& data.len() % 8 == 0 ==> r.next_offset() <= data.len()
        }),
{
    let r = spec_record_at(data, offset)->Some_0;
    let m_end = spec_meta_end(offset);
    let a_end = spec_account_meta_end(offset);
    let h_end = spec_hash_end(offset);
    let d_end = r.data_end();
    lemma_align8_bounds(m_end);
    lemma_align8_bounds(a_end);
    lemma_align8_bounds(h_end);
    lemma_align8_bounds(d_end);
    if data.len() % 8 == 0 {
        lemma_align8_mono(d_end, data.len() as int);
        lemma_align8_of_aligned(data.len() as int);
    }
}

/// The records of `data`, parsed in sequence from `offset`: the record
/// at `offset`, then the records from the first offset after it.  The
/// first position where no whole record fits ends the sequence.
pub open spec fn spec_records_from(data: Seq<u8>, offset: int) -> Seq<RecordModel>
    decreases data.len() - offset
        via spec_records_from_decreases
{
    match spec_record_at(data, offset) {
        None => Seq::empty(),
        Some(r) => {
            if r.next_offset() <= data.len() {
                seq![r] + spec_records_from(data, r.next_offset())
            } else {
                seq![r]
            }
        },
    }
}

#[via_fn]
proof fn spec_records_from_decreases(data: Seq<u8>, offset: int) {
    if spec_record_at(data, offset) is Some {
        lemma_record_at_bounds(data, offset);
    }
}

/// The records of the whole container content `data`.
pub open spec fn spec_records(data: Seq<u8>) -> Seq<RecordModel> {
    spec_records_from(data, 0)
}

proof fn lemma_records_from_invariants(data: Seq<u8>, offset: int)
    requires
        0 <= offset,
    ensures
        ({
            let recs = spec_records_from(data, offset);
            &&& forall|i: int| 0 <= i < recs.len() ==> offset <= (#[trigger] recs[i]).offset
            &&& forall|i: int|
                0 <= i < recs.len() ==> (#[trigger] recs[i]).offset + (STORED_META_SIZE
                    + ACCOUNT_META_SIZE + HASH_SIZE) <= recs[i].data_end()
            &&& forall|i: int| 0 <= i < recs.len() ==> (#[trigger] recs[i]).data_end() <= data.len()
            &&& forall|i: int|
                0 <= i < recs.len() ==> (#[trigger] recs[i]).data_end() <= recs[i].next_offset()
            &&& forall|i: int, j: int|
                0 <= i < j < recs.len() ==> (#[trigger] recs[i]).offset < (
                #[trigger] recs[j]).offset
            &&& data.len() % 8 == 0 ==> forall|i: int|
                0 <= i < recs.len() ==> (#[trigger] recs[i]).next_offset() <= data.len()
        }),
    decreases data.len() - offset,
{
    let recs = spec_records_from(data, offset);
    match spec_record_at(data, offset) {
        None => {},
        Some(r) => {
            lemma_record_at_bounds(data, offset);
            if r.next_offset() <= data.len() {
                lemma_records_from_invariants(data, r.next_offset());
                let rest = spec_records_from(data, r.next_offset());
                assert(recs == seq![r] + rest);
                assert(forall|i: int| 1 <= i < recs.len() ==> recs[i] == rest[i - 1]);
            } else {
                assert(recs == seq![r]);
            }
        },
    }
}

/// For every container content: successive record offsets strictly
/// increase; every record's payload lies within the content; and when
/// the content's length is 8-byte aligned — as the format's trailing
/// record padding makes it for well-formed containers — every record's
/// full aligned extent lies within the content too.
pub proof fn lemma_record_extents(data: Seq<u8>)
    ensures
        ({
            let recs = spec_records(data);
            &&& forall|i: int, j: int|
                0 <= i < j < recs.len() ==> (#[trigger] recs[i]).offset < (
                #[trigger] recs[j]).offset
            &&& forall|i: int|
                0 <= i < recs.len() ==> 0 <= (#[trigger] recs[i]).offset && recs[i].offset
                    < recs[i].data_end() <= data.len()
            &&& data.len() % 8 == 0 ==> forall|i: int|
                0 <= i < recs.len() ==> (#[trigger] recs[i]).offset + recs[i].stored_size
                    <= data.len()
        }),
{
    lemma_records_from_invariants(data, 0);
    let recs = spec_records(data);
    assert forall|i: int| 0 <= i < recs.len() implies (#[trigger] recs[i]).next_offset()
        == recs[i].offset + recs[i].stored_size by {}
}

/// Parsing a record from content cut at `cut` succeeds exactly when
/// the full parse succeeds with the payload ending at or before the
/// cut, and then yields the same record.
proof fn lemma_record_at_truncated(data: Seq<u8>, cut: int, offset: int)
    requires
        0 <= cut <= data.len(),
    ensures
        spec_record_at(data.take(cut), offset) == (match spec_record_at(data, offset) {
            Some(r) => if r.data_end() <= cut {
                Some(r)
            } else {
                None::<RecordModel>
            },
            None => None::<RecordModel>,
        }),
{
    let short = data.take(cut);
    if offset < 0 {
        return ;
    }
    if spec_meta_end(offset) <= cut {
        assert(short.subrange(offset, spec_meta_end(offset)) =~= data.subrange(
            offset,
            spec_meta_end(offset),
        ));
    }
    lemma_align8_bounds(spec_meta_end(offset));
    lemma_align8_bounds(spec_account_meta_end(offset));
    lemma_align8_bounds(spec_hash_end(offset));
    match spec_record_at(data, offset) {
        None => {},
        Some(r) => {
            lemma_record_at_bounds(data, offset);
            if r.data_end() <= cut {
                let am_start = spec_align8(spec_meta_end(offset));
                let h_start = spec_align8(spec_account_meta_end(offset));
                let d_start = spec_data_start(offset);
                assert(short.subrange(am_start, am_start + ACCOUNT_META_SIZE) =~= data.subrange(
                    am_start,
                    am_start + ACCOUNT_META_SIZE,
                ));
                assert(short.subrange(h_start, h_start + HASH_SIZE) =~= data.subrange(
                    h_start,
                    h_start + HASH_SIZE,
                ));
                assert(short.subrange(d_start, r.data_end()) =~= data.subrange(
                    d_start,
                    r.data_end(),
                ));
                assert(spec_record_at(short, offset) == Some(r));
            }
        },
    }
}

proof fn lemma_truncated_records_from(data: Seq<u8>, cut: int, offset: int)
    requires
        0 <= cut <= data.len(),
        0 <= offset,
    ensures
        ({
            let short = spec_records_from(data.take(cut), offset);
            let full = spec_records_from(data, offset);
            &&& short.len() <= full.len()
            &&& forall|i: int| 0 <= i < short.len() ==> short[i] == full[i]
            &&& forall|i: int| 0 <= i < short.len() ==> (#[trigger] full[i]).data_end() <= cut
            &&& short.len() < full.len() ==> full[short.len() as int].data_end() > cut
        }),
    decreases data.len() - offset,
{
    let shortc = data.take(cut);
    let short = spec_records_from(shortc, offset);
    let full = spec_records_from(data, offset);
    lemma_record_at_truncated(data, cut, offset);
    match spec_record_at(data, offset) {
        None => {},
        Some(r) => {
            lemma_record_at_bounds(data, offset);
            let next = r.next_offset();
            if r.data_end() <= cut {
                if next <= cut {
                    lemma_truncated_records_from(data, cut, next);
                    let s_rest = spec_records_from(shortc, next);
                    let f_rest = spec_records_from(data, next);
                    assert(short == seq![r] + s_rest);
                    assert(full == seq![r] + f_rest);
                    assert(forall|i: int| 1 <= i < short.len() ==> short[i] == s_rest[i - 1]);
                    assert(forall|i: int| 1 <= i < full.len() ==> full[i] == f_rest[i - 1]);
                } else {
                    assert(short == seq![r]);
                    if next <= data.len() {
                        let f_rest = spec_records_from(data, next);
                        assert(full == seq![r] + f_rest);
                        if f_rest.len() > 0 {
                            lemma_record_at_bounds(data, next);
                            assert(full[1] == f_rest[0]);
                            assert(f_rest[0].data_end() > cut);
                        }
                    } else {
                        assert(full == seq![r]);
                    }
                }
            } else {
                assert(short =~= Seq::<RecordModel>::empty());
            }
        },
    }
}

/// Cutting a container's logical length to `cut` yields exactly the
/// leading records whose payload still lies within the cut: the cut
/// parse is a prefix of the full parse, every record of that prefix
/// has its payload end at or before the cut, and the first record past
/// the prefix, if there is one, has its payload end after the cut.
pub proof fn lemma_truncation_yields_prefix(data: Seq<u8>, cut: int)
    requires
        0 <= cut <= data.len(),
    ensures
        ({
            let short = spec_records(data.take(cut));
            let full = spec_records(data);
            &&& short.len() <= full.len()
            &&& forall|i: int| 0 <= i < short.len() ==> short[i] == full[i]
            &&& forall|i: int| 0 <= i < short.len() ==> (#[trigger] full[i]).data_end() <= cut
            &&& short.len() < full.len() ==> full[short.len() as int].data_end() > cut
        }),
{
    lemma_truncated_records_from(data, cut, 0);
}

} // verus!
