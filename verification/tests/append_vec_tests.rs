use snapshot_etl::ContainerError;
use snapshot_etl::append_vec::AppendVec;
use snapshot_etl::iterator::{append_vec_iter, collect_accounts};

fn push_u64(v: &mut Vec<u8>, x: u64) {
    v.extend_from_slice(&x.to_le_bytes());
}

fn pad8(v: &mut Vec<u8>) {
    while v.len() % 8 != 0 {
        v.push(0);
    }
}

#[allow(clippy::too_many_arguments)]
fn push_record(
    v: &mut Vec<u8>,
    write_version: u64,
    pubkey: [u8; 32],
    lamports: u64,
    rent_epoch: u64,
    owner: [u8; 32],
    executable: u8,
    hash: [u8; 32],
    data: &[u8],
) {
    push_u64(v, write_version);
    push_u64(v, data.len() as u64);
    v.extend_from_slice(&pubkey);
    push_u64(v, lamports);
    push_u64(v, rent_epoch);
    v.extend_from_slice(&owner);
    v.push(executable);
    pad8(v);
    v.extend_from_slice(&hash);
    v.extend_from_slice(data);
    pad8(v);
}

fn key(b: u8) -> [u8; 32] {
    [b; 32]
}

#[test]
fn empty_region_is_too_small() {
    assert_eq!(
        AppendVec::new_from_bytes(Vec::new(), 0).err(),
        Some(ContainerError::TooSmall)
    );
}

#[test]
fn oversized_region_is_too_large() {
    let max = 16u64 * 1024 * 1024 * 1024;
    assert_eq!(
        AppendVec::sanitize_len_and_size(0, (max + 1) as usize),
        Err(ContainerError::TooLarge)
    );
    assert_eq!(AppendVec::sanitize_len_and_size(0, max as usize), Ok(()));
}

#[test]
fn logical_length_over_capacity_is_inconsistent() {
    assert_eq!(
        AppendVec::sanitize_len_and_size(5, 4),
        Err(ContainerError::InconsistentLength)
    );
    assert_eq!(
        AppendVec::new_from_bytes(vec![0u8; 4], 5).err(),
        Some(ContainerError::InconsistentLength)
    );
    assert_eq!(AppendVec::sanitize_len_and_size(4, 4), Ok(()));
}

#[test]
fn accessors_report_lengths() {
    let av = AppendVec::new_from_bytes(vec![0u8; 100], 40).unwrap();
    assert_eq!(av.len(), 40);
    assert_eq!(av.capacity(), 100);
    assert_eq!(av.remaining_bytes(), 60);
    assert!(!av.is_empty());
    let empty = AppendVec::new_from_bytes(vec![0u8; 100], 0).unwrap();
    assert!(empty.is_empty());
    assert_eq!(empty.remaining_bytes(), 100);
}

#[test]
fn get_slice_boundary_values() {
    let bytes: Vec<u8> = (0u8..16).collect();
    let av = AppendVec::new_from_bytes(bytes, 16).unwrap();
    // Whole logical range.
    let (s, next) = av.get_slice(0, 16).unwrap();
    assert_eq!(s, (0u8..16).collect::<Vec<u8>>().as_slice());
    assert_eq!(next, 16);
    // Last byte.
    let (s, next) = av.get_slice(15, 1).unwrap();
    assert_eq!(s, &[15u8]);
    assert_eq!(next, 16);
    // Empty slice exactly at the logical end.
    assert!(av.get_slice(16, 0).is_some());
    // One past the logical end.
    assert!(av.get_slice(15, 2).is_none());
    assert!(av.get_slice(16, 1).is_none());
    assert!(av.get_slice(17, 0).is_none());
    // Overflow-adjacent pairs.
    assert!(av.get_slice(usize::MAX, 1).is_none());
    assert!(av.get_slice(usize::MAX, usize::MAX).is_none());
    assert!(av.get_slice(1, usize::MAX).is_none());
}

#[test]
fn get_slice_aligns_following_offset() {
    let av = AppendVec::new_from_bytes(vec![7u8; 32], 32).unwrap();
    let (s, next) = av.get_slice(0, 3).unwrap();
    assert_eq!(s.len(), 3);
    assert_eq!(next, 8);
    let (_, next) = av.get_slice(8, 8).unwrap();
    assert_eq!(next, 16);
}

#[test]
fn get_account_decodes_every_field() {
    let mut bytes = Vec::new();
    let payload = [9u8, 8, 7, 6, 5];
    push_record(
        &mut bytes,
        42,
        key(1),
        1_000_000,
        360,
        key(2),
        1,
        key(3),
        &payload,
    );
    let len = bytes.len();
    let av = AppendVec::new_from_bytes(bytes, len).unwrap();
    let (acc, next) = av.get_account(0).unwrap();
    assert_eq!(acc.meta.write_version, 42);
    assert_eq!(acc.meta.data_len, 5);
    assert_eq!(acc.meta.pubkey, key(1));
    assert_eq!(acc.account_meta.lamports, 1_000_000);
    assert_eq!(acc.account_meta.rent_epoch, 360);
    assert_eq!(acc.account_meta.owner, key(2));
    assert!(acc.account_meta.executable);
    assert_eq!(acc.hash, key(3));
    assert_eq!(acc.data, payload.to_vec());
    assert_eq!(acc.offset, 0);
    // Header 48 + attributes 56 + hash 32 + payload 5 padded to 144.
    assert_eq!(acc.stored_size, 144);
    assert_eq!(next, 144);
    assert_eq!(len, 144);
}

#[test]
fn get_account_clears_executable_flag() {
    let mut bytes = Vec::new();
    push_record(&mut bytes, 1, key(1), 10, 0, key(2), 0, key(3), &[]);
    let len = bytes.len();
    let av = AppendVec::new_from_bytes(bytes, len).unwrap();
    let (acc, _) = av.get_account(0).unwrap();
    assert!(!acc.account_meta.executable);
}

#[test]
fn get_account_out_of_bounds_is_none() {
    let av = AppendVec::new_from_bytes(vec![0u8; 8], 8).unwrap();
    assert!(av.get_account(0).is_none());
    let mut bytes = Vec::new();
    push_record(&mut bytes, 1, key(1), 10, 0, key(2), 0, key(3), &[1, 2, 3]);
    let len = bytes.len();
    let av = AppendVec::new_from_bytes(bytes, len).unwrap();
    assert!(av.get_account(0).is_some());
    assert!(av.get_account(len).is_none());
    assert!(av.get_account(usize::MAX).is_none());
}

#[test]
fn iterator_emits_records_in_order_with_increasing_offsets() {
    let mut bytes = Vec::new();
    push_record(&mut bytes, 1, key(1), 10, 0, key(9), 0, key(0), &[1]);
    push_record(&mut bytes, 2, key(2), 20, 0, key(9), 0, key(0), &[2, 3]);
    push_record(&mut bytes, 3, key(3), 30, 0, key(9), 0, key(0), &[]);
    let len = bytes.len();
    let av = AppendVec::new_from_bytes(bytes, len).unwrap();
    let accounts = collect_accounts(&av);
    assert_eq!(accounts.len(), 3);
    assert_eq!(accounts[0].meta.write_version, 1);
    assert_eq!(accounts[1].meta.write_version, 2);
    assert_eq!(accounts[2].meta.write_version, 3);
    for w in accounts.windows(2) {
        assert!(w[0].offset < w[1].offset);
    }
    for acc in &accounts {
        assert!(acc.offset + acc.stored_size <= len);
    }
    // A drained iterator stays exhausted.
    let mut it = append_vec_iter(&av);
    while it.next_account().is_some() {}
    assert!(it.next_account().is_none());
}

#[test]
fn truncation_mid_payload_yields_records_before_the_cut() {
    let mut bytes = Vec::new();
    push_record(&mut bytes, 1, key(1), 10, 0, key(9), 0, key(0), &[1, 2, 3]);
    let first_len = bytes.len();
    push_record(&mut bytes, 2, key(2), 20, 0, key(9), 0, key(0), &[4; 16]);
    // Cut eight bytes into the second record's payload.
    let cut = first_len + 48 + 56 + 32 + 8;
    assert!(cut < bytes.len());
    let av = AppendVec::new_from_bytes(bytes, cut).unwrap();
    let accounts = collect_accounts(&av);
    assert_eq!(accounts.len(), 1);
    assert_eq!(accounts[0].meta.write_version, 1);
}

#[test]
fn clone_account_copies_all_referenced_data() {
    let mut bytes = Vec::new();
    let payload = [1u8, 2, 3];
    push_record(&mut bytes, 7, key(1), 55, 12, key(2), 1, key(3), &payload);
    let len = bytes.len();
    let av = AppendVec::new_from_bytes(bytes, len).unwrap();
    let (acc, _) = av.get_account(0).unwrap();
    let account = acc.clone_account();
    assert_eq!(account.lamports, 55);
    assert_eq!(account.rent_epoch, 12);
    assert_eq!(account.owner, key(2));
    assert!(account.executable);
    assert_eq!(account.data, payload.to_vec());
    // The copy is independent of the record it came from.
    drop(acc);
    assert_eq!(account.data.len(), 3);
}

#[test]
fn truncation_mid_header_yields_no_records() {
    let mut bytes = Vec::new();
    push_record(&mut bytes, 1, key(1), 10, 0, key(9), 0, key(0), &[]);
    let av = AppendVec::new_from_bytes(bytes, 40).unwrap();
    assert!(collect_accounts(&av).is_empty());
}
