use snapshot_etl::ContainerError;
use snapshot_etl::append_vec::AppendVec;
use snapshot_etl::pipeline::RawProgramAccountDumper;
use snapshot_etl::store::{AccountRow, AccountStore, StoreTransaction};

fn push_u64(v: &mut Vec<u8>, x: u64) {
    v.extend_from_slice(&x.to_le_bytes());
}

fn pad8(v: &mut Vec<u8>) {
    while v.len() % 8 != 0 {
        v.push(0);
    }
}

fn push_record(
    v: &mut Vec<u8>,
    write_version: u64,
    pubkey: [u8; 32],
    lamports: u64,
    owner: [u8; 32],
    data: &[u8],
) {
    push_u64(v, write_version);
    push_u64(v, data.len() as u64);
    v.extend_from_slice(&pubkey);
    push_u64(v, lamports);
    push_u64(v, 0); // rent epoch
    v.extend_from_slice(&owner);
    v.push(0); // executable flag
    pad8(v);
    v.extend_from_slice(&[0u8; 32]); // content hash
    v.extend_from_slice(data);
    pad8(v);
}

fn key(b: u8) -> [u8; 32] {
    [b; 32]
}

fn container(records: &[(u64, [u8; 32], u64, [u8; 32], Vec<u8>)]) -> AppendVec {
    let mut bytes = Vec::new();
    for (wv, pk, lamports, owner, data) in records {
        push_record(&mut bytes, *wv, *pk, *lamports, *owner, data);
    }
    let len = bytes.len();
    AppendVec::new_from_bytes(bytes, len).unwrap()
}

#[test]
fn filter_keeps_exactly_the_target_owner() {
    let target = key(7);
    let other = key(8);
    // Three records owned by the target, two by another owner.
    let av = container(&[
        (1, key(1), 10, target, vec![]),
        (2, key(2), 20, other, vec![]),
        (3, key(3), 30, target, vec![1, 2]),
        (4, key(4), 40, other, vec![3]),
        (5, key(5), 50, target, vec![]),
    ]);
    let mut dumper = RawProgramAccountDumper::new(target);
    let count = dumper.insert_all(vec![Ok(av)]).unwrap();
    assert_eq!(count, 3);
    assert_eq!(dumper.store().row_count(), 3);
    assert_eq!(dumper.store().get_row(0).lamports, 10);
    assert_eq!(dumper.store().get_row(1).lamports, 30);
    assert_eq!(dumper.store().get_row(2).lamports, 50);
}

#[test]
fn filter_with_no_matches_writes_nothing() {
    let av = container(&[(1, key(1), 10, key(8), vec![]), (2, key(2), 20, key(9), vec![])]);
    let mut dumper = RawProgramAccountDumper::new(key(7));
    let count = dumper.insert_all(vec![Ok(av)]).unwrap();
    assert_eq!(count, 0);
    assert_eq!(dumper.store().row_count(), 0);
}

#[test]
fn running_twice_leaves_the_same_row_count_as_once() {
    let target = key(7);
    let build = || {
        vec![
            Ok(container(&[
                (1, key(1), 10, target, vec![1]),
                (2, key(2), 20, target, vec![2]),
            ])),
            Ok(container(&[(3, key(3), 30, target, vec![3])])),
        ]
    };
    let mut dumper = RawProgramAccountDumper::new(target);
    let count_once = dumper.insert_all(build()).unwrap();
    let rows_once = dumper.store().row_count();
    let count_twice = dumper.insert_all(build()).unwrap();
    assert_eq!(count_once, 3);
    assert_eq!(count_twice, 3);
    assert_eq!(rows_once, 3);
    // The second, identical run added nothing.
    assert_eq!(dumper.store().row_count(), rows_once);
}

#[test]
fn construction_failure_aborts_run_and_leaves_store_unchanged() {
    let target = key(7);
    // Three records the filter would accept, then a failed construction.
    let inputs = vec![
        Ok(container(&[
            (1, key(1), 10, target, vec![]),
            (2, key(2), 20, target, vec![]),
            (3, key(3), 30, target, vec![]),
        ])),
        Err(ContainerError::TooSmall),
    ];
    let mut dumper = RawProgramAccountDumper::new(target);
    let r = dumper.insert_all(inputs);
    assert_eq!(r, Err(ContainerError::TooSmall));
    assert_eq!(dumper.store().row_count(), 0);
}

#[test]
fn construction_failure_is_propagated_first() {
    let mut dumper = RawProgramAccountDumper::new(key(7));
    let r = dumper.insert_all(vec![Err(ContainerError::InconsistentLength)]);
    assert_eq!(r, Err(ContainerError::InconsistentLength));
}

#[test]
fn rollback_after_staging_leaves_zero_rows() {
    let store = AccountStore::new();
    let mut tx = StoreTransaction::begin(store);
    for i in 0..3u8 {
        tx.stage(AccountRow {
            pubkey: format!("k{}", i),
            lamports: i as u64,
            owner: "o".to_string(),
            data: vec![i],
        });
    }
    assert_eq!(tx.staged_count(), 3);
    let store = tx.rollback();
    assert_eq!(store.row_count(), 0);
}

#[test]
fn commit_applies_staged_rows_insert_if_absent() {
    let store = AccountStore::new();
    let mut tx = StoreTransaction::begin(store);
    tx.stage(AccountRow {
        pubkey: "a".to_string(),
        lamports: 1,
        owner: "o".to_string(),
        data: vec![],
    });
    tx.stage(AccountRow {
        pubkey: "b".to_string(),
        lamports: 2,
        owner: "o".to_string(),
        data: vec![],
    });
    tx.stage(AccountRow {
        pubkey: "a".to_string(),
        lamports: 3,
        owner: "o".to_string(),
        data: vec![],
    });
    let store = tx.commit();
    assert_eq!(store.row_count(), 2);
    assert_eq!(store.get_row(0).lamports, 1);
    assert_eq!(store.get_row(1).lamports, 2);
}

#[test]
fn store_insert_if_absent_ignores_duplicate_keys() {
    let mut store = AccountStore::new();
    let row = |lamports: u64| AccountRow {
        pubkey: "k".to_string(),
        lamports,
        owner: "o".to_string(),
        data: vec![],
    };
    assert!(store.insert_if_absent(row(5)));
    assert!(!store.insert_if_absent(row(6)));
    assert_eq!(store.row_count(), 1);
    assert_eq!(store.get_row(0).lamports, 5);
    assert!(!store.contains_key(&"absent".to_string()));
    assert!(store.contains_key(&"k".to_string()));
}

#[test]
fn duplicate_key_across_containers_keeps_first_encountered() {
    let target = key(7);
    // The same record key in both containers, different balances and
    // write versions; the later write version arrives second and is
    // ignored: first encountered wins, write_version plays no part.
    let inputs = vec![
        Ok(container(&[(1, key(1), 10, target, vec![])])),
        Ok(container(&[(9, key(1), 99, target, vec![])])),
    ];
    let mut dumper = RawProgramAccountDumper::new(target);
    let count = dumper.insert_all(inputs).unwrap();
    assert_eq!(count, 2);
    assert_eq!(dumper.store().row_count(), 1);
    assert_eq!(dumper.store().get_row(0).lamports, 10);
}

#[test]
fn end_to_end_two_records_one_match() {
    let a = key(0);
    let b = key(5);
    let record1_key = [0u8; 32];
    let record2_key = key(2);
    let av = container(&[
        (1, record1_key, 11, a, vec![]),
        (2, record2_key, 22, b, vec![]),
    ]);
    let mut dumper = RawProgramAccountDumper::new(a);
    let count = dumper.insert_all(vec![Ok(av)]).unwrap();
    assert_eq!(count, 1);
    assert_eq!(dumper.store().row_count(), 1);
    let row = dumper.store().get_row(0);
    // Base-58 text of 32 zero bytes.
    assert_eq!(row.pubkey, "11111111111111111111111111111111");
    assert_eq!(row.pubkey, bs58::encode(record1_key).into_string());
    assert_eq!(row.owner, bs58::encode(a).into_string());
    assert_eq!(row.lamports, 11);
    assert!(row.data.is_empty());
}
