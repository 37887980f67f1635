use roaring::RoaringBitmap;
use stalwart_jmap::changes::{
    jmap_id_from_parts, parse_change_record, serialize_change_record, PendingChanges,
};
use stalwart_jmap::store::{JMAPStore, StoreError};

fn ids(b: &RoaringBitmap) -> Vec<u32> {
    b.iter().collect()
}

fn id(thread: u32, doc: u32) -> u64 {
    jmap_id_from_parts(thread, doc)
}

#[test]
fn change_record_round_trip() {
    let bytes = serialize_change_record(&[id(1, 2), id(3, 4)], &[id(0, 9)], &[id(7, 7)], &[id(5, 6)]);
    let rec = parse_change_record(&bytes).unwrap();
    assert_eq!(rec.inserts, vec![id(1, 2), id(3, 4)]);
    assert_eq!(rec.updates, vec![id(0, 9)]);
    assert_eq!(rec.deletes, vec![id(5, 6)]);
    assert!(parse_change_record(&bytes[..bytes.len() - 1]).is_none());
}

#[test]
fn merge_single_record() {
    let bytes = serialize_change_record(&[id(1, 2), id(3, 4)], &[id(0, 9)], &[], &[id(5, 6)]);
    let mut p = PendingChanges::new(1, 2);
    assert!(p.is_empty());
    p.deserialize(10, &bytes, &RoaringBitmap::new()).unwrap();
    assert_eq!(ids(&p.inserts), vec![2, 4]);
    assert_eq!(ids(&p.updates), vec![9]);
    assert_eq!(ids(&p.deletes), vec![6]);
    assert!(p.tombstones.is_empty());
    assert!(p.changes.contains(10));
    assert!(!p.is_empty());
}

#[test]
fn update_of_pending_insert_is_dropped() {
    let mut p = PendingChanges::new(1, 2);
    p.deserialize(1, &serialize_change_record(&[id(1, 5)], &[], &[], &[]), &RoaringBitmap::new())
        .unwrap();
    p.deserialize(2, &serialize_change_record(&[], &[id(1, 5)], &[], &[]), &RoaringBitmap::new())
        .unwrap();
    assert_eq!(ids(&p.inserts), vec![5]);
    assert!(p.updates.is_empty());
}

#[test]
fn thread_change_becomes_update() {
    let mut p = PendingChanges::new(1, 2);
    let bytes = serialize_change_record(&[id(2, 5)], &[], &[], &[id(1, 5)]);
    p.deserialize(1, &bytes, &RoaringBitmap::new()).unwrap();
    assert!(p.inserts.is_empty());
    assert_eq!(ids(&p.updates), vec![5]);
    assert!(p.deletes.is_empty());
}

#[test]
fn delete_cancels_earlier_insert() {
    let mut p = PendingChanges::new(1, 2);
    p.deserialize(1, &serialize_change_record(&[id(1, 5)], &[], &[], &[]), &RoaringBitmap::new())
        .unwrap();
    p.deserialize(2, &serialize_change_record(&[], &[], &[], &[id(1, 5)]), &RoaringBitmap::new())
        .unwrap();
    assert!(p.inserts.is_empty());
    assert!(p.deletes.is_empty());
    assert_eq!(p.changes.len(), 2);
}

#[test]
fn delete_of_tombstoned_id_is_recorded() {
    let mut tomb = RoaringBitmap::new();
    tomb.insert(6);
    let mut p = PendingChanges::new(1, 2);
    p.deserialize(1, &serialize_change_record(&[], &[id(0, 6)], &[], &[id(0, 6), id(0, 7)]), &tomb)
        .unwrap();
    assert_eq!(ids(&p.deletes), vec![6, 7]);
    assert_eq!(ids(&p.tombstones), vec![6]);
    assert!(p.updates.is_empty());
}

#[test]
fn reused_id_leaves_deletes() {
    let mut p = PendingChanges::new(1, 2);
    p.deserialize(1, &serialize_change_record(&[], &[], &[], &[id(0, 3)]), &RoaringBitmap::new())
        .unwrap();
    p.deserialize(2, &serialize_change_record(&[id(4, 3)], &[], &[], &[]), &RoaringBitmap::new())
        .unwrap();
    assert_eq!(ids(&p.inserts), vec![3]);
    assert!(p.deletes.is_empty());
}

#[test]
fn unreadable_record_changes_nothing() {
    let mut p = PendingChanges::new(1, 2);
    let bytes = serialize_change_record(&[id(1, 1)], &[], &[], &[]);
    assert!(p.deserialize(1, &bytes[..bytes.len() - 1], &RoaringBitmap::new()).is_none());
    assert!(p.is_empty());
}

#[test]
fn change_ids_increase_per_collection() {
    let mut store = JMAPStore::new(1, 0);
    let rec = serialize_change_record(&[id(1, 1)], &[], &[], &[]);
    assert_eq!(store.append_change(1, 2, rec.clone()), Some(0));
    assert_eq!(store.append_change(1, 2, rec.clone()), Some(1));
    assert_eq!(store.append_change(1, 3, rec.clone()), Some(0));
    assert_eq!(store.append_change(2, 2, rec.clone()), Some(0));
    assert_eq!(store.append_change(1, 2, rec), Some(2));
}

#[test]
fn pending_changes_from_the_log() {
    let mut store = JMAPStore::new(1, 0);
    store.append_change(1, 2, serialize_change_record(&[id(1, 1), id(1, 2)], &[], &[], &[]));
    store.append_change(1, 3, serialize_change_record(&[id(1, 9)], &[], &[], &[]));
    store.append_change(1, 2, serialize_change_record(&[], &[id(1, 3)], &[], &[id(1, 2)]));
    store.add_tombstone(1, 2, 2);

    let all = store.get_pending_changes(1, 2, None, false).unwrap();
    assert_eq!(all.account_id, 1);
    assert_eq!(all.collection, 2);
    assert_eq!(ids(&all.inserts), vec![1]);
    assert_eq!(ids(&all.updates), vec![3]);
    assert!(all.deletes.is_empty());
    assert_eq!(all.changes.iter().collect::<Vec<u64>>(), vec![0, 1]);

    let later = store.get_pending_changes(1, 2, Some(0), false).unwrap();
    assert!(later.inserts.is_empty());
    assert_eq!(ids(&later.deletes), vec![2]);
    assert_eq!(ids(&later.tombstones), vec![2]);
    assert_eq!(later.changes.iter().collect::<Vec<u64>>(), vec![1]);

    let only = store.get_pending_changes(1, 2, None, true).unwrap();
    assert!(only.inserts.is_empty());
    assert_eq!(only.changes.iter().collect::<Vec<u64>>(), vec![0, 1]);

    assert_eq!(ids(&store.get_tombstoned_ids(1, 2)), vec![2]);
    assert!(store.get_tombstoned_ids(1, 3).is_empty());
}

#[test]
fn corrupted_change_record_is_an_error() {
    let mut store = JMAPStore::new(1, 0);
    store.append_change(4, 2, vec![0x80]);
    assert!(matches!(
        store.get_pending_changes(4, 2, None, false),
        Err(StoreError::CorruptedChangeRecord(4, 2))
    ));
    assert!(store.get_pending_changes(4, 2, None, true).is_ok());
}
