use stalwart_jmap::raft::{Change, Entry, RaftId};
use stalwart_jmap::store::JMAPStore;

fn entry(term: u64, index: u64, account_id: u32, changes: &[(u64, u8)]) -> Entry {
    Entry {
        raft_id: RaftId::new(term, index),
        account_id,
        changes: changes
            .iter()
            .map(|&(change_id, collection)| Change {
                change_id,
                collection,
            })
            .collect(),
    }
}

#[test]
fn raft_id_none() {
    let none = RaftId::none();
    assert!(none.is_none());
    assert_eq!(none.term, 0);
    assert_eq!(none.index, u64::MAX);
    assert!(!RaftId::new(0, 0).is_none());
}

#[test]
fn entry_wire_format() {
    let e = entry(1, 2, 300, &[(5, 2), (128, 3)]);
    let bytes = e.serialize();
    assert_eq!(bytes, vec![0xac, 0x02, 0x02, 0x02, 0x05, 0x03, 0x80, 0x01]);
    let back = Entry::deserialize(&bytes, RaftId::new(1, 2)).unwrap();
    assert_eq!(back.account_id, 300);
    assert_eq!(back.raft_id, RaftId::new(1, 2));
    assert_eq!(back.changes, e.changes);
}

#[test]
fn entry_cut_short_is_rejected() {
    let bytes = entry(1, 2, 7, &[(5, 2), (6, 2)]).serialize();
    assert!(Entry::deserialize(&bytes[..bytes.len() - 1], RaftId::new(1, 2)).is_none());
    assert!(Entry::deserialize(&[], RaftId::new(1, 2)).is_none());
}

#[test]
fn assign_raft_id_counts_up_and_wraps() {
    let mut store = JMAPStore::new(3, 10);
    assert_eq!(store.assign_raft_id(), RaftId::new(3, 11));
    assert_eq!(store.assign_raft_id(), RaftId::new(3, 12));
    let mut store = JMAPStore::new(1, u64::MAX);
    assert_eq!(store.assign_raft_id(), RaftId::new(1, 0));
}

#[test]
fn raft_log_neighbours_and_scan() {
    let mut store = JMAPStore::new(1, 0);
    store
        .insert_raft_entries(vec![
            entry(1, 3, 1, &[(0, 2)]),
            entry(1, 1, 1, &[(1, 2)]),
            entry(2, 0, 9, &[(2, 2), (3, 3)]),
        ])
        .unwrap();
    assert_eq!(store.get_next_raft_id(RaftId::new(1, 2)).unwrap(), Some(RaftId::new(1, 3)));
    assert_eq!(store.get_next_raft_id(RaftId::new(1, 3)).unwrap(), Some(RaftId::new(1, 3)));
    assert_eq!(store.get_next_raft_id(RaftId::new(2, 1)).unwrap(), None);
    assert_eq!(store.get_prev_raft_id(RaftId::new(1, 2)).unwrap(), Some(RaftId::new(1, 1)));
    assert_eq!(store.get_prev_raft_id(RaftId::new(1, 0)).unwrap(), None);
    assert_eq!(store.get_prev_raft_id(RaftId::new(5, 0)).unwrap(), Some(RaftId::new(2, 0)));

    let all = store.get_raft_entries(RaftId::none(), 10).unwrap();
    let ids: Vec<RaftId> = all.iter().map(|e| e.raft_id).collect();
    assert_eq!(ids, vec![RaftId::new(1, 1), RaftId::new(1, 3), RaftId::new(2, 0)]);
    assert_eq!(all[2].account_id, 9);
    assert_eq!(all[2].changes.len(), 2);

    let after = store.get_raft_entries(RaftId::new(1, 1), 1).unwrap();
    assert_eq!(after.len(), 1);
    assert_eq!(after[0].raft_id, RaftId::new(1, 3));

    // A limit of zero does not stop the scan.
    assert_eq!(store.get_raft_entries(RaftId::new(1, 1), 0).unwrap().len(), 2);
    assert!(store.get_raft_entries(RaftId::new(2, 0), 5).unwrap().is_empty());
}

#[test]
fn raft_replay_twice_equals_once() {
    let entries = || vec![entry(1, 1, 1, &[(1, 2)]), entry(1, 2, 2, &[(7, 2)])];
    let mut once = JMAPStore::new(1, 0);
    once.insert_raft_entries(entries()).unwrap();
    let mut twice = JMAPStore::new(1, 0);
    twice.insert_raft_entries(entries()).unwrap();
    twice.insert_raft_entries(entries()).unwrap();
    let a = once.get_raft_entries(RaftId::none(), 0).unwrap();
    let b = twice.get_raft_entries(RaftId::none(), 0).unwrap();
    assert_eq!(a.len(), b.len());
    for (x, y) in a.iter().zip(b.iter()) {
        assert_eq!(x.raft_id, y.raft_id);
        assert_eq!(x.account_id, y.account_id);
        assert_eq!(x.changes, y.changes);
    }
}

#[test]
fn raft_entry_replaced_by_later_write() {
    let mut store = JMAPStore::new(1, 0);
    store.insert_raft_entries(vec![entry(1, 1, 1, &[(1, 2)])]).unwrap();
    store.insert_raft_entries(vec![entry(1, 1, 4, &[])]).unwrap();
    let all = store.get_raft_entries(RaftId::none(), 0).unwrap();
    assert_eq!(all.len(), 1);
    assert_eq!(all[0].account_id, 4);
    assert!(all[0].changes.is_empty());
}
