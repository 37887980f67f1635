//! The store's column families: the values of document fields, and the log
//! family with the global Raft log, the per-collection change logs and the
//! tombstoned document ids, with the operations replication runs on them.

use crate::bitmap::bitmap_ids;
use crate::changes::{
    apply_deletes, apply_inserts, apply_record, apply_updates, delete_one, empty_state,
    record_parse, update_one, JMAPId, PendingChanges, PendingState, RecordIds,
};
use crate::raft::{
    entry_encode, entry_parse, raft_id_cmp, raft_id_le, raft_id_lt, AccountId, ChangeId,
    Collection, DocumentId, Entry, RaftId,
};
use roaring::RoaringBitmap;
use vstd::prelude::*;

verus! {

/// Errors of the store.
#[derive(Debug, Clone, Copy, PartialEq, Eq, Structural)]
pub enum StoreError {
    /// A raft entry whose stored bytes cannot be read.
    CorruptedRaftEntry(RaftId),
    /// A change record of this account and collection that cannot be read.
    CorruptedChangeRecord(AccountId, Collection),
    /// A committed document refers to data that is missing or unreadable.
    DataCorruption,
}

/// One row of the Raft log.
pub struct RaftRow {
    pub raft_id: RaftId,
    pub value: Vec<u8>,
}

/// One row of a change log.
pub struct ChangeRow {
    pub account_id: AccountId,
    pub collection: Collection,
    pub change_id: ChangeId,
    pub value: Vec<u8>,
}

/// A document id kept reserved after its deletion.
#[derive(Debug, Clone, Copy, PartialEq, Eq, Structural)]
pub struct Tombstone {
    pub account_id: AccountId,
    pub collection: Collection,
    pub document_id: DocumentId,
}

/// Strictly ascending raft ids.
pub open spec fn raft_sorted(rows: Seq<(RaftId, Seq<u8>)>) -> bool {
    forall|i: int, j: int| 0 <= i < j < rows.len() ==> raft_id_lt(rows[i].0, rows[j].0)
}

/// What the Raft log holds: the stored bytes under each raft id.
pub open spec fn raft_map(rows: Seq<(RaftId, Seq<u8>)>) -> Map<RaftId, Seq<u8>> {
    Map::new(
        |k: RaftId| exists|i: int| 0 <= i < rows.len() && rows[i].0 == k,
        |k: RaftId| rows[choose|i: int| 0 <= i < rows.len() && rows[i].0 == k].1,
    )
}

/// Within one account and collection, change ids strictly increase along the log.
pub open spec fn changes_ordered(rows: Seq<ChangeRow>) -> bool {
    forall|i: int, j: int|
        0 <= i < j < rows.len() && rows[i].account_id == rows[j].account_id
            && rows[i].collection == rows[j].collection ==> rows[i].change_id
            < rows[j].change_id
}

/// Where a stored field value lives: account, collection, document, field
/// and position within the field.
#[derive(Debug, Clone, Copy, PartialEq, Eq, Structural)]
pub struct ValueKey {
    pub account_id: AccountId,
    pub collection: Collection,
    pub document_id: DocumentId,
    pub field: u8,
    pub pos: u32,
}

/// One row of the values column family.
pub struct ValueRow {
    pub key: ValueKey,
    pub value: Vec<u8>,
}

/// The value stored under `key`, the last one written.
pub open spec fn value_of(rows: Seq<ValueRow>, key: ValueKey) -> Option<Seq<u8>>
    decreases rows.len(),
{
    if rows.len() == 0 {
        None
    } else if rows.last().key == key {
        Some(rows.last().value@)
    } else {
        value_of(rows.drop_last(), key)
    }
}

/// The store: its values column family and its log column family.
pub struct JMAPStore {
    raft_term: u64,
    raft_index: u64,
    raft_log: Vec<RaftRow>,
    change_log: Vec<ChangeRow>,
    tombstones: Vec<Tombstone>,
    values: Vec<ValueRow>,
}

proof fn lemma_sorted_unique(rows: Seq<(RaftId, Seq<u8>)>, i: int, j: int)
    requires
        raft_sorted(rows),
        0 <= i < rows.len(),
        0 <= j < rows.len(),
        rows[i].0 == rows[j].0,
    ensures
        i == j,
{
    if i < j {
        assert(raft_id_lt(rows[i].0, rows[j].0));
    } else if j < i {
        assert(raft_id_lt(rows[j].0, rows[i].0));
    }
}

proof fn lemma_raft_map_update(rows: Seq<(RaftId, Seq<u8>)>, pos: int, v: Seq<u8>)
    requires
        raft_sorted(rows),
        0 <= pos < rows.len(),
    ensures
        raft_sorted(rows.update(pos, (rows[pos].0, v))),
        raft_map(rows.update(pos, (rows[pos].0, v))) == raft_map(rows).insert(rows[pos].0, v),
{
    let k = rows[pos].0;
    let new = rows.update(pos, (k, v));
    assert forall|q: RaftId|
        (exists|i: int| 0 <= i < new.len() && new[i].0 == q) implies #[trigger] raft_map(
        new,
    )[q] == raft_map(rows).insert(k, v)[q] by {
        let i = choose|i: int| 0 <= i < new.len() && new[i].0 == q;
        assert(new[i].0 == rows[i].0);
        assert(raft_sorted(new));
        if q != k {
            let j = choose|j: int| 0 <= j < rows.len() && rows[j].0 == q;
            lemma_sorted_unique(rows, i, j);
        } else {
            lemma_sorted_unique(new, i, pos);
        }
    }
    assert forall|q: RaftId| #[trigger]
        raft_map(rows).dom().contains(q) implies raft_map(new).dom().contains(q) by {
        let i = choose|i: int| 0 <= i < rows.len() && rows[i].0 == q;
        assert(new[i].0 == q);
    }
    assert(new[pos].0 == k);
    assert(raft_map(new) =~= raft_map(rows).insert(k, v));
}

proof fn lemma_raft_map_insert(rows: Seq<(RaftId, Seq<u8>)>, pos: int, k: RaftId, v: Seq<u8>)
    requires
        raft_sorted(rows),
        0 <= pos <= rows.len(),
        forall|j: int| 0 <= j < pos ==> raft_id_lt(rows[j].0, k),
        forall|j: int| pos <= j < rows.len() ==> raft_id_lt(k, rows[j].0),
    ensures
        raft_sorted(rows.insert(pos, (k, v))),
        raft_map(rows.insert(pos, (k, v))) == raft_map(rows).insert(k, v),
{
    let new = rows.insert(pos, (k, v));
    assert forall|i: int, j: int| 0 <= i < j < new.len() implies raft_id_lt(
        new[i].0,
        new[j].0,
    ) by {
        if j < pos {
        } else if j == pos {
        } else if i < pos {
            assert(raft_id_lt(rows[i].0, k));
            assert(raft_id_lt(k, rows[j - 1].0));
        } else if i == pos {
        } else {
        }
    }
    assert forall|q: RaftId|
        (exists|i: int| 0 <= i < new.len() && new[i].0 == q) implies #[trigger] raft_map(
        new,
    )[q] == raft_map(rows).insert(k, v)[q] by {
        let i = choose|i: int| 0 <= i < new.len() && new[i].0 == q;
        if q != k {
            let j = choose|j: int| 0 <= j < rows.len() && rows[j].0 == q;
            if i < pos {
                assert(rows[i].0 == q);
                lemma_sorted_unique(rows, i, j);
            } else {
                assert(i != pos);
                assert(new[i].0 == rows[i - 1].0);
                lemma_sorted_unique(rows, i - 1, j);
            }
        } else {
            assert(new[pos].0 == k);
            lemma_sorted_unique(new, i, pos);
        }
    }
    assert forall|q: RaftId| #[trigger]
        raft_map(rows).dom().contains(q) implies raft_map(new).dom().contains(q) by {
        let i = choose|i: int| 0 <= i < rows.len() && rows[i].0 == q;
        if i < pos {
            assert(new[i].0 == q);
        } else {
            assert(new[i + 1].0 == q);
        }
    }
    assert forall|q: RaftId| #[trigger]
        raft_map(new).dom().contains(q) implies q == k || raft_map(rows).dom().contains(q) by {
        let i = choose|i: int| 0 <= i < new.len() && new[i].0 == q;
        if i < pos {
            assert(rows[i].0 == q);
        } else if i > pos {
            assert(rows[i - 1].0 == q);
        }
    }
    assert(new[pos].0 == k);
    assert(raft_map(new) =~= raft_map(rows).insert(k, v));
}

/// Stores each (raft id, bytes) pair in turn; a later pair replaces an
/// earlier one with the same raft id.
pub open spec fn raft_put_all(
    m: Map<RaftId, Seq<u8>>,
    es: Seq<(RaftId, Seq<u8>)>,
) -> Map<RaftId, Seq<u8>>
    decreases es.len(),
{
    if es.len() == 0 {
        m
    } else {
        raft_put_all(m.insert(es[0].0, es[0].1), es.drop_first())
    }
}

/// The stored form of each entry, under its raft id.
pub open spec fn entry_rows(entries: Seq<Entry>) -> Seq<(RaftId, Seq<u8>)> {
    entries.map_values(|e: Entry| (e.raft_id, entry_encode(e.account_id, e.changes@)))
}

/// Two maps that agree on every key that `es` does not name.
pub open spec fn agree_outside(
    m1: Map<RaftId, Seq<u8>>,
    m2: Map<RaftId, Seq<u8>>,
    es: Seq<(RaftId, Seq<u8>)>,
) -> bool {
    forall|k: RaftId|
        (forall|i: int| 0 <= i < es.len() ==> es[i].0 != k) ==> (#[trigger] m1.dom().contains(k)
            == m2.dom().contains(k) && (m1.dom().contains(k) ==> m1[k] == m2[k]))
}

proof fn lemma_put_all_agree(
    m1: Map<RaftId, Seq<u8>>,
    m2: Map<RaftId, Seq<u8>>,
    es: Seq<(RaftId, Seq<u8>)>,
)
    requires
        agree_outside(m1, m2, es),
    ensures
        raft_put_all(m1, es) == raft_put_all(m2, es),
    decreases es.len(),
{
    if es.len() == 0 {
        assert(m1 =~= m2);
    } else {
        let rest = es.drop_first();
        let n1 = m1.insert(es[0].0, es[0].1);
        let n2 = m2.insert(es[0].0, es[0].1);
        assert forall|k: RaftId|
            (forall|i: int| 0 <= i < rest.len() ==> rest[i].0 != k) implies (
            #[trigger] n1.dom().contains(k) == n2.dom().contains(k) && (n1.dom().contains(k)
                ==> n1[k] == n2[k])) by {
            if k != es[0].0 {
                assert forall|i: int| 0 <= i < es.len() implies es[i].0 != k by {
                    if i > 0 {
                        assert(rest[i - 1] == es[i]);
                    }
                }
            }
        }
        lemma_put_all_agree(n1, n2, rest);
    }
}

proof fn lemma_put_all_outside(m: Map<RaftId, Seq<u8>>, es: Seq<(RaftId, Seq<u8>)>)
    ensures
        agree_outside(raft_put_all(m, es), m, es),
    decreases es.len(),
{
    if es.len() > 0 {
        let rest = es.drop_first();
        let n = m.insert(es[0].0, es[0].1);
        lemma_put_all_outside(n, rest);
        assert forall|k: RaftId|
            (forall|i: int| 0 <= i < es.len() ==> es[i].0 != k) implies (
            #[trigger] raft_put_all(m, es).dom().contains(k) == m.dom().contains(k) && (
            raft_put_all(m, es).dom().contains(k) ==> raft_put_all(m, es)[k] == m[k])) by {
            assert(es[0].0 != k);
            assert forall|i: int| 0 <= i < rest.len() implies rest[i].0 != k by {
                assert(rest[i] == es[i + 1]);
            }
        }
    }
}

/// Replaying the same Raft entries a second time changes nothing: the log
/// holds what one replay left.
pub proof fn lemma_raft_replay_idempotent(m: Map<RaftId, Seq<u8>>, entries: Seq<Entry>)
    ensures
        raft_put_all(raft_put_all(m, entry_rows(entries)), entry_rows(entries)) == raft_put_all(
            m,
            entry_rows(entries),
        ),
{
    let es = entry_rows(entries);
    lemma_put_all_outside(m, es);
    lemma_put_all_agree(raft_put_all(m, es), m, es);
}

/// The first row at or after `i` that a scan from `from` returns: any row
/// when the scan is inclusive, else a row past `from`.
pub open spec fn scan_start(
    rows: Seq<(RaftId, Seq<u8>)>,
    from: RaftId,
    inclusive: bool,
    i: int,
) -> int
    decreases rows.len() - i,
{
    if i < 0 || i >= rows.len() {
        rows.len() as int
    } else if inclusive || raft_id_lt(from, rows[i].0) {
        i
    } else {
        scan_start(rows, from, inclusive, i + 1)
    }
}

/// `e` is what the stored row holds.
pub open spec fn entry_read_from(e: Entry, row: (RaftId, Seq<u8>)) -> bool {
    e.raft_id == row.0 && entry_parse(row.1) == Some((e.account_id, e.changes@))
}

/// Where a scan of at most `num` rows from `start` stops; no limit when `num` is 0.
pub open spec fn scan_end(len: int, start: int, num: nat) -> int {
    if num == 0 || start + num > len {
        len
    } else {
        start + num
    }
}

/// A change-log row that a scan of `account_id` and `collection` from
/// `from_change_id` reads: all of them when no change id is given, else those
/// past it.
pub open spec fn change_selected(
    row: ChangeRow,
    account_id: AccountId,
    collection: Collection,
    from_change_id: Option<ChangeId>,
) -> bool {
    row.account_id == account_id && row.collection == collection && match from_change_id {
        Some(f) => row.change_id > f,
        None => true,
    }
}

/// Merges the selected rows into `st`, in log order; `None` once a record
/// cannot be read. With `only_ids`, only the change ids are collected.
pub open spec fn pending_fold(
    st: Option<PendingState>,
    rows: Seq<ChangeRow>,
    account_id: AccountId,
    collection: Collection,
    from_change_id: Option<ChangeId>,
    only_ids: bool,
    tomb: Set<DocumentId>,
) -> Option<PendingState>
    decreases rows.len(),
{
    if rows.len() == 0 {
        st
    } else {
        let row = rows[0];
        let next = match st {
            None => None,
            Some(s) => if !change_selected(row, account_id, collection, from_change_id) {
                Some(s)
            } else if only_ids {
                Some(PendingState { changes: s.changes.insert(row.change_id), ..s })
            } else {
                match record_parse(row.value@) {
                    Some(rec) => Some(apply_record(s, row.change_id, rec, tomb)),
                    None => None,
                }
            },
        };
        pending_fold(
            next,
            rows.drop_first(),
            account_id,
            collection,
            from_change_id,
            only_ids,
            tomb,
        )
    }
}

proof fn lemma_pending_fold_none(
    rows: Seq<ChangeRow>,
    account_id: AccountId,
    collection: Collection,
    from_change_id: Option<ChangeId>,
    only_ids: bool,
    tomb: Set<DocumentId>,
)
    ensures
        pending_fold(None, rows, account_id, collection, from_change_id, only_ids, tomb) is None,
    decreases rows.len(),
{
    if rows.len() > 0 {
        lemma_pending_fold_none(
            rows.drop_first(),
            account_id,
            collection,
            from_change_id,
            only_ids,
            tomb,
        );
    }
}

proof fn lemma_updates_keep_changes(st: PendingState, ups: Seq<JMAPId>)
    ensures
        apply_updates(st, ups).changes == st.changes,
    decreases ups.len(),
{
    if ups.len() > 0 {
        lemma_updates_keep_changes(update_one(st, crate::changes::doc_of(ups[0])), ups.drop_first());
    }
}

proof fn lemma_deletes_keep_changes(
    st: PendingState,
    pending: Seq<JMAPId>,
    dels: Seq<JMAPId>,
    tomb: Set<DocumentId>,
)
    ensures
        apply_deletes(st, pending, dels, tomb).0.changes == st.changes,
    decreases dels.len(),
{
    if dels.len() > 0 {
        let (next_state, next_pending) = delete_one(st, pending, dels[0], tomb);
        lemma_deletes_keep_changes(next_state, next_pending, dels.drop_first(), tomb);
    }
}

proof fn lemma_inserts_keep_changes(st: PendingState, pending: Seq<JMAPId>)
    ensures
        apply_inserts(st, pending).changes == st.changes,
    decreases pending.len(),
{
    if pending.len() > 0 {
        let d = crate::changes::doc_of(pending[0]);
        lemma_inserts_keep_changes(
            PendingState { inserts: st.inserts.insert(d), deletes: st.deletes.remove(d), ..st },
            pending.drop_first(),
        );
    }
}

proof fn lemma_record_changes(st: PendingState, change_id: ChangeId, rec: RecordIds, tomb: Set<DocumentId>)
    ensures
        apply_record(st, change_id, rec, tomb).changes == st.changes.insert(change_id),
{
    let st1 = apply_updates(st, rec.updates);
    lemma_updates_keep_changes(st, rec.updates);
    lemma_deletes_keep_changes(st1, rec.inserts, rec.deletes, tomb);
    let (st2, pending) = apply_deletes(st1, rec.inserts, rec.deletes, tomb);
    lemma_inserts_keep_changes(st2, pending);
}

proof fn lemma_fold_changes_below(
    st: Option<PendingState>,
    rows: Seq<ChangeRow>,
    account_id: AccountId,
    collection: Collection,
    only_ids: bool,
    tomb: Set<DocumentId>,
    bound: ChangeId,
)
    requires
        st is Some ==> forall|x: ChangeId| st->0.changes.contains(x) ==> x < bound,
        forall|i: int|
            0 <= i < rows.len() && (#[trigger] rows[i]).account_id == account_id
                && rows[i].collection == collection ==> rows[i].change_id < bound,
    ensures
        match pending_fold(st, rows, account_id, collection, None, only_ids, tomb) {
            Some(r) => forall|x: ChangeId| r.changes.contains(x) ==> x < bound,
            None => true,
        },
    decreases rows.len(),
{
    if rows.len() > 0 {
        let row = rows[0];
        let next = match st {
            None => None,
            Some(s) => if !change_selected(row, account_id, collection, None) {
                Some(s)
            } else if only_ids {
                Some(PendingState { changes: s.changes.insert(row.change_id), ..s })
            } else {
                match record_parse(row.value@) {
                    Some(rec) => Some(apply_record(s, row.change_id, rec, tomb)),
                    None => None,
                }
            },
        };
        match st {
            Some(s) => if change_selected(row, account_id, collection, None) && !only_ids {
                match record_parse(row.value@) {
                    Some(rec) => lemma_record_changes(s, row.change_id, rec, tomb),
                    None => {},
                }
            },
            None => {},
        }
        assert forall|i: int|
            0 <= i < rows.drop_first().len() && (#[trigger] rows.drop_first()[i]).account_id
                == account_id && rows.drop_first()[i].collection == collection implies rows.drop_first()[i].change_id
            < bound by {
            assert(rows.drop_first()[i] == rows[i + 1]);
        }
        lemma_fold_changes_below(next, rows.drop_first(), account_id, collection, only_ids, tomb, bound);
    }
}

/// A change id that `append_change` hands out is greater than every change
/// id that an earlier read of all pending changes of that account and
/// collection returned.
pub proof fn lemma_appended_change_id_is_newest(
    rows: Seq<ChangeRow>,
    account_id: AccountId,
    collection: Collection,
    only_ids: bool,
    tomb: Set<DocumentId>,
    new_id: ChangeId,
)
    requires
        forall|i: int|
            0 <= i < rows.len() && (#[trigger] rows[i]).account_id == account_id
                && rows[i].collection == collection ==> rows[i].change_id < new_id,
    ensures
        match pending_fold(Some(empty_state()), rows, account_id, collection, None, only_ids, tomb) {
            Some(st) => forall|x: ChangeId| st.changes.contains(x) ==> x < new_id,
            None => true,
        },
{
    lemma_fold_changes_below(Some(empty_state()), rows, account_id, collection, only_ids, tomb, new_id);
}

/// The tombstoned ids of one account and collection.
pub open spec fn tombstones_of(
    rows: Seq<Tombstone>,
    account_id: AccountId,
    collection: Collection,
) -> Set<DocumentId> {
    Set::new(
        |d: DocumentId|
            exists|i: int|
                0 <= i < rows.len() && rows[i] == (Tombstone {
                    account_id,
                    collection,
                    document_id: d,
                }),
    )
}

impl JMAPStore {
    /// The Raft log as (raft id, stored bytes) pairs, in log order.
    pub closed spec fn raft_rows(&self) -> Seq<(RaftId, Seq<u8>)> {
        self.raft_log@.map_values(|r: RaftRow| (r.raft_id, r.value@))
    }

    /// The current term.
    pub closed spec fn term(&self) -> u64 {
        self.raft_term
    }

    /// The last index handed out.
    pub closed spec fn last_index(&self) -> u64 {
        self.raft_index
    }

    pub closed spec fn change_rows(&self) -> Seq<ChangeRow> {
        self.change_log@
    }

    pub closed spec fn tombstone_rows(&self) -> Seq<Tombstone> {
        self.tombstones@
    }

    pub closed spec fn value_rows(&self) -> Seq<ValueRow> {
        self.values@
    }

    pub open spec fn wf(&self) -> bool {
        raft_sorted(self.raft_rows()) && changes_ordered(self.change_rows())
    }

    /// An empty store whose Raft counter stands at `term` and `index`.
    pub fn new(raft_term: u64, raft_index: u64) -> (r: Self)
        ensures
            r.wf(),
            r.term() == raft_term,
            r.last_index() == raft_index,
            r.raft_rows() == Seq::<(RaftId, Seq<u8>)>::empty(),
            r.change_rows() == Seq::<ChangeRow>::empty(),
            r.tombstone_rows() == Seq::<Tombstone>::empty(),
    {
        let r = JMAPStore {
            raft_term,
            raft_index,
            raft_log: Vec::new(),
            change_log: Vec::new(),
            tombstones: Vec::new(),
            values: Vec::new(),
        };
        assert(r.raft_rows() =~= Seq::<(RaftId, Seq<u8>)>::empty());
        r
    }

    /// Takes the next raft id of the current term: the index counter moves
    /// up by one, wrapping at the top.
    pub fn assign_raft_id(&mut self) -> (r: RaftId)
        ensures
            r.term == old(self).term(),
            r.index == old(self).last_index().wrapping_add(1),
            final(self).last_index() == r.index,
            final(self).term() == old(self).term(),
            final(self).raft_rows() == old(self).raft_rows(),
            final(self).change_rows() == old(self).change_rows(),
            final(self).tombstone_rows() == old(self).tombstone_rows(),
            final(self).value_rows() == old(self).value_rows(),
    {
        self.raft_index = self.raft_index.wrapping_add(1);
        RaftId { term: self.raft_term, index: self.raft_index }
    }

    /// Stores `value` under `raft_id`, replacing what was there.
    fn set_raft_row(&mut self, raft_id: RaftId, value: Vec<u8>)
        requires
            old(self).wf(),
        ensures
            final(self).wf(),
            raft_map(final(self).raft_rows()) == raft_map(old(self).raft_rows()).insert(
                raft_id,
                value@,
            ),
            final(self).change_rows() == old(self).change_rows(),
            final(self).tombstone_rows() == old(self).tombstone_rows(),
            final(self).value_rows() == old(self).value_rows(),
            final(self).term() == old(self).term(),
            final(self).last_index() == old(self).last_index(),
    {
        let ghost rows = self.raft_rows();
        let mut pos: usize = 0;
        while pos < self.raft_log.len() && raft_id_cmp(self.raft_log[pos].raft_id, raft_id) == -1
            invariant
                pos <= self.raft_log@.len(),
                rows == self.raft_rows(),
                forall|j: int| 0 <= j < pos ==> raft_id_lt(rows[j].0, raft_id),
            decreases self.raft_log@.len() - pos,
        {
            pos += 1;
        }
        let ghost v = value@;
        if pos < self.raft_log.len() && raft_id_cmp(self.raft_log[pos].raft_id, raft_id) == 0 {
            self.raft_log.set(pos, RaftRow { raft_id, value });
            proof {
                lemma_raft_map_update(rows, pos as int, v);
                assert(self.raft_rows() =~= rows.update(pos as int, (raft_id, v)));
            }
        } else {
            proof {
                assert forall|j: int| pos <= j < rows.len() implies raft_id_lt(
                    raft_id,
                    rows[j].0,
                ) by {
                    if j > pos {
                        assert(raft_id_lt(rows[pos as int].0, rows[j].0));
                    }
                }
            }
            self.raft_log.insert(pos, RaftRow { raft_id, value });
            proof {
                lemma_raft_map_insert(rows, pos as int, raft_id, v);
                assert(self.raft_rows() =~= rows.insert(pos as int, (raft_id, v)));
            }
        }
    }

    /// Stores each entry under its raft id, in order; the log stays sorted.
    pub fn insert_raft_entries(&mut self, entries: Vec<Entry>) -> (r: Result<(), StoreError>)
        requires
            old(self).wf(),
        ensures
            final(self).wf(),
            r is Ok,
            raft_map(final(self).raft_rows()) == raft_put_all(
                raft_map(old(self).raft_rows()),
                entry_rows(entries@),
            ),
            final(self).change_rows() == old(self).change_rows(),
            final(self).tombstone_rows() == old(self).tombstone_rows(),
            final(self).value_rows() == old(self).value_rows(),
            final(self).term() == old(self).term(),
            final(self).last_index() == old(self).last_index(),
    {
        let ghost es = entry_rows(entries@);
        let ghost m0 = raft_map(self.raft_rows());
        let mut i: usize = 0;
        assert(es.skip(0) =~= es);
        while i < entries.len()
            invariant
                self.wf(),
                i <= entries@.len(),
                es == entry_rows(entries@),
                raft_put_all(m0, es) == raft_put_all(raft_map(self.raft_rows()), es.skip(i as int)),
                self.change_rows() == old(self).change_rows(),
                self.tombstone_rows() == old(self).tombstone_rows(),
                self.value_rows() == old(self).value_rows(),
                self.term() == old(self).term(),
                self.last_index() == old(self).last_index(),
            decreases entries@.len() - i,
        {
            let value = entries[i].serialize();
            proof {
                assert(es.skip(i as int).drop_first() =~= es.skip(i + 1));
                assert(es.skip(i as int)[0] == es[i as int]);
            }
            self.set_raft_row(entries[i].raft_id, value);
            i += 1;
        }
        proof {
            assert(es.skip(i as int) =~= Seq::<(RaftId, Seq<u8>)>::empty());
        }
        Ok(())
    }

    /// The first raft id in the log at or after `key`.
    pub fn get_next_raft_id(&self, key: RaftId) -> (r: Result<Option<RaftId>, StoreError>)
        requires
            self.wf(),
        ensures
            match r {
                Ok(Some(id)) => raft_map(self.raft_rows()).dom().contains(id) && raft_id_le(key, id)
                    && forall|k: RaftId|
                    #![trigger raft_map(self.raft_rows()).dom().contains(k)]
                    raft_map(self.raft_rows()).dom().contains(k) && raft_id_le(key, k)
                        ==> raft_id_le(id, k),
                Ok(None) => forall|k: RaftId|
                    #![trigger raft_map(self.raft_rows()).dom().contains(k)]
                    raft_map(self.raft_rows()).dom().contains(k) ==> raft_id_lt(k, key),
                Err(_) => false,
            },
    {
        let ghost rows = self.raft_rows();
        let mut i: usize = 0;
        while i < self.raft_log.len() && raft_id_cmp(self.raft_log[i].raft_id, key) == -1
            invariant
                i <= self.raft_log@.len(),
                rows == self.raft_rows(),
                forall|j: int| 0 <= j < i ==> raft_id_lt(rows[j].0, key),
            decreases self.raft_log@.len() - i,
        {
            i += 1;
        }
        if i < self.raft_log.len() {
            let id = self.raft_log[i].raft_id;
            proof {
                assert(rows[i as int].0 == id);
                assert forall|k: RaftId| #[trigger]
                    raft_map(rows).dom().contains(k) && raft_id_le(key, k) implies raft_id_le(
                    id,
                    k,
                ) by {
                    let j = choose|j: int| 0 <= j < rows.len() && rows[j].0 == k;
                    if j > i {
                        assert(raft_id_lt(rows[i as int].0, rows[j].0));
                    }
                }
            }
            Ok(Some(id))
        } else {
            Ok(None)
        }
    }

    /// The last raft id in the log at or before `key`.
    pub fn get_prev_raft_id(&self, key: RaftId) -> (r: Result<Option<RaftId>, StoreError>)
        requires
            self.wf(),
        ensures
            match r {
                Ok(Some(id)) => raft_map(self.raft_rows()).dom().contains(id) && raft_id_le(id, key)
                    && forall|k: RaftId|
                    #![trigger raft_map(self.raft_rows()).dom().contains(k)]
                    raft_map(self.raft_rows()).dom().contains(k) && raft_id_le(k, key)
                        ==> raft_id_le(k, id),
                Ok(None) => forall|k: RaftId|
                    #![trigger raft_map(self.raft_rows()).dom().contains(k)]
                    raft_map(self.raft_rows()).dom().contains(k) ==> raft_id_lt(key, k),
                Err(_) => false,
            },
    {
        let ghost rows = self.raft_rows();
        let mut i: usize = self.raft_log.len();
        while i > 0 && raft_id_cmp(self.raft_log[i - 1].raft_id, key) == 1
            invariant
                i <= self.raft_log@.len(),
                rows == self.raft_rows(),
                forall|j: int| i <= j < rows.len() ==> raft_id_lt(key, rows[j].0),
            decreases i,
        {
            i -= 1;
        }
        if i > 0 {
            let id = self.raft_log[i - 1].raft_id;
            proof {
                assert(rows[i - 1].0 == id);
                assert forall|k: RaftId| #[trigger]
                    raft_map(rows).dom().contains(k) && raft_id_le(k, key) implies raft_id_le(
                    k,
                    id,
                ) by {
                    let j = choose|j: int| 0 <= j < rows.len() && rows[j].0 == k;
                    if j < i - 1 {
                        assert(raft_id_lt(rows[j].0, rows[i - 1].0));
                    }
                }
            }
            Ok(Some(id))
        } else {
            Ok(None)
        }
    }

    /// Up to `num_entries` entries that follow `from_raft_id` in the log (all
    /// that follow when `num_entries` is 0); from the start of the log when
    /// `from_raft_id` is none. Fails on the first entry that cannot be read.
    pub fn get_raft_entries(&self, from_raft_id: RaftId, num_entries: usize) -> (r: Result<
        Vec<Entry>,
        StoreError,
    >)
        requires
            self.wf(),
        ensures
            ({
                let rows = self.raft_rows();
                let start = scan_start(rows, from_raft_id, from_raft_id.index == u64::MAX, 0);
                let end = scan_end(rows.len() as int, start, num_entries as nat);
                match r {
                    Ok(es) => es@.len() == end - start && forall|j: int|
                        0 <= j < es@.len() ==> entry_read_from(#[trigger] es@[j], rows[start + j]),
                    Err(e) => exists|k: int|
                        start <= k < end && entry_parse(#[trigger] rows[k].1) is None && e
                            == StoreError::CorruptedRaftEntry(rows[k].0) && forall|m: int|
                            start <= m < k ==> entry_parse(#[trigger] rows[m].1) is Some,
                }
            }),
    {
        let ghost rows = self.raft_rows();
        let inclusive = from_raft_id.is_none();
        let len = self.raft_log.len();
        let mut i: usize = 0;
        while i < len && !(inclusive || raft_id_cmp(from_raft_id, self.raft_log[i].raft_id) == -1)
            invariant
                i <= len,
                len == rows.len(),
                rows == self.raft_rows(),
                scan_start(rows, from_raft_id, inclusive, 0) == scan_start(
                    rows,
                    from_raft_id,
                    inclusive,
                    i as int,
                ),
            decreases len - i,
        {
            i += 1;
        }
        let start = i;
        let end = if num_entries == 0 || num_entries > len - start {
            len
        } else {
            start + num_entries
        };
        assert(end == scan_end(len as int, start as int, num_entries as nat));
        let mut entries: Vec<Entry> = Vec::new();
        while i < end
            invariant
                start <= i <= end <= len,
                len == rows.len(),
                rows == self.raft_rows(),
                start == scan_start(rows, from_raft_id, inclusive, 0),
                inclusive == (from_raft_id.index == u64::MAX),
                end == scan_end(len as int, start as int, num_entries as nat),
                entries@.len() == i - start,
                forall|j: int|
                    0 <= j < entries@.len() ==> entry_read_from(#[trigger] entries@[j], rows[start + j]),
            decreases end - i,
        {
            let row = &self.raft_log[i];
            proof {
                assert(rows[i as int].1 == row.value@);
                assert(rows[i as int].0 == row.raft_id);
            }
            match Entry::deserialize(row.value.as_slice(), row.raft_id) {
                Some(entry) => {
                    let ghost prev = entries@;
                    entries.push(entry);
                    proof {
                        assert(entry_read_from(entries@[prev.len() as int], rows[i as int]));
                        assert forall|j: int| 0 <= j < entries@.len() implies entry_read_from(
                            #[trigger] entries@[j],
                            rows[start + j],
                        ) by {
                            if j < prev.len() {
                                assert(entries@[j] == prev[j]);
                            }
                        }
                    }
                },
                None => {
                    proof {
                        assert forall|m: int| start <= m < i implies entry_parse(#[trigger] rows[m].1) is Some by {
                            assert(entry_read_from(entries@[m - start], rows[start + (m - start)]));
                        }
                        assert(entry_parse(rows[i as int].1) is None);
                        assert(scan_start(rows, from_raft_id, from_raft_id.index == u64::MAX, 0) == start);
                    }
                    return Err(StoreError::CorruptedRaftEntry(row.raft_id));
                },
            }
            i += 1;
        }
        Ok(entries)
    }

    /// Appends a change record to the log of `account_id` and `collection`
    /// under the next change id: one past the last, or 0 for the first.
    /// `None`, and nothing written, when the last change id is the largest.
    pub fn append_change(
        &mut self,
        account_id: AccountId,
        collection: Collection,
        value: Vec<u8>,
    ) -> (r: Option<ChangeId>)
        requires
            old(self).wf(),
        ensures
            final(self).wf(),
            final(self).raft_rows() == old(self).raft_rows(),
            final(self).tombstone_rows() == old(self).tombstone_rows(),
            final(self).value_rows() == old(self).value_rows(),
            final(self).term() == old(self).term(),
            final(self).last_index() == old(self).last_index(),
            match r {
                Some(id) => {
                    &&& forall|i: int|
                        0 <= i < old(self).change_rows().len() && (
                        #[trigger] old(self).change_rows()[i]).account_id == account_id
                            && old(self).change_rows()[i].collection == collection
                            ==> old(self).change_rows()[i].change_id < id
                    &&& (id == 0 || exists|i: int|
                        0 <= i < old(self).change_rows().len() && (
                        #[trigger] old(self).change_rows()[i]).account_id == account_id
                            && old(self).change_rows()[i].collection == collection
                            && old(self).change_rows()[i].change_id == id - 1)
                    &&& final(self).change_rows().len() == old(self).change_rows().len() + 1
                    &&& final(self).change_rows().drop_last() == old(self).change_rows()
                    &&& final(self).change_rows().last().account_id == account_id
                    &&& final(self).change_rows().last().collection == collection
                    &&& final(self).change_rows().last().change_id == id
                    &&& final(self).change_rows().last().value@ == value@
                },
                None => final(self).change_rows() == old(self).change_rows() && exists|i: int|
                    0 <= i < old(self).change_rows().len() && (
                    #[trigger] old(self).change_rows()[i]).account_id == account_id
                        && old(self).change_rows()[i].collection == collection
                        && old(self).change_rows()[i].change_id == u64::MAX,
            },
    {
        let ghost rows = self.change_log@;
        let mut last: Option<ChangeId> = None;
        let mut i: usize = 0;
        while i < self.change_log.len()
            invariant
                i <= rows.len(),
                rows == self.change_log@,
                match last {
                    Some(l) => (exists|j: int|
                        0 <= j < i && (#[trigger] rows[j]).account_id == account_id
                            && rows[j].collection == collection && rows[j].change_id == l)
                        && forall|j: int|
                        0 <= j < i && (#[trigger] rows[j]).account_id == account_id
                            && rows[j].collection == collection ==> rows[j].change_id <= l,
                    None => forall|j: int|
                        0 <= j < i ==> !((#[trigger] rows[j]).account_id == account_id
                            && rows[j].collection == collection),
                },
            decreases rows.len() - i,
        {
            let row = &self.change_log[i];
            if row.account_id == account_id && row.collection == collection {
                match last {
                    Some(l) => {
                        if row.change_id > l {
                            last = Some(row.change_id);
                        }
                    },
                    None => {
                        last = Some(row.change_id);
                    },
                }
            }
            i += 1;
        }
        let change_id = match last {
            Some(l) => {
                if l == u64::MAX {
                    return None;
                }
                l + 1
            },
            None => 0,
        };
        self.change_log.push(ChangeRow { account_id, collection, change_id, value });
        proof {
            assert(self.change_log@.drop_last() =~= rows);
            assert forall|a: int, b: int|
                0 <= a < b < self.change_log@.len() && self.change_log@[a].account_id
                    == self.change_log@[b].account_id && self.change_log@[a].collection
                    == self.change_log@[b].collection implies self.change_log@[a].change_id
                < self.change_log@[b].change_id by {
                if b < rows.len() {
                    assert(self.change_log@[a] == rows[a]);
                    assert(self.change_log@[b] == rows[b]);
                } else {
                    assert(self.change_log@[a] == rows[a]);
                }
            }
        }
        Some(change_id)
    }

    /// Reserves a deleted document id of an account and collection.
    pub fn add_tombstone(
        &mut self,
        account_id: AccountId,
        collection: Collection,
        document_id: DocumentId,
    )
        requires
            old(self).wf(),
        ensures
            final(self).wf(),
            final(self).tombstone_rows() == old(self).tombstone_rows().push(
                Tombstone { account_id, collection, document_id },
            ),
            final(self).value_rows() == old(self).value_rows(),
            final(self).raft_rows() == old(self).raft_rows(),
            final(self).change_rows() == old(self).change_rows(),
            final(self).term() == old(self).term(),
            final(self).last_index() == old(self).last_index(),
    {
        self.tombstones.push(Tombstone { account_id, collection, document_id });
    }

    /// The tombstoned ids of an account and collection.
    pub fn get_tombstoned_ids(&self, account_id: AccountId, collection: Collection) -> (r:
        RoaringBitmap)
        ensures
            bitmap_ids(r) == tombstones_of(self.tombstone_rows(), account_id, collection),
    {
        let ghost rows = self.tombstones@;
        let mut ids = RoaringBitmap::new();
        let mut i: usize = 0;
        while i < self.tombstones.len()
            invariant
                i <= rows.len(),
                rows == self.tombstones@,
                bitmap_ids(ids) == tombstones_of(rows.take(i as int), account_id, collection),
            decreases rows.len() - i,
        {
            let t = self.tombstones[i];
            let ghost before = bitmap_ids(ids);
            if t.account_id == account_id && t.collection == collection {
                ids.insert(t.document_id);
            }
            proof {
                let pre1 = rows.take(i + 1);
                let pre0 = rows.take(i as int);
                let next = tombstones_of(pre1, account_id, collection);
                assert forall|d: DocumentId| #[trigger] next.contains(d) == bitmap_ids(ids).contains(d) by {
                    if next.contains(d) {
                        let j = choose|j: int| 0 <= j < pre1.len() && pre1[j] == (Tombstone {
                            account_id,
                            collection,
                            document_id: d,
                        });
                        if j < i {
                            assert(pre0[j] == pre1[j]);
                        }
                    }
                    if before.contains(d) {
                        let j = choose|j: int| 0 <= j < pre0.len() && pre0[j] == (Tombstone {
                            account_id,
                            collection,
                            document_id: d,
                        });
                        assert(pre1[j] == pre0[j]);
                    }
                    if t.account_id == account_id && t.collection == collection && t.document_id == d {
                        assert(pre1[i as int] == t);
                    }
                }
                assert(next =~= bitmap_ids(ids));
            }
            i += 1;
        }
        proof {
            assert(rows.take(i as int) =~= rows);
        }
        ids
    }

    /// Merges the change records of `account_id` and `collection` in log
    /// order: all of them when `from_change_id` is `None`, else those past
    /// it. With `only_ids`, collects the change ids alone. Fails on a record
    /// that cannot be read.
    pub fn get_pending_changes(
        &self,
        account_id: AccountId,
        collection: Collection,
        from_change_id: Option<ChangeId>,
        only_ids: bool,
    ) -> (r: Result<PendingChanges, StoreError>)
        ensures
            match pending_fold(
                Some(empty_state()),
                self.change_rows(),
                account_id,
                collection,
                from_change_id,
                only_ids,
                if only_ids {
                    Set::empty()
                } else {
                    tombstones_of(self.tombstone_rows(), account_id, collection)
                },
            ) {
                Some(st) => r is Ok && r->Ok_0.state() == st && r->Ok_0.account_id == account_id
                    && r->Ok_0.collection == collection,
                None => r == Err::<PendingChanges, StoreError>(
                    StoreError::CorruptedChangeRecord(account_id, collection),
                ),
            },
    {
        let mut changes = PendingChanges::new(account_id, collection);
        let tombstones = if !only_ids {
            self.get_tombstoned_ids(account_id, collection)
        } else {
            RoaringBitmap::new()
        };
        let ghost tomb = bitmap_ids(tombstones);
        let ghost rows = self.change_log@;
        let ghost total = pending_fold(
            Some(empty_state()),
            rows,
            account_id,
            collection,
            from_change_id,
            only_ids,
            tomb,
        );
        let mut i: usize = 0;
        assert(rows.skip(0) =~= rows);
        while i < self.change_log.len()
            invariant
                i <= rows.len(),
                rows == self.change_log@,
                tomb == bitmap_ids(tombstones),
                tomb == if only_ids {
                    Set::<DocumentId>::empty()
                } else {
                    tombstones_of(self.tombstone_rows(), account_id, collection)
                },
                total == pending_fold(
                    Some(empty_state()),
                    rows,
                    account_id,
                    collection,
                    from_change_id,
                    only_ids,
                    tomb,
                ),
                changes.account_id == account_id,
                changes.collection == collection,
                total == pending_fold(
                    Some(changes.state()),
                    rows.skip(i as int),
                    account_id,
                    collection,
                    from_change_id,
                    only_ids,
                    tomb,
                ),
            decreases rows.len() - i,
        {
            let row = &self.change_log[i];
            proof {
                assert(rows.skip(i as int).drop_first() =~= rows.skip(i + 1));
                assert(rows.skip(i as int)[0] == rows[i as int]);
            }
            let selected = row.account_id == account_id && row.collection == collection
                && match from_change_id {
                Some(f) => row.change_id > f,
                None => true,
            };
            let ghost st_before = changes.state();
            if selected {
                if !only_ids {
                    match changes.deserialize(row.change_id, row.value.as_slice(), &tombstones) {
                        Some(()) => {},
                        None => {
                            proof {
                                assert(row.value@ == rows[i as int].value@);
                                assert(record_parse(rows[i as int].value@) is None);
                                assert(change_selected(rows[i as int], account_id, collection, from_change_id));
                                assert(total == pending_fold(
                                    None,
                                    rows.skip(i + 1),
                                    account_id,
                                    collection,
                                    from_change_id,
                                    only_ids,
                                    tomb,
                                ));
                                lemma_pending_fold_none(
                                    rows.skip(i + 1),
                                    account_id,
                                    collection,
                                    from_change_id,
                                    only_ids,
                                    tomb,
                                );
                            }
                            return Err(StoreError::CorruptedChangeRecord(account_id, collection));
                        },
                    }
                } else {
                    changes.changes.insert(row.change_id);
                }
            }
            i += 1;
        }
        proof {
            assert(rows.skip(i as int) =~= Seq::<ChangeRow>::empty());
        }
        Ok(changes)
    }

    /// Writes a field value, replacing what was stored under the key.
    pub fn set_stored_value(&mut self, key: ValueKey, value: Vec<u8>)
        requires
            old(self).wf(),
        ensures
            final(self).wf(),
            forall|k: ValueKey| #[trigger] value_of(final(self).value_rows(), k) == if k == key {
                Some(value@)
            } else {
                value_of(old(self).value_rows(), k)
            },
            final(self).raft_rows() == old(self).raft_rows(),
            final(self).change_rows() == old(self).change_rows(),
            final(self).tombstone_rows() == old(self).tombstone_rows(),
            final(self).term() == old(self).term(),
            final(self).last_index() == old(self).last_index(),
    {
        let ghost before = self.values@;
        self.values.push(ValueRow { key, value });
        proof {
            assert(self.values@.drop_last() =~= before);
        }
    }

    /// The field value stored under the key, if any.
    pub fn get_stored_value(
        &self,
        account: AccountId,
        collection: Collection,
        document: DocumentId,
        field: u8,
        pos: u32,
    ) -> (r: Result<Option<Vec<u8>>, StoreError>)
        ensures
            ({
                let key = ValueKey { account_id: account, collection, document_id: document, field, pos };
                match r {
                    Ok(Some(v)) => value_of(self.value_rows(), key) == Some(v@),
                    Ok(None) => value_of(self.value_rows(), key) is None,
                    Err(_) => false,
                }
            }),
    {
        let key = ValueKey { account_id: account, collection, document_id: document, field, pos };
        let mut i: usize = self.values.len();
        assert(self.values@.take(i as int) =~= self.values@);
        while i > 0 && !(self.values[i - 1].key == key)
            invariant
                i <= self.values@.len(),
                value_of(self.values@, key) == value_of(self.values@.take(i as int), key),
            decreases i,
        {
            proof {
                assert(self.values@.take(i as int).drop_last() =~= self.values@.take(i - 1));
            }
            i -= 1;
        }
        if i > 0 {
            proof {
                assert(self.values@.take(i as int).last() == self.values@[i - 1]);
            }
            Ok(Some(self.values[i - 1].value.clone()))
        } else {
            Ok(None)
        }
    }
}

} // verus!
