//! Change records of the per-collection change log, and the merge of a run of
//! them into the pending inserts, updates and deletes a consumer applies.

use crate::bitmap::{bitmap_ids, treemap_ids};
use crate::leb128::{
    leb128_decode_at, leb128_encode, lemma_leb128_round_trip, skip_leb128_at, Leb128,
};
use crate::raft::{AccountId, ChangeId, Collection, DocumentId};
use roaring::{RoaringBitmap, RoaringTreemap};
use vstd::prelude::*;

verus! {

/// A JMAP id: a prefix (for mail, the thread id) in the high 32 bits and the
/// document id in the low 32 bits.
pub type JMAPId = u64;

pub open spec fn doc_of(id: JMAPId) -> DocumentId {
    (id % 0x1_0000_0000) as u32
}

pub open spec fn prefix_of(id: JMAPId) -> u32 {
    (id / 0x1_0000_0000) as u32
}

pub fn get_document_id(id: JMAPId) -> (r: DocumentId)
    ensures
        r == doc_of(id),
{
    (id % 0x1_0000_0000) as u32
}

pub fn get_prefix_id(id: JMAPId) -> (r: u32)
    ensures
        r == prefix_of(id),
{
    (id / 0x1_0000_0000) as u32
}

/// Builds a JMAP id from its prefix and document id.
pub fn jmap_id_from_parts(prefix_id: u32, document_id: DocumentId) -> (r: JMAPId)
    ensures
        doc_of(r) == document_id,
        prefix_of(r) == prefix_id,
        r == prefix_id * 0x1_0000_0000 + document_id,
{
    prefix_id as u64 * 0x1_0000_0000 + document_id as u64
}

/// What a run of change records amounts to.
pub struct PendingState {
    pub inserts: Set<DocumentId>,
    pub updates: Set<DocumentId>,
    pub deletes: Set<DocumentId>,
    pub tombstones: Set<DocumentId>,
    pub changes: Set<ChangeId>,
}

/// The ids a change record lists; child updates are read past and dropped.
pub struct RecordIds {
    pub inserts: Seq<JMAPId>,
    pub updates: Seq<JMAPId>,
    pub deletes: Seq<JMAPId>,
}

pub open spec fn empty_state() -> PendingState {
    PendingState {
        inserts: Set::empty(),
        updates: Set::empty(),
        deletes: Set::empty(),
        tombstones: Set::empty(),
        changes: Set::empty(),
    }
}

/// An update counts unless the document is already pending as an insert.
pub open spec fn update_one(st: PendingState, d: DocumentId) -> PendingState {
    if st.inserts.contains(d) {
        st
    } else {
        PendingState { updates: st.updates.insert(d), ..st }
    }
}

pub open spec fn apply_updates(st: PendingState, ups: Seq<JMAPId>) -> PendingState
    decreases ups.len(),
{
    if ups.len() == 0 {
        st
    } else {
        apply_updates(update_one(st, doc_of(ups[0])), ups.drop_first())
    }
}

/// The first insert at or after `k` with the same document as `id` but
/// another prefix.
pub open spec fn find_prefix_change(pending: Seq<JMAPId>, id: JMAPId, k: int) -> Option<int>
    decreases pending.len() - k,
{
    if k < 0 || k >= pending.len() {
        None
    } else if doc_of(pending[k]) == doc_of(id) && prefix_of(pending[k]) != prefix_of(id) {
        Some(k)
    } else {
        find_prefix_change(pending, id, k + 1)
    }
}

/// A delete: a prefix change demotes the insert to an update; a delete of a
/// document inserted earlier in the run cancels the insert; else the document
/// is deleted, and tombstoned too where the caller says so.
pub open spec fn delete_one(
    st: PendingState,
    pending: Seq<JMAPId>,
    id: JMAPId,
    tomb: Set<DocumentId>,
) -> (PendingState, Seq<JMAPId>) {
    let d = doc_of(id);
    match find_prefix_change(pending, id, 0) {
        Some(k) => (update_one(st, d), pending.remove(k)),
        None => if st.inserts.contains(d) {
            (PendingState { inserts: st.inserts.remove(d), updates: st.updates.remove(d), ..st }, pending)
        } else {
            (
                PendingState {
                    deletes: st.deletes.insert(d),
                    tombstones: if tomb.contains(d) {
                        st.tombstones.insert(d)
                    } else {
                        st.tombstones
                    },
                    updates: st.updates.remove(d),
                    ..st
                },
                pending,
            )
        },
    }
}

pub open spec fn apply_deletes(
    st: PendingState,
    pending: Seq<JMAPId>,
    dels: Seq<JMAPId>,
    tomb: Set<DocumentId>,
) -> (PendingState, Seq<JMAPId>)
    decreases dels.len(),
{
    if dels.len() == 0 {
        (st, pending)
    } else {
        let (next_state, next_pending) = delete_one(st, pending, dels[0], tomb);
        apply_deletes(next_state, next_pending, dels.drop_first(), tomb)
    }
}

/// Inserts go last, and take the document out of the deletes: ids are reused.
pub open spec fn apply_inserts(st: PendingState, pending: Seq<JMAPId>) -> PendingState
    decreases pending.len(),
{
    if pending.len() == 0 {
        st
    } else {
        let d = doc_of(pending[0]);
        apply_inserts(
            PendingState { inserts: st.inserts.insert(d), deletes: st.deletes.remove(d), ..st },
            pending.drop_first(),
        )
    }
}

/// The state after merging one record, written under `change_id`.
pub open spec fn apply_record(
    st: PendingState,
    change_id: ChangeId,
    rec: RecordIds,
    tomb: Set<DocumentId>,
) -> PendingState {
    let st1 = apply_updates(st, rec.updates);
    let (st2, pending) = apply_deletes(st1, rec.inserts, rec.deletes, tomb);
    let st3 = apply_inserts(st2, pending);
    PendingState { changes: st3.changes.insert(change_id), ..st3 }
}

/// Deleting a document that is already deleted changes nothing: not the
/// pending sets, nor the pending inserts of the record.
pub proof fn lemma_second_delete_is_noop(
    st: PendingState,
    pending: Seq<JMAPId>,
    id: JMAPId,
    tomb: Set<DocumentId>,
)
    requires
        st.deletes.contains(doc_of(id)),
        !st.inserts.contains(doc_of(id)),
        !st.updates.contains(doc_of(id)),
        tomb.contains(doc_of(id)) ==> st.tombstones.contains(doc_of(id)),
        find_prefix_change(pending, id, 0) is None,
    ensures
        delete_one(st, pending, id, tomb) == (st, pending),
{
    let d = doc_of(id);
    assert(st.deletes.insert(d) =~= st.deletes);
    assert(st.updates.remove(d) =~= st.updates);
    if tomb.contains(d) {
        assert(st.tombstones.insert(d) =~= st.tombstones);
    }
}

/// `count` JMAP ids as varints from `pos`: the ids and the position after them.
pub open spec fn ids_parse(s: Seq<u8>, pos: int, count: nat) -> Option<(Seq<JMAPId>, int)>
    decreases count,
{
    if count == 0 {
        Some((Seq::empty(), pos))
    } else {
        match leb128_decode_at(s, pos) {
            Some((v, n)) => if v <= u64::MAX {
                match ids_parse(s, pos + n, (count - 1) as nat) {
                    Some((rest, end)) => Some((seq![v as u64] + rest, end)),
                    None => None,
                }
            } else {
                None
            },
            None => None,
        }
    }
}

/// Steps over `count` varints from `pos`, whatever their values.
pub open spec fn varints_skip(s: Seq<u8>, pos: int, count: nat) -> Option<int>
    decreases count,
{
    if count == 0 {
        Some(pos)
    } else {
        match leb128_decode_at(s, pos) {
            Some((_, n)) => varints_skip(s, pos + n, (count - 1) as nat),
            None => None,
        }
    }
}

/// The four counts that open a record, each a varint that fits a `usize`.
pub open spec fn counts_parse(s: Seq<u8>) -> Option<(Seq<nat>, int)> {
    match leb128_decode_at(s, 0) {
        Some((c1, n1)) => match leb128_decode_at(s, n1 as int) {
            Some((c2, n2)) => match leb128_decode_at(s, (n1 + n2) as int) {
                Some((c3, n3)) => match leb128_decode_at(s, (n1 + n2 + n3) as int) {
                    Some((c4, n4)) => if c1 <= usize::MAX && c2 <= usize::MAX && c3
                        <= usize::MAX && c4 <= usize::MAX {
                        Some((seq![c1, c2, c3, c4], (n1 + n2 + n3 + n4) as int))
                    } else {
                        None
                    },
                    None => None,
                },
                None => None,
            },
            None => None,
        },
        None => None,
    }
}

/// Reads a change record: the counts, then inserts, updates, child updates
/// and deletes. Trailing bytes are ignored.
pub open spec fn record_parse(s: Seq<u8>) -> Option<RecordIds> {
    match counts_parse(s) {
        Some((c, start)) => match ids_parse(s, start, c[0]) {
            Some((ins, after_ins)) => match ids_parse(s, after_ins, c[1]) {
                Some((ups, after_ups)) => match varints_skip(s, after_ups, c[2]) {
                    Some(after_children) => match ids_parse(s, after_children, c[3]) {
                        Some((dels, _)) => Some(RecordIds { inserts: ins, updates: ups, deletes: dels }),
                        None => None,
                    },
                    None => None,
                },
                None => None,
            },
            None => None,
        },
        None => None,
    }
}

/// Varints, one after the other.
pub open spec fn ids_encode(ids: Seq<JMAPId>) -> Seq<u8>
    decreases ids.len(),
{
    if ids.len() == 0 {
        Seq::empty()
    } else {
        leb128_encode(ids[0] as nat) + ids_encode(ids.drop_first())
    }
}

/// The stored form of a change record.
pub open spec fn record_encode(
    inserts: Seq<JMAPId>,
    updates: Seq<JMAPId>,
    child_updates: Seq<JMAPId>,
    deletes: Seq<JMAPId>,
) -> Seq<u8> {
    leb128_encode(inserts.len()) + leb128_encode(updates.len()) + leb128_encode(
        child_updates.len(),
    ) + leb128_encode(deletes.len()) + ids_encode(inserts) + ids_encode(updates) + ids_encode(
        child_updates,
    ) + ids_encode(deletes)
}


/// The ids of a change record, as read.
pub struct ParsedRecord {
    pub inserts: Vec<JMAPId>,
    pub updates: Vec<JMAPId>,
    pub deletes: Vec<JMAPId>,
}

fn read_ids(bytes: &[u8], pos: usize, count: usize) -> (r: Option<(Vec<JMAPId>, usize)>)
    requires
        pos <= bytes@.len(),
    ensures
        match r {
            Some((ids, end)) => ids_parse(bytes@, pos as int, count as nat) == Some(
                (ids@, end as int),
            ) && end <= bytes@.len(),
            None => ids_parse(bytes@, pos as int, count as nat) is None,
        },
{
    let ghost s = bytes@;
    let len = bytes.len();
    let mut ids: Vec<JMAPId> = Vec::new();
    let mut p: usize = pos;
    let mut i: usize = 0;
    while i < count
        invariant
            s == bytes@,
            len == s.len(),
            i <= count,
            p <= s.len(),
            ids_parse(s, pos as int, count as nat) == match ids_parse(
                s,
                p as int,
                (count - i) as nat,
            ) {
                Some((rest, end)) => Some((ids@ + rest, end)),
                None => None::<(Seq<JMAPId>, int)>,
            },
        decreases count - i,
    {
        let (v, n) = match u64::from_leb128_at(bytes, p) {
            Some(x) => x,
            None => return None,
        };
        proof {
            let rem = (count - i) as nat;
            match ids_parse(s, p + n, (rem - 1) as nat) {
                Some((rest, end)) => {
                    assert(ids@ + (seq![v] + rest) =~= ids@.push(v) + rest);
                },
                None => {},
            }
        }
        ids.push(v);
        p = p + n;
        i += 1;
    }
    proof {
        assert(ids@ + Seq::<JMAPId>::empty() =~= ids@);
    }
    Some((ids, p))
}

fn skip_varints(bytes: &[u8], pos: usize, count: usize) -> (r: Option<usize>)
    requires
        pos <= bytes@.len(),
    ensures
        match r {
            Some(end) => varints_skip(bytes@, pos as int, count as nat) == Some(end as int)
                && end <= bytes@.len(),
            None => varints_skip(bytes@, pos as int, count as nat) is None,
        },
{
    let len = bytes.len();
    let mut p: usize = pos;
    let mut i: usize = 0;
    while i < count
        invariant
            len == bytes@.len(),
            i <= count,
            p <= bytes@.len(),
            varints_skip(bytes@, pos as int, count as nat) == varints_skip(
                bytes@,
                p as int,
                (count - i) as nat,
            ),
        decreases count - i,
    {
        let n = match skip_leb128_at(bytes, p) {
            Some(n) => n,
            None => return None,
        };
        p = p + n;
        i += 1;
    }
    Some(p)
}

/// Reads a change record; `None` when it is cut short or a number does not fit.
pub fn parse_change_record(bytes: &[u8]) -> (r: Option<ParsedRecord>)
    ensures
        match record_parse(bytes@) {
            Some(rec) => r is Some && r->0.inserts@ == rec.inserts && r->0.updates@ == rec.updates
                && r->0.deletes@ == rec.deletes,
            None => r is None,
        },
{
    let len = bytes.len();
    let (c1, n1) = match usize::from_leb128_at(bytes, 0) {
        Some(x) => x,
        None => return None,
    };
    let (c2, n2) = match usize::from_leb128_at(bytes, n1) {
        Some(x) => x,
        None => return None,
    };
    assert(n1 + n2 <= len);
    let (c3, n3) = match usize::from_leb128_at(bytes, n1 + n2) {
        Some(x) => x,
        None => return None,
    };
    assert(n1 + n2 + n3 <= len);
    let (c4, n4) = match usize::from_leb128_at(bytes, n1 + n2 + n3) {
        Some(x) => x,
        None => return None,
    };
    assert(n1 + n2 + n3 + n4 <= len);
    let start = n1 + n2 + n3 + n4;
    assert(counts_parse(bytes@) == Some((seq![c1 as nat, c2 as nat, c3 as nat, c4 as nat], start as int)));
    let (inserts, after_ins) = match read_ids(bytes, start, c1) {
        Some(x) => x,
        None => return None,
    };
    let (updates, after_ups) = match read_ids(bytes, after_ins, c2) {
        Some(x) => x,
        None => return None,
    };
    let after_children = match skip_varints(bytes, after_ups, c3) {
        Some(p) => p,
        None => return None,
    };
    let (deletes, _) = match read_ids(bytes, after_children, c4) {
        Some(x) => x,
        None => return None,
    };
    Some(ParsedRecord { inserts, updates, deletes })
}


/// The merged effect of a run of change records of one collection.
pub struct PendingChanges {
    pub account_id: AccountId,
    pub collection: Collection,
    pub inserts: RoaringBitmap,
    pub updates: RoaringBitmap,
    pub deletes: RoaringBitmap,
    pub changes: RoaringTreemap,
    pub tombstones: RoaringBitmap,
}

impl PendingChanges {
    pub open spec fn state(&self) -> PendingState {
        PendingState {
            inserts: bitmap_ids(self.inserts),
            updates: bitmap_ids(self.updates),
            deletes: bitmap_ids(self.deletes),
            tombstones: bitmap_ids(self.tombstones),
            changes: treemap_ids(self.changes),
        }
    }

    pub fn new(account_id: AccountId, collection: Collection) -> (r: Self)
        ensures
            r.account_id == account_id,
            r.collection == collection,
            r.state() == empty_state(),
    {
        PendingChanges {
            account_id,
            collection,
            inserts: RoaringBitmap::new(),
            updates: RoaringBitmap::new(),
            deletes: RoaringBitmap::new(),
            tombstones: RoaringBitmap::new(),
            changes: RoaringTreemap::new(),
        }
    }

    pub fn is_empty(&self) -> (r: bool)
        ensures
            r == (self.state() == empty_state()),
    {
        self.inserts.is_empty() && self.updates.is_empty() && self.deletes.is_empty()
            && self.tombstones.is_empty() && self.changes.is_empty()
    }

    /// Merges the change record `bytes`, written under `change_id`, into the
    /// pending changes. `tombstones` are the collection's tombstoned ids. A
    /// record that cannot be read leaves the pending changes as they were.
    pub fn deserialize(
        &mut self,
        change_id: ChangeId,
        bytes: &[u8],
        tombstones: &RoaringBitmap,
    ) -> (r: Option<()>)
        ensures
            final(self).account_id == old(self).account_id,
            final(self).collection == old(self).collection,
            match record_parse(bytes@) {
                Some(rec) => r is Some && final(self).state() == apply_record(
                    old(self).state(),
                    change_id,
                    rec,
                    bitmap_ids(*tombstones),
                ),
                None => r is None && final(self).state() == old(self).state(),
            },
    {
        let rec = match parse_change_record(bytes) {
            Some(rec) => rec,
            None => return None,
        };
        let ghost st0 = self.state();
        let ghost tomb = bitmap_ids(*tombstones);
        let ghost r = RecordIds {
            inserts: rec.inserts@,
            updates: rec.updates@,
            deletes: rec.deletes@,
        };

        let mut i: usize = 0;
        assert(rec.updates@.skip(0) =~= rec.updates@);
        while i < rec.updates.len()
            invariant
                i <= rec.updates@.len(),
                self.account_id == old(self).account_id,
                self.collection == old(self).collection,
                apply_updates(st0, rec.updates@) == apply_updates(
                    self.state(),
                    rec.updates@.skip(i as int),
                ),
            decreases rec.updates@.len() - i,
        {
            let document_id = get_document_id(rec.updates[i]);
            proof {
                assert(rec.updates@.skip(i as int).drop_first() =~= rec.updates@.skip(i + 1));
            }
            if !self.inserts.contains(document_id) {
                self.updates.insert(document_id);
            }
            i += 1;
        }
        let ghost st1 = self.state();
        proof {
            assert(rec.updates@.skip(i as int) =~= Seq::<JMAPId>::empty());
        }

        let mut inserted_ids: Vec<JMAPId> = rec.inserts;
        let mut i: usize = 0;
        assert(rec.deletes@.skip(0) =~= rec.deletes@);
        while i < rec.deletes.len()
            invariant
                i <= rec.deletes@.len(),
                self.account_id == old(self).account_id,
                self.collection == old(self).collection,
                tomb == bitmap_ids(*tombstones),
                apply_deletes(st1, r.inserts, rec.deletes@, tomb) == apply_deletes(
                    self.state(),
                    inserted_ids@,
                    rec.deletes@.skip(i as int),
                    tomb,
                ),
            decreases rec.deletes@.len() - i,
        {
            let deleted_id = rec.deletes[i];
            let document_id = get_document_id(deleted_id);
            let prefix_id = get_prefix_id(deleted_id);
            proof {
                assert(rec.deletes@.skip(i as int).drop_first() =~= rec.deletes@.skip(i + 1));
            }
            let mut k: usize = 0;
            while k < inserted_ids.len() && !(get_document_id(inserted_ids[k]) == document_id
                && get_prefix_id(inserted_ids[k]) != prefix_id)
                invariant
                    k <= inserted_ids@.len(),
                    document_id == doc_of(deleted_id),
                    prefix_id == prefix_of(deleted_id),
                    find_prefix_change(inserted_ids@, deleted_id, 0) == find_prefix_change(
                        inserted_ids@,
                        deleted_id,
                        k as int,
                    ),
                decreases inserted_ids@.len() - k,
            {
                k += 1;
            }
            let ghost before = self.state();
            let ghost pend_before = inserted_ids@;
            proof {
                if k < inserted_ids.len() {
                    assert(find_prefix_change(pend_before, deleted_id, 0) == Some(k as int));
                } else {
                    assert(find_prefix_change(pend_before, deleted_id, 0) is None);
                }
            }
            if k < inserted_ids.len() {
                // The thread changed: the insert becomes an update.
                inserted_ids.remove(k);
                if !self.inserts.contains(document_id) {
                    self.updates.insert(document_id);
                }
            } else {
                if !self.inserts.remove(document_id) {
                    self.deletes.insert(document_id);
                    if tombstones.contains(document_id) {
                        self.tombstones.insert(document_id);
                    }
                }
                self.updates.remove(document_id);
            }
            proof {
                let (ds, dp) = delete_one(before, pend_before, deleted_id, tomb);
                assert(dp == inserted_ids@);
                assert(ds.inserts == self.state().inserts);
                assert(ds.updates == self.state().updates);
                assert(ds.deletes == self.state().deletes);
                assert(ds.tombstones == self.state().tombstones);
                assert(ds.changes == self.state().changes);
            }
            i += 1;
        }
        proof {
            assert(rec.deletes@.skip(i as int) =~= Seq::<JMAPId>::empty());
        }
        let ghost st2 = self.state();
        let ghost pending = inserted_ids@;

        let mut i: usize = 0;
        assert(pending.skip(0) =~= pending);
        while i < inserted_ids.len()
            invariant
                i <= inserted_ids@.len(),
                pending == inserted_ids@,
                self.account_id == old(self).account_id,
                self.collection == old(self).collection,
                apply_inserts(st2, pending) == apply_inserts(
                    self.state(),
                    pending.skip(i as int),
                ),
            decreases inserted_ids@.len() - i,
        {
            let document_id = get_document_id(inserted_ids[i]);
            proof {
                assert(pending.skip(i as int).drop_first() =~= pending.skip(i + 1));
            }
            self.inserts.insert(document_id);
            // Ids can be reused.
            self.deletes.remove(document_id);
            i += 1;
        }
        proof {
            assert(pending.skip(i as int) =~= Seq::<JMAPId>::empty());
        }
        self.changes.insert(change_id);
        Some(())
    }
}

/// Writes a change record: the four counts, then the four lists of ids.
pub fn serialize_change_record(
    inserts: &[JMAPId],
    updates: &[JMAPId],
    child_updates: &[JMAPId],
    deletes: &[JMAPId],
) -> (r: Vec<u8>)
    ensures
        r@ == record_encode(inserts@, updates@, child_updates@, deletes@),
{
    let mut bytes: Vec<u8> = Vec::new();
    inserts.len().to_leb128_bytes(&mut bytes);
    updates.len().to_leb128_bytes(&mut bytes);
    child_updates.len().to_leb128_bytes(&mut bytes);
    deletes.len().to_leb128_bytes(&mut bytes);
    write_ids(inserts, &mut bytes);
    write_ids(updates, &mut bytes);
    write_ids(child_updates, &mut bytes);
    write_ids(deletes, &mut bytes);
    bytes
}

proof fn lemma_ids_encode_push(ids: Seq<JMAPId>, v: JMAPId)
    ensures
        ids_encode(ids.push(v)) == ids_encode(ids) + leb128_encode(v as nat),
    decreases ids.len(),
{
    if ids.len() == 0 {
        assert(ids.push(v).drop_first() =~= Seq::<JMAPId>::empty());
        assert(ids_encode(ids.push(v).drop_first()) =~= Seq::<u8>::empty());
        assert(ids_encode(ids) =~= Seq::<u8>::empty());
        assert(ids_encode(ids.push(v)) =~= ids_encode(ids) + leb128_encode(v as nat));
    } else {
        assert(ids.push(v).drop_first() =~= ids.drop_first().push(v));
        assert(ids.push(v)[0] == ids[0]);
        lemma_ids_encode_push(ids.drop_first(), v);
        assert(ids_encode(ids.push(v)) =~= ids_encode(ids) + leb128_encode(v as nat));
    }
}

fn write_ids(ids: &[JMAPId], out: &mut Vec<u8>)
    ensures
        final(out)@ == old(out)@ + ids_encode(ids@),
{
    let ghost head = out@;
    let mut i: usize = 0;
    while i < ids.len()
        invariant
            i <= ids@.len(),
            out@ == head + ids_encode(ids@.take(i as int)),
            head == old(out)@,
        decreases ids@.len() - i,
    {
        ids[i].to_leb128_bytes(out);
        proof {
            lemma_ids_encode_push(ids@.take(i as int), ids@[i as int]);
            assert(ids@.take(i as int).push(ids@[i as int]) =~= ids@.take(i + 1));
            assert(out@ =~= head + ids_encode(ids@.take(i + 1)));
        }
        i += 1;
    }
    proof {
        assert(ids@.take(i as int) =~= ids@);
    }
}


proof fn lemma_ids_round_trip(prefix: Seq<u8>, ids: Seq<JMAPId>, suffix: Seq<u8>)
    ensures
        ids_parse(prefix + ids_encode(ids) + suffix, prefix.len() as int, ids.len()) == Some(
            (ids, (prefix.len() + ids_encode(ids).len()) as int),
        ),
        varints_skip(prefix + ids_encode(ids) + suffix, prefix.len() as int, ids.len()) == Some(
            (prefix.len() + ids_encode(ids).len()) as int,
        ),
    decreases ids.len(),
{
    let s = prefix + ids_encode(ids) + suffix;
    if ids.len() > 0 {
        let e = leb128_encode(ids[0] as nat);
        let next_prefix = prefix + e;
        lemma_leb128_round_trip(prefix, ids[0] as nat, ids_encode(ids.drop_first()) + suffix);
        assert(prefix + e + (ids_encode(ids.drop_first()) + suffix) =~= s);
        lemma_ids_round_trip(next_prefix, ids.drop_first(), suffix);
        assert(next_prefix + ids_encode(ids.drop_first()) + suffix =~= s);
        assert(seq![ids[0]] + ids.drop_first() =~= ids);
    } else {
        assert(ids =~= Seq::<JMAPId>::empty());
    }
}

proof fn lemma_counts_round_trip(a: nat, b: nat, c: nat, d: nat, tail: Seq<u8>)
    requires
        a <= usize::MAX,
        b <= usize::MAX,
        c <= usize::MAX,
        d <= usize::MAX,
    ensures
        counts_parse(
            leb128_encode(a) + leb128_encode(b) + leb128_encode(c) + leb128_encode(d) + tail,
        ) == Some(
            (
                seq![a, b, c, d],
                (leb128_encode(a) + leb128_encode(b) + leb128_encode(c) + leb128_encode(
                    d,
                )).len() as int,
            ),
        ),
{
    let e1 = leb128_encode(a);
    let e2 = leb128_encode(b);
    let e3 = leb128_encode(c);
    let e4 = leb128_encode(d);
    let s = e1 + e2 + e3 + e4 + tail;
    let empty = Seq::<u8>::empty();
    lemma_leb128_round_trip(empty, a, e2 + e3 + e4 + tail);
    assert(empty + e1 + (e2 + e3 + e4 + tail) =~= s);
    lemma_leb128_round_trip(e1, b, e3 + e4 + tail);
    assert(e1 + e2 + (e3 + e4 + tail) =~= s);
    lemma_leb128_round_trip(e1 + e2, c, e4 + tail);
    assert(e1 + e2 + e3 + (e4 + tail) =~= s);
    lemma_leb128_round_trip(e1 + e2 + e3, d, tail);
}

/// Writing a change record and reading it back gives its inserts, updates
/// and deletes; merged into empty pending changes by
/// `PendingChanges::deserialize`, they come out normalized by `apply_record`.
pub proof fn lemma_change_record_round_trip(
    inserts: Seq<JMAPId>,
    updates: Seq<JMAPId>,
    child_updates: Seq<JMAPId>,
    deletes: Seq<JMAPId>,
)
    requires
        inserts.len() <= usize::MAX,
        updates.len() <= usize::MAX,
        child_updates.len() <= usize::MAX,
        deletes.len() <= usize::MAX,
    ensures
        record_parse(record_encode(inserts, updates, child_updates, deletes)) == Some(
            RecordIds { inserts, updates, deletes },
        ),
{
    let h = leb128_encode(inserts.len()) + leb128_encode(updates.len()) + leb128_encode(
        child_updates.len(),
    ) + leb128_encode(deletes.len());
    let bi = ids_encode(inserts);
    let bu = ids_encode(updates);
    let bc = ids_encode(child_updates);
    let bd = ids_encode(deletes);
    let s = record_encode(inserts, updates, child_updates, deletes);
    assert(s =~= h + (bi + bu + bc + bd));
    lemma_counts_round_trip(
        inserts.len(),
        updates.len(),
        child_updates.len(),
        deletes.len(),
        bi + bu + bc + bd,
    );
    assert(h + bi + (bu + bc + bd) =~= s) by {
        lemma_ids_round_trip(h, inserts, bu + bc + bd);
    }
    assert(h + bi + bu + (bc + bd) =~= s) by {
        lemma_ids_round_trip(h + bi, updates, bc + bd);
    }
    assert(h + bi + bu + bc + bd =~= s) by {
        lemma_ids_round_trip(h + bi + bu, child_updates, bd);
    }
    assert(h + bi + bu + bc + bd + Seq::<u8>::empty() =~= s) by {
        lemma_ids_round_trip(h + bi + bu + bc, deletes, Seq::<u8>::empty());
    }
    lemma_ids_round_trip(h, inserts, bu + bc + bd);
    lemma_ids_round_trip(h + bi, updates, bc + bd);
    lemma_ids_round_trip(h + bi + bu, child_updates, bd);
    lemma_ids_round_trip(h + bi + bu + bc, deletes, Seq::<u8>::empty());
}

} // verus!
