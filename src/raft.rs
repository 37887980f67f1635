//! Raft log coordinates and the entries of the replicated log.

use crate::leb128::{
    decoded_within, leb128_decode_at, leb128_encode, lemma_leb128_round_trip, Leb128,
};
use vstd::prelude::*;

verus! {

pub type TermId = u64;

pub type LogIndex = u64;

pub type AccountId = u32;

pub type DocumentId = u32;

pub type ChangeId = u64;

/// A one-byte collection tag.
pub type Collection = u8;

/// A position in the global log: a term and an index within it.
#[derive(Debug, Clone, Copy, PartialEq, Eq, Structural)]
pub struct RaftId {
    pub term: TermId,
    pub index: LogIndex,
}

impl RaftId {
    pub fn new(term: TermId, index: LogIndex) -> (r: Self)
        ensures
            r.term == term,
            r.index == index,
    {
        RaftId { term, index }
    }

    /// The id that stands for "no position": its index is the largest one.
    pub fn none() -> (r: Self)
        ensures
            r.term == 0,
            r.index == LogIndex::MAX,
    {
        RaftId { term: 0, index: LogIndex::MAX }
    }

    pub fn is_none(&self) -> (r: bool)
        ensures
            r == (self.index == LogIndex::MAX),
    {
        self.index == LogIndex::MAX
    }
}

/// Raft ids ordered by term, then by index.
pub open spec fn raft_id_lt(a: RaftId, b: RaftId) -> bool {
    a.term < b.term || (a.term == b.term && a.index < b.index)
}

pub open spec fn raft_id_le(a: RaftId, b: RaftId) -> bool {
    raft_id_lt(a, b) || a == b
}

/// Compares two raft ids in log order: -1, 0 or 1.
pub fn raft_id_cmp(a: RaftId, b: RaftId) -> (r: i8)
    ensures
        r == -1 <==> raft_id_lt(a, b),
        r == 0 <==> a == b,
        r == 1 <==> raft_id_lt(b, a),
{
    if a.term < b.term {
        -1
    } else if a.term > b.term {
        1
    } else if a.index < b.index {
        -1
    } else if a.index > b.index {
        1
    } else {
        0
    }
}

/// One change-log row that a raft entry refers to.
#[derive(Debug, Clone, Copy, PartialEq, Eq, Structural)]
pub struct Change {
    pub change_id: ChangeId,
    pub collection: Collection,
}

/// A raft log entry: the change-log rows of one account appended together.
#[derive(Debug, Clone)]
pub struct Entry {
    pub raft_id: RaftId,
    pub account_id: AccountId,
    pub changes: Vec<Change>,
}

/// The wire form of a list of changes: for each, its collection byte and its
/// change id as a varint.
pub open spec fn changes_encode(cs: Seq<Change>) -> Seq<u8>
    decreases cs.len(),
{
    if cs.len() == 0 {
        Seq::empty()
    } else {
        seq![cs[0].collection] + leb128_encode(cs[0].change_id as nat) + changes_encode(
            cs.drop_first(),
        )
    }
}

/// The wire form of an entry: the account id, the number of changes, then the
/// changes.
pub open spec fn entry_encode(account_id: AccountId, cs: Seq<Change>) -> Seq<u8> {
    leb128_encode(account_id as nat) + leb128_encode(cs.len()) + changes_encode(cs)
}

/// Reads `count` changes starting at `pos`.
pub open spec fn changes_parse(s: Seq<u8>, pos: int, count: nat) -> Option<Seq<Change>>
    decreases count,
{
    if count == 0 {
        Some(Seq::empty())
    } else if pos < 0 || pos >= s.len() {
        None
    } else {
        match leb128_decode_at(s, pos + 1) {
            Some((v, n)) => if v <= u64::MAX {
                match changes_parse(s, pos + 1 + n, (count - 1) as nat) {
                    Some(rest) => Some(
                        seq![Change { change_id: v as u64, collection: s[pos] }] + rest,
                    ),
                    None => None,
                }
            } else {
                None
            },
            None => None,
        }
    }
}

/// Reads an entry's account id and changes; trailing bytes are ignored.
pub open spec fn entry_parse(s: Seq<u8>) -> Option<(AccountId, Seq<Change>)> {
    match leb128_decode_at(s, 0) {
        Some((account, n1)) => if account <= u32::MAX {
            match leb128_decode_at(s, n1 as int) {
                Some((count, n2)) => if count <= usize::MAX {
                    match changes_parse(s, (n1 + n2) as int, count) {
                        Some(cs) => Some((account as u32, cs)),
                        None => None,
                    }
                } else {
                    None
                },
                None => None,
            }
        } else {
            None
        },
        None => None,
    }
}

proof fn lemma_changes_encode_push(cs: Seq<Change>, c: Change)
    ensures
        changes_encode(cs.push(c)) == changes_encode(cs) + seq![c.collection] + leb128_encode(
            c.change_id as nat,
        ),
    decreases cs.len(),
{
    if cs.len() == 0 {
        assert(cs.push(c).drop_first() =~= Seq::<Change>::empty());
        assert(changes_encode(cs.push(c).drop_first()) =~= Seq::<u8>::empty());
        assert(changes_encode(cs) =~= Seq::<u8>::empty());
        assert(changes_encode(cs.push(c)) =~= changes_encode(cs) + seq![c.collection]
            + leb128_encode(c.change_id as nat));
    } else {
        assert(cs.push(c).drop_first() =~= cs.drop_first().push(c));
        assert(cs.push(c)[0] == cs[0]);
        lemma_changes_encode_push(cs.drop_first(), c);
        assert(changes_encode(cs.push(c)) =~= changes_encode(cs) + seq![c.collection]
            + leb128_encode(c.change_id as nat));
    }
}

proof fn lemma_changes_round_trip(prefix: Seq<u8>, cs: Seq<Change>, suffix: Seq<u8>)
    ensures
        changes_parse(prefix + changes_encode(cs) + suffix, prefix.len() as int, cs.len())
            == Some(cs),
    decreases cs.len(),
{
    let s = prefix + changes_encode(cs) + suffix;
    if cs.len() > 0 {
        let c = cs[0];
        let with_tag = prefix + seq![c.collection];
        let with_id = with_tag + leb128_encode(c.change_id as nat);
        lemma_leb128_round_trip(with_tag, c.change_id as nat, changes_encode(cs.drop_first()) + suffix);
        assert(with_tag + leb128_encode(c.change_id as nat) + (changes_encode(cs.drop_first())
            + suffix) =~= s);
        lemma_changes_round_trip(with_id, cs.drop_first(), suffix);
        assert(with_id + changes_encode(cs.drop_first()) + suffix =~= s);
        assert(s[prefix.len() as int] == c.collection);
        assert(seq![c] + cs.drop_first() =~= cs);
    } else {
        assert(cs =~= Seq::<Change>::empty());
    }
}

/// Serializing an entry and reading it back gives its account id and changes.
pub proof fn lemma_entry_round_trip(account_id: AccountId, cs: Seq<Change>)
    requires
        cs.len() <= usize::MAX,
    ensures
        entry_parse(entry_encode(account_id, cs)) == Some((account_id, cs)),
{
    let a = leb128_encode(account_id as nat);
    let b = leb128_encode(cs.len());
    let rest = changes_encode(cs);
    let s = entry_encode(account_id, cs);
    lemma_leb128_round_trip(Seq::empty(), account_id as nat, b + rest);
    assert(Seq::<u8>::empty() + a + (b + rest) =~= s);
    lemma_leb128_round_trip(a, cs.len(), rest);
    assert(a + b + rest =~= s);
    lemma_changes_round_trip(a + b, cs, Seq::empty());
    assert(a + b + rest + Seq::<u8>::empty() =~= s);
}

impl Entry {
    /// Reads an entry stored under `raft_id`; `None` when the bytes are not a
    /// well-formed entry.
    pub fn deserialize(value: &[u8], raft_id: RaftId) -> (r: Option<Self>)
        ensures
            match entry_parse(value@) {
                Some((account_id, cs)) => r is Some && r->0.raft_id == raft_id
                    && r->0.account_id == account_id && r->0.changes@ == cs,
                None => r is None,
            },
    {
        let r1 = u32::from_leb128_at(value, 0);
        let (account_id, n1) = match r1 {
            Some(x) => x,
            None => return None,
        };
        let r2 = usize::from_leb128_at(value, n1);
        let (total_changes, n2) = match r2 {
            Some(x) => x,
            None => return None,
        };
        let len = value.len();
        assert(n1 + n2 <= len);
        let ghost s = value@;
        let mut changes: Vec<Change> = Vec::new();
        let mut pos: usize = n1 + n2;
        assert(pos <= value@.len());
        let mut i: usize = 0;
        while i < total_changes
            invariant
                s == value@,
                i <= total_changes,
                pos <= s.len(),
                decoded_within(s, 0, u32::MAX as nat, account_id as nat, n1 as nat),
                decoded_within(s, n1 as int, usize::MAX as nat, total_changes as nat, n2 as nat),
                changes_parse(s, (n1 + n2) as int, total_changes as nat) == match changes_parse(
                    s,
                    pos as int,
                    (total_changes - i) as nat,
                ) {
                    Some(rest) => Some(changes@ + rest),
                    None => None::<Seq<Change>>,
                },
            decreases total_changes - i,
        {
            if pos >= value.len() {
                return None;
            }
            let collection = value[pos];
            let (change_id, n) = match u64::from_leb128_at(value, pos + 1) {
                Some(x) => x,
                None => return None,
            };
            let c = Change { change_id, collection };
            proof {
                let rem = (total_changes - i) as nat;
                let after = changes_parse(s, (pos + 1 + n) as int, (rem - 1) as nat);
                assert(changes_parse(s, pos as int, rem) == match after {
                    Some(rest) => Some(seq![c] + rest),
                    None => None::<Seq<Change>>,
                });
                match after {
                    Some(rest) => {
                        assert(changes@ + (seq![c] + rest) =~= changes@.push(c) + rest);
                    },
                    None => {},
                }
            }
            changes.push(c);
            pos = pos + 1 + n;
            i += 1;
        }
        proof {
            assert(changes@ + Seq::<Change>::empty() =~= changes@);
        }
        Some(Entry { raft_id, account_id, changes })
    }

    /// The stored form of the entry (its raft id is the key it is stored under).
    pub fn serialize(&self) -> (r: Vec<u8>)
        ensures
            r@ == entry_encode(self.account_id, self.changes@),
    {
        let mut bytes: Vec<u8> = Vec::new();
        self.account_id.to_leb128_bytes(&mut bytes);
        self.changes.len().to_leb128_bytes(&mut bytes);
        let ghost head = bytes@;
        let mut i: usize = 0;
        while i < self.changes.len()
            invariant
                i <= self.changes@.len(),
                head == leb128_encode(self.account_id as nat) + leb128_encode(
                    self.changes@.len(),
                ),
                bytes@ == head + changes_encode(self.changes@.take(i as int)),
            decreases self.changes@.len() - i,
        {
            let c = self.changes[i];
            bytes.push(c.collection);
            c.change_id.to_leb128_bytes(&mut bytes);
            proof {
                lemma_changes_encode_push(self.changes@.take(i as int), c);
                assert(self.changes@.take(i as int).push(c) =~= self.changes@.take(i + 1));
                assert(bytes@ =~= head + changes_encode(self.changes@.take(i + 1)));
            }
            i += 1;
        }
        proof {
            assert(self.changes@.take(i as int) =~= self.changes@);
        }
        bytes
    }
}

} // verus!
