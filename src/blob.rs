//! Blob identifiers: blobs owned by a document, regions inside them, and
//! uploads not yet committed.

use crate::raft::{AccountId, Collection, DocumentId};
use crate::text::append_char;
use vstd::prelude::*;

verus! {

pub type BlobIndex = u32;

/// The blob holding a message's parsed data and outline.
pub const MESSAGE_DATA: BlobIndex = 0;

/// The blob holding the message as received.
pub const MESSAGE_RAW: BlobIndex = 1;

/// The blob of the k-th decoded body part is `MESSAGE_PARTS + k`.
pub const MESSAGE_PARTS: BlobIndex = 2;

/// A durable blob of a document.
#[derive(Debug, Clone, Copy, PartialEq, Eq, Structural)]
pub struct OwnedBlob {
    pub account_id: AccountId,
    pub collection: Collection,
    pub document_id: DocumentId,
    pub blob_index: BlobIndex,
}

/// An upload not yet attached to a document.
#[derive(Debug, Clone, Copy, PartialEq, Eq, Structural)]
pub struct TemporaryBlob {
    pub account_id: AccountId,
    pub timestamp: u64,
    pub hash: u64,
}

#[derive(Debug, Clone, Copy, PartialEq, Eq, Structural)]
pub enum BlobId {
    Owned(OwnedBlob),
    /// The `blob_index`-th part inside an owned blob.
    InnerOwned(OwnedBlob, BlobIndex),
    /// The `blob_index`-th part inside an upload.
    InnerTemporary(TemporaryBlob, BlobIndex),
    Temporary(TemporaryBlob),
}

impl BlobId {
    pub fn new_owned(
        account_id: AccountId,
        collection: Collection,
        document_id: DocumentId,
        blob_index: BlobIndex,
    ) -> (r: BlobId)
        ensures
            r == BlobId::Owned(OwnedBlob { account_id, collection, document_id, blob_index }),
    {
        BlobId::Owned(OwnedBlob { account_id, collection, document_id, blob_index })
    }

    pub open spec fn with_index(self, blob_index: BlobIndex) -> BlobId {
        match self {
            BlobId::Owned(o) => BlobId::Owned(
                OwnedBlob { blob_index: (blob_index + MESSAGE_PARTS) as u32, ..o },
            ),
            BlobId::InnerOwned(o, _) => BlobId::InnerOwned(o, blob_index),
            BlobId::InnerTemporary(t, _) => BlobId::InnerTemporary(t, blob_index),
            BlobId::Temporary(t) => BlobId::Temporary(t),
        }
    }

    /// The id of the `blob_index`-th MIME part of the same message. For an
    /// owned blob that is the part's own blob.
    pub fn clone_with_index(&self, blob_index: BlobIndex) -> (r: BlobId)
        requires
            !(self is Temporary),
            self is Owned ==> blob_index + MESSAGE_PARTS <= u32::MAX,
        ensures
            r == self.with_index(blob_index),
    {
        match self {
            BlobId::Owned(o) => BlobId::Owned(
                OwnedBlob { blob_index: blob_index + MESSAGE_PARTS, ..*o },
            ),
            BlobId::InnerOwned(o, _) => BlobId::InnerOwned(*o, blob_index),
            BlobId::InnerTemporary(t, _) => BlobId::InnerTemporary(*t, blob_index),
            BlobId::Temporary(t) => BlobId::Temporary(*t),
        }
    }

    /// The id as JMAP clients see it: a letter for the kind, then the fields
    /// in fixed-width hexadecimal.
    pub fn to_jmap_string(&self) -> (r: String)
        ensures
            r@ == blob_id_string(*self),
    {
        let mut s = String::new();
        match self {
            BlobId::Owned(o) => {
                append_char(&mut s, 'o');
                push_owned(&mut s, o);
            },
            BlobId::InnerOwned(o, i) => {
                append_char(&mut s, 'i');
                push_owned(&mut s, o);
                push_hex(&mut s, *i as u64, 8);
            },
            BlobId::InnerTemporary(t, i) => {
                append_char(&mut s, 'j');
                push_temporary(&mut s, t);
                push_hex(&mut s, *i as u64, 8);
            },
            BlobId::Temporary(t) => {
                append_char(&mut s, 't');
                push_temporary(&mut s, t);
            },
        }
        s
    }
}

pub open spec fn hex_char(d: nat) -> char {
    if d < 10 {
        (48 + d) as u8 as char
    } else {
        (87 + d) as u8 as char
    }
}

/// The last `n` hexadecimal digits of `v`, most significant first.
pub open spec fn hex_digits(v: nat, n: nat) -> Seq<char>
    decreases n,
{
    if n == 0 {
        Seq::empty()
    } else {
        hex_digits(v / 16, (n - 1) as nat).push(hex_char(v % 16))
    }
}

pub open spec fn owned_string(o: OwnedBlob) -> Seq<char> {
    hex_digits(o.account_id as nat, 8) + hex_digits(o.collection as nat, 2) + hex_digits(
        o.document_id as nat,
        8,
    ) + hex_digits(o.blob_index as nat, 8)
}

pub open spec fn temporary_string(t: TemporaryBlob) -> Seq<char> {
    hex_digits(t.account_id as nat, 8) + hex_digits(t.timestamp as nat, 16) + hex_digits(
        t.hash as nat,
        16,
    )
}

pub open spec fn blob_id_string(b: BlobId) -> Seq<char> {
    match b {
        BlobId::Owned(o) => seq!['o'] + owned_string(o),
        BlobId::InnerOwned(o, i) => seq!['i'] + owned_string(o) + hex_digits(i as nat, 8),
        BlobId::InnerTemporary(t, i) => seq!['j'] + temporary_string(t) + hex_digits(i as nat, 8),
        BlobId::Temporary(t) => seq!['t'] + temporary_string(t),
    }
}

/// Appends the last `n` hexadecimal digits of `v`.
pub fn push_hex(s: &mut String, v: u64, n: u32)
    ensures
        final(s)@ == old(s)@ + hex_digits(v as nat, n as nat),
    decreases n,
{
    if n > 0 {
        push_hex(s, v / 16, n - 1);
        let d = (v % 16) as u8;
        let c = if d < 10 {
            (48u8 + d) as char
        } else {
            (87u8 + d) as char
        };
        append_char(s, c);
        assert(final(s)@ =~= old(s)@ + hex_digits(v as nat, n as nat));
    } else {
        assert(final(s)@ =~= old(s)@ + hex_digits(v as nat, n as nat));
    }
}

fn push_owned(s: &mut String, o: &OwnedBlob)
    ensures
        final(s)@ == old(s)@ + owned_string(*o),
{
    push_hex(s, o.account_id as u64, 8);
    push_hex(s, o.collection as u64, 2);
    push_hex(s, o.document_id as u64, 8);
    push_hex(s, o.blob_index as u64, 8);
    assert(final(s)@ =~= old(s)@ + owned_string(*o));
}

fn push_temporary(s: &mut String, t: &TemporaryBlob)
    ensures
        final(s)@ == old(s)@ + temporary_string(*t),
{
    push_hex(s, t.account_id as u64, 8);
    push_hex(s, t.timestamp, 16);
    push_hex(s, t.hash, 16);
    assert(final(s)@ =~= old(s)@ + temporary_string(*t));
}

/// A JMAP id as clients see it: sixteen hexadecimal digits.
pub fn jmap_id_to_string(id: u64) -> (r: String)
    ensures
        r@ == hex_digits(id as nat, 16),
{
    let mut s = String::new();
    push_hex(&mut s, id, 16);
    assert(s@ =~= hex_digits(id as nat, 16));
    s
}


/// The query of a blob download: the content type to answer with.
#[derive(Debug)]
pub struct Params {
    pub accept: String,
}

/// What the access checks found for one blob of a copy.
#[derive(Debug, Clone, Copy, PartialEq, Eq, Structural)]
pub struct BlobAccess {
    /// One of the caller's accounts already has the blob.
    pub account_has_access: bool,
    /// Whether a message the source account shares with the caller holds
    /// the blob; `None` when it shares no messages.
    pub shared_document_access: Option<bool>,
}

/// A blob may be copied when one of the caller's accounts has it, the
/// caller is the superuser, or a message shared with the caller holds it.
pub open spec fn may_copy(access: BlobAccess, is_superuser: bool) -> bool {
    access.account_has_access || is_superuser || access.shared_document_access == Some(true)
}

/// Why a blob was not copied.
#[derive(Debug)]
pub struct SetError {
    pub description: String,
}

/// A Blob/copy request, with the access found for each blob.
#[derive(Debug)]
pub struct CopyBlobRequest {
    pub from_account_id: u64,
    pub account_id: u64,
    pub blob_ids: Vec<BlobId>,
}

/// The answer to a Blob/copy: the blobs copied (each under its own id) and
/// those refused; either list is absent when empty.
#[derive(Debug)]
pub struct CopyBlobResponse {
    pub from_account_id: u64,
    pub account_id: u64,
    pub copied: Option<Vec<BlobId>>,
    pub not_copied: Option<Vec<(BlobId, SetError)>>,
}

pub open spec fn copied_blobs(ids: Seq<BlobId>, access: Seq<BlobAccess>, is_superuser: bool) -> Seq<BlobId>
    decreases ids.len(),
{
    if ids.len() == 0 {
        Seq::empty()
    } else {
        let prev = copied_blobs(ids.drop_last(), access, is_superuser);
        if may_copy(access[ids.len() - 1], is_superuser) {
            prev.push(ids.last())
        } else {
            prev
        }
    }
}

pub open spec fn refused_blobs(ids: Seq<BlobId>, access: Seq<BlobAccess>, is_superuser: bool) -> Seq<BlobId>
    decreases ids.len(),
{
    if ids.len() == 0 {
        Seq::empty()
    } else {
        let prev = refused_blobs(ids.drop_last(), access, is_superuser);
        if may_copy(access[ids.len() - 1], is_superuser) {
            prev
        } else {
            prev.push(ids.last())
        }
    }
}

fn forbidden() -> (r: SetError)
{
    SetError { description: "You do not have access to this blobId.".to_owned() }
}

/// Sorts the blobs of a copy into those the caller may copy and those it may
/// not, in request order. `access[i]` is what was found for `blob_ids[i]`.
/// The caller links each copied blob to the target account.
pub fn copy_blob(request: CopyBlobRequest, is_superuser: bool, access: &Vec<BlobAccess>) -> (r:
    CopyBlobResponse)
    requires
        access@.len() == request.blob_ids@.len(),
    ensures
        r.from_account_id == request.from_account_id,
        r.account_id == request.account_id,
        match r.copied {
            Some(c) => c@ == copied_blobs(request.blob_ids@, access@, is_superuser) && c@.len() > 0,
            None => copied_blobs(request.blob_ids@, access@, is_superuser).len() == 0,
        },
        match r.not_copied {
            Some(n) => n@.map_values(|e: (BlobId, SetError)| e.0) == refused_blobs(
                request.blob_ids@,
                access@,
                is_superuser,
            ) && n@.len() > 0,
            None => refused_blobs(request.blob_ids@, access@, is_superuser).len() == 0,
        },
{
    let ids = request.blob_ids;
    let mut copied: Vec<BlobId> = Vec::new();
    let mut not_copied: Vec<(BlobId, SetError)> = Vec::new();
    let mut i: usize = 0;
    while i < ids.len()
        invariant
            i <= ids@.len(),
            access@.len() == ids@.len(),
            copied@ == copied_blobs(ids@.take(i as int), access@, is_superuser),
            not_copied@.map_values(|e: (BlobId, SetError)| e.0) == refused_blobs(
                ids@.take(i as int),
                access@,
                is_superuser,
            ),
        decreases ids@.len() - i,
    {
        let blob_id = ids[i];
        let a = access[i];
        let ghost pre = ids@.take(i + 1);
        proof {
            assert(pre.drop_last() =~= ids@.take(i as int));
            assert(pre.last() == blob_id);
        }
        let allowed = a.account_has_access || is_superuser || match a.shared_document_access {
            Some(b) => b,
            None => false,
        };
        if allowed {
            copied.push(blob_id);
        } else {
            let ghost before = not_copied@;
            not_copied.push((blob_id, forbidden()));
            proof {
                assert(not_copied@.map_values(|e: (BlobId, SetError)| e.0) =~= before.map_values(
                    |e: (BlobId, SetError)| e.0,
                ).push(blob_id));
            }
        }
        i += 1;
    }
    proof {
        assert(ids@.take(i as int) =~= ids@);
    }
    CopyBlobResponse {
        from_account_id: request.from_account_id,
        account_id: request.account_id,
        copied: if copied.len() > 0 {
            Some(copied)
        } else {
            None
        },
        not_copied: if not_copied.len() > 0 {
            Some(not_copied)
        } else {
            None
        },
    }
}

} // verus!
