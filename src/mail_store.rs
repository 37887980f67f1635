//! The mail collection of one account, and the JMAP Email/get method over it.

use crate::blob::{jmap_id_to_string, hex_digits, BlobId, BlobIndex, MESSAGE_PARTS, MESSAGE_RAW};
use crate::changes::{doc_of, get_document_id, get_prefix_id, jmap_id_from_parts, prefix_of, JMAPId};
use crate::json::{json_members, json_seq, lemma_array_json, lemma_object_json, JSONValue, Json};
use crate::mail::{
    add_rfc_header, rfc_lookup, rfc_transform, stored_keys, JMAPError, MailHeaderForm, RfcHeader,
    StoredHeader,
};
use crate::mail_get::{
    add_body_value, add_raw_header, HeaderName, HeaderOffset, MailBodyProperties,
    MailGetArguments, MailHeaderProperty, MailProperties, MessageData, MessageOutline,
    MessageStructure, MimePart, MimePartType, read_arguments,
};
use crate::raft::DocumentId;
use crate::store::StoreError;
use crate::text::{append_char, lossy_string, preview_html, preview_text};
use vstd::prelude::*;

verus! {

/// The collection tag of mail.
pub const COLLECTION_MAIL: u8 = 2;

/// The most bytes of a text part read to build a preview.
pub const PREVIEW_READ_BYTES: usize = 260;

/// The longest preview.
pub const PREVIEW_LENGTH: usize = 256;

/// Extra bytes read past `maxBodyValueBytes`, so that a cut inside a UTF-8
/// sequence can still be mended.
pub const BODY_VALUE_SLACK: usize = 10;

/// A stored message.
#[derive(Debug)]
pub struct MailDocument {
    pub document_id: DocumentId,
    pub thread_id: u32,
    pub mailboxes: Vec<u32>,
    pub keywords: Vec<String>,
    pub data: MessageData,
    pub outline: MessageOutline,
    /// The message as received.
    pub raw: Vec<u8>,
    /// The decoded body parts: entry `k` is blob `MESSAGE_PARTS + k`.
    pub parts: Vec<Vec<u8>>,
}

/// Every part blob the message data refers to is there.
pub open spec fn document_complete(d: MailDocument) -> bool {
    forall|k: int|
        0 <= k < d.data.mime_parts@.len() ==> (#[trigger] d.data.mime_parts@[k]).blob_index
            < d.parts@.len() && d.data.mime_parts@[k].blob_index + MESSAGE_PARTS <= u32::MAX
}

/// Strictly ascending document ids, each document complete.
pub open spec fn documents_wf(docs: Seq<MailDocument>) -> bool {
    &&& forall|i: int, j: int|
        0 <= i < j < docs.len() ==> docs[i].document_id < docs[j].document_id
    &&& forall|i: int| 0 <= i < docs.len() ==> document_complete(#[trigger] docs[i])
}

/// Whether a document id is live.
pub open spec fn is_live(docs: Seq<MailDocument>, d: DocumentId) -> bool {
    exists|i: int| 0 <= i < docs.len() && docs[i].document_id == d
}

/// The mail collection of one account.
pub struct MailStore {
    account_id: u32,
    max_objects_in_get: usize,
    /// The collection's current state token.
    state: String,
    documents: Vec<MailDocument>,
}

/// What a request needs of the raw message.
#[derive(Debug, Clone, Copy, PartialEq, Eq, Structural)]
pub enum FetchRaw {
    /// All of it.
    All,
    /// The header section only.
    Header,
    /// Nothing.
    Nothing,
}

/// A property that is read from the raw header section.
pub open spec fn reads_raw_headers(p: MailProperties) -> bool {
    match p {
        MailProperties::Header(h) => h.form == MailHeaderForm::Raw || h.header is Other,
        MailProperties::BodyStructure => true,
        _ => false,
    }
}

pub open spec fn fetch_raw_spec(
    properties: Seq<MailProperties>,
    body_properties: Seq<MailBodyProperties>,
) -> FetchRaw {
    if exists|i: int|
        0 <= i < body_properties.len() && body_properties[i] == MailBodyProperties::Headers {
        FetchRaw::All
    } else if exists|i: int| 0 <= i < properties.len() && reads_raw_headers(properties[i]) {
        FetchRaw::Header
    } else {
        FetchRaw::Nothing
    }
}

/// How much of the raw message a request needs, decided once per request:
/// all of it when body parts must show their headers, the header section
/// when a header is asked raw, by a non-standard name, or the body structure
/// is asked, else nothing.
pub fn fetch_raw_policy(properties: &Vec<MailProperties>, body_properties: &Vec<MailBodyProperties>) -> (r:
    FetchRaw)
    ensures
        r == fetch_raw_spec(properties@, body_properties@),
{
    let mut i: usize = 0;
    while i < body_properties.len()
        invariant
            i <= body_properties@.len(),
            forall|j: int| 0 <= j < i ==> body_properties@[j] != MailBodyProperties::Headers,
        decreases body_properties@.len() - i,
    {
        if body_properties[i] == MailBodyProperties::Headers {
            return FetchRaw::All;
        }
        i += 1;
    }
    let mut i: usize = 0;
    while i < properties.len()
        invariant
            i <= properties@.len(),
            forall|j: int| 0 <= j < body_properties@.len() ==> body_properties@[j] != MailBodyProperties::Headers,
            forall|j: int| 0 <= j < i ==> !reads_raw_headers(#[trigger] properties@[j]),
        decreases properties@.len() - i,
    {
        let reads = match &properties[i] {
            MailProperties::Header(h) => h.form == MailHeaderForm::Raw || match &h.header {
                HeaderName::Other(_) => true,
                HeaderName::Rfc(_) => false,
            },
            MailProperties::BodyStructure => true,
            _ => false,
        };
        if reads {
            assert(reads_raw_headers(properties@[i as int]));
            return FetchRaw::Header;
        }
        i += 1;
    }
    FetchRaw::Nothing
}

/// Every live message of a well-formed collection has the part blob each of
/// its MIME parts refers to.
pub proof fn lemma_live_documents_have_their_blobs(docs: Seq<MailDocument>, d: DocumentId)
    requires
        documents_wf(docs),
        is_live(docs, d),
    ensures
        exists|i: int|
            0 <= i < docs.len() && docs[i].document_id == d && forall|k: int|
                0 <= k < docs[i].data.mime_parts@.len() ==> (#[trigger] docs[i].data.mime_parts@[k]).blob_index
                    < docs[i].parts@.len(),
{
    let i = choose|i: int| 0 <= i < docs.len() && docs[i].document_id == d;
    assert(document_complete(docs[i]));
}

/// The ids of the first `n` documents, each with its thread as prefix.
pub open spec fn enumerated_ids(docs: Seq<MailDocument>, n: nat) -> Seq<JMAPId> {
    Seq::new(
        if n < docs.len() {
            n
        } else {
            docs.len()
        },
        |i: int| (docs[i].thread_id * 0x1_0000_0000 + docs[i].document_id) as u64,
    )
}

/// The requested ids whose documents are not live, in request order.
pub open spec fn missing_ids(ids: Seq<JMAPId>, docs: Seq<MailDocument>) -> Seq<JMAPId>
    decreases ids.len(),
{
    if ids.len() == 0 {
        Seq::empty()
    } else if is_live(docs, doc_of(ids.last())) {
        missing_ids(ids.drop_last(), docs)
    } else {
        missing_ids(ids.drop_last(), docs).push(ids.last())
    }
}

/// How many requested ids have a live document.
pub open spec fn found_count(ids: Seq<JMAPId>, docs: Seq<MailDocument>) -> nat
    decreases ids.len(),
{
    if ids.len() == 0 {
        0
    } else if is_live(docs, doc_of(ids.last())) {
        found_count(ids.drop_last(), docs) + 1
    } else {
        found_count(ids.drop_last(), docs)
    }
}

/// Each requested id is either found or reported missing.
pub proof fn lemma_get_accounts_for_every_id(ids: Seq<JMAPId>, docs: Seq<MailDocument>)
    ensures
        found_count(ids, docs) + missing_ids(ids, docs).len() == ids.len(),
    decreases ids.len(),
{
    if ids.len() > 0 {
        lemma_get_accounts_for_every_id(ids.drop_last(), docs);
    }
}

impl MailStore {
    pub closed spec fn docs(&self) -> Seq<MailDocument> {
        self.documents@
    }

    pub open spec fn wf(&self) -> bool {
        documents_wf(self.docs())
    }

    /// The account the collection belongs to.
    pub closed spec fn account(&self) -> u32 {
        self.account_id
    }

    /// The most objects one request may name.
    pub closed spec fn cap(&self) -> usize {
        self.max_objects_in_get
    }

    /// The collection's state token.
    pub closed spec fn state_token(&self) -> Seq<char> {
        self.state@
    }

    pub fn new(account_id: u32, max_objects_in_get: usize, state: String) -> (r: Self)
        ensures
            r.wf(),
            r.docs() == Seq::<MailDocument>::empty(),
            r.account() == account_id,
            r.cap() == max_objects_in_get,
            r.state_token() == state@,
    {
        let r = MailStore { account_id, max_objects_in_get, state, documents: Vec::new() };
        assert(r.docs() =~= Seq::<MailDocument>::empty());
        r
    }

    /// Adds a message. Refused, and handed back, when its document id is
    /// taken or a part blob it refers to is missing: a partial message never
    /// becomes visible.
    pub fn add_document(&mut self, document: MailDocument) -> (r: Result<(), MailDocument>)
        requires
            old(self).wf(),
        ensures
            final(self).wf(),
            final(self).account() == old(self).account(),
            final(self).cap() == old(self).cap(),
            final(self).state_token() == old(self).state_token(),
            match r {
                Ok(()) => {
                    &&& document_complete(document)
                    &&& !is_live(old(self).docs(), document.document_id)
                    &&& final(self).docs().len() == old(self).docs().len() + 1
                    &&& is_live(final(self).docs(), document.document_id)
                    &&& forall|d: DocumentId|
                        d != document.document_id ==> (is_live(final(self).docs(), d) == is_live(
                            old(self).docs(),
                            d,
                        ))
                },
                Err(back) => back == document && final(self).docs() == old(self).docs() && (
                !document_complete(document) || is_live(old(self).docs(), document.document_id)),
            },
    {
        let mut k: usize = 0;
        while k < document.data.mime_parts.len()
            invariant
                k <= document.data.mime_parts@.len(),
                self.wf(),
                forall|j: int|
                    0 <= j < k ==> (#[trigger] document.data.mime_parts@[j]).blob_index
                        < document.parts@.len() && document.data.mime_parts@[j].blob_index
                        + MESSAGE_PARTS <= u32::MAX,
            decreases document.data.mime_parts@.len() - k,
        {
            if document.data.mime_parts[k].blob_index as usize >= document.parts.len()
                || document.data.mime_parts[k].blob_index > u32::MAX - MESSAGE_PARTS {
                return Err(document);
            }
            k += 1;
        }
        let ghost docs = self.documents@;
        let mut pos: usize = 0;
        while pos < self.documents.len() && self.documents[pos].document_id < document.document_id
            invariant
                pos <= docs.len(),
                docs == self.documents@,
                forall|j: int| 0 <= j < pos ==> docs[j].document_id < document.document_id,
            decreases docs.len() - pos,
        {
            pos += 1;
        }
        if pos < self.documents.len() && self.documents[pos].document_id == document.document_id {
            return Err(document);
        }
        proof {
            assert forall|j: int| pos <= j < docs.len() implies docs[j].document_id
                > document.document_id by {
                if j > pos {
                    assert(docs[pos as int].document_id < docs[j].document_id);
                }
            }
        }
        let ghost id = document.document_id;
        self.documents.insert(pos, document);
        proof {
            let new = self.documents@;
            assert(new[pos as int].document_id == id);
            assert forall|d: DocumentId| d != id implies is_live(new, d) == is_live(docs, d) by {
                if is_live(docs, d) {
                    let j = choose|j: int| 0 <= j < docs.len() && docs[j].document_id == d;
                    if j < pos {
                        assert(new[j] == docs[j]);
                    } else {
                        assert(new[j + 1] == docs[j]);
                    }
                }
                if is_live(new, d) {
                    let j = choose|j: int| 0 <= j < new.len() && new[j].document_id == d;
                    if j < pos {
                        assert(new[j] == docs[j]);
                    } else if j > pos {
                        assert(new[j] == docs[j - 1]);
                    }
                }
            }
            assert forall|i: int| 0 <= i < new.len() implies document_complete(#[trigger] new[i]) by {
                if i < pos {
                    assert(new[i] == docs[i]);
                } else if i > pos {
                    assert(new[i] == docs[i - 1]);
                }
            }
            assert forall|i: int, j: int| 0 <= i < j < new.len() implies new[i].document_id
                < new[j].document_id by {
                if j < pos {
                    assert(new[i] == docs[i] && new[j] == docs[j]);
                } else if j == pos {
                    assert(new[i] == docs[i]);
                } else if i < pos {
                    assert(new[i] == docs[i] && new[j] == docs[j - 1]);
                } else if i == pos {
                    assert(new[j] == docs[j - 1]);
                } else {
                    assert(new[i] == docs[i - 1] && new[j] == docs[j - 1]);
                }
            }
            assert(is_live(new, id));
        }
        Ok(())
    }

    /// Where the live document with this id is.
    fn find_document(&self, document_id: DocumentId) -> (r: Option<usize>)
        ensures
            match r {
                Some(i) => i < self.docs().len() && self.docs()[i as int].document_id
                    == document_id,
                None => !is_live(self.docs(), document_id),
            },
    {
        let mut i: usize = 0;
        while i < self.documents.len()
            invariant
                i <= self.documents@.len(),
                forall|j: int| 0 <= j < i ==> self.documents@[j].document_id != document_id,
            decreases self.documents@.len() - i,
        {
            if self.documents[i].document_id == document_id {
                return Some(i);
            }
            i += 1;
        }
        None
    }

    /// The ids a request names, or when it names none, the first documents of
    /// the collection up to the cap; `RequestTooLarge` when it names more than
    /// the cap.
    pub fn resolve_ids(&self, ids: Option<Vec<JMAPId>>) -> (r: Result<Vec<JMAPId>, JMAPError>)
        ensures
            match ids {
                Some(v) => if v@.len() > self.cap() {
                    r is Err && r->Err_0 is RequestTooLarge
                } else {
                    r is Ok && r->Ok_0@ == v@
                },
                None => r is Ok && r->Ok_0@ == enumerated_ids(
                    self.docs(),
                    self.cap() as nat,
                ),
            },
    {
        match ids {
            Some(v) => {
                if v.len() > self.max_objects_in_get {
                    Err(JMAPError::RequestTooLarge)
                } else {
                    Ok(v)
                }
            },
            None => {
                let n = if self.max_objects_in_get < self.documents.len() {
                    self.max_objects_in_get
                } else {
                    self.documents.len()
                };
                let ghost target = enumerated_ids(self.docs(), self.cap() as nat);
                let mut out: Vec<JMAPId> = Vec::new();
                let mut i: usize = 0;
                while i < n
                    invariant
                        i <= n <= self.documents@.len(),
                        n == target.len(),
                        target == enumerated_ids(self.docs(), self.cap() as nat),
                        out@ == target.take(i as int),
                    decreases n - i,
                {
                    let d = &self.documents[i];
                    out.push(jmap_id_from_parts(d.thread_id, d.document_id));
                    proof {
                        assert(out@ =~= target.take(i + 1));
                    }
                    i += 1;
                }
                proof {
                    assert(target.take(i as int) =~= target);
                }
                Ok(out)
            },
        }
    }
}


pub open spec fn dec_digits(n: nat) -> Seq<char>
    decreases n,
{
    if n < 10 {
        seq![(48 + n) as u8 as char]
    } else {
        dec_digits(n / 10).push((48 + n % 10) as u8 as char)
    }
}

/// Appends the decimal digits of `n`.
fn push_decimal(s: &mut String, n: usize)
    ensures
        final(s)@ == old(s)@ + dec_digits(n as nat),
    decreases n,
{
    if n >= 10 {
        push_decimal(s, n / 10);
    }
    let d = (n % 10) as u8;
    append_char(s, (48u8 + d) as char);
    assert(final(s)@ =~= old(s)@ + dec_digits(n as nat));
}

pub fn decimal_string(n: usize) -> (r: String)
    ensures
        r@ == dec_digits(n as nat),
{
    let mut s = String::new();
    push_decimal(&mut s, n);
    assert(s@ =~= dec_digits(n as nat));
    s
}

/// The name a body property takes in a part object.
pub open spec fn body_property_name(p: MailBodyProperties) -> Seq<char> {
    match p {
        MailBodyProperties::PartId => "partId"@,
        MailBodyProperties::BlobId => "blobId"@,
        MailBodyProperties::Size => "size"@,
        MailBodyProperties::Name => "name"@,
        MailBodyProperties::Type => "type"@,
        MailBodyProperties::Charset => "charset"@,
        MailBodyProperties::Disposition => "disposition"@,
        MailBodyProperties::Cid => "cid"@,
        MailBodyProperties::Language => "language"@,
        MailBodyProperties::Location => "location"@,
        MailBodyProperties::Headers => "headers"@,
    }
}

fn body_property_str(p: MailBodyProperties) -> (r: &'static str)
    ensures
        r@ == body_property_name(p),
{
    match p {
        MailBodyProperties::PartId => "partId",
        MailBodyProperties::BlobId => "blobId",
        MailBodyProperties::Size => "size",
        MailBodyProperties::Name => "name",
        MailBodyProperties::Type => "type",
        MailBodyProperties::Charset => "charset",
        MailBodyProperties::Disposition => "disposition",
        MailBodyProperties::Cid => "cid",
        MailBodyProperties::Language => "language",
        MailBodyProperties::Location => "location",
        MailBodyProperties::Headers => "headers",
    }
}

/// The first precomputed value of a body field.
pub open spec fn part_field(fields: Seq<(MailBodyProperties, JSONValue)>, p: MailBodyProperties) -> Option<Json>
    decreases fields.len(),
{
    if fields.len() == 0 {
        None
    } else if fields[0].0 == p {
        Some(fields[0].1.json())
    } else {
        part_field(fields.drop_first(), p)
    }
}

fn find_part_field(fields: &Vec<(MailBodyProperties, JSONValue)>, p: MailBodyProperties) -> (r: Option<JSONValue>)
    ensures
        match part_field(fields@, p) {
            Some(v) => r is Some && r->0.json() == v,
            None => r is None,
        },
{
    let mut i: usize = 0;
    assert(fields@.skip(0) =~= fields@);
    while i < fields.len()
        invariant
            i <= fields@.len(),
            part_field(fields@, p) == part_field(fields@.skip(i as int), p),
        decreases fields@.len() - i,
    {
        proof {
            assert(fields@.skip(i as int).drop_first() =~= fields@.skip(i + 1));
            assert(fields@.skip(i as int)[0] == fields@[i as int]);
        }
        if fields[i].0 == p {
            return Some(fields[i].1.duplicate());
        }
        i += 1;
    }
    None
}

/// A `{name, value}` object.
pub open spec fn name_value(name: Seq<char>, value: Json) -> Json {
    Json::Object(seq![("name"@, Json::Str(name)), ("value"@, value)])
}

/// The headers of a part as `{name, value}` objects: every instance of every
/// field, its raw text trimmed, fields in order; a field named twice counts once.
pub open spec fn raw_header_list(
    headers: Seq<(HeaderName, Vec<HeaderOffset>)>,
    raw: Seq<u8>,
) -> Seq<Json>
    decreases headers.len(),
{
    if headers.len() == 0 {
        Seq::empty()
    } else {
        let prev = raw_header_list(headers.drop_last(), raw);
        let name = crate::mail_get::header_name_of(headers.last().0);
        if exists|j: int|
            0 <= j < headers.len() - 1 && crate::mail_get::header_name_of(headers[j].0) == name {
            prev
        } else {
            prev + crate::mail_get::raw_values(headers.last().1@, raw, MailHeaderForm::Raw).map_values(
                |v: Json| name_value(name, v),
            )
        }
    }
}


/// One field of a part object, when the part has it. The `headers` field is
/// handled apart.
pub open spec fn body_part_member(
    p: MailBodyProperties,
    part_id: Option<usize>,
    mime_part: MimePart,
    base: BlobId,
) -> Option<(Seq<char>, Json)> {
    match p {
        MailBodyProperties::PartId => match part_id {
            Some(n) => if n <= i64::MAX {
                Some(("partId"@, Json::Number(n as int)))
            } else {
                None
            },
            None => None,
        },
        MailBodyProperties::BlobId => match part_id {
            Some(_) => Some(
                ("blobId"@, Json::Str(crate::blob::blob_id_string(base.with_index(mime_part.blob_index)))),
            ),
            None => None,
        },
        MailBodyProperties::Headers => None,
        _ => match part_field(mime_part.headers@, p) {
            Some(v) => Some((body_property_name(p), v)),
            None => None,
        },
    }
}

pub open spec fn has_key(ms: Seq<(Seq<char>, Json)>, key: Seq<char>) -> bool {
    exists|i: int| 0 <= i < ms.len() && ms[i].0 == key
}

/// The fields of a part object for the requested body properties, in order,
/// each once.
pub open spec fn body_part_fields(
    props: Seq<MailBodyProperties>,
    part_id: Option<usize>,
    mime_part: MimePart,
    base: BlobId,
) -> Seq<(Seq<char>, Json)>
    decreases props.len(),
{
    if props.len() == 0 {
        Seq::empty()
    } else {
        let prev = body_part_fields(props.drop_last(), part_id, mime_part, base);
        match body_part_member(props.last(), part_id, mime_part, base) {
            Some(m) => if has_key(prev, m.0) {
                prev
            } else {
                prev.push(m)
            },
            None => prev,
        }
    }
}

/// A part object: the requested fields, then the part's headers when they
/// were asked for, the raw message is at hand, and there are any.
pub open spec fn body_part_spec(
    props: Seq<MailBodyProperties>,
    part_id: Option<usize>,
    mime_part: MimePart,
    raw: Option<Seq<u8>>,
    headers: Option<Seq<(HeaderName, Vec<HeaderOffset>)>>,
    base: BlobId,
) -> Seq<(Seq<char>, Json)> {
    let fields = body_part_fields(props, part_id, mime_part, base);
    match (raw, headers) {
        (Some(r), Some(hs)) => if props.contains(MailBodyProperties::Headers) && raw_header_list(
            hs,
            r,
        ).len() > 0 {
            fields.push(("headers"@, Json::Array(raw_header_list(hs, r))))
        } else {
            fields
        },
        _ => fields,
    }
}

fn has_member(ms: &Vec<(String, JSONValue)>, key: &String) -> (r: bool)
    ensures
        r == has_key(json_members(ms@), key@),
{
    let mut i: usize = 0;
    while i < ms.len()
        invariant
            i <= ms@.len(),
            forall|j: int| 0 <= j < i ==> ms@[j].0@ != key@,
        decreases ms@.len() - i,
    {
        if ms[i].0 == *key {
            assert(json_members(ms@)[i as int].0 == key@);
            return true;
        }
        i += 1;
    }
    proof {
        assert forall|j: int| 0 <= j < json_members(ms@).len() implies json_members(ms@)[j].0
            != key@ by {
            assert(json_members(ms@)[j].0 == ms@[j].0@);
        }
    }
    false
}

fn header_name_string(h: &HeaderName) -> (r: String)
    ensures
        r@ == crate::mail_get::header_name_of(*h),
{
    match h {
        HeaderName::Rfc(r) => crate::mail_get::rfc_header_str(*r).to_owned(),
        HeaderName::Other(o) => o.clone(),
    }
}

fn name_value_object(name: &String, value: JSONValue) -> (r: JSONValue)
    ensures
        r.json() == name_value(name@, value.json()),
{
    let members = vec![("name".to_owned(), JSONValue::String(name.clone())), ("value".to_owned(), value)];
    proof {
        lemma_object_json(members);
        assert(json_members(members@) =~= seq![("name"@, Json::Str(name@)), ("value"@, value.json())]);
    }
    JSONValue::Object(members)
}

fn collect_raw_headers(headers: &Vec<(HeaderName, Vec<HeaderOffset>)>, raw: &[u8]) -> (r: Vec<JSONValue>)
    ensures
        json_seq(r@) == raw_header_list(headers@, raw@),
{
    let mut out: Vec<JSONValue> = Vec::new();
    let mut i: usize = 0;
    while i < headers.len()
        invariant
            i <= headers@.len(),
            json_seq(out@) == raw_header_list(headers@.take(i as int), raw@),
        decreases headers@.len() - i,
    {
        let name = header_name_string(&headers[i].0);
        let ghost pre = headers@.take(i + 1);
        proof {
            assert(pre.drop_last() =~= headers@.take(i as int));
            assert(pre.last() == headers@[i as int]);
        }
        let mut seen = false;
        let mut j: usize = 0;
        while j < i
            invariant
                j <= i < headers@.len(),
                name@ == crate::mail_get::header_name_of(headers@[i as int].0),
                seen == exists|k: int| 0 <= k < j && crate::mail_get::header_name_of(headers@[k].0) == name@,
            decreases i - j,
        {
            let other = header_name_string(&headers[j].0);
            if other == name {
                seen = true;
            }
            j += 1;
        }
        proof {
            assert(seen == exists|k: int| 0 <= k < pre.len() - 1 && crate::mail_get::header_name_of(pre[k].0) == name@) by {
                if seen {
                    let k = choose|k: int| 0 <= k < j && crate::mail_get::header_name_of(headers@[k].0) == name@;
                    assert(pre[k] == headers@[k]);
                }
                if exists|k: int| 0 <= k < pre.len() - 1 && crate::mail_get::header_name_of(pre[k].0) == name@ {
                    let k = choose|k: int| 0 <= k < pre.len() - 1 && crate::mail_get::header_name_of(pre[k].0) == name@;
                    assert(pre[k] == headers@[k]);
                }
            }
        }
        if !seen {
            let values = add_raw_header(headers[i].1.as_slice(), raw, MailHeaderForm::Raw, true);
            match values {
                JSONValue::Array(vs) => {
                    proof {
                        lemma_array_json(vs);
                    }
                    let ghost listed = crate::mail_get::raw_values(headers@[i as int].1@, raw@, MailHeaderForm::Raw);
                    let ghost prev = json_seq(out@);
                    let mut k: usize = 0;
                    while k < vs.len()
                        invariant
                            k <= vs@.len(),
                            json_seq(vs@) == listed,
                            name@ == crate::mail_get::header_name_of(headers@[i as int].0),
                            json_seq(out@) == prev + listed.take(k as int).map_values(|v: Json| name_value(name@, v)),
                        decreases vs@.len() - k,
                    {
                        let item = name_value_object(&name, vs[k].duplicate());
                        let ghost before = out@;
                        out.push(item);
                        proof {
                            assert(listed.take(k + 1) =~= listed.take(k as int).push(listed[k as int]));
                            assert(json_seq(out@) =~= json_seq(before).push(item.json()));
                            assert(json_seq(out@) =~= prev + listed.take(k + 1).map_values(|v: Json| name_value(name@, v)));
                        }
                        k += 1;
                    }
                    proof {
                        assert(listed.take(k as int) =~= listed);
                    }
                },
                _ => {
                    proof {
                        assert(false);
                    }
                },
            }
        }
        i += 1;
    }
    proof {
        assert(headers@.take(i as int) =~= headers@);
    }
    out
}

/// One part object: the requested fields the part has, then its headers
/// when they were asked for and the raw message is at hand.
pub fn add_body_part(
    part_id: Option<usize>,
    mime_part: &MimePart,
    properties: &Vec<MailBodyProperties>,
    message_raw: Option<&[u8]>,
    headers_raw: Option<&Vec<(HeaderName, Vec<HeaderOffset>)>>,
    base_blob_id: &BlobId,
) -> (r: Vec<(String, JSONValue)>)
    requires
        base_blob_id is Owned,
        mime_part.blob_index + MESSAGE_PARTS <= u32::MAX,
    ensures
        json_members(r@) == body_part_spec(
            properties@,
            part_id,
            *mime_part,
            match message_raw {
                Some(b) => Some(b@),
                None => None,
            },
            match headers_raw {
                Some(h) => Some(h@),
                None => None,
            },
            *base_blob_id,
        ),
{
    let mut body_part: Vec<(String, JSONValue)> = Vec::new();
    let mut wants_headers = false;
    let mut i: usize = 0;
    while i < properties.len()
        invariant
            i <= properties@.len(),
            base_blob_id is Owned,
            mime_part.blob_index + MESSAGE_PARTS <= u32::MAX,
            json_members(body_part@) == body_part_fields(properties@.take(i as int), part_id, *mime_part, *base_blob_id),
            wants_headers == properties@.take(i as int).contains(MailBodyProperties::Headers),
        decreases properties@.len() - i,
    {
        let p = properties[i];
        let ghost pre = properties@.take(i + 1);
        proof {
            assert(pre.drop_last() =~= properties@.take(i as int));
            assert(pre.last() == p);
        }
        let member: Option<(String, JSONValue)> = match p {
            MailBodyProperties::PartId => match part_id {
                Some(n) => if n as u64 <= i64::MAX as u64 {
                    Some(("partId".to_owned(), JSONValue::Number(n as i64)))
                } else {
                    None
                },
                None => None,
            },
            MailBodyProperties::BlobId => match part_id {
                Some(_) => Some(("blobId".to_owned(), JSONValue::String(base_blob_id.clone_with_index(mime_part.blob_index).to_jmap_string()))),
                None => None,
            },
            MailBodyProperties::Headers => {
                wants_headers = true;
                None
            },
            _ => match find_part_field(&mime_part.headers, p) {
                Some(v) => Some((body_property_str(p).to_owned(), v)),
                None => None,
            },
        };
        assert(match member {
            Some(m) => body_part_member(p, part_id, *mime_part, *base_blob_id) == Some((m.0@, m.1.json())),
            None => body_part_member(p, part_id, *mime_part, *base_blob_id) is None,
        });
        match member {
            Some(m) => {
                if !has_member(&body_part, &m.0) {
                    let ghost before = body_part@;
                    body_part.push(m);
                    proof {
                        assert(json_members(body_part@) =~= json_members(before).push((m.0@, m.1.json())));
                    }
                }
            },
            None => {},
        }
        proof {
            assert(pre.contains(MailBodyProperties::Headers) == (properties@.take(i as int).contains(MailBodyProperties::Headers) || p == MailBodyProperties::Headers)) by {
                if p == MailBodyProperties::Headers {
                    assert(pre[i as int] == p);
                }
                if properties@.take(i as int).contains(MailBodyProperties::Headers) {
                    let k = choose|k: int| 0 <= k < i && properties@.take(i as int)[k] == MailBodyProperties::Headers;
                    assert(pre[k] == MailBodyProperties::Headers);
                }
                if pre.contains(MailBodyProperties::Headers) {
                    let k = choose|k: int| 0 <= k < pre.len() && pre[k] == MailBodyProperties::Headers;
                    if k < i {
                        assert(properties@.take(i as int)[k] == MailBodyProperties::Headers);
                    }
                }
            }
        }
        i += 1;
    }
    proof {
        assert(properties@.take(i as int) =~= properties@);
    }
    match (message_raw, headers_raw) {
        (Some(raw), Some(hs)) => {
            if wants_headers {
                let list = collect_raw_headers(hs, raw);
                if list.len() > 0 {
                    proof {
                        lemma_array_json(list);
                    }
                    let ghost before = body_part@;
                    let entry = ("headers".to_owned(), JSONValue::Array(list));
                    body_part.push(entry);
                    proof {
                        assert(json_members(body_part@) =~= json_members(before).push((entry.0@, entry.1.json())));
                    }
                }
            }
        },
        _ => {},
    }
    body_part
}


/// The headers of part `k` of a message, when the outline is at hand and has them.
pub open spec fn part_headers(
    outline: Option<MessageOutline>,
    k: int,
) -> Option<Seq<(HeaderName, Vec<HeaderOffset>)>> {
    match outline {
        Some(o) => if 0 <= k < o.headers@.len() {
            Some(o.headers@[k]@)
        } else {
            None
        },
        None => None,
    }
}

/// A list of part objects, one for each listed part the message has.
pub open spec fn body_parts_spec(
    parts: Seq<usize>,
    mime_parts: Seq<MimePart>,
    props: Seq<MailBodyProperties>,
    raw: Option<Seq<u8>>,
    outline: Option<MessageOutline>,
    base: BlobId,
) -> Seq<Json>
    decreases parts.len(),
{
    if parts.len() == 0 {
        Seq::empty()
    } else {
        let prev = body_parts_spec(parts.drop_last(), mime_parts, props, raw, outline, base);
        let id = parts.last();
        if id + 1 < mime_parts.len() {
            prev.push(
                Json::Object(
                    body_part_spec(
                        props,
                        Some(id),
                        mime_parts[id + 1],
                        raw,
                        part_headers(outline, id + 1),
                        base,
                    ),
                ),
            )
        } else {
            prev
        }
    }
}

pub fn add_body_parts(
    parts: &Vec<usize>,
    mime_parts: &Vec<MimePart>,
    properties: &Vec<MailBodyProperties>,
    message_raw: Option<&[u8]>,
    message_outline: Option<&MessageOutline>,
    base_blob_id: &BlobId,
) -> (r: JSONValue)
    requires
        base_blob_id is Owned,
        forall|k: int|
            0 <= k < mime_parts@.len() ==> (#[trigger] mime_parts@[k]).blob_index + MESSAGE_PARTS
                <= u32::MAX,
    ensures
        r.json() == Json::Array(
            body_parts_spec(
                parts@,
                mime_parts@,
                properties@,
                match message_raw {
                    Some(b) => Some(b@),
                    None => None,
                },
                match message_outline {
                    Some(o) => Some(*o),
                    None => None,
                },
                *base_blob_id,
            ),
        ),
{
    let ghost raw_v = match message_raw {
        Some(b) => Some(b@),
        None => None,
    };
    let ghost outline_v = match message_outline {
        Some(o) => Some(*o),
        None => None::<MessageOutline>,
    };
    let mut out: Vec<JSONValue> = Vec::new();
    let mut i: usize = 0;
    while i < parts.len()
        invariant
            i <= parts@.len(),
            base_blob_id is Owned,
            forall|k: int|
                0 <= k < mime_parts@.len() ==> (#[trigger] mime_parts@[k]).blob_index
                    + MESSAGE_PARTS <= u32::MAX,
            raw_v == match message_raw {
                Some(b) => Some(b@),
                None => None,
            },
            outline_v == match message_outline {
                Some(o) => Some(*o),
                None => None::<MessageOutline>,
            },
            json_seq(out@) == body_parts_spec(parts@.take(i as int), mime_parts@, properties@, raw_v, outline_v, *base_blob_id),
        decreases parts@.len() - i,
    {
        let id = parts[i];
        let ghost pre = parts@.take(i + 1);
        proof {
            assert(pre.drop_last() =~= parts@.take(i as int));
            assert(pre.last() == id);
        }
        if mime_parts.len() > 0 && id < mime_parts.len() - 1 {
            let mime_part = &mime_parts[id + 1];
            let headers = match message_outline {
                Some(o) => if id + 1 < o.headers.len() {
                    Some(&o.headers[id + 1])
                } else {
                    None
                },
                None => None,
            };
            let members = add_body_part(Some(id), mime_part, properties, message_raw, headers, base_blob_id);
            proof {
                lemma_object_json(members);
                assert(match headers {
                    Some(h) => Some(h@),
                    None => None,
                } == part_headers(outline_v, id + 1));
            }
            let ghost before = out@;
            let item = JSONValue::Object(members);
            out.push(item);
            proof {
                assert(json_seq(out@) =~= json_seq(before).push(item.json()));
            }
        }
        i += 1;
    }
    proof {
        assert(parts@.take(i as int) =~= parts@);
        lemma_array_json(out);
    }
    JSONValue::Array(out)
}


/// The bytes of a stored part blob a read of at most `limit` bytes returns;
/// no limit when `limit` is `None`.
pub open spec fn read_prefix(b: Seq<u8>, limit: Option<nat>) -> Seq<u8> {
    match limit {
        Some(n) => if n < b.len() {
            b.take(n as int)
        } else {
            b
        },
        None => b,
    }
}

/// The preview of a message: from the first text body part (read up to
/// `PREVIEW_READ_BYTES`), else from the first HTML body part, else null.
/// `None` when the first body part is not in the message.
pub open spec fn preview_spec(d: MailDocument) -> Option<Json> {
    let data = d.data;
    if data.text_body@.len() > 0 {
        let p = data.text_body@[0];
        if p + 1 < data.mime_parts@.len() {
            let b = d.parts@[data.mime_parts@[p + 1].blob_index as int]@;
            Some(
                Json::Str(
                    crate::text::preview_text_of(
                        crate::text::utf8_lossy(read_prefix(b, Some(PREVIEW_READ_BYTES as nat))),
                        PREVIEW_LENGTH as nat,
                    ),
                ),
            )
        } else {
            None
        }
    } else if data.html_body@.len() > 0 {
        let p = data.html_body@[0];
        if p + 1 < data.mime_parts@.len() {
            let b = d.parts@[data.mime_parts@[p + 1].blob_index as int]@;
            Some(
                Json::Str(
                    crate::text::preview_html_of(crate::text::utf8_lossy(b), PREVIEW_LENGTH as nat),
                ),
            )
        } else {
            None
        }
    } else {
        Some(Json::Null)
    }
}

fn read_part(d: &MailDocument, blob_index: BlobIndex, limit: Option<usize>) -> (r: &[u8])
    requires
        blob_index < d.parts@.len(),
    ensures
        r@ == read_prefix(
            d.parts@[blob_index as int]@,
            match limit {
                Some(n) => Some(n as nat),
                None => None,
            },
        ),
{
    let b = d.parts[blob_index as usize].as_slice();
    match limit {
        Some(n) => if n < b.len() {
            let r = vstd::slice::slice_subrange(b, 0, n);
            assert(r@ =~= b@.take(n as int));
            r
        } else {
            b
        },
        None => b,
    }
}

fn data_corruption() -> (r: JMAPError)
    ensures
        r == JMAPError::Store(StoreError::DataCorruption),
{
    JMAPError::Store(StoreError::DataCorruption)
}

pub fn message_preview(d: &MailDocument) -> (r: Result<JSONValue, JMAPError>)
    requires
        document_complete(*d),
    ensures
        match preview_spec(*d) {
            Some(v) => r is Ok && r->Ok_0.json() == v,
            None => r == Err::<JSONValue, JMAPError>(JMAPError::Store(StoreError::DataCorruption)),
        },
        match r {
            Ok(JSONValue::String(t)) => crate::text::utf8_size(t@) <= PREVIEW_LENGTH,
            _ => true,
        },
{
    let data = &d.data;
    if data.text_body.len() > 0 {
        let p = data.text_body[0];
        if p < data.mime_parts.len() && p + 1 < data.mime_parts.len() {
            let mp = &data.mime_parts[p + 1];
            let bytes = read_part(d, mp.blob_index, Some(PREVIEW_READ_BYTES));
            let text = lossy_string(bytes);
            Ok(JSONValue::String(preview_text(text, PREVIEW_LENGTH)))
        } else {
            Err(data_corruption())
        }
    } else if data.html_body.len() > 0 {
        let p = data.html_body[0];
        if p < data.mime_parts.len() && p + 1 < data.mime_parts.len() {
            let mp = &data.mime_parts[p + 1];
            let bytes = read_part(d, mp.blob_index, None);
            let text = lossy_string(bytes);
            Ok(JSONValue::String(preview_html(text, PREVIEW_LENGTH)))
        } else {
            Err(data_corruption())
        }
    } else {
        Ok(JSONValue::Null)
    }
}

/// The body parts whose values are fetched, in order: text parts when text
/// or all values are asked for, then HTML parts when HTML or all are; only
/// parts of text or HTML type, each blob once.
pub open spec fn value_parts(cands: Seq<usize>, mime_parts: Seq<MimePart>) -> Seq<usize>
    decreases cands.len(),
{
    if cands.len() == 0 {
        Seq::empty()
    } else {
        let prev = value_parts(cands.drop_last(), mime_parts);
        let id = cands.last();
        if id + 1 < mime_parts.len() && (mime_parts[id + 1].mime_type == MimePartType::Text
            || mime_parts[id + 1].mime_type == MimePartType::Html) && !(exists|j: int|
            0 <= j < prev.len() && mime_parts[prev[j] + 1].blob_index == mime_parts[id
                + 1].blob_index) {
            prev.push(id)
        } else {
            prev
        }
    }
}

pub open spec fn value_candidates(d: MailDocument, args: MailGetArguments) -> Seq<usize> {
    (if args.fetch_all_body_values || args.fetch_text_body_values {
        d.data.text_body@
    } else {
        Seq::empty()
    }) + (if args.fetch_all_body_values || args.fetch_html_body_values {
        d.data.html_body@
    } else {
        Seq::empty()
    })
}

/// How much of a part a body value reads: all of it without a bound, else
/// the bound and `BODY_VALUE_SLACK` more.
pub open spec fn value_read_limit(max_bytes: usize) -> Option<nat> {
    if max_bytes == 0 {
        None
    } else {
        Some((max_bytes + BODY_VALUE_SLACK) as nat)
    }
}

pub open spec fn body_value_of(d: MailDocument, id: usize, args: MailGetArguments) -> Json {
    let mp = d.data.mime_parts@[id + 1];
    crate::mail_get::body_value_spec(
        mp.mime_type,
        mp.is_encoding_problem,
        crate::text::utf8_lossy(
            read_prefix(d.parts@[mp.blob_index as int]@, value_read_limit(args.max_body_value_bytes)),
        ),
        args.max_body_value_bytes as nat,
    )
}

/// The `bodyValues` property: an object from part id to body value, or null
/// when no part qualifies.
pub open spec fn body_values_spec(d: MailDocument, args: MailGetArguments) -> Json {
    let ids = value_parts(value_candidates(d, args), d.data.mime_parts@);
    if ids.len() == 0 {
        Json::Null
    } else {
        Json::Object(ids.map_values(|id: usize| (dec_digits(id as nat), body_value_of(d, id, args))))
    }
}

fn choose_value_parts(cands: &Vec<usize>, mime_parts: &Vec<MimePart>, chosen: &mut Vec<usize>)
    requires
        forall|j: int| 0 <= j < old(chosen)@.len() ==> old(chosen)@[j] + 1 < mime_parts@.len(),
    ensures
        forall|j: int| 0 <= j < final(chosen)@.len() ==> final(chosen)@[j] + 1 < mime_parts@.len(),
        forall|base: Seq<usize>|
            #![trigger value_parts(base + cands@, mime_parts@)]
            value_parts(base, mime_parts@) == old(chosen)@ ==> value_parts(base + cands@, mime_parts@)
                == final(chosen)@,
{
    let ghost start = chosen@;
    let mut i: usize = 0;
    while i < cands.len()
        invariant
            i <= cands@.len(),
            forall|j: int| 0 <= j < chosen@.len() ==> chosen@[j] + 1 < mime_parts@.len(),
            forall|base: Seq<usize>|
                #![trigger value_parts(base + cands@.take(i as int), mime_parts@)]
                value_parts(base, mime_parts@) == start ==> value_parts(base + cands@.take(i as int), mime_parts@)
                    == chosen@,
        decreases cands@.len() - i,
    {
        let id = cands[i];
        if mime_parts.len() > 0 && id < mime_parts.len() - 1 {
            let mp = &mime_parts[id + 1];
            if mp.mime_type == MimePartType::Text || mp.mime_type == MimePartType::Html {
                let mut seen = false;
                let mut j: usize = 0;
                let mlen = mime_parts.len();
                while j < chosen.len()
                    invariant
                        j <= chosen@.len(),
                        mlen == mime_parts@.len(),
                        mp == mime_parts@[id + 1],
                        id + 1 < mime_parts@.len(),
                        forall|k: int| 0 <= k < chosen@.len() ==> chosen@[k] + 1 < mime_parts@.len(),
                        seen == exists|k: int| 0 <= k < j && mime_parts@[chosen@[k] + 1].blob_index == mime_parts@[id + 1].blob_index,
                    decreases chosen@.len() - j,
                {
                    assert(chosen@[j as int] + 1 < mime_parts@.len());
                    if mime_parts[chosen[j] + 1].blob_index == mp.blob_index {
                        seen = true;
                    }
                    j += 1;
                }
                let ghost prev = chosen@;
                if !seen {
                    chosen.push(id);
                }
                proof {
                    assert forall|base: Seq<usize>| #![trigger value_parts(base + cands@.take(i + 1), mime_parts@)]
                        value_parts(base, mime_parts@) == start implies value_parts(base + cands@.take(i + 1), mime_parts@) == chosen@ by {
                        let x = base + cands@.take(i + 1);
                        assert(x.drop_last() =~= base + cands@.take(i as int));
                        assert(x.last() == id);
                        assert(value_parts(x.drop_last(), mime_parts@) == prev);
                    }
                }
            } else {
                proof {
                    assert forall|base: Seq<usize>| #![trigger value_parts(base + cands@.take(i + 1), mime_parts@)]
                        value_parts(base, mime_parts@) == start implies value_parts(base + cands@.take(i + 1), mime_parts@) == chosen@ by {
                        let x = base + cands@.take(i + 1);
                        assert(x.drop_last() =~= base + cands@.take(i as int));
                        assert(x.last() == id);
                        assert(value_parts(base + cands@.take(i as int), mime_parts@) == chosen@);
                    }
                }
            }
        } else {
            proof {
                assert forall|base: Seq<usize>| #![trigger value_parts(base + cands@.take(i + 1), mime_parts@)]
                    value_parts(base, mime_parts@) == start implies value_parts(base + cands@.take(i + 1), mime_parts@) == chosen@ by {
                    let x = base + cands@.take(i + 1);
                    assert(x.drop_last() =~= base + cands@.take(i as int));
                    assert(x.last() == id);
                    assert(value_parts(base + cands@.take(i as int), mime_parts@) == chosen@);
                }
            }
        }
        i += 1;
    }
    proof {
        assert(cands@.take(i as int) =~= cands@);
    }
}

pub fn body_values(d: &MailDocument, arguments: &MailGetArguments) -> (r: JSONValue)
    requires
        document_complete(*d),
    ensures
        r.json() == body_values_spec(*d, *arguments),
{
    let data = &d.data;
    let mut chosen: Vec<usize> = Vec::new();
    let empty: Vec<usize> = Vec::new();
    proof {
        assert(value_parts(Seq::<usize>::empty(), data.mime_parts@) == chosen@);
    }
    if arguments.fetch_all_body_values || arguments.fetch_text_body_values {
        choose_value_parts(&data.text_body, &data.mime_parts, &mut chosen);
        proof {
            assert(Seq::<usize>::empty() + data.text_body@ =~= data.text_body@);
        }
    } else {
        proof {
            assert(Seq::<usize>::empty() + Seq::<usize>::empty() =~= Seq::<usize>::empty());
        }
    }
    let ghost first = if arguments.fetch_all_body_values || arguments.fetch_text_body_values {
        data.text_body@
    } else {
        Seq::<usize>::empty()
    };
    assert(value_parts(first, data.mime_parts@) == chosen@);
    if arguments.fetch_all_body_values || arguments.fetch_html_body_values {
        choose_value_parts(&data.html_body, &data.mime_parts, &mut chosen);
    } else {
        assert(first + Seq::<usize>::empty() =~= first);
    }
    assert(value_candidates(*d, *arguments) == first + (if arguments.fetch_all_body_values || arguments.fetch_html_body_values {
        data.html_body@
    } else {
        Seq::<usize>::empty()
    }));
    assert(chosen@ == value_parts(value_candidates(*d, *arguments), data.mime_parts@));
    if chosen.len() == 0 {
        return JSONValue::Null;
    }
    let limit = if arguments.max_body_value_bytes == 0 {
        None
    } else if arguments.max_body_value_bytes <= usize::MAX - BODY_VALUE_SLACK {
        Some(arguments.max_body_value_bytes + BODY_VALUE_SLACK)
    } else {
        Some(usize::MAX)
    };
    let ghost ids = chosen@;
    let mut members: Vec<(String, JSONValue)> = Vec::new();
    let mut i: usize = 0;
    let mlen = d.data.mime_parts.len();
    while i < chosen.len()
        invariant
            i <= chosen@.len(),
            mlen == d.data.mime_parts@.len(),
            match limit {
                None => arguments.max_body_value_bytes == 0,
                Some(n) => arguments.max_body_value_bytes > 0 && (n == arguments.max_body_value_bytes + BODY_VALUE_SLACK || (n == usize::MAX && arguments.max_body_value_bytes + BODY_VALUE_SLACK > usize::MAX)),
            },
            ids == chosen@,
            document_complete(*d),
            forall|j: int| 0 <= j < chosen@.len() ==> chosen@[j] + 1 < d.data.mime_parts@.len(),
            json_members(members@) == ids.take(i as int).map_values(|id: usize| (dec_digits(id as nat), body_value_of(*d, id, *arguments))),
        decreases chosen@.len() - i,
    {
        let id = chosen[i];
        assert(chosen@[i as int] + 1 < d.data.mime_parts@.len());
        let mp = &d.data.mime_parts[id + 1];
        assert(document_complete(*d) ==> mp.blob_index < d.parts@.len());
        // A stored part is never longer than `usize::MAX` bytes.
        let part_len = d.parts[mp.blob_index as usize].len();
        let bytes = read_part(d, mp.blob_index, limit);
        proof {
            assert(part_len == d.parts@[mp.blob_index as int]@.len());
            assert(read_prefix(d.parts@[mp.blob_index as int]@, match limit {
                Some(n) => Some(n as nat),
                None => None,
            }) == read_prefix(d.parts@[mp.blob_index as int]@, value_read_limit(arguments.max_body_value_bytes)));
        }
        let text = lossy_string(bytes);
        let value = add_body_value(mp, text, arguments);
        let key = decimal_string(id);
        let ghost before = members@;
        members.push((key, value));
        proof {
            assert(json_members(members@) =~= json_members(before).push((key@, value.json())));
            assert(json_members(members@) =~= ids.take(i + 1).map_values(|id: usize| (dec_digits(id as nat), body_value_of(*d, id, *arguments))));
        }
        i += 1;
    }
    proof {
        assert(ids.take(i as int) =~= ids);
        lemma_object_json(members);
    }
    JSONValue::Object(members)
}


/// An Email/get request.
#[derive(Debug)]
pub struct GetRequest {
    pub account_id: u32,
    pub ids: Option<Vec<JMAPId>>,
    pub properties: Option<Vec<MailProperties>>,
    pub arguments: Vec<(String, JSONValue)>,
}

/// The properties returned when a request names none.
pub open spec fn default_property_list() -> Seq<MailProperties> {
    seq![
        MailProperties::Id,
        MailProperties::BlobId,
        MailProperties::ThreadId,
        MailProperties::MailboxIds,
        MailProperties::Keywords,
        MailProperties::Size,
        MailProperties::ReceivedAt,
        MailProperties::MessageId,
        MailProperties::InReplyTo,
        MailProperties::References,
        MailProperties::Sender,
        MailProperties::From,
        MailProperties::To,
        MailProperties::Cc,
        MailProperties::Bcc,
        MailProperties::ReplyTo,
        MailProperties::Subject,
        MailProperties::SentAt,
        MailProperties::HasAttachment,
        MailProperties::Preview,
        MailProperties::BodyValues,
        MailProperties::TextBody,
        MailProperties::HtmlBody,
        MailProperties::Attachments,
    ]
}

pub fn default_properties() -> (r: Vec<MailProperties>)
    ensures
        r@ == default_property_list(),
{
    let r = vec![
        MailProperties::Id,
        MailProperties::BlobId,
        MailProperties::ThreadId,
        MailProperties::MailboxIds,
        MailProperties::Keywords,
        MailProperties::Size,
        MailProperties::ReceivedAt,
        MailProperties::MessageId,
        MailProperties::InReplyTo,
        MailProperties::References,
        MailProperties::Sender,
        MailProperties::From,
        MailProperties::To,
        MailProperties::Cc,
        MailProperties::Bcc,
        MailProperties::ReplyTo,
        MailProperties::Subject,
        MailProperties::SentAt,
        MailProperties::HasAttachment,
        MailProperties::Preview,
        MailProperties::BodyValues,
        MailProperties::TextBody,
        MailProperties::HtmlBody,
        MailProperties::Attachments,
    ];
    assert(r@ =~= default_property_list());
    r
}

fn clone_stored_headers(hs: &Vec<StoredHeader>) -> (r: Vec<StoredHeader>)
    ensures
        r@.len() == hs@.len(),
        forall|i: int|
            0 <= i < hs@.len() ==> (#[trigger] r@[i]).header == hs@[i].header && r@[i].form
                == hs@[i].form && r@[i].all == hs@[i].all && r@[i].value.json() == hs@[i].value.json(),
{
    let mut out: Vec<StoredHeader> = Vec::new();
    let mut i: usize = 0;
    while i < hs.len()
        invariant
            i <= hs@.len(),
            out@.len() == i,
            forall|k: int|
                0 <= k < i ==> (#[trigger] out@[k]).header == hs@[k].header && out@[k].form
                    == hs@[k].form && out@[k].all == hs@[k].all && out@[k].value.json()
                    == hs@[k].value.json(),
        decreases hs@.len() - i,
    {
        let h = &hs[i];
        out.push(StoredHeader { header: h.header, form: h.form, all: h.all, value: h.value.duplicate() });
        i += 1;
    }
    out
}

fn same_header_name(a: &HeaderName, b: &HeaderName) -> (r: bool)
    ensures
        r == (crate::mail_get::header_name_of(*a) == crate::mail_get::header_name_of(*b)),
{
    let x = header_name_string(a);
    let y = header_name_string(b);
    x == y
}

/// An object with `true` under each id; null when there are none.
pub open spec fn id_set_spec(ids: Seq<u32>) -> Json {
    if ids.len() == 0 {
        Json::Null
    } else {
        Json::Object(ids.map_values(|i: u32| (hex_digits(i as nat, 16), Json::Bool(true))))
    }
}

/// An object with `true` under each keyword; null when there are none.
pub open spec fn keyword_set_spec(keywords: Seq<String>) -> Json {
    if keywords.len() == 0 {
        Json::Null
    } else {
        Json::Object(keywords.map_values(|k: String| (k@, Json::Bool(true))))
    }
}

fn id_set(ids: &Vec<u32>) -> (r: JSONValue)
    ensures
        r.json() == id_set_spec(ids@),
{
    if ids.len() == 0 {
        return JSONValue::Null;
    }
    let ghost target = ids@.map_values(|i: u32| (hex_digits(i as nat, 16), Json::Bool(true)));
    let mut members: Vec<(String, JSONValue)> = Vec::new();
    let mut i: usize = 0;
    while i < ids.len()
        invariant
            i <= ids@.len(),
            target == ids@.map_values(|i: u32| (hex_digits(i as nat, 16), Json::Bool(true))),
            json_members(members@) == target.take(i as int),
        decreases ids@.len() - i,
    {
        let key = jmap_id_to_string(ids[i] as u64);
        let ghost before = members@;
        let entry = (key, JSONValue::Bool(true));
        members.push(entry);
        proof {
            assert(json_members(members@) =~= json_members(before).push((entry.0@, entry.1.json())));
            assert(target[i as int] == (entry.0@, entry.1.json()));
            assert(json_members(members@) =~= target.take(i + 1));
        }
        i += 1;
    }
    proof {
        assert(target.take(i as int) =~= target);
        lemma_object_json(members);
    }
    JSONValue::Object(members)
}

fn keyword_set(keywords: &Vec<String>) -> (r: JSONValue)
    ensures
        r.json() == keyword_set_spec(keywords@),
{
    if keywords.len() == 0 {
        return JSONValue::Null;
    }
    let ghost target = keywords@.map_values(|k: String| (k@, Json::Bool(true)));
    let mut members: Vec<(String, JSONValue)> = Vec::new();
    let mut i: usize = 0;
    while i < keywords.len()
        invariant
            i <= keywords@.len(),
            target == keywords@.map_values(|k: String| (k@, Json::Bool(true))),
            json_members(members@) == target.take(i as int),
        decreases keywords@.len() - i,
    {
        let key = keywords[i].clone();
        let ghost before = members@;
        let entry = (key, JSONValue::Bool(true));
        members.push(entry);
        proof {
            assert(json_members(members@) =~= json_members(before).push((entry.0@, entry.1.json())));
            assert(target[i as int] == (entry.0@, entry.1.json()));
            assert(json_members(members@) =~= target.take(i + 1));
        }
        i += 1;
    }
    proof {
        assert(target.take(i as int) =~= target);
        lemma_object_json(members);
    }
    JSONValue::Object(members)
}

/// The stored header values of a message as the projection uses them up.
pub struct HeaderState {
    pub keys: Seq<(RfcHeader, MailHeaderForm, bool)>,
    pub values: Seq<Json>,
}

pub open spec fn header_state(hs: Seq<StoredHeader>) -> HeaderState {
    HeaderState { keys: stored_keys(hs), values: hs.map_values(|h: StoredHeader| h.value.json()) }
}

/// A standard header asked in a form: its value (`None` when the form is
/// not allowed), and the stored values left.
pub open spec fn rfc_step(st: HeaderState, header: RfcHeader, form: MailHeaderForm, all: bool) -> (
    Option<Json>,
    HeaderState,
) {
    match rfc_lookup(st.keys, header, form, all) {
        Some((i, c, g)) => (
            rfc_transform(header, st.values[i], form, c, g, all),
            HeaderState { keys: st.keys.remove(i), values: st.values.remove(i) },
        ),
        None => (rfc_transform(header, Json::Null, form, false, false, all), st),
    }
}

/// The raw bytes a request reads of a message.
pub open spec fn raw_view(d: MailDocument, fetch: FetchRaw) -> Option<Seq<u8>> {
    match fetch {
        FetchRaw::All => Some(d.raw@),
        FetchRaw::Header => Some(
            d.raw@.take(
                if d.outline.body_offset < d.raw@.len() {
                    d.outline.body_offset as int
                } else {
                    d.raw@.len() as int
                },
            ),
        ),
        FetchRaw::Nothing => None,
    }
}

pub open spec fn outline_view(d: MailDocument, fetch: FetchRaw) -> Option<MessageOutline> {
    match fetch {
        FetchRaw::Nothing => None,
        _ => Some(d.outline),
    }
}

/// The first header entry with this name.
pub open spec fn find_header(entries: Seq<(HeaderName, Vec<HeaderOffset>)>, name: Seq<char>, i: int) -> Option<int>
    decreases entries.len() - i,
{
    if i < 0 || i >= entries.len() {
        None
    } else if crate::mail_get::header_name_of(entries[i].0) == name {
        Some(i)
    } else {
        find_header(entries, name, i + 1)
    }
}

/// A header read from the raw message, when the request fetched it.
pub open spec fn raw_property(d: MailDocument, fetch: FetchRaw, h: MailHeaderProperty) -> Json {
    match (outline_view(d, fetch), raw_view(d, fetch)) {
        (Some(o), Some(r)) => if o.headers@.len() > 0 {
            match find_header(o.headers@[0]@, crate::mail_get::header_name_of(h.header), 0) {
                Some(k) => crate::mail_get::raw_header_spec(o.headers@[0]@[k].1@, r, h.form, h.all),
                None => Json::Null,
            }
        } else {
            Json::Null
        },
        _ => Json::Null,
    }
}

pub open spec fn base_blob(account_id: u32, d: MailDocument) -> BlobId {
    BlobId::Owned(crate::blob::OwnedBlob { account_id, collection: COLLECTION_MAIL, document_id: d.document_id, blob_index: 0 })
}

pub open spec fn shortcut(p: MailProperties) -> Option<(RfcHeader, MailHeaderForm)> {
    match p {
        MailProperties::MessageId => Some((RfcHeader::MessageId, MailHeaderForm::MessageIds)),
        MailProperties::InReplyTo => Some((RfcHeader::InReplyTo, MailHeaderForm::MessageIds)),
        MailProperties::References => Some((RfcHeader::References, MailHeaderForm::MessageIds)),
        MailProperties::Sender => Some((RfcHeader::Sender, MailHeaderForm::Addresses)),
        MailProperties::From => Some((RfcHeader::From, MailHeaderForm::Addresses)),
        MailProperties::To => Some((RfcHeader::To, MailHeaderForm::Addresses)),
        MailProperties::Cc => Some((RfcHeader::Cc, MailHeaderForm::Addresses)),
        MailProperties::Bcc => Some((RfcHeader::Bcc, MailHeaderForm::Addresses)),
        MailProperties::ReplyTo => Some((RfcHeader::ReplyTo, MailHeaderForm::Addresses)),
        MailProperties::Subject => Some((RfcHeader::Subject, MailHeaderForm::Text)),
        MailProperties::SentAt => Some((RfcHeader::Date, MailHeaderForm::Date)),
        _ => None,
    }
}

/// The value of one property of a message, and the stored header values
/// left; `None` for a header form JMAP does not allow or a missing body part.
pub open spec fn property_value(
    p: MailProperties,
    d: MailDocument,
    account_id: u32,
    id: JMAPId,
    args: MailGetArguments,
    fetch: FetchRaw,
    st: HeaderState,
) -> (Option<Json>, HeaderState) {
    let raw = raw_view(d, fetch);
    let outline = outline_view(d, fetch);
    let base = base_blob(account_id, d);
    match shortcut(p) {
        Some((h, f)) => rfc_step(st, h, f, false),
        None => match p {
            MailProperties::Id => (Some(Json::Str(hex_digits(id as nat, 16))), st),
            MailProperties::BlobId => (
                Some(Json::Str(crate::blob::blob_id_string(BlobId::Owned(crate::blob::OwnedBlob {
                    account_id,
                    collection: COLLECTION_MAIL,
                    document_id: d.document_id,
                    blob_index: MESSAGE_RAW,
                })))),
                st,
            ),
            MailProperties::ThreadId => (Some(Json::Str(hex_digits(prefix_of(id) as nat, 16))), st),
            MailProperties::MailboxIds => (Some(id_set_spec(d.mailboxes@)), st),
            MailProperties::Keywords => (Some(keyword_set_spec(d.keywords@)), st),
            MailProperties::Size => (Some(d.data.size.json()), st),
            MailProperties::ReceivedAt => (Some(d.data.received_at.json()), st),
            MailProperties::HasAttachment => (Some(d.data.has_attachment.json()), st),
            MailProperties::Header(h) => if h.form == MailHeaderForm::Raw || h.header is Other {
                (Some(raw_property(d, fetch, h)), st)
            } else {
                match h.header {
                    HeaderName::Rfc(r) => rfc_step(st, r, h.form, h.all),
                    HeaderName::Other(_) => (Some(Json::Null), st),
                }
            },
            MailProperties::TextBody => (Some(Json::Array(body_parts_spec(d.data.text_body@, d.data.mime_parts@, args.body_properties@, raw, outline, base))), st),
            MailProperties::HtmlBody => (Some(Json::Array(body_parts_spec(d.data.html_body@, d.data.mime_parts@, args.body_properties@, raw, outline, base))), st),
            MailProperties::Attachments => (Some(Json::Array(body_parts_spec(d.data.attachments@, d.data.mime_parts@, args.body_properties@, raw, outline, base))), st),
            MailProperties::Preview => (preview_spec(d), st),
            MailProperties::BodyValues => (Some(body_values_spec(d, args)), st),
            MailProperties::BodyStructure => (
                Some(match body_structure_spec(d.outline, d.data.mime_parts@, args.body_properties@, raw, base) {
                    Some(v) => v,
                    None => Json::Null,
                }),
                st,
            ),
            _ => (None, st),
        },
    }
}

/// The members of a message's object from property `i` on: each property
/// once, in request order, properties with a null value left out. `None`
/// when a property has no value.
pub open spec fn email_members(
    props: Seq<MailProperties>,
    i: int,
    members: Seq<(Seq<char>, Json)>,
    d: MailDocument,
    account_id: u32,
    id: JMAPId,
    args: MailGetArguments,
    fetch: FetchRaw,
    st: HeaderState,
) -> Option<Seq<(Seq<char>, Json)>>
    decreases props.len() - i,
{
    if i < 0 || i >= props.len() {
        Some(members)
    } else {
        let key = crate::mail_get::property_name(props[i]);
        if has_key(members, key) {
            email_members(props, i + 1, members, d, account_id, id, args, fetch, st)
        } else {
            match property_value(props[i], d, account_id, id, args, fetch, st) {
                (Some(v), st2) => email_members(
                    props,
                    i + 1,
                    if v is Null {
                        members
                    } else {
                        members.push((key, v))
                    },
                    d,
                    account_id,
                    id,
                    args,
                    fetch,
                    st2,
                ),
                (None, _) => None,
            }
        }
    }
}

/// The object of a message for the requested properties.
pub open spec fn email_object(
    props: Seq<MailProperties>,
    d: MailDocument,
    account_id: u32,
    id: JMAPId,
    args: MailGetArguments,
    fetch: FetchRaw,
) -> Option<Json> {
    match email_members(props, 0, Seq::empty(), d, account_id, id, args, fetch, header_state(d.data.headers@)) {
        Some(ms) => Some(Json::Object(ms)),
        None => None,
    }
}

proof fn lemma_find_key_range(
    keys: Seq<(RfcHeader, MailHeaderForm, bool)>,
    key: (RfcHeader, MailHeaderForm, bool),
    i: int,
)
    requires
        0 <= i,
    ensures
        match crate::mail::find_key(keys, key, i) {
            Some(k) => i <= k < keys.len() && keys[k] == key,
            None => true,
        },
    decreases keys.len() - i,
{
    if i < keys.len() && keys[i] != key {
        lemma_find_key_range(keys, key, i + 1);
    }
}

proof fn lemma_rfc_lookup_range(
    keys: Seq<(RfcHeader, MailHeaderForm, bool)>,
    header: RfcHeader,
    form: MailHeaderForm,
    all: bool,
)
    ensures
        match rfc_lookup(keys, header, form, all) {
            Some((i, _, _)) => 0 <= i < keys.len(),
            None => true,
        },
{
    lemma_find_key_range(keys, (header, MailHeaderForm::Addresses, false), 0);
    lemma_find_key_range(keys, (header, MailHeaderForm::Addresses, true), 0);
    lemma_find_key_range(keys, (header, MailHeaderForm::GroupedAddresses, false), 0);
    lemma_find_key_range(keys, (header, MailHeaderForm::GroupedAddresses, true), 0);
    lemma_find_key_range(keys, (header, form, all), 0);
    lemma_find_key_range(keys, (header, form, !all), 0);
}

/// A standard header asked in a form, from the stored values still unused.
fn rfc_property(
    headers: &mut Vec<StoredHeader>,
    header: RfcHeader,
    form: MailHeaderForm,
    all: bool,
) -> (r: Result<JSONValue, JMAPError>)
    ensures
        match rfc_step(header_state(old(headers)@), header, form, all) {
            (Some(v), st) => r is Ok && r->Ok_0.json() == v && header_state(final(headers)@) == st,
            (None, _) => r is Err && r->Err_0 is InvalidArguments,
        },
{
    let ghost hs = headers@;
    let r = add_rfc_header(headers, header, form, all);
    proof {
        lemma_rfc_lookup_range(stored_keys(hs), header, form, all);
        match rfc_lookup(stored_keys(hs), header, form, all) {
            Some((i, _, _)) => {
                assert(stored_keys(hs.remove(i)) =~= stored_keys(hs).remove(i));
                assert(hs.remove(i).map_values(|h: StoredHeader| h.value.json()) =~= hs.map_values(
                    |h: StoredHeader| h.value.json(),
                ).remove(i));
                assert(header_state(hs).values[i] == hs[i].value.json());
            },
            None => {},
        }
    }
    r
}

/// The object of one message for the requested properties: each property
/// once, in request order, properties without a value left out.
fn project_email(
    doc: &MailDocument,
    account_id: u32,
    jmap_id: JMAPId,
    properties: &Vec<MailProperties>,
    arguments: &MailGetArguments,
    fetch_raw: FetchRaw,
) -> (r: Result<JSONValue, JMAPError>)
    requires
        document_complete(*doc),
    ensures
        match email_object(properties@, *doc, account_id, jmap_id, *arguments, fetch_raw) {
            Some(v) => r is Ok && r->Ok_0.json() == v,
            None => r is Err && (r->Err_0 is InvalidArguments || r->Err_0 == JMAPError::Store(StoreError::DataCorruption)),
        },
{
    let mut headers = clone_stored_headers(&doc.data.headers);
    proof {
        assert(stored_keys(headers@) =~= stored_keys(doc.data.headers@));
        assert(headers@.map_values(|h: StoredHeader| h.value.json()) =~= doc.data.headers@.map_values(|h: StoredHeader| h.value.json()));
        assert(header_state(headers@) == header_state(doc.data.headers@));
    }
    let message_raw: Option<&[u8]> = match fetch_raw {
        FetchRaw::All => Some(doc.raw.as_slice()),
        FetchRaw::Header => {
            let end = if doc.outline.body_offset < doc.raw.len() {
                doc.outline.body_offset
            } else {
                doc.raw.len()
            };
            let r = vstd::slice::slice_subrange(doc.raw.as_slice(), 0, end);
            assert(r@ =~= doc.raw@.take(end as int));
            Some(r)
        },
        FetchRaw::Nothing => None,
    };
    let message_outline: Option<&MessageOutline> = match fetch_raw {
        FetchRaw::Nothing => None,
        _ => Some(&doc.outline),
    };
    let ghost raw_v = match message_raw {
        Some(b) => Some(b@),
        None => None,
    };
    let ghost outline_v = match message_outline {
        Some(o) => Some(*o),
        None => None::<MessageOutline>,
    };
    assert(raw_v == raw_view(*doc, fetch_raw));
    assert(outline_v == outline_view(*doc, fetch_raw));
    let document_id = doc.document_id;
    let base_blob_id = BlobId::new_owned(account_id, COLLECTION_MAIL, document_id, 0);
    let ghost total = email_members(properties@, 0, Seq::empty(), *doc, account_id, jmap_id, *arguments, fetch_raw, header_state(doc.data.headers@));
    let mut result: Vec<(String, JSONValue)> = Vec::new();
    assert(json_members(result@) =~= Seq::<(Seq<char>, Json)>::empty());
    let mut i: usize = 0;
    while i < properties.len()
        invariant
            i <= properties@.len(),
            document_complete(*doc),
            document_id == doc.document_id,
            base_blob_id == base_blob(account_id, *doc),
            raw_v == raw_view(*doc, fetch_raw),
            outline_v == outline_view(*doc, fetch_raw),
            raw_v == match message_raw {
                Some(b) => Some(b@),
                None => None,
            },
            outline_v == match message_outline {
                Some(o) => Some(*o),
                None => None::<MessageOutline>,
            },
            total == email_members(properties@, 0, Seq::empty(), *doc, account_id, jmap_id, *arguments, fetch_raw, header_state(doc.data.headers@)),
            total == email_members(properties@, i as int, json_members(result@), *doc, account_id, jmap_id, *arguments, fetch_raw, header_state(headers@)),
        decreases properties@.len() - i,
    {
        let property = &properties[i];
        let key = property.name();
        if !has_member(&result, &key) {
            let ghost st = header_state(headers@);
            let ghost expected = property_value(*property, *doc, account_id, jmap_id, *arguments, fetch_raw, st);
            let outcome: Result<JSONValue, JMAPError> = match property {
                MailProperties::Id => Ok(JSONValue::String(jmap_id_to_string(jmap_id))),
                MailProperties::BlobId => Ok(JSONValue::String(
                    BlobId::new_owned(account_id, COLLECTION_MAIL, document_id, MESSAGE_RAW).to_jmap_string(),
                )),
                MailProperties::ThreadId => Ok(JSONValue::String(jmap_id_to_string(get_prefix_id(jmap_id) as u64))),
                MailProperties::MailboxIds => Ok(id_set(&doc.mailboxes)),
                MailProperties::Keywords => Ok(keyword_set(&doc.keywords)),
                MailProperties::Size => Ok(doc.data.size.duplicate()),
                MailProperties::ReceivedAt => Ok(doc.data.received_at.duplicate()),
                MailProperties::HasAttachment => Ok(doc.data.has_attachment.duplicate()),
                MailProperties::MessageId => rfc_property(&mut headers, RfcHeader::MessageId, MailHeaderForm::MessageIds, false),
                MailProperties::InReplyTo => rfc_property(&mut headers, RfcHeader::InReplyTo, MailHeaderForm::MessageIds, false),
                MailProperties::References => rfc_property(&mut headers, RfcHeader::References, MailHeaderForm::MessageIds, false),
                MailProperties::Sender => rfc_property(&mut headers, RfcHeader::Sender, MailHeaderForm::Addresses, false),
                MailProperties::From => rfc_property(&mut headers, RfcHeader::From, MailHeaderForm::Addresses, false),
                MailProperties::To => rfc_property(&mut headers, RfcHeader::To, MailHeaderForm::Addresses, false),
                MailProperties::Cc => rfc_property(&mut headers, RfcHeader::Cc, MailHeaderForm::Addresses, false),
                MailProperties::Bcc => rfc_property(&mut headers, RfcHeader::Bcc, MailHeaderForm::Addresses, false),
                MailProperties::ReplyTo => rfc_property(&mut headers, RfcHeader::ReplyTo, MailHeaderForm::Addresses, false),
                MailProperties::Subject => rfc_property(&mut headers, RfcHeader::Subject, MailHeaderForm::Text, false),
                MailProperties::SentAt => rfc_property(&mut headers, RfcHeader::Date, MailHeaderForm::Date, false),
                MailProperties::Header(h) => {
                    let from_raw = h.form == MailHeaderForm::Raw || match &h.header {
                        HeaderName::Other(_) => true,
                        HeaderName::Rfc(_) => false,
                    };
                    if from_raw {
                        Ok(raw_header_property(message_outline, message_raw, h))
                    } else {
                        match &h.header {
                            HeaderName::Rfc(r) => rfc_property(&mut headers, *r, h.form, h.all),
                            HeaderName::Other(_) => Ok(JSONValue::Null),
                        }
                    }
                },
                MailProperties::TextBody => Ok(add_body_parts(&doc.data.text_body, &doc.data.mime_parts, &arguments.body_properties, message_raw, message_outline, &base_blob_id)),
                MailProperties::HtmlBody => Ok(add_body_parts(&doc.data.html_body, &doc.data.mime_parts, &arguments.body_properties, message_raw, message_outline, &base_blob_id)),
                MailProperties::Attachments => Ok(add_body_parts(&doc.data.attachments, &doc.data.mime_parts, &arguments.body_properties, message_raw, message_outline, &base_blob_id)),
                MailProperties::Preview => message_preview(doc),
                MailProperties::BodyValues => Ok(body_values(doc, arguments)),
                MailProperties::BodyStructure => Ok(match add_body_structure(&doc.outline, &doc.data.mime_parts, &arguments.body_properties, message_raw, &base_blob_id) {
                    Some(v) => v,
                    None => JSONValue::Null,
                }),
            };
            let value = match outcome {
                Ok(v) => v,
                Err(e) => {
                    proof {
                        assert(expected.0 is None);
                        assert(email_members(properties@, i as int, json_members(result@), *doc, account_id, jmap_id, *arguments, fetch_raw, st) is None);
                    }
                    return Err(e);
                },
            };
            proof {
                assert(expected.0 == Some(value.json()));
                assert(expected.1 == header_state(headers@));
            }
            let is_null = match value {
                JSONValue::Null => true,
                _ => false,
            };
            if !is_null {
                let ghost before = result@;
                result.push((key, value));
                proof {
                    assert(json_members(result@) =~= json_members(before).push((key@, value.json())));
                }
            }
        }
        i += 1;
    }
    proof {
        lemma_object_json(result);
    }
    Ok(JSONValue::Object(result))
}

/// A header read from the raw header section, when the request fetched it.
fn raw_header_property(
    message_outline: Option<&MessageOutline>,
    message_raw: Option<&[u8]>,
    h: &MailHeaderProperty,
) -> (r: JSONValue)
    ensures
        r.json() == match (
            match message_outline {
                Some(o) => Some(*o),
                None => None::<MessageOutline>,
            },
            match message_raw {
                Some(b) => Some(b@),
                None => None,
            },
        ) {
            (Some(o), Some(raw)) => if o.headers@.len() > 0 {
                match find_header(o.headers@[0]@, crate::mail_get::header_name_of(h.header), 0) {
                    Some(k) => crate::mail_get::raw_header_spec(o.headers@[0]@[k].1@, raw, h.form, h.all),
                    None => Json::Null,
                }
            } else {
                Json::Null
            },
            _ => Json::Null,
        },
{
    match (message_outline, message_raw) {
        (Some(outline), Some(raw)) => {
            if outline.headers.len() > 0 {
                let top = &outline.headers[0];
                let ghost entries = top@;
                let ghost name = crate::mail_get::header_name_of(h.header);
                let mut k: usize = 0;
                assert(find_header(entries, name, 0) == find_header(entries, name, 0));
                while k < top.len() && !same_header_name(&top[k].0, &h.header)
                    invariant
                        k <= top@.len(),
                        entries == top@,
                        name == crate::mail_get::header_name_of(h.header),
                        find_header(entries, name, 0) == find_header(entries, name, k as int),
                    decreases top@.len() - k,
                {
                    k += 1;
                }
                if k < top.len() {
                    add_raw_header(top[k].1.as_slice(), raw, h.form, h.all)
                } else {
                    JSONValue::Null
                }
            } else {
                JSONValue::Null
            }
        },
        _ => JSONValue::Null,
    }
}

/// The part object for MIME part `k` (entry `k` of the MIME parts and of the
/// outline's headers).
pub open spec fn structure_part(
    part_id: Option<usize>,
    k: int,
    outline: MessageOutline,
    mime_parts: Seq<MimePart>,
    props: Seq<MailBodyProperties>,
    raw: Option<Seq<u8>>,
    base: BlobId,
) -> Seq<(Seq<char>, Json)> {
    body_part_spec(props, part_id, mime_parts[k], raw, part_headers(Some(outline), k), base)
}

/// A part object with the `subParts` member added.
pub open spec fn with_subparts(part: Seq<(Seq<char>, Json)>, subparts: Seq<Json>) -> Json {
    Json::Object(part.push(("subParts"@, Json::Array(subparts))))
}

/// A nested structure node: a leaf part, or a multipart with its children.
/// `None` when a part it names is missing.
pub open spec fn structure_node(
    s: MessageStructure,
    outline: MessageOutline,
    mime_parts: Seq<MimePart>,
    props: Seq<MailBodyProperties>,
    raw: Option<Seq<u8>>,
    base: BlobId,
) -> Option<Option<Json>>
    decreases s, 0nat,
{
    match s {
        MessageStructure::Part(id) => if id + 1 < mime_parts.len() {
            Some(Some(Json::Object(structure_part(Some(id), id + 1, outline, mime_parts, props, raw, base))))
        } else {
            None
        },
        MessageStructure::MultiPart(id, list) => if id + 1 < mime_parts.len() {
            match structure_children(list, 0, outline, mime_parts, props, raw, base) {
                Some(children) => Some(
                    Some(
                        with_subparts(
                            structure_part(None, id + 1, outline, mime_parts, props, raw, base),
                            children,
                        ),
                    ),
                ),
                None => None,
            }
        } else {
            None
        },
        // A list nested in a list adds nothing.
        MessageStructure::List(_) => Some(None),
    }
}

/// The objects of the children from index `i` on.
pub open spec fn structure_children(
    list: Vec<MessageStructure>,
    i: int,
    outline: MessageOutline,
    mime_parts: Seq<MimePart>,
    props: Seq<MailBodyProperties>,
    raw: Option<Seq<u8>>,
    base: BlobId,
) -> Option<Seq<Json>>
    decreases list, list@.len() - i,
{
    if i < 0 || i >= list@.len() {
        Some(Seq::empty())
    } else {
        match structure_node(list[i], outline, mime_parts, props, raw, base) {
            Some(first) => match structure_children(list, i + 1, outline, mime_parts, props, raw, base) {
                Some(rest) => Some(
                    match first {
                        Some(j) => seq![j] + rest,
                        None => rest,
                    },
                ),
                None => None,
            },
            None => None,
        }
    }
}

/// The `bodyStructure` of a message: a single part, or the message's own
/// part with the tree below it in `subParts`.
pub open spec fn body_structure_spec(
    outline: MessageOutline,
    mime_parts: Seq<MimePart>,
    props: Seq<MailBodyProperties>,
    raw: Option<Seq<u8>>,
    base: BlobId,
) -> Option<Json> {
    match outline.body_structure {
        MessageStructure::Part(id) => if id + 1 < mime_parts.len() {
            Some(Json::Object(structure_part(Some(id), id + 1, outline, mime_parts, props, raw, base)))
        } else {
            None
        },
        MessageStructure::List(list) => if mime_parts.len() > 0 {
            match structure_children(list, 0, outline, mime_parts, props, raw, base) {
                Some(children) => Some(
                    with_subparts(structure_part(None, 0, outline, mime_parts, props, raw, base), children),
                ),
                None => None,
            }
        } else {
            None
        },
        MessageStructure::MultiPart(id, list) => if mime_parts.len() > 0 && id + 1 < mime_parts.len() {
            match structure_children(list, 0, outline, mime_parts, props, raw, base) {
                Some(children) => Some(
                    with_subparts(
                        structure_part(None, 0, outline, mime_parts, props, raw, base),
                        seq![
                            with_subparts(
                                structure_part(None, id + 1, outline, mime_parts, props, raw, base),
                                children,
                            ),
                        ],
                    ),
                ),
                None => None,
            }
        } else {
            None
        },
    }
}

fn structure_part_exec(
    part_id: Option<usize>,
    k: usize,
    outline: &MessageOutline,
    mime_parts: &Vec<MimePart>,
    properties: &Vec<MailBodyProperties>,
    message_raw: Option<&[u8]>,
    base_blob_id: &BlobId,
) -> (r: Vec<(String, JSONValue)>)
    requires
        k < mime_parts@.len(),
        base_blob_id is Owned,
        forall|j: int|
            0 <= j < mime_parts@.len() ==> (#[trigger] mime_parts@[j]).blob_index + MESSAGE_PARTS
                <= u32::MAX,
    ensures
        json_members(r@) == structure_part(
            part_id,
            k as int,
            *outline,
            mime_parts@,
            properties@,
            match message_raw {
                Some(b) => Some(b@),
                None => None,
            },
            *base_blob_id,
        ),
{
    let headers = if k < outline.headers.len() {
        Some(&outline.headers[k])
    } else {
        None
    };
    assert(mime_parts@[k as int].blob_index + MESSAGE_PARTS <= u32::MAX);
    add_body_part(part_id, &mime_parts[k], properties, message_raw, headers, base_blob_id)
}

fn attach_subparts(mut part: Vec<(String, JSONValue)>, subparts: Vec<JSONValue>) -> (r: JSONValue)
    ensures
        r.json() == with_subparts(json_members(part@), json_seq(subparts@)),
{
    proof {
        lemma_array_json(subparts);
    }
    let ghost before = part@;
    let entry = ("subParts".to_owned(), JSONValue::Array(subparts));
    part.push(entry);
    proof {
        assert(json_members(part@) =~= json_members(before).push((entry.0@, entry.1.json())));
        lemma_object_json(part);
    }
    JSONValue::Object(part)
}

/// How much work a structure node is for the walk below.
pub open spec fn structure_size(s: MessageStructure) -> nat
    decreases s, 0nat,
{
    match s {
        MessageStructure::Part(_) => 1,
        MessageStructure::List(l) => 1 + list_size(l, 0),
        MessageStructure::MultiPart(_, l) => 2 + list_size(l, 0),
    }
}

pub open spec fn list_size(l: Vec<MessageStructure>, i: int) -> nat
    decreases l, l@.len() - i,
{
    if i < 0 || i >= l@.len() {
        0
    } else {
        structure_size(l[i]) + list_size(l, i + 1)
    }
}

/// One level of the walk: the children still to visit, the objects of those
/// visited, and the part object they belong to.
pub struct Frame {
    pub list: Vec<MessageStructure>,
    pub idx: int,
    pub acc: Seq<Json>,
    pub part: Seq<(Seq<char>, Json)>,
}

/// The context a walk works in.
pub struct WalkCtx {
    pub outline: MessageOutline,
    pub mime_parts: Seq<MimePart>,
    pub props: Seq<MailBodyProperties>,
    pub raw: Option<Seq<u8>>,
    pub base: BlobId,
}

pub open spec fn rest_of(f: Frame, c: WalkCtx) -> Option<Seq<Json>> {
    structure_children(f.list, f.idx, c.outline, c.mime_parts, c.props, c.raw, c.base)
}

/// What a level yields once all its children are known: its part object
/// with `subParts`; `extra` stands between the visited and the remaining.
pub open spec fn finish(f: Frame, extra: Seq<Json>, c: WalkCtx) -> Option<Json> {
    match rest_of(f, c) {
        Some(r) => Some(with_subparts(f.part, f.acc + extra + r)),
        None => None,
    }
}

/// The result of the whole walk, from the levels below and what the level
/// above them yields.
pub open spec fn unwind(lower: Seq<Frame>, v: Option<Json>, c: WalkCtx) -> Option<Json>
    decreases lower.len(),
{
    if lower.len() == 0 {
        v
    } else {
        match v {
            Some(j) => unwind(lower.drop_last(), finish(lower.last(), seq![j], c), c),
            None => None,
        }
    }
}

pub open spec fn walk_result(frames: Seq<Frame>, c: WalkCtx) -> Option<Json> {
    unwind(frames.drop_last(), finish(frames.last(), Seq::empty(), c), c)
}

pub open spec fn walk_work(frames: Seq<Frame>) -> nat
    decreases frames.len(),
{
    if frames.len() == 0 {
        0
    } else {
        walk_work(frames.drop_last()) + list_size(frames.last().list, frames.last().idx) + 1
    }
}

proof fn lemma_unwind_none(lower: Seq<Frame>, c: WalkCtx)
    ensures
        unwind(lower, None, c) is None,
    decreases lower.len(),
{
}

proof fn lemma_list_size_step(l: Vec<MessageStructure>, i: int)
    requires
        0 <= i < l@.len(),
    ensures
        list_size(l, i) == structure_size(l[i]) + list_size(l, i + 1),
{
}

type WalkFrame<'a> = (&'a Vec<MessageStructure>, usize, Vec<JSONValue>, Vec<(String, JSONValue)>);

pub open spec fn frame_model(f: (&Vec<MessageStructure>, usize, Vec<JSONValue>, Vec<(String, JSONValue)>)) -> Frame {
    Frame { list: *f.0, idx: f.1 as int, acc: json_seq(f.2@), part: json_members(f.3@) }
}

pub open spec fn frames_model(v: Seq<(&Vec<MessageStructure>, usize, Vec<JSONValue>, Vec<(String, JSONValue)>)>) -> Seq<Frame> {
    v.map_values(|f: (&Vec<MessageStructure>, usize, Vec<JSONValue>, Vec<(String, JSONValue)>)| frame_model(f))
}

/// The `bodyStructure` property; `None` when the outline names a part the
/// message does not have. The tree is walked with an explicit stack of
/// levels, so a deep tree cannot exhaust the call stack.
pub fn add_body_structure(
    message_outline: &MessageOutline,
    mime_parts: &Vec<MimePart>,
    properties: &Vec<MailBodyProperties>,
    message_raw: Option<&[u8]>,
    base_blob_id: &BlobId,
) -> (r: Option<JSONValue>)
    requires
        base_blob_id is Owned,
        forall|j: int|
            0 <= j < mime_parts@.len() ==> (#[trigger] mime_parts@[j]).blob_index + MESSAGE_PARTS
                <= u32::MAX,
    ensures
        match body_structure_spec(
            *message_outline,
            mime_parts@,
            properties@,
            match message_raw {
                Some(b) => Some(b@),
                None => None,
            },
            *base_blob_id,
        ) {
            Some(v) => r is Some && r->0.json() == v,
            None => r is None,
        },
{
    let ghost c = WalkCtx {
        outline: *message_outline,
        mime_parts: mime_parts@,
        props: properties@,
        raw: match message_raw {
            Some(b) => Some(b@),
            None => None,
        },
        base: *base_blob_id,
    };
    let ghost target = body_structure_spec(c.outline, c.mime_parts, c.props, c.raw, c.base);
    let no_children: Vec<MessageStructure> = Vec::new();
    let mut stack: Vec<WalkFrame> = Vec::new();
    match &message_outline.body_structure {
        MessageStructure::Part(id) => {
            if mime_parts.len() > 0 && *id < mime_parts.len() - 1 {
                let part = structure_part_exec(Some(*id), *id + 1, message_outline, mime_parts, properties, message_raw, base_blob_id);
                proof {
                    lemma_object_json(part);
                }
                return Some(JSONValue::Object(part));
            } else {
                return None;
            }
        },
        MessageStructure::List(list) => {
            if mime_parts.len() == 0 {
                return None;
            }
            let root = structure_part_exec(None, 0, message_outline, mime_parts, properties, message_raw, base_blob_id);
            stack.push((list, 0, Vec::new(), root));
            proof {
                let fs = frames_model(stack@);
                assert(fs.drop_last() =~= Seq::<Frame>::empty());
                assert(fs.last().acc =~= Seq::<Json>::empty());
                match rest_of(fs.last(), c) {
                    Some(r) => {
                        assert(fs.last().acc + Seq::<Json>::empty() + r =~= r);
                    },
                    None => {},
                }
                assert(fs.last().list == *list);
                assert(walk_result(fs, c) == finish(fs.last(), Seq::<Json>::empty(), c));
                assert(finish(fs.last(), Seq::<Json>::empty(), c) == target);
            }
        },
        MessageStructure::MultiPart(id, list) => {
            if !(mime_parts.len() > 0 && *id < mime_parts.len() - 1) {
                return None;
            }
            let root = structure_part_exec(None, 0, message_outline, mime_parts, properties, message_raw, base_blob_id);
            let inner = structure_part_exec(None, *id + 1, message_outline, mime_parts, properties, message_raw, base_blob_id);
            stack.push((&no_children, 0, Vec::new(), root));
            stack.push((list, 0, Vec::new(), inner));
            proof {
                let fs = frames_model(stack@);
                assert(fs.drop_last().drop_last() =~= Seq::<Frame>::empty());
                assert(fs.drop_last().last() == fs[0]);
                assert(fs.last().acc =~= Seq::<Json>::empty());
                assert(fs[0].acc =~= Seq::<Json>::empty());
                assert(rest_of(fs[0], c) == Some(Seq::<Json>::empty()));
                match rest_of(fs.last(), c) {
                    Some(r) => {
                        assert(fs.last().acc + Seq::<Json>::empty() + r =~= r);
                        let j = with_subparts(fs.last().part, r);
                        assert(fs[0].acc + seq![j] + Seq::<Json>::empty() =~= seq![j]);
                        assert(finish(fs[0], seq![j], c) == Some(with_subparts(fs[0].part, seq![j])));
                    },
                    None => {},
                }
                assert(fs.last().list == *list);
                assert(fs.drop_last() =~= seq![fs[0]]);
                assert(seq![fs[0]].drop_last() =~= Seq::<Frame>::empty());
                assert(walk_result(fs, c) == unwind(seq![fs[0]], finish(fs.last(), Seq::<Json>::empty(), c), c));
                assert(fs[0].part == structure_part(None, 0, c.outline, c.mime_parts, c.props, c.raw, c.base));
                assert(fs.last().part == structure_part(None, *id + 1, c.outline, c.mime_parts, c.props, c.raw, c.base));
                assert(rest_of(fs.last(), c) == structure_children(*list, 0, c.outline, c.mime_parts, c.props, c.raw, c.base));
                match rest_of(fs.last(), c) {
                    Some(r) => {
                        let j = with_subparts(fs.last().part, r);
                        assert(finish(fs.last(), Seq::<Json>::empty(), c) == Some(j));
                        assert(seq![fs[0]].last() == fs[0]);
                        assert(unwind(Seq::<Frame>::empty(), finish(fs[0], seq![j], c), c) == finish(fs[0], seq![j], c));
                        assert(unwind(seq![fs[0]], Some(j), c) == finish(fs[0], seq![j], c));
                    },
                    None => {
                        assert(finish(fs.last(), Seq::<Json>::empty(), c) is None);
                    },
                }
                assert(walk_result(fs, c) == target);
            }
        },
    }
    loop
        invariant
            stack@.len() >= 1,
            base_blob_id is Owned,
            forall|j: int|
                0 <= j < mime_parts@.len() ==> (#[trigger] mime_parts@[j]).blob_index + MESSAGE_PARTS
                    <= u32::MAX,
            c == (WalkCtx {
                outline: *message_outline,
                mime_parts: mime_parts@,
                props: properties@,
                raw: match message_raw {
                    Some(b) => Some(b@),
                    None => None,
                },
                base: *base_blob_id,
            }),
            target == body_structure_spec(c.outline, c.mime_parts, c.props, c.raw, c.base),
            forall|k: int| 0 <= k < stack@.len() ==> (#[trigger] stack@[k]).1 <= stack@[k].0@.len(),
            walk_result(frames_model(stack@), c) == target,
        decreases walk_work(frames_model(stack@)),
    {
        let ghost before = frames_model(stack@);
        let (list, idx, mut acc, part) = match stack.pop() {
            Some(f) => f,
            None => {
                return None;
            },
        };
        let ghost lower = frames_model(stack@);
        let ghost top = Frame { list: *list, idx: idx as int, acc: json_seq(acc@), part: json_members(part@) };
        proof {
            assert(before.drop_last() =~= lower);
            assert(before.last() == top);
        }
        if idx < list.len() {
            proof {
                lemma_list_size_step(*list, idx as int);
                assert(walk_work(before) == walk_work(lower) + list_size(*list, idx as int) + 1);
            }
            match &list[idx] {
                MessageStructure::Part(id) => {
                    if !(mime_parts.len() > 0 && *id < mime_parts.len() - 1) {
                        proof {
                            assert(rest_of(top, c) is None);
                            lemma_unwind_none(lower, c);
                        }
                        return None;
                    }
                    let obj = structure_part_exec(Some(*id), *id + 1, message_outline, mime_parts, properties, message_raw, base_blob_id);
                    proof {
                        lemma_object_json(obj);
                    }
                    let item = JSONValue::Object(obj);
                    let ghost prev_acc = json_seq(acc@);
                    acc.push(item);
                    stack.push((list, idx + 1, acc, part));
                    proof {
                        let fs = frames_model(stack@);
                        assert(fs.drop_last() =~= lower);
                        assert(json_seq(acc@) =~= prev_acc.push(item.json()));
                        let top2 = fs.last();
                        match rest_of(top2, c) {
                            Some(r) => {
                                assert(top.acc + Seq::<Json>::empty() + (seq![item.json()] + r) =~= top2.acc + Seq::<Json>::empty() + r);
                            },
                            None => {},
                        }
                        assert(finish(top2, Seq::<Json>::empty(), c) == finish(top, Seq::<Json>::empty(), c));
                        assert(walk_work(fs) == walk_work(lower) + list_size(*list, idx + 1) + 1);
                    }
                },
                MessageStructure::List(_) => {
                    stack.push((list, idx + 1, acc, part));
                    proof {
                        let fs = frames_model(stack@);
                        assert(fs.drop_last() =~= lower);
                        assert(finish(fs.last(), Seq::<Json>::empty(), c) == finish(top, Seq::<Json>::empty(), c));
                        assert(walk_work(fs) == walk_work(lower) + list_size(*list, idx + 1) + 1);
                    }
                },
                MessageStructure::MultiPart(id, sub) => {
                    if !(mime_parts.len() > 0 && *id < mime_parts.len() - 1) {
                        proof {
                            assert(rest_of(top, c) is None);
                            lemma_unwind_none(lower, c);
                        }
                        return None;
                    }
                    let inner = structure_part_exec(None, *id + 1, message_outline, mime_parts, properties, message_raw, base_blob_id);
                    stack.push((list, idx + 1, acc, part));
                    stack.push((sub, 0, Vec::new(), inner));
                    proof {
                        let fs = frames_model(stack@);
                        let parent = fs.drop_last().last();
                        let child = fs.last();
                        assert(fs.drop_last().drop_last() =~= lower);
                        assert(child.acc =~= Seq::<Json>::empty());
                        assert(parent.acc == top.acc);
                        match rest_of(child, c) {
                            Some(r) => {
                                assert(child.acc + Seq::<Json>::empty() + r =~= r);
                                let j = with_subparts(child.part, r);
                                assert(structure_node(list[idx as int], c.outline, c.mime_parts, c.props, c.raw, c.base) == Some(Some(j)));
                                match rest_of(parent, c) {
                                    Some(r2) => {
                                        assert(parent.acc + seq![j] + r2 =~= top.acc + Seq::<Json>::empty() + (seq![j] + r2));
                                    },
                                    None => {},
                                }
                                assert(finish(parent, seq![j], c) == finish(top, Seq::<Json>::empty(), c));
                            },
                            None => {
                                assert(rest_of(top, c) is None);
                            },
                        }
                        assert(walk_work(fs.drop_last()) == walk_work(lower) + list_size(*list, idx + 1) + 1);
                        assert(walk_work(fs) == walk_work(fs.drop_last()) + list_size(*sub, 0) + 1);
                    }
                },
            }
        } else {
            let ghost acc_v = json_seq(acc@);
            let ghost part_v = json_members(part@);
            let done = attach_subparts(part, acc);
            proof {
                assert(rest_of(top, c) == Some(Seq::<Json>::empty()));
                assert(top.acc + Seq::<Json>::empty() + Seq::<Json>::empty() =~= top.acc);
                assert(finish(top, Seq::<Json>::empty(), c) == Some(done.json()));
            }
            match stack.pop() {
                None => {
                    proof {
                        assert(lower =~= Seq::<Frame>::empty());
                    }
                    return Some(done);
                },
                Some(below) => {
                    let (l2, i2, mut acc2, p2) = below;
                    let ghost lower2 = frames_model(stack@);
                    let ghost f2 = Frame { list: *l2, idx: i2 as int, acc: json_seq(acc2@), part: json_members(p2@) };
                    proof {
                        assert(lower.drop_last() =~= lower2);
                        assert(lower.last() == f2);
                    }
                    let ghost prev_acc = json_seq(acc2@);
                    let ghost dj = done.json();
                    acc2.push(done);
                    stack.push((l2, i2, acc2, p2));
                    proof {
                        let fs = frames_model(stack@);
                        assert(fs.drop_last() =~= lower2);
                        assert(json_seq(acc2@) =~= prev_acc.push(dj));
                        match rest_of(f2, c) {
                            Some(r) => {
                                assert(fs.last().acc + Seq::<Json>::empty() + r =~= f2.acc + seq![dj] + r);
                            },
                            None => {},
                        }
                        assert(finish(fs.last(), Seq::<Json>::empty(), c) == finish(f2, seq![dj], c));
                        assert(walk_work(fs) == walk_work(lower2) + list_size(*l2, i2 as int) + 1);
                        assert(walk_work(lower) == walk_work(lower2) + list_size(*l2, i2 as int) + 1);
                    }
                },
            }
        }
    }
}

/// The documents a request for `account_id` sees.
pub open spec fn visible_docs(store: MailStore, account_id: u32) -> Seq<MailDocument> {
    if account_id == store.account() {
        store.docs()
    } else {
        Seq::empty()
    }
}

/// The ids a request is answered for.
pub open spec fn requested_ids(store: MailStore, request: GetRequest) -> Seq<JMAPId> {
    match request.ids {
        Some(v) => v@,
        None => enumerated_ids(visible_docs(store, request.account_id), store.cap() as nat),
    }
}

/// The properties a request is answered with.
pub open spec fn requested_properties(request: GetRequest) -> Seq<MailProperties> {
    match request.properties {
        Some(p) => p@,
        None => default_property_list(),
    }
}

/// Arguments as read from the request's argument list.
pub open spec fn arguments_read(args: MailGetArguments, request: GetRequest) -> bool {
    match read_arguments(json_members(request.arguments@)) {
        Some(m) => args.body_properties@ == match m.body_properties {
            Some(ps) => ps,
            None => crate::mail_get::default_body_properties(),
        } && args.fetch_text_body_values == m.fetch_text && args.fetch_html_body_values
            == m.fetch_html && args.fetch_all_body_values == m.fetch_all
            && args.max_body_value_bytes == m.max_bytes,
        None => false,
    }
}

/// Where the live document with this id is.
pub open spec fn doc_index(docs: Seq<MailDocument>, d: DocumentId) -> int {
    choose|i: int| 0 <= i < docs.len() && docs[i].document_id == d
}

/// The objects of the requested ids that have a live document, in request
/// order; `None` when one of them cannot be built.
pub open spec fn found_objects(
    ids: Seq<JMAPId>,
    docs: Seq<MailDocument>,
    account_id: u32,
    props: Seq<MailProperties>,
    args: MailGetArguments,
    fetch: FetchRaw,
) -> Option<Seq<Json>>
    decreases ids.len(),
{
    if ids.len() == 0 {
        Some(Seq::empty())
    } else {
        match found_objects(ids.drop_last(), docs, account_id, props, args, fetch) {
            Some(prev) => if is_live(docs, doc_of(ids.last())) {
                match email_object(props, docs[doc_index(docs, doc_of(ids.last()))], account_id, ids.last(), args, fetch) {
                    Some(o) => Some(prev.push(o)),
                    None => None,
                }
            } else {
                Some(prev)
            },
            None => None,
        }
    }
}

proof fn lemma_found_objects_prefix(
    ids: Seq<JMAPId>,
    k: int,
    docs: Seq<MailDocument>,
    account_id: u32,
    props: Seq<MailProperties>,
    args: MailGetArguments,
    fetch: FetchRaw,
)
    requires
        0 <= k <= ids.len(),
        found_objects(ids.take(k), docs, account_id, props, args, fetch) is None,
    ensures
        found_objects(ids, docs, account_id, props, args, fetch) is None,
    decreases ids.len() - k,
{
    if k < ids.len() {
        assert(ids.take(k + 1).drop_last() =~= ids.take(k));
        lemma_found_objects_prefix(ids, k + 1, docs, account_id, props, args, fetch);
    } else {
        assert(ids.take(k) =~= ids);
    }
}

/// The response envelope: the state, one object per found id, and the ids
/// not found as strings.
pub open spec fn get_response(state: Seq<char>, list: Seq<Json>, not_found: Seq<JMAPId>) -> Json {
    Json::Object(
        seq![
            ("state"@, Json::Str(state)),
            ("list"@, Json::Array(list)),
            ("notFound"@, Json::Array(not_found.map_values(|id: JMAPId| Json::Str(hex_digits(id as nat, 16))))),
        ],
    )
}

impl MailStore {
    /// JMAP Email/get. Reads the arguments, then the ids: those named, or
    /// the first documents up to the cap when none are named. Each id whose
    /// document is live gets an object in `list`; the others are listed in
    /// `notFound`.
    #[verifier::rlimit(60)]
    pub fn mail_get(&self, request: GetRequest) -> (r: Result<JSONValue, JMAPError>)
        requires
            self.wf(),
        ensures
            read_arguments(json_members(request.arguments@)) is None ==> r is Err && r->Err_0 is InvalidArguments,
            read_arguments(json_members(request.arguments@)) is Some && request.ids is Some
                && request.ids->0@.len() > self.cap() ==> r is Err && r->Err_0 is RequestTooLarge,
            match r {
                Ok(v) => exists|list: Seq<Json>, args: MailGetArguments|
                    {
                        &&& arguments_read(args, request)
                        &&& found_objects(
                            requested_ids(*self, request),
                            visible_docs(*self, request.account_id),
                            self.account(),
                            requested_properties(request),
                            args,
                            fetch_raw_spec(requested_properties(request), args.body_properties@),
                        ) == Some(list)
                        &&& v.json() == get_response(
                            self.state_token(),
                            list,
                            missing_ids(requested_ids(*self, request), visible_docs(*self, request.account_id)),
                        )
                        &&& list.len() == found_count(requested_ids(*self, request), visible_docs(*self, request.account_id))
                    },
                Err(e) => {
                    ||| read_arguments(json_members(request.arguments@)) is None && e is InvalidArguments
                    ||| request.ids is Some && request.ids->0@.len() > self.cap() && e is RequestTooLarge
                    ||| exists|args: MailGetArguments|
                        {
                            &&& arguments_read(args, request)
                            &&& found_objects(
                                requested_ids(*self, request),
                                visible_docs(*self, request.account_id),
                                self.account(),
                                requested_properties(request),
                                args,
                                fetch_raw_spec(requested_properties(request), args.body_properties@),
                            ) is None
                            &&& (e is InvalidArguments || e == JMAPError::Store(StoreError::DataCorruption))
                        }
                },
            },
    {
        let properties = match request.properties {
            Some(p) => p,
            None => default_properties(),
        };
        let arguments = MailGetArguments::parse_arguments(request.arguments)?;
        let fetch_raw = fetch_raw_policy(&properties, &arguments.body_properties);
        let visible = request.account_id == self.account_id;
        let ghost docs = visible_docs(*self, request.account_id);
        let request_ids: Vec<JMAPId> = match request.ids {
            Some(ids) => {
                if ids.len() > self.max_objects_in_get {
                    return Err(JMAPError::RequestTooLarge);
                }
                ids
            },
            None => {
                if visible {
                    match self.resolve_ids(None) {
                        Ok(ids) => ids,
                        Err(e) => return Err(e),
                    }
                } else {
                    let v: Vec<JMAPId> = Vec::new();
                    assert(v@ =~= enumerated_ids(docs, self.max_objects_in_get as nat));
                    v
                }
            },
        };
        let ghost ids = request_ids@;
        assert(ids == requested_ids(*self, request));
        let mut not_found: Vec<JSONValue> = Vec::new();
        let mut results: Vec<JSONValue> = Vec::new();
        let mut i: usize = 0;
        while i < request_ids.len()
            invariant
                i <= request_ids@.len(),
                ids == request_ids@,
                ids == requested_ids(*self, request),
                self.wf(),
                read_arguments(json_members(request.arguments@)) is Some,
                request.ids is Some ==> request.ids->0@.len() <= self.cap(),
                docs == visible_docs(*self, request.account_id),
                visible == (request.account_id == self.account()),
                json_seq(not_found@) == missing_ids(ids.take(i as int), docs).map_values(|id: JMAPId| Json::Str(hex_digits(id as nat, 16))),
                results@.len() == found_count(ids.take(i as int), docs),
                arguments_read(arguments, request),
                properties@ == requested_properties(request),
                fetch_raw == fetch_raw_spec(properties@, arguments.body_properties@),
                found_objects(ids.take(i as int), docs, self.account(), properties@, arguments, fetch_raw) == Some(json_seq(results@)),
            decreases request_ids@.len() - i,
        {
            let jmap_id = request_ids[i];
            let document_id = get_document_id(jmap_id);
            let ghost pre = ids.take(i + 1);
            proof {
                assert(pre.drop_last() =~= ids.take(i as int));
                assert(pre.last() == jmap_id);
            }
            let found = if visible {
                self.find_document(document_id)
            } else {
                None
            };
            match found {
                Some(k) => {
                    proof {
                        assert(is_live(docs, doc_of(jmap_id)));
                        assert(document_complete(self.documents@[k as int]));
                    }
                    proof {
                        let j = doc_index(docs, doc_of(jmap_id));
                        assert(docs[j].document_id == doc_of(jmap_id));
                        if j < k {
                            assert(docs[j].document_id < docs[k as int].document_id);
                        } else if j > k {
                            assert(docs[k as int].document_id < docs[j].document_id);
                        }
                        assert(j == k);
                    }
                    let item = match project_email(&self.documents[k], self.account_id, jmap_id, &properties, &arguments, fetch_raw) {
                        Ok(item) => item,
                        Err(e) => {
                            proof {
                                assert(found_objects(pre, docs, self.account(), properties@, arguments, fetch_raw) is None);
                                lemma_found_objects_prefix(ids, i + 1, docs, self.account(), properties@, arguments, fetch_raw);
                                assert(ids == requested_ids(*self, request));
                                assert(e is InvalidArguments || e == JMAPError::Store(StoreError::DataCorruption));
                                assert(arguments_read(arguments, request) && found_objects(
                                    requested_ids(*self, request),
                                    visible_docs(*self, request.account_id),
                                    self.account(),
                                    requested_properties(request),
                                    arguments,
                                    fetch_raw_spec(requested_properties(request), arguments.body_properties@),
                                ) is None);
                            }
                            return Err(e);
                        },
                    };
                    let ghost before = json_seq(results@);
                    results.push(item);
                    proof {
                        assert(json_seq(results@) =~= before.push(item.json()));
                    }
                },
                None => {
                    proof {
                        assert(!is_live(docs, doc_of(jmap_id)));
                    }
                    let ghost before = json_seq(not_found@);
                    let s = jmap_id_to_string(jmap_id);
                    not_found.push(JSONValue::String(s));
                    proof {
                        assert(json_seq(not_found@) =~= before.push(Json::Str(hex_digits(jmap_id as nat, 16))));
                        assert(missing_ids(pre, docs) == missing_ids(ids.take(i as int), docs).push(jmap_id));
                        assert(json_seq(not_found@) =~= missing_ids(pre, docs).map_values(|id: JMAPId| Json::Str(hex_digits(id as nat, 16))));
                    }
                },
            }
            i += 1;
        }
        proof {
            assert(ids.take(i as int) =~= ids);
            lemma_array_json(results);
            lemma_array_json(not_found);
        }
        let ghost list = json_seq(results@);
        let members = vec![
            ("state".to_owned(), JSONValue::String(self.state.clone())),
            ("list".to_owned(), JSONValue::Array(results)),
            ("notFound".to_owned(), JSONValue::Array(not_found)),
        ];
        let response = JSONValue::Object(members);
        proof {
            lemma_object_json(members);
            assert(json_members(members@) =~= get_response(self.state_token(), list, missing_ids(ids, docs))->Object_0);
            assert(response.json() == get_response(self.state_token(), list, missing_ids(ids, docs)));
            assert(list.len() == found_count(ids, docs));
            assert(found_objects(ids, docs, self.account(), properties@, arguments, fetch_raw) == Some(list));
        }
        Ok(response)
    }
}

} // verus!
