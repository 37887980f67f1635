//! JMAP Email/get: the arguments, which raw bytes a request needs, and the
//! projection of stored messages onto the requested properties.

use crate::json::{
    address_transform, lemma_array_json, lemma_object_json, json_members, json_seq,
    transform_json_emailaddress, JSONValue, Json,
};
use crate::mail::{JMAPError, MailHeaderForm, RfcHeader, StoredHeader};
use crate::text::{
    addr_models, addresses_of, date_of, opt_text, parse_addresses, parse_date_text, AddrModel,
    AddressesModel, ParsedAddr, ParsedAddresses, ParsedGroup,
    append_str, lossy_string, message_ids_of, utf8_size, parse_message_ids, parse_unstructured, trim_of,
    trim_string, truncate_html, truncate_html_of, truncate_text, truncate_text_of, unstructured_of,
    utf8_lossy,
};
use crate::blob::BlobIndex;
use vstd::prelude::*;

verus! {

/// The body-part fields a request can ask for.
#[derive(Debug, Clone, Copy, PartialEq, Eq, Structural)]
pub enum MailBodyProperties {
    PartId,
    BlobId,
    Size,
    Name,
    Type,
    Charset,
    Disposition,
    Cid,
    Language,
    Location,
    Headers,
}

/// The arguments of Email/get beyond ids and properties.
#[derive(Debug)]
pub struct MailGetArguments {
    pub body_properties: Vec<MailBodyProperties>,
    pub fetch_text_body_values: bool,
    pub fetch_html_body_values: bool,
    pub fetch_all_body_values: bool,
    pub max_body_value_bytes: usize,
}

pub open spec fn body_property_named(name: Seq<char>) -> Option<MailBodyProperties> {
    if name == "partId"@ {
        Some(MailBodyProperties::PartId)
    } else if name == "blobId"@ {
        Some(MailBodyProperties::BlobId)
    } else if name == "size"@ {
        Some(MailBodyProperties::Size)
    } else if name == "name"@ {
        Some(MailBodyProperties::Name)
    } else if name == "type"@ {
        Some(MailBodyProperties::Type)
    } else if name == "charset"@ {
        Some(MailBodyProperties::Charset)
    } else if name == "disposition"@ {
        Some(MailBodyProperties::Disposition)
    } else if name == "cid"@ {
        Some(MailBodyProperties::Cid)
    } else if name == "language"@ {
        Some(MailBodyProperties::Language)
    } else if name == "location"@ {
        Some(MailBodyProperties::Location)
    } else if name == "headers"@ {
        Some(MailBodyProperties::Headers)
    } else {
        None
    }
}

fn is_named(name: &String, literal: &str) -> (r: bool)
    ensures
        r == (name@ == literal@),
{
    let l = literal.to_owned();
    *name == l
}

/// The body property a name stands for.
pub fn parse_body_property(name: &String) -> (r: Option<MailBodyProperties>)
    ensures
        r == body_property_named(name@),
{
    if is_named(name, "partId") {
        Some(MailBodyProperties::PartId)
    } else if is_named(name, "blobId") {
        Some(MailBodyProperties::BlobId)
    } else if is_named(name, "size") {
        Some(MailBodyProperties::Size)
    } else if is_named(name, "name") {
        Some(MailBodyProperties::Name)
    } else if is_named(name, "type") {
        Some(MailBodyProperties::Type)
    } else if is_named(name, "charset") {
        Some(MailBodyProperties::Charset)
    } else if is_named(name, "disposition") {
        Some(MailBodyProperties::Disposition)
    } else if is_named(name, "cid") {
        Some(MailBodyProperties::Cid)
    } else if is_named(name, "language") {
        Some(MailBodyProperties::Language)
    } else if is_named(name, "location") {
        Some(MailBodyProperties::Location)
    } else if is_named(name, "headers") {
        Some(MailBodyProperties::Headers)
    } else {
        None
    }
}

/// The body properties given when a request names none.
pub open spec fn default_body_properties() -> Seq<MailBodyProperties> {
    seq![
        MailBodyProperties::PartId,
        MailBodyProperties::BlobId,
        MailBodyProperties::Size,
        MailBodyProperties::Name,
        MailBodyProperties::Type,
        MailBodyProperties::Charset,
        MailBodyProperties::Disposition,
        MailBodyProperties::Cid,
        MailBodyProperties::Language,
        MailBodyProperties::Location,
    ]
}

/// A list of body property names, each one known.
pub open spec fn body_properties_of(items: Seq<Json>) -> Option<Seq<MailBodyProperties>>
    decreases items.len(),
{
    if items.len() == 0 {
        Some(Seq::empty())
    } else {
        match (items.last(), body_properties_of(items.drop_last())) {
            (Json::Str(name), Some(ps)) => match body_property_named(name) {
                Some(p) => Some(ps.push(p)),
                None => None,
            },
            _ => None,
        }
    }
}

/// The arguments as read so far.
pub struct ArgsModel {
    pub body_properties: Option<Seq<MailBodyProperties>>,
    pub fetch_text: bool,
    pub fetch_html: bool,
    pub fetch_all: bool,
    pub max_bytes: nat,
}

/// Reads one argument; `None` for an unknown name or a value of the wrong type.
pub open spec fn read_argument(acc: ArgsModel, name: Seq<char>, value: Json) -> Option<ArgsModel> {
    if name == "bodyProperties"@ {
        match value {
            Json::Null => Some(ArgsModel { body_properties: None, ..acc }),
            Json::Array(items) => match body_properties_of(items) {
                Some(ps) => Some(ArgsModel { body_properties: Some(ps), ..acc }),
                None => None,
            },
            _ => None,
        }
    } else if name == "fetchTextBodyValues"@ {
        match value {
            Json::Bool(b) => Some(ArgsModel { fetch_text: b, ..acc }),
            _ => None,
        }
    } else if name == "fetchHtmlBodyValues"@ {
        match value {
            Json::Bool(b) => Some(ArgsModel { fetch_html: b, ..acc }),
            _ => None,
        }
    } else if name == "fetchAllBodyValues"@ {
        match value {
            Json::Bool(b) => Some(ArgsModel { fetch_all: b, ..acc }),
            _ => None,
        }
    } else if name == "maxBodyValueBytes"@ {
        match value {
            Json::Number(n) => if 0 <= n <= usize::MAX {
                Some(ArgsModel { max_bytes: n as nat, ..acc })
            } else {
                None
            },
            _ => None,
        }
    } else {
        None
    }
}

/// Reads the arguments in order; a later one overrides an earlier one.
pub open spec fn read_arguments(args: Seq<(Seq<char>, Json)>) -> Option<ArgsModel>
    decreases args.len(),
{
    if args.len() == 0 {
        Some(
            ArgsModel {
                body_properties: None,
                fetch_text: false,
                fetch_html: false,
                fetch_all: false,
                max_bytes: 0,
            },
        )
    } else {
        match read_arguments(args.drop_last()) {
            Some(acc) => read_argument(acc, args.last().0, args.last().1),
            None => None,
        }
    }
}

fn default_body_property_list() -> (r: Vec<MailBodyProperties>)
    ensures
        r@ == default_body_properties(),
{
    let r = vec![
        MailBodyProperties::PartId,
        MailBodyProperties::BlobId,
        MailBodyProperties::Size,
        MailBodyProperties::Name,
        MailBodyProperties::Type,
        MailBodyProperties::Charset,
        MailBodyProperties::Disposition,
        MailBodyProperties::Cid,
        MailBodyProperties::Language,
        MailBodyProperties::Location,
    ];
    assert(r@ =~= default_body_properties());
    r
}

fn parse_body_properties(items: &Vec<JSONValue>) -> (r: Option<Vec<MailBodyProperties>>)
    ensures
        match body_properties_of(json_seq(items@)) {
            Some(ps) => r is Some && r->0@ == ps,
            None => r is None,
        },
{
    let ghost all = json_seq(items@);
    let mut out: Vec<MailBodyProperties> = Vec::new();
    let mut i: usize = 0;
    while i < items.len()
        invariant
            i <= items@.len(),
            all == json_seq(items@),
            body_properties_of(all.take(i as int)) == Some(out@),
        decreases items@.len() - i,
    {
        proof {
            assert(all.take(i + 1).drop_last() =~= all.take(i as int));
            assert(all.take(i + 1).last() == items@[i as int].json());
        }
        match &items[i] {
            JSONValue::String(name) => match parse_body_property(name) {
                Some(p) => {
                    out.push(p);
                },
                None => {
                    proof {
                        lemma_body_properties_prefix(all, i as int);
                    }
                    return None;
                },
            },
            _ => {
                proof {
                    lemma_body_properties_prefix(all, i as int);
                }
                return None;
            },
        }
        i += 1;
    }
    proof {
        assert(all.take(i as int) =~= all);
    }
    Some(out)
}

/// A list with an unreadable item at `i` cannot be read at all.
proof fn lemma_body_properties_prefix(all: Seq<Json>, i: int)
    requires
        0 <= i < all.len(),
        body_properties_of(all.take(i + 1)) is None,
    ensures
        body_properties_of(all) is None,
    decreases all.len() - i,
{
    if i + 1 < all.len() {
        assert(all.take(i + 2).drop_last() =~= all.take(i + 1));
        lemma_body_properties_prefix(all, i + 1);
    } else {
        assert(all.take(i + 1) =~= all);
    }
}

proof fn lemma_body_properties_unreadable(all: Seq<Json>, i: int)
    requires
        0 <= i < all.len(),
        body_properties_of(all.take(i)) is Some,
        match all[i] {
            Json::Str(name) => body_property_named(name) is None,
            _ => true,
        },
    ensures
        body_properties_of(all.take(i + 1)) is None,
{
    assert(all.take(i + 1).drop_last() =~= all.take(i));
}

/// The error for an argument this method does not know.
fn unknown_argument(name: &String) -> (r: JMAPError)
    ensures
        r is InvalidArguments,
{
    let mut message = "Unknown argument: '".to_owned();
    append_str(&mut message, name.as_str());
    append_str(&mut message, "'.");
    JMAPError::InvalidArguments(message)
}

fn invalid_argument(name: &String) -> (r: JMAPError)
    ensures
        r is InvalidArguments,
{
    let mut message = "Invalid value for argument: '".to_owned();
    append_str(&mut message, name.as_str());
    append_str(&mut message, "'.");
    JMAPError::InvalidArguments(message)
}

impl MailGetArguments {
    /// Reads the method arguments: `bodyProperties` (null or a list of body
    /// property names), the three fetch flags (booleans) and
    /// `maxBodyValueBytes` (a number, 0 for no limit). A later argument
    /// overrides an earlier one of the same name; any other name is refused.
    pub fn parse_arguments(arguments: Vec<(String, JSONValue)>) -> (r: Result<Self, JMAPError>)
        ensures
            match read_arguments(json_members(arguments@)) {
                Some(m) => r is Ok && r->Ok_0.body_properties@ == match m.body_properties {
                    Some(ps) => ps,
                    None => default_body_properties(),
                } && r->Ok_0.fetch_text_body_values == m.fetch_text
                    && r->Ok_0.fetch_html_body_values == m.fetch_html
                    && r->Ok_0.fetch_all_body_values == m.fetch_all
                    && r->Ok_0.max_body_value_bytes == m.max_bytes,
                None => r is Err && r->Err_0 is InvalidArguments,
            },
    {
        let ghost all = json_members(arguments@);
        let mut body_properties: Option<Vec<MailBodyProperties>> = None;
        let mut fetch_text_body_values = false;
        let mut fetch_html_body_values = false;
        let mut fetch_all_body_values = false;
        let mut max_body_value_bytes: usize = 0;
        let mut i: usize = 0;
        while i < arguments.len()
            invariant
                i <= arguments@.len(),
                all == json_members(arguments@),
                read_arguments(all.take(i as int)) == Some(
                    ArgsModel {
                        body_properties: match body_properties {
                            Some(v) => Some(v@),
                            None => None,
                        },
                        fetch_text: fetch_text_body_values,
                        fetch_html: fetch_html_body_values,
                        fetch_all: fetch_all_body_values,
                        max_bytes: max_body_value_bytes as nat,
                    },
                ),
            decreases arguments@.len() - i,
        {
            let (arg_name, arg_value) = &arguments[i];
            proof {
                assert(all.take(i + 1).drop_last() =~= all.take(i as int));
                assert(all.take(i + 1).last() == (arg_name@, arg_value.json()));
            }
            if is_named(arg_name, "bodyProperties") {
                match arg_value {
                    JSONValue::Null => {
                        body_properties = None;
                    },
                    JSONValue::Array(items) => {
                        proof {
                            lemma_array_json(*items);
                        }
                        match parse_body_properties(items) {
                            Some(ps) => {
                                body_properties = Some(ps);
                            },
                            None => {
                                proof {
                                    lemma_arguments_prefix(all, i as int);
                                }
                                return Err(invalid_argument(arg_name));
                            },
                        }
                    },
                    _ => {
                        proof {
                            lemma_arguments_prefix(all, i as int);
                        }
                        return Err(invalid_argument(arg_name));
                    },
                }
            } else if is_named(arg_name, "fetchTextBodyValues") {
                match arg_value {
                    JSONValue::Bool(b) => {
                        fetch_text_body_values = *b;
                    },
                    _ => {
                        proof {
                            lemma_arguments_prefix(all, i as int);
                        }
                        return Err(invalid_argument(arg_name));
                    },
                }
            } else if is_named(arg_name, "fetchHtmlBodyValues") {
                match arg_value {
                    JSONValue::Bool(b) => {
                        fetch_html_body_values = *b;
                    },
                    _ => {
                        proof {
                            lemma_arguments_prefix(all, i as int);
                        }
                        return Err(invalid_argument(arg_name));
                    },
                }
            } else if is_named(arg_name, "fetchAllBodyValues") {
                match arg_value {
                    JSONValue::Bool(b) => {
                        fetch_all_body_values = *b;
                    },
                    _ => {
                        proof {
                            lemma_arguments_prefix(all, i as int);
                        }
                        return Err(invalid_argument(arg_name));
                    },
                }
            } else if is_named(arg_name, "maxBodyValueBytes") {
                match arg_value {
                    JSONValue::Number(n) => {
                        if *n >= 0 && (*n as u64) <= (usize::MAX as u64) {
                            max_body_value_bytes = *n as usize;
                        } else {
                            proof {
                                lemma_arguments_prefix(all, i as int);
                            }
                            return Err(invalid_argument(arg_name));
                        }
                    },
                    _ => {
                        proof {
                            lemma_arguments_prefix(all, i as int);
                        }
                        return Err(invalid_argument(arg_name));
                    },
                }
            } else {
                proof {
                    lemma_arguments_prefix(all, i as int);
                }
                return Err(unknown_argument(arg_name));
            }
            i += 1;
        }
        proof {
            assert(all.take(i as int) =~= all);
        }
        let body_properties = match body_properties {
            Some(ps) => ps,
            None => default_body_property_list(),
        };
        Ok(
            MailGetArguments {
                body_properties,
                fetch_text_body_values,
                fetch_html_body_values,
                fetch_all_body_values,
                max_body_value_bytes,
            },
        )
    }
}

/// Once an argument cannot be read, the whole list cannot.
proof fn lemma_arguments_prefix(all: Seq<(Seq<char>, Json)>, i: int)
    requires
        0 <= i < all.len(),
        read_arguments(all.take(i)) is Some,
        read_argument(read_arguments(all.take(i))->0, all[i].0, all[i].1) is None,
    ensures
        read_arguments(all) is None,
{
    assert(all.take(i + 1).drop_last() =~= all.take(i));
    lemma_arguments_none_from(all, i + 1);
}

proof fn lemma_arguments_none_from(all: Seq<(Seq<char>, Json)>, k: int)
    requires
        0 < k <= all.len(),
        read_arguments(all.take(k)) is None,
    ensures
        read_arguments(all) is None,
    decreases all.len() - k,
{
    if k < all.len() {
        assert(all.take(k + 1).drop_last() =~= all.take(k));
        lemma_arguments_none_from(all, k + 1);
    } else {
        assert(all.take(k) =~= all);
    }
}


/// The kind of a MIME part.
#[derive(Debug, Clone, Copy, PartialEq, Eq, Structural)]
pub enum MimePartType {
    Text,
    Html,
    Other,
    MultiPart,
}

/// One node of a parsed MIME tree.
#[derive(Debug)]
pub struct MimePart {
    pub mime_type: MimePartType,
    /// Which part blob holds the decoded body.
    pub blob_index: BlobIndex,
    pub is_encoding_problem: bool,
    /// The body-part fields (size, name, type, ...) precomputed as JSON.
    pub headers: Vec<(MailBodyProperties, JSONValue)>,
}

/// A header field name: a standard one, or any other.
#[derive(Debug)]
pub enum HeaderName {
    Rfc(RfcHeader),
    Other(String),
}

/// Where a header field's value lies in the raw message.
#[derive(Debug, Clone, Copy, PartialEq, Eq, Structural)]
pub struct HeaderOffset {
    pub start: usize,
    pub end: usize,
}

/// The tree of a message's MIME parts, by part id.
#[derive(Debug)]
pub enum MessageStructure {
    Part(usize),
    List(Vec<MessageStructure>),
    MultiPart(usize, Vec<MessageStructure>),
}

/// An index into the raw message.
#[derive(Debug)]
pub struct MessageOutline {
    /// Where the body starts.
    pub body_offset: usize,
    /// For each part, the offsets of its header fields; entry 0 is the
    /// message itself.
    pub headers: Vec<Vec<(HeaderName, Vec<HeaderOffset>)>>,
    pub body_structure: MessageStructure,
}

/// What the store keeps of a message besides its raw bytes and part blobs.
#[derive(Debug)]
pub struct MessageData {
    /// Header values precomputed in the forms the store chose.
    pub headers: Vec<StoredHeader>,
    pub size: JSONValue,
    pub received_at: JSONValue,
    pub has_attachment: JSONValue,
    pub text_body: Vec<usize>,
    pub html_body: Vec<usize>,
    pub attachments: Vec<usize>,
    /// Entry 0 is the message itself, entry `k + 1` the part with id `k`.
    pub mime_parts: Vec<MimePart>,
}

/// The name of a standard header field.
pub open spec fn rfc_header_name(h: RfcHeader) -> Seq<char> {
    match h {
        RfcHeader::Subject => "Subject"@,
        RfcHeader::From => "From"@,
        RfcHeader::To => "To"@,
        RfcHeader::Cc => "Cc"@,
        RfcHeader::Date => "Date"@,
        RfcHeader::Bcc => "Bcc"@,
        RfcHeader::ReplyTo => "Reply-To"@,
        RfcHeader::Sender => "Sender"@,
        RfcHeader::Comments => "Comments"@,
        RfcHeader::InReplyTo => "In-Reply-To"@,
        RfcHeader::Keywords => "Keywords"@,
        RfcHeader::Received => "Received"@,
        RfcHeader::MessageId => "Message-ID"@,
        RfcHeader::References => "References"@,
        RfcHeader::ReturnPath => "Return-Path"@,
        RfcHeader::MimeVersion => "MIME-Version"@,
        RfcHeader::ContentDescription => "Content-Description"@,
        RfcHeader::ContentId => "Content-ID"@,
        RfcHeader::ContentLanguage => "Content-Language"@,
        RfcHeader::ContentLocation => "Content-Location"@,
        RfcHeader::ContentTransferEncoding => "Content-Transfer-Encoding"@,
        RfcHeader::ContentType => "Content-Type"@,
        RfcHeader::ContentDisposition => "Content-Disposition"@,
        RfcHeader::ResentTo => "Resent-To"@,
        RfcHeader::ResentFrom => "Resent-From"@,
        RfcHeader::ResentBcc => "Resent-Bcc"@,
        RfcHeader::ResentCc => "Resent-Cc"@,
        RfcHeader::ResentSender => "Resent-Sender"@,
        RfcHeader::ResentDate => "Resent-Date"@,
        RfcHeader::ResentMessageId => "Resent-Message-ID"@,
        RfcHeader::ListArchive => "List-Archive"@,
        RfcHeader::ListHelp => "List-Help"@,
        RfcHeader::ListId => "List-ID"@,
        RfcHeader::ListOwner => "List-Owner"@,
        RfcHeader::ListPost => "List-Post"@,
        RfcHeader::ListSubscribe => "List-Subscribe"@,
        RfcHeader::ListUnsubscribe => "List-Unsubscribe"@,
    }
}

pub fn rfc_header_str(h: RfcHeader) -> (r: &'static str)
    ensures
        r@ == rfc_header_name(h),
{
    match h {
        RfcHeader::Subject => "Subject",
        RfcHeader::From => "From",
        RfcHeader::To => "To",
        RfcHeader::Cc => "Cc",
        RfcHeader::Date => "Date",
        RfcHeader::Bcc => "Bcc",
        RfcHeader::ReplyTo => "Reply-To",
        RfcHeader::Sender => "Sender",
        RfcHeader::Comments => "Comments",
        RfcHeader::InReplyTo => "In-Reply-To",
        RfcHeader::Keywords => "Keywords",
        RfcHeader::Received => "Received",
        RfcHeader::MessageId => "Message-ID",
        RfcHeader::References => "References",
        RfcHeader::ReturnPath => "Return-Path",
        RfcHeader::MimeVersion => "MIME-Version",
        RfcHeader::ContentDescription => "Content-Description",
        RfcHeader::ContentId => "Content-ID",
        RfcHeader::ContentLanguage => "Content-Language",
        RfcHeader::ContentLocation => "Content-Location",
        RfcHeader::ContentTransferEncoding => "Content-Transfer-Encoding",
        RfcHeader::ContentType => "Content-Type",
        RfcHeader::ContentDisposition => "Content-Disposition",
        RfcHeader::ResentTo => "Resent-To",
        RfcHeader::ResentFrom => "Resent-From",
        RfcHeader::ResentBcc => "Resent-Bcc",
        RfcHeader::ResentCc => "Resent-Cc",
        RfcHeader::ResentSender => "Resent-Sender",
        RfcHeader::ResentDate => "Resent-Date",
        RfcHeader::ResentMessageId => "Resent-Message-ID",
        RfcHeader::ListArchive => "List-Archive",
        RfcHeader::ListHelp => "List-Help",
        RfcHeader::ListId => "List-ID",
        RfcHeader::ListOwner => "List-Owner",
        RfcHeader::ListPost => "List-Post",
        RfcHeader::ListSubscribe => "List-Subscribe",
        RfcHeader::ListUnsubscribe => "List-Unsubscribe",
    }
}

/// The suffix a header form takes in a property name; none for the raw form.
pub open spec fn form_suffix(f: MailHeaderForm) -> Seq<char> {
    match f {
        MailHeaderForm::Raw => ""@,
        MailHeaderForm::Text => ":asText"@,
        MailHeaderForm::Addresses => ":asAddresses"@,
        MailHeaderForm::GroupedAddresses => ":asGroupedAddresses"@,
        MailHeaderForm::MessageIds => ":asMessageIds"@,
        MailHeaderForm::Date => ":asDate"@,
        MailHeaderForm::URLs => ":asURLs"@,
    }
}

fn form_suffix_str(f: MailHeaderForm) -> (r: &'static str)
    ensures
        r@ == form_suffix(f),
{
    match f {
        MailHeaderForm::Raw => "",
        MailHeaderForm::Text => ":asText",
        MailHeaderForm::Addresses => ":asAddresses",
        MailHeaderForm::GroupedAddresses => ":asGroupedAddresses",
        MailHeaderForm::MessageIds => ":asMessageIds",
        MailHeaderForm::Date => ":asDate",
        MailHeaderForm::URLs => ":asURLs",
    }
}

pub open spec fn header_name_of(h: HeaderName) -> Seq<char> {
    match h {
        HeaderName::Rfc(r) => rfc_header_name(r),
        HeaderName::Other(s) => s@,
    }
}

/// A header asked for by name, in a form, one instance or all.
#[derive(Debug)]
pub struct MailHeaderProperty {
    pub form: MailHeaderForm,
    pub header: HeaderName,
    pub all: bool,
}

/// The properties of an Email object.
#[derive(Debug)]
pub enum MailProperties {
    Id,
    BlobId,
    ThreadId,
    MailboxIds,
    Keywords,
    Size,
    ReceivedAt,
    MessageId,
    InReplyTo,
    References,
    Sender,
    From,
    To,
    Cc,
    Bcc,
    ReplyTo,
    Subject,
    SentAt,
    HasAttachment,
    Preview,
    BodyValues,
    TextBody,
    HtmlBody,
    Attachments,
    BodyStructure,
    Header(MailHeaderProperty),
}

/// The name of a property as it appears in the response.
pub open spec fn property_name(p: MailProperties) -> Seq<char> {
    match p {
        MailProperties::Id => "id"@,
        MailProperties::BlobId => "blobId"@,
        MailProperties::ThreadId => "threadId"@,
        MailProperties::MailboxIds => "mailboxIds"@,
        MailProperties::Keywords => "keywords"@,
        MailProperties::Size => "size"@,
        MailProperties::ReceivedAt => "receivedAt"@,
        MailProperties::MessageId => "messageId"@,
        MailProperties::InReplyTo => "inReplyTo"@,
        MailProperties::References => "references"@,
        MailProperties::Sender => "sender"@,
        MailProperties::From => "from"@,
        MailProperties::To => "to"@,
        MailProperties::Cc => "cc"@,
        MailProperties::Bcc => "bcc"@,
        MailProperties::ReplyTo => "replyTo"@,
        MailProperties::Subject => "subject"@,
        MailProperties::SentAt => "sentAt"@,
        MailProperties::HasAttachment => "hasAttachment"@,
        MailProperties::Preview => "preview"@,
        MailProperties::BodyValues => "bodyValues"@,
        MailProperties::TextBody => "textBody"@,
        MailProperties::HtmlBody => "htmlBody"@,
        MailProperties::Attachments => "attachments"@,
        MailProperties::BodyStructure => "bodyStructure"@,
        MailProperties::Header(h) => "header:"@ + header_name_of(h.header) + form_suffix(h.form) + if h.all {
            ":all"@
        } else {
            Seq::empty()
        },
    }
}

impl MailProperties {
    pub fn name(&self) -> (r: String)
        ensures
            r@ == property_name(*self),
    {
        match self {
            MailProperties::Id => "id".to_owned(),
            MailProperties::BlobId => "blobId".to_owned(),
            MailProperties::ThreadId => "threadId".to_owned(),
            MailProperties::MailboxIds => "mailboxIds".to_owned(),
            MailProperties::Keywords => "keywords".to_owned(),
            MailProperties::Size => "size".to_owned(),
            MailProperties::ReceivedAt => "receivedAt".to_owned(),
            MailProperties::MessageId => "messageId".to_owned(),
            MailProperties::InReplyTo => "inReplyTo".to_owned(),
            MailProperties::References => "references".to_owned(),
            MailProperties::Sender => "sender".to_owned(),
            MailProperties::From => "from".to_owned(),
            MailProperties::To => "to".to_owned(),
            MailProperties::Cc => "cc".to_owned(),
            MailProperties::Bcc => "bcc".to_owned(),
            MailProperties::ReplyTo => "replyTo".to_owned(),
            MailProperties::Subject => "subject".to_owned(),
            MailProperties::SentAt => "sentAt".to_owned(),
            MailProperties::HasAttachment => "hasAttachment".to_owned(),
            MailProperties::Preview => "preview".to_owned(),
            MailProperties::BodyValues => "bodyValues".to_owned(),
            MailProperties::TextBody => "textBody".to_owned(),
            MailProperties::HtmlBody => "htmlBody".to_owned(),
            MailProperties::Attachments => "attachments".to_owned(),
            MailProperties::BodyStructure => "bodyStructure".to_owned(),
            MailProperties::Header(h) => {
                let mut s = "header:".to_owned();
                match &h.header {
                    HeaderName::Rfc(r) => append_str(&mut s, rfc_header_str(*r)),
                    HeaderName::Other(o) => append_str(&mut s, o.as_str()),
                }
                append_str(&mut s, form_suffix_str(h.form));
                if h.all {
                    append_str(&mut s, ":all");
                }
                proof {
                    assert(s@ =~= property_name(*self));
                }
                s
            },
        }
    }
}

/// A body value: the decoded text, cut to the byte bound when there is one
/// and the text is longer, with HTML cut at a tag boundary.
pub open spec fn body_value_spec(
    mime_type: MimePartType,
    is_encoding_problem: bool,
    text: Seq<char>,
    max_bytes: nat,
) -> Json {
    let truncated = max_bytes > 0 && utf8_size(text) > max_bytes;
    Json::Object(
        seq![
            ("isEncodingProblem"@, Json::Bool(is_encoding_problem)),
            ("isTruncated"@, Json::Bool(truncated)),
            (
                "value"@,
                Json::Str(
                    if !truncated {
                        text
                    } else if mime_type == MimePartType::Html {
                        truncate_html_of(text, max_bytes)
                    } else {
                        truncate_text_of(text, max_bytes)
                    },
                ),
            ),
        ],
    )
}

pub fn add_body_value(mime_part: &MimePart, body_text: String, arguments: &MailGetArguments) -> (r:
    JSONValue)
    ensures
        r.json() == body_value_spec(
            mime_part.mime_type,
            mime_part.is_encoding_problem,
            body_text@,
            arguments.max_body_value_bytes as nat,
        ),
{
    let max = arguments.max_body_value_bytes;
    let len = body_text.as_str().len();
    let truncated = max > 0 && len > max;
    let ghost text = body_text@;
    let value = if !truncated {
        body_text
    } else if mime_part.mime_type == MimePartType::Html {
        truncate_html(body_text, max)
    } else {
        truncate_text(body_text, max)
    };
    let members = vec![
        ("isEncodingProblem".to_owned(), JSONValue::Bool(mime_part.is_encoding_problem)),
        ("isTruncated".to_owned(), JSONValue::Bool(truncated)),
        ("value".to_owned(), JSONValue::String(value)),
    ];
    proof {
        lemma_object_json(members);
        assert(len == utf8_size(text));
        assert(json_members(members@) =~= body_value_spec(
            mime_part.mime_type,
            mime_part.is_encoding_problem,
            text,
            max as nat,
        )->Object_0);
    }
    JSONValue::Object(members)
}

/// An address as JMAP shows it.
pub open spec fn addr_json(a: AddrModel) -> Json {
    Json::Object(
        seq![
            ("name"@, match a.name {
                Some(n) => Json::Str(n),
                None => Json::Null,
            }),
            ("email"@, match a.email {
                Some(e) => Json::Str(e),
                None => Json::Null,
            }),
        ],
    )
}

pub open spec fn group_json(name: Option<Seq<char>>, addresses: Seq<AddrModel>) -> Json {
    Json::Object(
        seq![
            ("name"@, match name {
                Some(n) => Json::Str(n),
                None => Json::Null,
            }),
            ("addresses"@, Json::Array(addresses.map_values(|a: AddrModel| addr_json(a)))),
        ],
    )
}

/// The addresses of a list that have one, as URL strings.
pub open spec fn urls_of(l: Seq<AddrModel>) -> Seq<Json>
    decreases l.len(),
{
    if l.len() == 0 {
        Seq::empty()
    } else {
        match l.last().email {
            Some(e) => urls_of(l.drop_last()).push(Json::Str(e)),
            None => urls_of(l.drop_last()),
        }
    }
}

/// One header instance rendered in `form` from its bytes; `None` when the
/// parser reads nothing. Address forms come out grouped or not as asked.
pub open spec fn raw_value(form: MailHeaderForm, b: Seq<u8>) -> Option<Json> {
    match form {
        MailHeaderForm::Raw => Some(Json::Str(trim_of(utf8_lossy(b)))),
        MailHeaderForm::Text => match unstructured_of(b) {
            Some(t) => Some(Json::Str(t)),
            None => None,
        },
        MailHeaderForm::MessageIds => Some(
            Json::Array(message_ids_of(b).map_values(|t: Seq<char>| Json::Str(t))),
        ),
        MailHeaderForm::Date => match date_of(b) {
            Some(t) => Some(Json::Str(t)),
            None => None,
        },
        MailHeaderForm::URLs => match addresses_of(b) {
            AddressesModel::List(l) => Some(Json::Array(urls_of(l))),
            _ => None,
        },
        _ => {
            let as_grouped = form == MailHeaderForm::GroupedAddresses;
            match addresses_of(b) {
                AddressesModel::List(l) => Some(
                    address_transform(
                        Json::Array(l.map_values(|a: AddrModel| addr_json(a))),
                        false,
                        false,
                        as_grouped,
                        false,
                    ),
                ),
                AddressesModel::Groups(g) => Some(
                    address_transform(
                        Json::Array(
                            g.map_values(
                                |x: (Option<Seq<char>>, Seq<AddrModel>)| group_json(x.0, x.1),
                            ),
                        ),
                        true,
                        false,
                        as_grouped,
                        false,
                    ),
                ),
                AddressesModel::Empty => None,
            }
        },
    }
}

/// The rendered instances, in order, skipping offsets outside the message
/// and instances the parser reads nothing from.
pub open spec fn raw_values(offsets: Seq<HeaderOffset>, raw: Seq<u8>, form: MailHeaderForm) -> Seq<
    Json,
>
    decreases offsets.len(),
{
    if offsets.len() == 0 {
        Seq::empty()
    } else {
        let prev = raw_values(offsets.drop_last(), raw, form);
        let o = offsets.last();
        if o.start <= o.end <= raw.len() {
            match raw_value(form, raw.subrange(o.start as int, o.end as int)) {
                Some(v) => prev.push(v),
                None => prev,
            }
        } else {
            prev
        }
    }
}

/// A header read from the raw message: all its instances, or only the last.
pub open spec fn raw_header_spec(
    offsets: Seq<HeaderOffset>,
    raw: Seq<u8>,
    form: MailHeaderForm,
    all: bool,
) -> Json {
    let selected = if !all && offsets.len() > 1 {
        offsets.subrange(offsets.len() - 1, offsets.len() as int)
    } else {
        offsets
    };
    let values = raw_values(selected, raw, form);
    if all {
        Json::Array(values)
    } else {
        crate::json::last_or_null(values)
    }
}

fn raw_value_of(form: MailHeaderForm, bytes: &[u8]) -> (r: Option<JSONValue>)
    ensures
        match raw_value(form, bytes@) {
            Some(v) => r is Some && r->0.json() == v,
            None => r is None,
        },
{
    match form {
        MailHeaderForm::Raw => {
            let text = lossy_string(bytes);
            Some(JSONValue::String(trim_string(text.as_str())))
        },
        MailHeaderForm::Text => match parse_unstructured(bytes) {
            Some(t) => Some(JSONValue::String(t)),
            None => None,
        },
        MailHeaderForm::Date => match parse_date_text(bytes) {
            Some(t) => Some(JSONValue::String(t)),
            None => None,
        },
        MailHeaderForm::URLs => match parse_addresses(bytes) {
            ParsedAddresses::List(l) => Some(array_of_json(url_list(&l))),
            _ => None,
        },
        MailHeaderForm::Addresses | MailHeaderForm::GroupedAddresses => {
            let as_grouped = form == MailHeaderForm::GroupedAddresses;
            match parse_addresses(bytes) {
                ParsedAddresses::List(l) => {
                    let list = addr_list_json(&l);
                    Some(transform_json_emailaddress(array_of_json(list), false, false, as_grouped, false))
                },
                ParsedAddresses::Groups(g) => {
                    let list = group_list_json(&g);
                    Some(transform_json_emailaddress(array_of_json(list), true, false, as_grouped, false))
                },
                ParsedAddresses::Empty => None,
            }
        },
        MailHeaderForm::MessageIds => {
            let ids = parse_message_ids(bytes);
            let ghost names = message_ids_of(bytes@);
            let ghost target = names.map_values(|t: Seq<char>| Json::Str(t));
            let mut out: Vec<JSONValue> = Vec::new();
            let mut i: usize = 0;
            while i < ids.len()
                invariant
                    i <= ids@.len(),
                    ids@.map_values(|t: String| t@) == names,
                    target == names.map_values(|t: Seq<char>| Json::Str(t)),
                    json_seq(out@) == target.take(i as int),
                decreases ids@.len() - i,
            {
                let id = ids[i].clone();
                proof {
                    assert(names[i as int] == ids@[i as int]@);
                }
                let ghost prev = out@;
                out.push(JSONValue::String(id));
                proof {
                    assert(json_seq(out@) =~= json_seq(prev).push(Json::Str(id@)));
                    assert(target[i as int] == Json::Str(names[i as int]));
                    assert(json_seq(out@) =~= target.take(i + 1));
                }
                i += 1;
            }
            proof {
                assert(target.take(i as int) =~= target);
            }
            proof {
                lemma_array_json(out);
            }
            Some(JSONValue::Array(out))
        },
    }
}

/// Renders a header from the raw message: in `Raw` form as its trimmed
/// text, in the other forms as mail-parser's field parsers read it. With
/// `all`, a list of every instance; else the last instance, or null.
pub fn add_raw_header(offsets: &[HeaderOffset], message_raw: &[u8], form: MailHeaderForm, all: bool) -> (r:
    JSONValue)
    ensures
        r.json() == raw_header_spec(offsets@, message_raw@, form, all),
{
    let skip: usize = if !all && offsets.len() > 1 {
        offsets.len() - 1
    } else {
        0
    };
    let ghost selected = if !all && offsets@.len() > 1 {
        offsets@.subrange(offsets@.len() - 1, offsets@.len() as int)
    } else {
        offsets@
    };
    assert(selected =~= offsets@.subrange(skip as int, offsets@.len() as int));
    let mut values: Vec<JSONValue> = Vec::new();
    let mut i: usize = skip;
    while i < offsets.len()
        invariant
            skip <= i <= offsets@.len(),
            selected == offsets@.subrange(skip as int, offsets@.len() as int),
            json_seq(values@) == raw_values(offsets@.subrange(skip as int, i as int), message_raw@, form),
        decreases offsets@.len() - i,
    {
        let o = offsets[i];
        proof {
            assert(offsets@.subrange(skip as int, i + 1).drop_last() =~= offsets@.subrange(skip as int, i as int));
        }
        if o.start <= o.end && o.end <= message_raw.len() {
            let bytes = vstd::slice::slice_subrange(message_raw, o.start, o.end);
            match raw_value_of(form, bytes) {
                Some(v) => {
                    let ghost prev = values@;
                    values.push(v);
                    proof {
                        assert(json_seq(values@) =~= json_seq(prev).push(v.json()));
                    }
                },
                None => {},
            }
        }
        i += 1;
    }
    if all {
        proof {
            lemma_array_json(values);
        }
        JSONValue::Array(values)
    } else {
        match values.pop() {
            Some(v) => v,
            None => JSONValue::Null,
        }
    }
}


fn array_of_json(list: Vec<JSONValue>) -> (r: JSONValue)
    ensures
        r.json() == Json::Array(json_seq(list@)),
{
    proof {
        lemma_array_json(list);
    }
    JSONValue::Array(list)
}

fn opt_json(o: &Option<String>) -> (r: JSONValue)
    ensures
        r.json() == match opt_text(*o) {
            Some(t) => Json::Str(t),
            None => Json::Null,
        },
{
    match o {
        Some(t) => JSONValue::String(t.clone()),
        None => JSONValue::Null,
    }
}

fn addr_to_json(a: &ParsedAddr) -> (r: JSONValue)
    ensures
        r.json() == addr_json(a.model()),
{
    let members = vec![("name".to_owned(), opt_json(&a.name)), ("email".to_owned(), opt_json(&a.email))];
    proof {
        lemma_object_json(members);
        assert(json_members(members@) =~= addr_json(a.model())->Object_0);
    }
    JSONValue::Object(members)
}

fn addr_list_json(l: &Vec<ParsedAddr>) -> (r: Vec<JSONValue>)
    ensures
        json_seq(r@) == addr_models(l@).map_values(|a: AddrModel| addr_json(a)),
{
    let ghost target = addr_models(l@).map_values(|a: AddrModel| addr_json(a));
    let mut out: Vec<JSONValue> = Vec::new();
    let mut i: usize = 0;
    while i < l.len()
        invariant
            i <= l@.len(),
            target == addr_models(l@).map_values(|a: AddrModel| addr_json(a)),
            json_seq(out@) == target.take(i as int),
        decreases l@.len() - i,
    {
        let item = addr_to_json(&l[i]);
        let ghost before = out@;
        out.push(item);
        proof {
            assert(json_seq(out@) =~= json_seq(before).push(item.json()));
            assert(json_seq(out@) =~= target.take(i + 1));
        }
        i += 1;
    }
    proof {
        assert(target.take(i as int) =~= target);
    }
    out
}

fn group_list_json(g: &Vec<ParsedGroup>) -> (r: Vec<JSONValue>)
    ensures
        json_seq(r@) == g@.map_values(|x: ParsedGroup| (opt_text(x.name), addr_models(x.addresses@))).map_values(
            |x: (Option<Seq<char>>, Seq<AddrModel>)| group_json(x.0, x.1),
        ),
{
    let ghost target = g@.map_values(|x: ParsedGroup| (opt_text(x.name), addr_models(x.addresses@))).map_values(
        |x: (Option<Seq<char>>, Seq<AddrModel>)| group_json(x.0, x.1),
    );
    let mut out: Vec<JSONValue> = Vec::new();
    let mut i: usize = 0;
    while i < g.len()
        invariant
            i <= g@.len(),
            target == g@.map_values(|x: ParsedGroup| (opt_text(x.name), addr_models(x.addresses@))).map_values(
                |x: (Option<Seq<char>>, Seq<AddrModel>)| group_json(x.0, x.1),
            ),
            json_seq(out@) == target.take(i as int),
        decreases g@.len() - i,
    {
        let group = &g[i];
        let addresses = array_of_json(addr_list_json(&group.addresses));
        let members = vec![("name".to_owned(), opt_json(&group.name)), ("addresses".to_owned(), addresses)];
        proof {
            lemma_object_json(members);
            assert(json_members(members@) =~= group_json(opt_text(group.name), addr_models(group.addresses@))->Object_0);
        }
        let item = JSONValue::Object(members);
        let ghost before = out@;
        out.push(item);
        proof {
            assert(json_seq(out@) =~= json_seq(before).push(item.json()));
            assert(json_seq(out@) =~= target.take(i + 1));
        }
        i += 1;
    }
    proof {
        assert(target.take(i as int) =~= target);
    }
    out
}

fn url_list(l: &Vec<ParsedAddr>) -> (r: Vec<JSONValue>)
    ensures
        json_seq(r@) == urls_of(addr_models(l@)),
{
    let mut out: Vec<JSONValue> = Vec::new();
    let mut i: usize = 0;
    while i < l.len()
        invariant
            i <= l@.len(),
            json_seq(out@) == urls_of(addr_models(l@).take(i as int)),
        decreases l@.len() - i,
    {
        proof {
            assert(addr_models(l@).take(i + 1).drop_last() =~= addr_models(l@).take(i as int));
            assert(addr_models(l@).take(i + 1).last() == l@[i as int].model());
        }
        match &l[i].email {
            Some(e) => {
                let ghost before = out@;
                let item = JSONValue::String(e.clone());
                out.push(item);
                proof {
                    assert(json_seq(out@) =~= json_seq(before).push(item.json()));
                }
            },
            None => {},
        }
        i += 1;
    }
    proof {
        assert(addr_models(l@).take(i as int) =~= addr_models(l@));
    }
    out
}

} // verus!
