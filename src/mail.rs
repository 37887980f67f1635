//! Mail properties, header forms, and the resolution of a header asked for
//! in one form from the form the store precomputed.

use crate::json::{
    address_transform, string_list_transform, string_transform, transform_json_emailaddress,
    transform_json_string, transform_json_stringlist, JSONValue, Json,
};
use crate::store::StoreError;
use vstd::prelude::*;

verus! {

/// The standard header fields.
#[derive(Debug, Clone, Copy, PartialEq, Eq, Structural)]
pub enum RfcHeader {
    Subject,
    From,
    To,
    Cc,
    Date,
    Bcc,
    ReplyTo,
    Sender,
    Comments,
    InReplyTo,
    Keywords,
    Received,
    MessageId,
    References,
    ReturnPath,
    MimeVersion,
    ContentDescription,
    ContentId,
    ContentLanguage,
    ContentLocation,
    ContentTransferEncoding,
    ContentType,
    ContentDisposition,
    ResentTo,
    ResentFrom,
    ResentBcc,
    ResentCc,
    ResentSender,
    ResentDate,
    ResentMessageId,
    ListArchive,
    ListHelp,
    ListId,
    ListOwner,
    ListPost,
    ListSubscribe,
    ListUnsubscribe,
}

/// The forms in which JMAP hands out a header.
#[derive(Debug, Clone, Copy, PartialEq, Eq, Structural)]
pub enum MailHeaderForm {
    Raw,
    Text,
    Addresses,
    GroupedAddresses,
    MessageIds,
    Date,
    URLs,
}

/// Errors of a JMAP method.
#[derive(Debug)]
pub enum JMAPError {
    InvalidArguments(String),
    RequestTooLarge,
    Store(StoreError),
}

/// How a stored header value is reshaped.
#[derive(Debug, Clone, Copy, PartialEq, Eq, Structural)]
pub enum HeaderShape {
    /// One string, or a list of its instances.
    Text,
    /// A list of strings, or a list of such lists.
    StringList,
    /// Addresses, possibly grouped, possibly a list of instances.
    Address,
}

/// Which header and form pairs JMAP allows, and how their values are shaped.
pub open spec fn header_shape(header: RfcHeader, form: MailHeaderForm) -> Option<HeaderShape> {
    match (header, form) {
        (RfcHeader::Date, MailHeaderForm::Date) | (RfcHeader::ResentDate, MailHeaderForm::Date)
        | (RfcHeader::Subject, MailHeaderForm::Text) | (RfcHeader::Comments, MailHeaderForm::Text)
        | (RfcHeader::Keywords, MailHeaderForm::Text) | (RfcHeader::ListId, MailHeaderForm::Text) => Some(
            HeaderShape::Text,
        ),
        (RfcHeader::MessageId, MailHeaderForm::MessageIds) | (
            RfcHeader::References,
            MailHeaderForm::MessageIds,
        ) | (RfcHeader::ResentMessageId, MailHeaderForm::MessageIds) | (
            RfcHeader::InReplyTo,
            MailHeaderForm::MessageIds,
        ) | (RfcHeader::ListArchive, MailHeaderForm::URLs) | (RfcHeader::ListHelp, MailHeaderForm::URLs)
        | (RfcHeader::ListOwner, MailHeaderForm::URLs) | (RfcHeader::ListPost, MailHeaderForm::URLs)
        | (RfcHeader::ListSubscribe, MailHeaderForm::URLs) | (
            RfcHeader::ListUnsubscribe,
            MailHeaderForm::URLs,
        ) => Some(HeaderShape::StringList),
        (RfcHeader::From, MailHeaderForm::Addresses) | (RfcHeader::To, MailHeaderForm::Addresses) | (
            RfcHeader::Cc,
            MailHeaderForm::Addresses,
        ) | (RfcHeader::Bcc, MailHeaderForm::Addresses) | (RfcHeader::ReplyTo, MailHeaderForm::Addresses)
        | (RfcHeader::Sender, MailHeaderForm::Addresses) | (RfcHeader::ResentTo, MailHeaderForm::Addresses)
        | (RfcHeader::ResentFrom, MailHeaderForm::Addresses) | (
            RfcHeader::ResentBcc,
            MailHeaderForm::Addresses,
        ) | (RfcHeader::ResentCc, MailHeaderForm::Addresses) | (
            RfcHeader::ResentSender,
            MailHeaderForm::Addresses,
        ) | (RfcHeader::From, MailHeaderForm::GroupedAddresses) | (
            RfcHeader::To,
            MailHeaderForm::GroupedAddresses,
        ) | (RfcHeader::Cc, MailHeaderForm::GroupedAddresses) | (
            RfcHeader::Bcc,
            MailHeaderForm::GroupedAddresses,
        ) | (RfcHeader::ReplyTo, MailHeaderForm::GroupedAddresses) | (
            RfcHeader::Sender,
            MailHeaderForm::GroupedAddresses,
        ) | (RfcHeader::ResentTo, MailHeaderForm::GroupedAddresses) | (
            RfcHeader::ResentFrom,
            MailHeaderForm::GroupedAddresses,
        ) | (RfcHeader::ResentBcc, MailHeaderForm::GroupedAddresses) | (
            RfcHeader::ResentCc,
            MailHeaderForm::GroupedAddresses,
        ) | (RfcHeader::ResentSender, MailHeaderForm::GroupedAddresses) => Some(
            HeaderShape::Address,
        ),
        _ => None,
    }
}

pub fn get_header_shape(header: RfcHeader, form: MailHeaderForm) -> (r: Option<HeaderShape>)
    ensures
        r == header_shape(header, form),
{
    match (header, form) {
        (RfcHeader::Date, MailHeaderForm::Date) | (RfcHeader::ResentDate, MailHeaderForm::Date)
        | (RfcHeader::Subject, MailHeaderForm::Text) | (RfcHeader::Comments, MailHeaderForm::Text)
        | (RfcHeader::Keywords, MailHeaderForm::Text) | (RfcHeader::ListId, MailHeaderForm::Text) => Some(
            HeaderShape::Text,
        ),
        (RfcHeader::MessageId, MailHeaderForm::MessageIds) | (
            RfcHeader::References,
            MailHeaderForm::MessageIds,
        ) | (RfcHeader::ResentMessageId, MailHeaderForm::MessageIds) | (
            RfcHeader::InReplyTo,
            MailHeaderForm::MessageIds,
        ) | (RfcHeader::ListArchive, MailHeaderForm::URLs) | (RfcHeader::ListHelp, MailHeaderForm::URLs)
        | (RfcHeader::ListOwner, MailHeaderForm::URLs) | (RfcHeader::ListPost, MailHeaderForm::URLs)
        | (RfcHeader::ListSubscribe, MailHeaderForm::URLs) | (
            RfcHeader::ListUnsubscribe,
            MailHeaderForm::URLs,
        ) => Some(HeaderShape::StringList),
        (
            RfcHeader::From
            | RfcHeader::To
            | RfcHeader::Cc
            | RfcHeader::Bcc
            | RfcHeader::ReplyTo
            | RfcHeader::Sender
            | RfcHeader::ResentTo
            | RfcHeader::ResentFrom
            | RfcHeader::ResentBcc
            | RfcHeader::ResentCc
            | RfcHeader::ResentSender,
            MailHeaderForm::Addresses | MailHeaderForm::GroupedAddresses,
        ) => Some(HeaderShape::Address),
        _ => None,
    }
}

/// The value of a stored header in the requested form; `None` when JMAP
/// does not allow the header in that form.
pub open spec fn rfc_transform(
    header: RfcHeader,
    value: Json,
    form: MailHeaderForm,
    is_collection: bool,
    is_grouped: bool,
    as_collection: bool,
) -> Option<Json> {
    match header_shape(header, form) {
        Some(HeaderShape::Text) => Some(string_transform(value, as_collection)),
        Some(HeaderShape::StringList) => Some(
            string_list_transform(value, is_collection, as_collection),
        ),
        Some(HeaderShape::Address) => Some(
            address_transform(
                value,
                is_grouped,
                is_collection,
                form == MailHeaderForm::GroupedAddresses,
                as_collection,
            ),
        ),
        None => None,
    }
}

fn invalid_header_property() -> (r: JMAPError)
    ensures
        r is InvalidArguments,
{
    JMAPError::InvalidArguments("Invalid header property.".to_owned())
}

pub fn transform_rfc_header(
    header: RfcHeader,
    value: JSONValue,
    form: MailHeaderForm,
    is_collection: bool,
    is_grouped: bool,
    as_collection: bool,
) -> (r: Result<JSONValue, JMAPError>)
    ensures
        match rfc_transform(header, value.json(), form, is_collection, is_grouped, as_collection) {
            Some(v) => r is Ok && r->Ok_0.json() == v,
            None => r is Err && r->Err_0 is InvalidArguments,
        },
{
    match get_header_shape(header, form) {
        Some(HeaderShape::Text) => Ok(transform_json_string(value, as_collection)),
        Some(HeaderShape::StringList) => Ok(
            transform_json_stringlist(value, is_collection, as_collection),
        ),
        Some(HeaderShape::Address) => Ok(
            transform_json_emailaddress(
                value,
                is_grouped,
                is_collection,
                form == MailHeaderForm::GroupedAddresses,
                as_collection,
            ),
        ),
        None => Err(invalid_header_property()),
    }
}

/// A header value the store precomputed, under the form it was stored in and
/// whether it holds all instances.
#[derive(Debug)]
pub struct StoredHeader {
    pub header: RfcHeader,
    pub form: MailHeaderForm,
    pub all: bool,
    pub value: JSONValue,
}

/// The header, form and instance flag each stored value is kept under.
pub open spec fn stored_keys(hs: Seq<StoredHeader>) -> Seq<(RfcHeader, MailHeaderForm, bool)> {
    hs.map_values(|h: StoredHeader| (h.header, h.form, h.all))
}

/// The first index at or after `i` whose key is `key`.
pub open spec fn find_key(keys: Seq<(RfcHeader, MailHeaderForm, bool)>, key: (RfcHeader, MailHeaderForm, bool), i: int) -> Option<int>
    decreases keys.len() - i,
{
    if i < 0 || i >= keys.len() {
        None
    } else if keys[i] == key {
        Some(i)
    } else {
        find_key(keys, key, i + 1)
    }
}

/// The first stored value of `header` in `form`, `all`.
pub open spec fn find_stored(
    hs: Seq<StoredHeader>,
    header: RfcHeader,
    form: MailHeaderForm,
    all: bool,
) -> Option<int> {
    find_key(stored_keys(hs), (header, form, all), 0)
}

/// Where the value for a header asked in `form` is found, trying the
/// equivalent forms in turn: its index, and whether it holds all instances
/// and is grouped.
pub open spec fn rfc_lookup(
    keys: Seq<(RfcHeader, MailHeaderForm, bool)>,
    header: RfcHeader,
    form: MailHeaderForm,
    all: bool,
) -> Option<(int, bool, bool)> {
    if form == MailHeaderForm::Addresses || form == MailHeaderForm::GroupedAddresses {
        match find_key(keys, (header, MailHeaderForm::Addresses, false), 0) {
            Some(i) => Some((i, false, false)),
            None => match find_key(keys, (header, MailHeaderForm::Addresses, true), 0) {
                Some(i) => Some((i, true, false)),
                None => match find_key(keys, (header, MailHeaderForm::GroupedAddresses, false), 0) {
                    Some(i) => Some((i, false, true)),
                    None => match find_key(keys, (header, MailHeaderForm::GroupedAddresses, true), 0) {
                        Some(i) => Some((i, true, true)),
                        None => None,
                    },
                },
            },
        }
    } else {
        match find_key(keys, (header, form, all), 0) {
            Some(i) => Some((i, all, false)),
            None => match find_key(keys, (header, form, !all), 0) {
                Some(i) => Some((i, !all, false)),
                None => None,
            },
        }
    }
}

/// Takes the first stored value of `header` in `form`, `all` out of the list.
fn take_stored(
    hs: &mut Vec<StoredHeader>,
    header: RfcHeader,
    form: MailHeaderForm,
    all: bool,
) -> (r: Option<JSONValue>)
    ensures
        match find_stored(old(hs)@, header, form, all) {
            Some(i) => r is Some && r->0 == old(hs)@[i].value && final(hs)@ == old(hs)@.remove(i),
            None => r is None && final(hs)@ == old(hs)@,
        },
{
    let ghost keys = stored_keys(hs@);
    let mut i: usize = 0;
    while i < hs.len() && !(hs[i].header == header && hs[i].form == form && hs[i].all == all)
        invariant
            i <= hs@.len(),
            hs@ == old(hs)@,
            keys == stored_keys(hs@),
            find_key(keys, (header, form, all), 0) == find_key(keys, (header, form, all), i as int),
        decreases hs@.len() - i,
    {
        proof {
            assert(keys[i as int] == (hs@[i as int].header, hs@[i as int].form, hs@[i as int].all));
        }
        i += 1;
    }
    if i < hs.len() {
        proof {
            assert(keys[i as int] == (hs@[i as int].header, hs@[i as int].form, hs@[i as int].all));
        }
        let h = hs.remove(i);
        Some(h.value)
    } else {
        None
    }
}

/// The header as asked for, from the value the store precomputed in the same
/// or an equivalent form; the value used is taken out of `message_headers`.
pub fn add_rfc_header(
    message_headers: &mut Vec<StoredHeader>,
    header: RfcHeader,
    form: MailHeaderForm,
    all: bool,
) -> (r: Result<JSONValue, JMAPError>)
    ensures
        ({
            let hs = old(message_headers)@;
            let (value, is_collection, is_grouped) = match rfc_lookup(stored_keys(hs), header, form, all) {
                Some((i, c, g)) => (hs[i].value.json(), c, g),
                None => (Json::Null, false, false),
            };
            &&& match rfc_lookup(stored_keys(hs), header, form, all) {
                Some((i, _, _)) => final(message_headers)@ == hs.remove(i),
                None => final(message_headers)@ == hs,
            }
            &&& match rfc_transform(header, value, form, is_collection, is_grouped, all) {
                Some(v) => r is Ok && r->Ok_0.json() == v,
                None => r is Err && r->Err_0 is InvalidArguments,
            }
        }),
{
    let (value, is_collection, is_grouped) = if form == MailHeaderForm::Addresses || form
        == MailHeaderForm::GroupedAddresses {
        if let Some(value) = take_stored(message_headers, header, MailHeaderForm::Addresses, false) {
            (value, false, false)
        } else if let Some(value) = take_stored(
            message_headers,
            header,
            MailHeaderForm::Addresses,
            true,
        ) {
            (value, true, false)
        } else if let Some(value) = take_stored(
            message_headers,
            header,
            MailHeaderForm::GroupedAddresses,
            false,
        ) {
            (value, false, true)
        } else if let Some(value) = take_stored(
            message_headers,
            header,
            MailHeaderForm::GroupedAddresses,
            true,
        ) {
            (value, true, true)
        } else {
            (JSONValue::Null, false, false)
        }
    } else {
        if let Some(value) = take_stored(message_headers, header, form, all) {
            (value, all, false)
        } else if let Some(value) = take_stored(message_headers, header, form, !all) {
            (value, !all, false)
        } else {
            (JSONValue::Null, false, false)
        }
    };
    transform_rfc_header(header, value, form, is_collection, is_grouped, all)
}

} // verus!
