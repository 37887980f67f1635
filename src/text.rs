//! Text helpers: appending to strings, lossy UTF-8 decoding, trimming, and
//! the previews and truncations of message bodies.

use mail_parser::parsers::fields::address::parse_address;
use mail_parser::parsers::message::MessageStream;
use mail_parser::{Addr, Group, HeaderValue};
use std::borrow::Cow;
use vstd::prelude::*;

verus! {

/// The size of a text in UTF-8 bytes, as `str::len` reports it.
pub open spec fn utf8_size(s: Seq<char>) -> nat {
    (vstd::utf8::encode_utf8(s).len() as usize) as nat
}

/// What `String::from_utf8_lossy` makes of some bytes.
pub uninterp spec fn utf8_lossy(b: Seq<u8>) -> Seq<char>;

/// What `str::trim` leaves of a string.
pub uninterp spec fn trim_of(s: Seq<char>) -> Seq<char>;

/// What mail-parser's `preview_text` makes of a text with a length bound.
pub uninterp spec fn preview_text_of(s: Seq<char>, max_len: nat) -> Seq<char>;

/// What mail-parser's `preview_html` makes of an HTML text with a length bound.
pub uninterp spec fn preview_html_of(s: Seq<char>, max_len: nat) -> Seq<char>;

/// What mail-parser's `truncate_html` makes of an HTML text with a length bound.
pub uninterp spec fn truncate_html_of(s: Seq<char>, max_len: nat) -> Seq<char>;

/// What mail-parser's `truncate_text` makes of a text with a length bound.
pub uninterp spec fn truncate_text_of(s: Seq<char>, max_len: nat) -> Seq<char>;

/// The text mail-parser's unstructured-field parser reads from a header
/// value; `None` when it reads no text.
pub uninterp spec fn unstructured_of(b: Seq<u8>) -> Option<Seq<char>>;

/// The message ids mail-parser's id-field parser reads from a header value.
pub uninterp spec fn message_ids_of(b: Seq<u8>) -> Seq<Seq<char>>;

/// The ISO 8601 form of the date mail-parser's date-field parser reads from a
/// header value; `None` when it reads no date.
pub uninterp spec fn date_of(b: Seq<u8>) -> Option<Seq<char>>;

/// The addresses mail-parser's address-field parser reads from a header value.
pub uninterp spec fn addresses_of(b: Seq<u8>) -> AddressesModel;

/// A parsed address.
#[derive(Debug)]
pub struct ParsedAddr {
    pub name: Option<String>,
    pub email: Option<String>,
}

/// A parsed group of addresses.
#[derive(Debug)]
pub struct ParsedGroup {
    pub name: Option<String>,
    pub addresses: Vec<ParsedAddr>,
}

/// What an address header holds: nothing, a list of addresses, or groups.
#[derive(Debug)]
pub enum ParsedAddresses {
    Empty,
    List(Vec<ParsedAddr>),
    Groups(Vec<ParsedGroup>),
}

pub struct AddrModel {
    pub name: Option<Seq<char>>,
    pub email: Option<Seq<char>>,
}

pub enum AddressesModel {
    Empty,
    List(Seq<AddrModel>),
    Groups(Seq<(Option<Seq<char>>, Seq<AddrModel>)>),
}

pub open spec fn opt_text(o: Option<String>) -> Option<Seq<char>> {
    match o {
        Some(s) => Some(s@),
        None => None,
    }
}

impl ParsedAddr {
    pub open spec fn model(self) -> AddrModel {
        AddrModel { name: opt_text(self.name), email: opt_text(self.email) }
    }
}

pub open spec fn addr_models(v: Seq<ParsedAddr>) -> Seq<AddrModel> {
    v.map_values(|a: ParsedAddr| a.model())
}

impl ParsedAddresses {
    pub open spec fn model(self) -> AddressesModel {
        match self {
            ParsedAddresses::Empty => AddressesModel::Empty,
            ParsedAddresses::List(v) => AddressesModel::List(addr_models(v@)),
            ParsedAddresses::Groups(g) => AddressesModel::Groups(
                g@.map_values(|x: ParsedGroup| (opt_text(x.name), addr_models(x.addresses@))),
            ),
        }
    }
}

/// Relies on String::push_str: the text is added at the end.
#[verifier::external_body]
pub(crate) fn append_str(s: &mut String, t: &str)
    ensures
        final(s)@ == old(s)@ + t@,
{
    s.push_str(t);
}

/// Relies on String::push: the character is added at the end.
#[verifier::external_body]
pub(crate) fn append_char(s: &mut String, c: char)
    ensures
        final(s)@ == old(s)@.push(c),
{
    s.push(c);
}

/// Relies on String::from_utf8_lossy: decodes the bytes, replacing invalid
/// sequences; the result depends on the bytes alone.
#[verifier::external_body]
pub(crate) fn lossy_string(b: &[u8]) -> (r: String)
    ensures
        r@ == utf8_lossy(b@),
{
    String::from_utf8_lossy(b).into_owned()
}

/// Relies on str::trim: drops leading and trailing whitespace.
#[verifier::external_body]
pub(crate) fn trim_string(s: &str) -> (r: String)
    ensures
        r@ == trim_of(s@),
{
    s.trim().to_string()
}

/// Relies on mail_parser::parsers::preview::preview_text: a text no longer
/// than the bound (in bytes) comes back as it is; a longer one is cut and
/// marked so that it fits the bound, when the bound leaves room for the mark.
#[verifier::external_body]
pub(crate) fn preview_text(s: String, max_len: usize) -> (r: String)
    ensures
        r@ == preview_text_of(s@, max_len as nat),
        utf8_size(s@) <= max_len ==> r@ == s@,
        max_len >= 3 ==> utf8_size(r@) <= max_len,
{
    mail_parser::parsers::preview::preview_text(Cow::from(s), max_len).into_owned()
}

/// Relies on mail_parser::parsers::preview::preview_html: the text of the
/// HTML, previewed as `preview_text` does, so it fits the bound when the
/// bound leaves room for the mark.
#[verifier::external_body]
pub(crate) fn preview_html(s: String, max_len: usize) -> (r: String)
    ensures
        r@ == preview_html_of(s@, max_len as nat),
        max_len >= 3 ==> utf8_size(r@) <= max_len,
{
    mail_parser::parsers::preview::preview_html(Cow::from(s), max_len).into_owned()
}

/// Relies on mail_parser::parsers::preview::truncate_html: HTML no longer
/// than the bound comes back as it is; longer HTML is cut before the bound,
/// at a tag boundary where it can, and marked.
#[verifier::external_body]
pub(crate) fn truncate_html(s: String, max_len: usize) -> (r: String)
    ensures
        r@ == truncate_html_of(s@, max_len as nat),
        utf8_size(s@) <= max_len ==> r@ == s@,
        max_len >= 3 ==> utf8_size(r@) <= max_len,
{
    mail_parser::parsers::preview::truncate_html(Cow::from(s), max_len).into_owned()
}

/// Relies on mail_parser::parsers::preview::truncate_text: previews the
/// text as `preview_text` does.
#[verifier::external_body]
pub(crate) fn truncate_text(s: String, max_len: usize) -> (r: String)
    ensures
        r@ == truncate_text_of(s@, max_len as nat),
        utf8_size(s@) <= max_len ==> r@ == s@,
        max_len >= 3 ==> utf8_size(r@) <= max_len,
{
    mail_parser::parsers::preview::truncate_text(Cow::from(s), max_len).into_owned()
}

/// Relies on mail_parser::parsers::fields::unstructured::parse_unstructured:
/// the decoded text of an unstructured header value.
#[verifier::external_body]
pub(crate) fn parse_unstructured(b: &[u8]) -> (r: Option<String>)
    ensures
        match r {
            Some(t) => unstructured_of(b@) == Some(t@),
            None => unstructured_of(b@) is None,
        },
{
    let mut stream = MessageStream::new(b);
    match mail_parser::parsers::fields::unstructured::parse_unstructured(&mut stream) {
        HeaderValue::Text(t) => Some(t.into_owned()),
        _ => None,
    }
}

/// Relies on mail_parser::parsers::fields::id::parse_id: the message ids of a
/// header value, one or a list.
#[verifier::external_body]
pub(crate) fn parse_message_ids(b: &[u8]) -> (r: Vec<String>)
    ensures
        r@.map_values(|t: String| t@) == message_ids_of(b@),
{
    let mut stream = MessageStream::new(b);
    match mail_parser::parsers::fields::id::parse_id(&mut stream) {
        HeaderValue::Text(t) => vec![t.into_owned()],
        HeaderValue::TextList(l) => l.into_iter().map(|t| t.into_owned()).collect(),
        _ => Vec::new(),
    }
}

/// Relies on mail_parser::parsers::fields::date::parse_date and
/// DateTime::to_iso8601: the date of a header value, in ISO 8601 form.
#[verifier::external_body]
pub(crate) fn parse_date_text(b: &[u8]) -> (r: Option<String>)
    ensures
        opt_text(r) == date_of(b@),
{
    let mut stream = MessageStream::new(b);
    match mail_parser::parsers::fields::date::parse_date(&mut stream) {
        HeaderValue::DateTime(d) => Some(d.to_iso8601()),
        _ => None,
    }
}

/// Relies on mail_parser::parsers::fields::address::parse_address: the
/// addresses or groups of a header value.
#[verifier::external_body]
pub(crate) fn parse_addresses(b: &[u8]) -> (r: ParsedAddresses)
    ensures
        r.model() == addresses_of(b@),
{
    let a = |x: Addr| ParsedAddr { name: x.name.map(Cow::into_owned), email: x.address.map(Cow::into_owned) };
    let g = |x: Group| ParsedGroup { name: x.name.map(Cow::into_owned), addresses: x.addresses.into_iter().map(a).collect() };
    match parse_address(&mut MessageStream::new(b)) {
        HeaderValue::Address(x) => ParsedAddresses::List(vec![a(x)]),
        HeaderValue::AddressList(v) => ParsedAddresses::List(v.into_iter().map(a).collect()),
        HeaderValue::Group(x) => ParsedAddresses::Groups(vec![g(x)]),
        HeaderValue::GroupList(v) => ParsedAddresses::Groups(v.into_iter().map(g).collect()),
        _ => ParsedAddresses::Empty,
    }
}

} // verus!
