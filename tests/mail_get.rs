use stalwart_jmap::blob::{copy_blob, BlobAccess, BlobId, CopyBlobRequest, TemporaryBlob};
use stalwart_jmap::json::JSONValue;
use stalwart_jmap::mail::{
    add_rfc_header, transform_rfc_header, JMAPError, MailHeaderForm, RfcHeader, StoredHeader,
};
use stalwart_jmap::mail_get::{
    add_body_value, add_raw_header, HeaderName, HeaderOffset, MailBodyProperties,
    MailGetArguments, MailHeaderProperty, MailProperties, MessageData, MessageOutline,
    MessageStructure, MimePart, MimePartType,
};
use stalwart_jmap::mail_store::{GetRequest, MailDocument, MailStore};

fn s(v: &str) -> JSONValue {
    JSONValue::String(v.to_string())
}

fn member<'a>(v: &'a JSONValue, key: &str) -> Option<&'a JSONValue> {
    match v {
        JSONValue::Object(ms) => ms.iter().find(|(k, _)| k == key).map(|(_, v)| v),
        _ => None,
    }
}

fn text_part(blob_index: u32) -> MimePart {
    MimePart {
        mime_type: MimePartType::Text,
        blob_index,
        is_encoding_problem: false,
        headers: vec![(MailBodyProperties::Type, s("text/plain"))],
    }
}

fn message(document_id: u32, raw: &[u8], body: Vec<u8>) -> MailDocument {
    MailDocument {
        document_id,
        thread_id: 7,
        mailboxes: vec![3],
        keywords: vec!["$seen".to_string()],
        data: MessageData {
            headers: vec![StoredHeader {
                header: RfcHeader::Subject,
                form: MailHeaderForm::Text,
                all: false,
                value: s("Hello"),
            }],
            size: JSONValue::Number(raw.len() as i64),
            received_at: s("2023-01-01T00:00:00Z"),
            has_attachment: JSONValue::Bool(false),
            text_body: vec![0],
            html_body: vec![],
            attachments: vec![],
            mime_parts: vec![
                MimePart {
                    mime_type: MimePartType::Other,
                    blob_index: 0,
                    is_encoding_problem: false,
                    headers: vec![],
                },
                text_part(0),
            ],
        },
        outline: MessageOutline {
            body_offset: 22,
            headers: vec![vec![(
                HeaderName::Other("X-Foo".to_string()),
                vec![HeaderOffset { start: 6, end: 8 }, HeaderOffset { start: 16, end: 18 }],
            )]],
            body_structure: MessageStructure::Part(0),
        },
        raw: raw.to_vec(),
        parts: vec![body],
    }
}

const RAW: &[u8] = b"X-Foo: a\r\nX-Foo: b\r\n\r\nbody";

fn store_with_one() -> MailStore {
    let mut store = MailStore::new(1, 10, "s1".to_string());
    assert!(store.add_document(message(5, RAW, b"body".to_vec())).is_ok());
    store
}

fn request(ids: Option<Vec<u64>>, properties: Option<Vec<MailProperties>>) -> GetRequest {
    GetRequest {
        account_id: 1,
        ids,
        properties,
        arguments: vec![],
    }
}

#[test]
fn get_nonexistent_id() {
    let store = MailStore::new(1, 10, "s0".to_string());
    let r = store.mail_get(request(Some(vec![1]), None)).unwrap();
    assert_eq!(member(&r, "state"), Some(&s("s0")));
    assert_eq!(member(&r, "list"), Some(&JSONValue::Array(vec![])));
    assert_eq!(
        member(&r, "notFound"),
        Some(&JSONValue::Array(vec![s("0000000000000001")]))
    );
}

#[test]
fn enumerate_up_to_cap() {
    let store = store_with_one();
    let r = store.mail_get(request(None, Some(vec![MailProperties::Id]))).unwrap();
    match member(&r, "list") {
        Some(JSONValue::Array(list)) => {
            assert_eq!(list.len(), 1);
            assert_eq!(member(&list[0], "id"), Some(&s("0000000700000005")));
        }
        other => panic!("unexpected list {:?}", other),
    }
    assert_eq!(member(&r, "notFound"), Some(&JSONValue::Array(vec![])));
}

#[test]
fn too_many_ids() {
    let store = store_with_one();
    let r = store.mail_get(request(Some((0..11).collect()), None));
    assert!(matches!(r, Err(JMAPError::RequestTooLarge)));
}

#[test]
fn subject_string() {
    let store = store_with_one();
    let r = store
        .mail_get(request(Some(vec![(7u64 << 32) | 5]), Some(vec![MailProperties::Subject])))
        .unwrap();
    match member(&r, "list") {
        Some(JSONValue::Array(list)) => {
            assert_eq!(member(&list[0], "subject"), Some(&s("Hello")));
        }
        other => panic!("unexpected list {:?}", other),
    }
}

#[test]
fn raw_header_all_and_last() {
    let store = store_with_one();
    let props = vec![
        MailProperties::Header(MailHeaderProperty {
            form: MailHeaderForm::Raw,
            header: HeaderName::Other("X-Foo".to_string()),
            all: true,
        }),
        MailProperties::Header(MailHeaderProperty {
            form: MailHeaderForm::Raw,
            header: HeaderName::Other("X-Foo".to_string()),
            all: false,
        }),
    ];
    let r = store.mail_get(request(Some(vec![5]), Some(props))).unwrap();
    match member(&r, "list") {
        Some(JSONValue::Array(list)) => {
            assert_eq!(
                member(&list[0], "header:X-Foo:all"),
                Some(&JSONValue::Array(vec![s("a"), s("b")]))
            );
            assert_eq!(member(&list[0], "header:X-Foo"), Some(&s("b")));
        }
        other => panic!("unexpected list {:?}", other),
    }
}

#[test]
fn preview_is_short() {
    let mut store = MailStore::new(1, 10, "s".to_string());
    assert!(store.add_document(message(1, RAW, vec![b'x'; 1000])).is_ok());
    let r = store.mail_get(request(Some(vec![1]), Some(vec![MailProperties::Preview]))).unwrap();
    match member(&r, "list") {
        Some(JSONValue::Array(list)) => match member(&list[0], "preview") {
            Some(JSONValue::String(p)) => {
                assert!(p.chars().count() <= 256);
                assert!(p.starts_with("xxx"));
            }
            other => panic!("unexpected preview {:?}", other),
        },
        other => panic!("unexpected list {:?}", other),
    }
}

#[test]
fn every_requested_id_is_accounted_for() {
    let store = store_with_one();
    let r = store.mail_get(request(Some(vec![5, 6, 5 | (9u64 << 32), 8]), None)).unwrap();
    let list = match member(&r, "list") {
        Some(JSONValue::Array(l)) => l.len(),
        _ => panic!("no list"),
    };
    let missing = match member(&r, "notFound") {
        Some(JSONValue::Array(l)) => l.len(),
        _ => panic!("no notFound"),
    };
    assert_eq!(list, 2);
    assert_eq!(missing, 2);
}

#[test]
fn other_account_sees_nothing() {
    let store = store_with_one();
    let mut req = request(Some(vec![5]), None);
    req.account_id = 2;
    let r = store.mail_get(req).unwrap();
    assert_eq!(member(&r, "notFound"), Some(&JSONValue::Array(vec![s("0000000000000005")])));
}

#[test]
fn unknown_argument_is_refused() {
    let store = store_with_one();
    let mut req = request(None, None);
    req.arguments = vec![("bogus".to_string(), JSONValue::Bool(true))];
    match store.mail_get(req) {
        Err(JMAPError::InvalidArguments(m)) => assert_eq!(m, "Unknown argument: 'bogus'."),
        other => panic!("unexpected {:?}", other),
    }
}

#[test]
fn arguments_are_read() {
    let args = MailGetArguments::parse_arguments(vec![
        ("fetchTextBodyValues".to_string(), JSONValue::Bool(true)),
        ("maxBodyValueBytes".to_string(), JSONValue::Number(5)),
        (
            "bodyProperties".to_string(),
            JSONValue::Array(vec![s("partId"), s("size")]),
        ),
    ])
    .unwrap();
    assert!(args.fetch_text_body_values);
    assert!(!args.fetch_html_body_values);
    assert_eq!(args.max_body_value_bytes, 5);
    assert_eq!(
        args.body_properties,
        vec![MailBodyProperties::PartId, MailBodyProperties::Size]
    );
    let defaults = MailGetArguments::parse_arguments(vec![]).unwrap();
    assert_eq!(defaults.body_properties.len(), 10);
    assert!(MailGetArguments::parse_arguments(vec![(
        "fetchAllBodyValues".to_string(),
        s("yes")
    )])
    .is_err());
    assert!(MailGetArguments::parse_arguments(vec![(
        "bodyProperties".to_string(),
        JSONValue::Array(vec![s("nope")])
    )])
    .is_err());
}

#[test]
fn body_values_truncate() {
    let mut store = MailStore::new(1, 10, "s".to_string());
    assert!(store.add_document(message(1, RAW, b"hello world".to_vec())).is_ok());
    let mut req = request(Some(vec![1]), Some(vec![MailProperties::BodyValues]));
    req.arguments = vec![
        ("fetchAllBodyValues".to_string(), JSONValue::Bool(true)),
        ("maxBodyValueBytes".to_string(), JSONValue::Number(8)),
    ];
    let r = store.mail_get(req).unwrap();
    let list = match member(&r, "list") {
        Some(JSONValue::Array(l)) => l,
        _ => panic!("no list"),
    };
    let values = member(&list[0], "bodyValues").unwrap();
    let v = member(values, "0").unwrap();
    assert_eq!(member(v, "isTruncated"), Some(&JSONValue::Bool(true)));
    assert_eq!(member(v, "isEncodingProblem"), Some(&JSONValue::Bool(false)));
    match member(v, "value") {
        Some(JSONValue::String(t)) => assert!(t.len() <= 8 && t != "hello world"),
        other => panic!("unexpected value {:?}", other),
    }
}

#[test]
fn body_value_without_limit() {
    let args = MailGetArguments::parse_arguments(vec![]).unwrap();
    let v = add_body_value(&text_part(0), "abc".to_string(), &args);
    assert_eq!(member(&v, "value"), Some(&s("abc")));
    assert_eq!(member(&v, "isTruncated"), Some(&JSONValue::Bool(false)));
}

#[test]
fn text_body_parts_and_structure() {
    let store = store_with_one();
    let r = store
        .mail_get(request(
            Some(vec![5]),
            Some(vec![MailProperties::TextBody, MailProperties::BodyStructure]),
        ))
        .unwrap();
    let list = match member(&r, "list") {
        Some(JSONValue::Array(l)) => l,
        _ => panic!("no list"),
    };
    let parts = match member(&list[0], "textBody") {
        Some(JSONValue::Array(p)) => p,
        other => panic!("unexpected {:?}", other),
    };
    assert_eq!(parts.len(), 1);
    assert_eq!(member(&parts[0], "partId"), Some(&JSONValue::Number(0)));
    assert_eq!(member(&parts[0], "type"), Some(&s("text/plain")));
    assert_eq!(
        member(&parts[0], "blobId"),
        Some(&s("o00000001020000000500000002"))
    );
    let structure = member(&list[0], "bodyStructure").unwrap();
    assert_eq!(member(structure, "partId"), Some(&JSONValue::Number(0)));
}

#[test]
fn raw_header_forms() {
    let offsets = [HeaderOffset { start: 6, end: 8 }, HeaderOffset { start: 16, end: 18 }];
    assert_eq!(add_raw_header(&offsets, RAW, MailHeaderForm::Raw, false), s("b"));
    assert_eq!(
        add_raw_header(&offsets, RAW, MailHeaderForm::Raw, true),
        JSONValue::Array(vec![s("a"), s("b")])
    );
    assert_eq!(add_raw_header(&[], RAW, MailHeaderForm::Raw, false), JSONValue::Null);
    let out_of_range = [HeaderOffset { start: 6, end: 800 }];
    assert_eq!(
        add_raw_header(&out_of_range, RAW, MailHeaderForm::Raw, true),
        JSONValue::Array(vec![])
    );
    let ids = b"Message-ID: <a@b>\n";
    assert_eq!(
        add_raw_header(&[HeaderOffset { start: 11, end: 18 }], ids, MailHeaderForm::MessageIds, false),
        JSONValue::Array(vec![s("a@b")])
    );
}

#[test]
fn header_form_checks() {
    assert!(matches!(
        transform_rfc_header(RfcHeader::Subject, s("x"), MailHeaderForm::Addresses, false, false, false),
        Err(JMAPError::InvalidArguments(_))
    ));
    assert_eq!(
        transform_rfc_header(RfcHeader::Subject, s("x"), MailHeaderForm::Text, false, false, true)
            .unwrap(),
        JSONValue::Array(vec![s("x")])
    );
}

#[test]
fn rfc_header_falls_back_to_other_form() {
    let mut headers = vec![StoredHeader {
        header: RfcHeader::From,
        form: MailHeaderForm::GroupedAddresses,
        all: false,
        value: JSONValue::Array(vec![JSONValue::Object(vec![
            ("name".to_string(), JSONValue::Null),
            (
                "addresses".to_string(),
                JSONValue::Array(vec![s("a@b")]),
            ),
        ])]),
    }];
    let v = add_rfc_header(&mut headers, RfcHeader::From, MailHeaderForm::Addresses, false).unwrap();
    assert_eq!(v, JSONValue::Array(vec![s("a@b")]));
    assert!(headers.is_empty());
    let none = add_rfc_header(&mut headers, RfcHeader::From, MailHeaderForm::Addresses, false).unwrap();
    assert_eq!(none, JSONValue::Null);
}

#[test]
fn incomplete_message_is_refused() {
    let mut store = MailStore::new(1, 10, "s".to_string());
    let mut m = message(1, RAW, b"x".to_vec());
    m.parts.clear();
    assert!(store.add_document(m).is_err());
    assert!(store.add_document(message(1, RAW, b"x".to_vec())).is_ok());
    assert!(store.add_document(message(1, RAW, b"x".to_vec())).is_err());
}

#[test]
fn blob_ids() {
    let owned = BlobId::new_owned(1, 2, 5, 0);
    assert_eq!(owned.to_jmap_string(), "o00000001020000000500000000");
    assert_eq!(
        owned.clone_with_index(3),
        BlobId::new_owned(1, 2, 5, 5)
    );
    let t = TemporaryBlob { account_id: 1, timestamp: 2, hash: 3 };
    let inner = BlobId::InnerTemporary(t, 0);
    assert_eq!(inner.clone_with_index(4), BlobId::InnerTemporary(t, 4));
}

#[test]
fn copy_blob_sorts_by_access() {
    let a = BlobId::new_owned(1, 2, 1, 1);
    let b = BlobId::new_owned(1, 2, 2, 1);
    let c = BlobId::new_owned(1, 2, 3, 1);
    let access = vec![
        BlobAccess { account_has_access: true, shared_document_access: None },
        BlobAccess { account_has_access: false, shared_document_access: Some(false) },
        BlobAccess { account_has_access: false, shared_document_access: Some(true) },
    ];
    let r = copy_blob(
        CopyBlobRequest { from_account_id: 1, account_id: 2, blob_ids: vec![a, b, c] },
        false,
        &access,
    );
    assert_eq!(r.copied, Some(vec![a, c]));
    let refused = r.not_copied.unwrap();
    assert_eq!(refused.len(), 1);
    assert_eq!(refused[0].0, b);
    assert_eq!(refused[0].1.description, "You do not have access to this blobId.");
    let r = copy_blob(
        CopyBlobRequest { from_account_id: 1, account_id: 2, blob_ids: vec![b] },
        true,
        &vec![access[1]],
    );
    assert_eq!(r.copied, Some(vec![b]));
    assert!(r.not_copied.is_none());
}

fn emails(v: &JSONValue) -> Vec<String> {
    match v {
        JSONValue::Array(items) => items
            .iter()
            .filter_map(|a| match member(a, "email") {
                Some(JSONValue::String(e)) => Some(e.clone()),
                _ => None,
            })
            .collect(),
        _ => vec![],
    }
}

#[test]
fn raw_address_and_date_headers() {
    let raw = b"From: John <j@x.com>, Ann <a@y.com>\nDate: Sat, 20 Nov 2021 14:22:01 -0800\n";
    let from = [HeaderOffset { start: 5, end: 36 }];
    let flat = add_raw_header(&from, raw, MailHeaderForm::Addresses, false);
    assert_eq!(emails(&flat), vec!["j@x.com".to_string(), "a@y.com".to_string()]);
    let grouped = add_raw_header(&from, raw, MailHeaderForm::GroupedAddresses, false);
    match &grouped {
        JSONValue::Array(groups) => {
            assert_eq!(groups.len(), 1);
            assert_eq!(member(&groups[0], "name"), Some(&JSONValue::Null));
            assert_eq!(emails(member(&groups[0], "addresses").unwrap()).len(), 2);
        }
        other => panic!("unexpected {:?}", other),
    }
    let all = add_raw_header(&from, raw, MailHeaderForm::Addresses, true);
    match &all {
        JSONValue::Array(instances) => assert_eq!(emails(&instances[0]).len(), 2),
        other => panic!("unexpected {:?}", other),
    }
    let date = [HeaderOffset { start: 41, end: 74 }];
    assert_eq!(
        add_raw_header(&date, raw, MailHeaderForm::Date, false),
        s("2021-11-20T14:22:01-08:00")
    );
}

#[test]
fn nested_body_structure() {
    let mut m = message(9, RAW, b"body".to_vec());
    m.data.mime_parts = vec![
        MimePart {
            mime_type: MimePartType::MultiPart,
            blob_index: 0,
            is_encoding_problem: false,
            headers: vec![],
        },
        MimePart {
            mime_type: MimePartType::MultiPart,
            blob_index: 0,
            is_encoding_problem: false,
            headers: vec![],
        },
        text_part(0),
        MimePart {
            mime_type: MimePartType::Html,
            blob_index: 0,
            is_encoding_problem: false,
            headers: vec![(MailBodyProperties::Type, s("text/html"))],
        },
    ];
    m.outline.body_structure = MessageStructure::MultiPart(
        0,
        vec![
            MessageStructure::Part(1),
            MessageStructure::List(vec![MessageStructure::Part(2)]),
            MessageStructure::Part(2),
        ],
    );
    let mut store = MailStore::new(1, 10, "s".to_string());
    assert!(store.add_document(m).is_ok());
    let r = store
        .mail_get(request(Some(vec![9]), Some(vec![MailProperties::BodyStructure])))
        .unwrap();
    let list = match member(&r, "list") {
        Some(JSONValue::Array(l)) => l,
        _ => panic!("no list"),
    };
    let root = member(&list[0], "bodyStructure").unwrap();
    assert_eq!(member(root, "partId"), None);
    let outer = match member(root, "subParts") {
        Some(JSONValue::Array(p)) => p,
        other => panic!("unexpected {:?}", other),
    };
    assert_eq!(outer.len(), 1);
    let children = match member(&outer[0], "subParts") {
        Some(JSONValue::Array(p)) => p,
        other => panic!("unexpected {:?}", other),
    };
    assert_eq!(children.len(), 2);
    assert_eq!(member(&children[0], "partId"), Some(&JSONValue::Number(1)));
    assert_eq!(member(&children[0], "type"), Some(&s("text/plain")));
    assert_eq!(member(&children[1], "partId"), Some(&JSONValue::Number(2)));
    assert_eq!(member(&children[1], "type"), Some(&s("text/html")));
}

fn html_message(document_id: u32, html: &[u8]) -> MailDocument {
    let mut m = message(document_id, RAW, html.to_vec());
    m.data.text_body = vec![];
    m.data.html_body = vec![0];
    m.data.mime_parts[1] = MimePart {
        mime_type: MimePartType::Html,
        blob_index: 0,
        is_encoding_problem: false,
        headers: vec![],
    };
    m
}

#[test]
fn html_preview_and_truncation() {
    let html = format!("<html><body><p>{}</p></body></html>", "word ".repeat(100));
    let mut store = MailStore::new(1, 10, "s".to_string());
    assert!(store.add_document(html_message(1, html.as_bytes())).is_ok());
    let mut req = request(
        Some(vec![1]),
        Some(vec![MailProperties::Preview, MailProperties::BodyValues]),
    );
    req.arguments = vec![
        ("fetchHTMLBodyValues".to_string(), JSONValue::Bool(true)),
    ];
    assert!(matches!(store.mail_get(req), Err(JMAPError::InvalidArguments(_))));
    let mut req = request(
        Some(vec![1]),
        Some(vec![MailProperties::Preview, MailProperties::BodyValues]),
    );
    req.arguments = vec![
        ("fetchHtmlBodyValues".to_string(), JSONValue::Bool(true)),
        ("maxBodyValueBytes".to_string(), JSONValue::Number(30)),
    ];
    let r = store.mail_get(req).unwrap();
    let list = match member(&r, "list") {
        Some(JSONValue::Array(l)) => l,
        _ => panic!("no list"),
    };
    match member(&list[0], "preview") {
        Some(JSONValue::String(p)) => {
            assert!(!p.contains('<'));
            assert!(p.starts_with("word"));
            assert!(p.len() <= 256);
        }
        other => panic!("unexpected preview {:?}", other),
    }
    let v = member(member(&list[0], "bodyValues").unwrap(), "0").unwrap();
    assert_eq!(member(v, "isTruncated"), Some(&JSONValue::Bool(true)));
    match member(v, "value") {
        Some(JSONValue::String(t)) => {
            assert!(t.len() <= 30);
            assert!(t.starts_with("<html>"));
        }
        other => panic!("unexpected value {:?}", other),
    }
}

#[test]
fn raw_header_as_text() {
    let raw = b"Subject: =?utf-8?q?Caf=C3=A9?= time\n";
    let v = add_raw_header(&[HeaderOffset { start: 8, end: raw.len() }], raw, MailHeaderForm::Text, false);
    assert_eq!(v, s("Café time"));
    let r = add_raw_header(&[HeaderOffset { start: 8, end: raw.len() }], raw, MailHeaderForm::Raw, false);
    assert_eq!(r, s("=?utf-8?q?Caf=C3=A9?= time"));
}
