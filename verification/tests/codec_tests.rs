use webpub::codec::{decode_entities, encode_entities};
use webpub::entity::{Entity, Payload};

fn body_entity(mime: &str, encoding: Option<&str>, body: &[u8]) -> Entity {
    Entity {
        mime_type: String::from(mime),
        encoding: encoding.map(String::from),
        payload: Payload::Body(body.to_vec()),
    }
}

fn assert_entities_equal(a: &Entity, b: &Entity) {
    assert_eq!(a.mime_type, b.mime_type);
    assert_eq!(a.encoding, b.encoding);
    match (&a.payload, &b.payload) {
        (Payload::Body(x), Payload::Body(y)) => assert_eq!(x, y),
        (Payload::Redirect(x), Payload::Redirect(y)) => assert_eq!(x, y),
        _ => panic!("payload variants differ"),
    }
}

#[test]
fn round_trip_one_entity() {
    let v = vec![body_entity("text/html", None, b"<h1>hello</h1>")];
    let bytes = encode_entities(&v);
    let back = decode_entities(bytes.as_slice()).expect("decodes");
    assert_eq!(back.len(), 1);
    assert_entities_equal(&back[0], &v[0]);
}

#[test]
fn round_trip_many_variants() {
    let v = vec![
        body_entity("text/html", None, b"<h1>plain</h1>"),
        body_entity("text/html", Some("gzip"), &[0x1f, 0x8b, 0x00, 0xff]),
        Entity {
            mime_type: String::from("text/html"),
            encoding: None,
            payload: Payload::Redirect(String::from("/blog/")),
        },
    ];
    let bytes = encode_entities(&v);
    let back = decode_entities(bytes.as_slice()).expect("decodes");
    assert_eq!(back.len(), 3);
    for i in 0..3 {
        assert_entities_equal(&back[i], &v[i]);
    }
}

#[test]
fn round_trip_empty_list() {
    let v: Vec<Entity> = Vec::new();
    let bytes = encode_entities(&v);
    let back = decode_entities(bytes.as_slice()).expect("decodes");
    assert_eq!(back.len(), 0);
}

#[test]
fn round_trip_non_ascii_strings() {
    let v = vec![body_entity("text/plain", Some("na\u{ef}ve"), "caf\u{e9}".as_bytes())];
    let bytes = encode_entities(&v);
    let back = decode_entities(bytes.as_slice()).expect("decodes");
    assert_entities_equal(&back[0], &v[0]);
}

#[test]
fn decode_rejects_short_input() {
    assert!(decode_entities(b"").is_none());
    assert!(decode_entities(&[1, 2, 3]).is_none());
}

#[test]
fn decode_rejects_truncated_record() {
    let v = vec![body_entity("text/html", None, b"body")];
    let bytes = encode_entities(&v);
    let truncated = &bytes[..bytes.len() - 1];
    assert!(decode_entities(truncated).is_none());
}

#[test]
fn decode_rejects_trailing_bytes() {
    let v = vec![body_entity("text/html", None, b"body")];
    let mut bytes = encode_entities(&v);
    bytes.push(0);
    assert!(decode_entities(bytes.as_slice()).is_none());
}

#[test]
fn decode_rejects_bad_utf8_mime() {
    // A hand-built value: one record whose MIME-type field holds invalid
    // UTF-8.
    let mut bytes = Vec::new();
    bytes.extend_from_slice(&1u64.to_le_bytes());
    bytes.extend_from_slice(&2u64.to_le_bytes());
    bytes.extend_from_slice(&[0xff, 0xfe]);
    bytes.push(0);
    bytes.push(0);
    bytes.extend_from_slice(&0u64.to_le_bytes());
    assert!(decode_entities(bytes.as_slice()).is_none());
}
