use webpub::entity::{Entity, Payload};
use webpub::negotiate::{match_content, negotiate_response, AcceptedType, Response};

fn variant(mime: &str, encoding: Option<&str>, body: &[u8]) -> Entity {
    Entity {
        mime_type: String::from(mime),
        encoding: encoding.map(String::from),
        payload: Payload::Body(body.to_vec()),
    }
}

fn accept(mime: &str, q_value: u16) -> AcceptedType {
    AcceptedType { mime_type: String::from(mime), q_value }
}

fn encodings(names: &[&str]) -> Vec<String> {
    names.iter().map(|n| String::from(*n)).collect()
}

fn body_of(e: &Entity) -> &[u8] {
    match &e.payload {
        Payload::Body(b) => b.as_slice(),
        Payload::Redirect(_) => panic!("expected a body payload"),
    }
}

// The two-coding variant list: the identity form first, the gzip form
// second.
fn html_identity_and_gzip() -> Vec<Entity> {
    vec![
        variant("text/html", None, b"plain form"),
        variant("text/html", Some("gzip"), b"gzip form"),
    ]
}

#[test]
fn gzip_accepted_selects_gzip_variant() {
    let chosen = match_content(
        &html_identity_and_gzip(),
        &vec![accept("text/html", 1000)],
        &encodings(&["gzip"]),
    )
    .expect("a variant matches");
    assert_eq!(chosen.encoding, Some(String::from("gzip")));
    assert_eq!(body_of(&chosen), b"gzip form");
}

#[test]
fn empty_encoding_set_selects_identity_variant() {
    let chosen = match_content(
        &html_identity_and_gzip(),
        &vec![accept("text/html", 1000)],
        &encodings(&[]),
    )
    .expect("a variant matches");
    assert_eq!(chosen.encoding, None);
    assert_eq!(body_of(&chosen), b"plain form");
}

#[test]
fn no_acceptable_encoding_yields_no_match() {
    let gzip_only = vec![variant("text/html", Some("gzip"), b"gzip form")];
    let r = match_content(&gzip_only, &vec![accept("text/html", 1000)], &encodings(&["br"]));
    assert!(r.is_none());
    let r2 = match_content(&gzip_only, &vec![accept("text/html", 1000)], &encodings(&[]));
    assert!(r2.is_none());
}

#[test]
fn identity_listed_explicitly_selects_identity() {
    let chosen = match_content(
        &html_identity_and_gzip(),
        &vec![accept("text/html", 1000)],
        &encodings(&["identity"]),
    )
    .expect("a variant matches");
    assert_eq!(chosen.encoding, None);
}

#[test]
fn higher_q_value_wins_regardless_of_order() {
    let variants = vec![
        variant("text/html", None, b"the html"),
        variant("application/json", None, b"{}"),
    ];
    let forward = vec![accept("text/html", 500), accept("application/json", 900)];
    let backward = vec![accept("application/json", 900), accept("text/html", 500)];
    for accepts in [forward, backward] {
        let chosen = match_content(&variants, &accepts, &encodings(&[])).expect("matches");
        assert_eq!(chosen.mime_type, "application/json");
    }
}

#[test]
fn equal_q_values_keep_original_order() {
    let variants = vec![
        variant("text/html", None, b"the html"),
        variant("application/json", None, b"{}"),
    ];
    let chosen = match_content(
        &variants,
        &vec![accept("text/html", 500), accept("application/json", 500)],
        &encodings(&[]),
    )
    .expect("matches");
    assert_eq!(chosen.mime_type, "text/html");
    let chosen2 = match_content(
        &variants,
        &vec![accept("application/json", 500), accept("text/html", 500)],
        &encodings(&[]),
    )
    .expect("matches");
    assert_eq!(chosen2.mime_type, "application/json");
}

#[test]
fn exact_mime_match_only() {
    let variants = vec![variant("text/html", None, b"the html")];
    assert!(match_content(&variants, &vec![accept("text/*", 1000)], &encodings(&[])).is_none());
    assert!(match_content(&variants, &vec![accept("TEXT/HTML", 1000)], &encodings(&[])).is_none());
}

#[test]
fn last_duplicate_mime_wins() {
    let variants = vec![
        variant("text/html", None, b"older"),
        variant("text/html", None, b"newer"),
    ];
    let chosen = match_content(&variants, &vec![accept("text/html", 1000)], &encodings(&[]))
        .expect("matches");
    assert_eq!(body_of(&chosen), b"newer");
}

#[test]
fn empty_variant_list_never_matches() {
    let r = match_content(&Vec::new(), &vec![accept("text/html", 1000)], &encodings(&["gzip"]));
    assert!(r.is_none());
}

#[test]
fn response_shapes() {
    let content = negotiate_response(
        &vec![variant("text/html", None, b"the html")],
        &vec![accept("text/html", 1000)],
        &encodings(&[]),
    );
    match content {
        Response::Content { mime_type, body } => {
            assert_eq!(mime_type, "text/html");
            assert_eq!(body, b"the html".to_vec());
        },
        _ => panic!("expected a content response"),
    }

    let redirect = negotiate_response(
        &vec![Entity {
            mime_type: String::from("text/html"),
            encoding: None,
            payload: Payload::Redirect(String::from("/blog/")),
        }],
        &vec![accept("text/html", 1000)],
        &encodings(&[]),
    );
    match redirect {
        Response::Redirect { target } => assert_eq!(target, "/blog/"),
        _ => panic!("expected a redirect response"),
    }

    let not_found = negotiate_response(&Vec::new(), &vec![accept("text/html", 1000)], &Vec::new());
    assert!(matches!(not_found, Response::NotFound));
}
