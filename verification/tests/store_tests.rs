//! Tests against a real embedded database.  Each test opens one
//! environment of its own, in a directory no other test touches (an LMDB
//! environment must not be opened twice within one process), and clears
//! the keys it uses before asserting anything, so earlier runs leave no
//! trace.

use webpub::entity::{Entity, Payload};
use webpub::store::{LMDBWebSite, StoreError};
use webpub::upload::upload_file;

fn variant(mime: &str, body: &[u8]) -> Entity {
    Entity {
        mime_type: String::from(mime),
        encoding: None,
        payload: Payload::Body(body.to_vec()),
    }
}

fn body_of(e: &Entity) -> &[u8] {
    match &e.payload {
        Payload::Body(b) => b.as_slice(),
        Payload::Redirect(_) => panic!("expected a body payload"),
    }
}

fn target_of(e: &Entity) -> &str {
    match &e.payload {
        Payload::Redirect(t) => t.as_str(),
        Payload::Body(_) => panic!("expected a redirect payload"),
    }
}

#[test]
fn write_read_round_trip_deletion_and_cells() {
    let mut site =
        LMDBWebSite::open(String::from("site"), String::from(""), "/tmp").expect("opens");

    // Round trip: a committed write is read back equal.
    let stored = vec![
        variant("text/html", b"<h1>round trip</h1>"),
        variant("application/json", b"{\"k\":1}"),
    ];
    site.write("/round-trip", &stored).expect("write commits");
    let back = site.read("/round-trip").expect("read works").expect("key present");
    assert_eq!(back.len(), 2);
    for i in 0..2 {
        assert_eq!(back[i].mime_type, stored[i].mime_type);
        assert_eq!(back[i].encoding, stored[i].encoding);
        assert_eq!(body_of(&back[i]), body_of(&stored[i]));
    }

    // Deletion idiom: the empty list removes the key, and repeating it is
    // still a success.
    site.write("/round-trip", &Vec::new()).expect("delete commits");
    assert!(site.read("/round-trip").expect("read works").is_none());
    site.write("/round-trip", &Vec::new()).expect("deleting an absent key succeeds");
    assert!(site.read("/round-trip").expect("read works").is_none());

    // An absent key is absent, never corrupt.
    site.write("/never-written", &Vec::new()).expect("clearing succeeds");
    match site.read("/never-written") {
        Ok(None) => {},
        Ok(Some(_)) => panic!("the key should be absent"),
        Err(StoreError::Corrupt) => panic!("an absent key must not read as corrupt"),
        Err(StoreError::StorageUnavailable) => panic!("the store should be reachable"),
    }

    // A cell's two sides: the setter writes the key, the getter reads it,
    // and an absent key reads as the empty list.
    let cell = site.get_entities("/cell-key");
    let getter = cell.as_getter();
    let setter = cell.as_setter();
    setter.set(&mut site, &Vec::new()).expect("clearing succeeds");
    assert_eq!(getter.get(&site).expect("get works").len(), 0);
    let value = vec![variant("text/plain", b"cell value")];
    setter.set(&mut site, &value).expect("set commits");
    let got = getter.get(&site).expect("get works");
    assert_eq!(got.len(), 1);
    assert_eq!(got[0].mime_type, "text/plain");
    assert_eq!(body_of(&got[0]), b"cell value");

    // A subsite keeps the contents and prefixes every derived cell's key.
    let mut sub = site.get_subsite("/sub");
    assert_eq!(sub.get_url(), "/sub");
    let sub_setter = sub.get_entities("/leaf").as_setter();
    sub_setter.set(&mut sub, &value).expect("set commits");
    let direct = sub.read("/sub/leaf").expect("read works").expect("present");
    assert_eq!(body_of(&direct[0]), b"cell value");
}

#[test]
fn distinct_paths_commit_independently() {
    let mut site =
        LMDBWebSite::open(String::from("site"), String::from(""), "/var/tmp").expect("opens");
    let first = vec![variant("text/plain", b"first value")];
    let second = vec![variant("text/plain", b"second value")];
    site.write("/independent-a", &first).expect("first write commits");
    site.write("/independent-b", &second).expect("second write commits");
    let a = site.read("/independent-a").expect("read works").expect("present");
    let b = site.read("/independent-b").expect("read works").expect("present");
    assert_eq!(body_of(&a[0]), b"first value");
    assert_eq!(body_of(&b[0]), b"second value");
}

#[test]
fn uploading_files_stores_the_planned_entries() {
    let mut site =
        LMDBWebSite::open(String::from("site"), String::from(""), "/dev/shm").expect("opens");
    for key in ["/blog/", "/blog", "/blog/index.html", "/notes.txt"] {
        site.write(key, &Vec::new()).expect("clearing succeeds");
    }

    // An index document resolves under three addresses.
    upload_file("src", "src/blog/index.html", b"<h1>the blog</h1>".to_vec(), &mut site)
        .expect("upload commits");
    let canonical = site.read("/blog/").expect("read works").expect("body stored");
    assert_eq!(canonical[0].mime_type, "text/html");
    assert_eq!(body_of(&canonical[0]), b"<h1>the blog</h1>");
    let slashless = site.read("/blog").expect("read works").expect("redirect stored");
    assert_eq!(target_of(&slashless[0]), "/blog/");
    let literal = site.read("/blog/index.html").expect("read works").expect("redirect stored");
    assert_eq!(target_of(&literal[0]), "/blog/");

    // An ordinary file is stored once, under its own path.
    upload_file("src", "src/notes.txt", b"some notes".to_vec(), &mut site)
        .expect("upload commits");
    let stored = site.read("/notes.txt").expect("read works").expect("present");
    assert_eq!(stored[0].mime_type, "text/plain");
    assert_eq!(body_of(&stored[0]), b"some notes");
}
