//! Tests of the site registry and the top-level view, against real
//! embedded databases.  Each test opens environments no other test
//! touches.

use webpub::entity::{Entity, Payload};
use webpub::negotiate::{negotiate_response, AcceptedType, Response};
use webpub::main_view::MainViewImpl;
use webpub::storage::Storage;
use webpub::store::StoreError;
use webpub::upload::{guess_mime_type, plan_file, UrlPath};

#[test]
fn registry_opens_once_and_caches() {
    let mut storage = Storage::new(String::from("/var"));
    let first = storage.get("tmp").expect("the site opens");
    let second = storage.get("tmp").expect("the cached handle is returned");
    assert_eq!(first, second);

    // The handle works: write a value through a cell and read it back.
    let cell = storage.site(first).get_entities("/registry-key");
    let setter = cell.as_setter();
    let stored = vec![Entity {
        mime_type: String::from("text/plain"),
        encoding: None,
        payload: Payload::Body(b"registry value".to_vec()),
    }];
    storage.site_set(first, &setter, &stored).expect("set commits");
    let got = cell.as_getter().get(storage.site(first)).expect("get works");
    assert_eq!(got.len(), 1);
    assert_eq!(got[0].mime_type, "text/plain");
}

#[test]
fn registry_reports_unavailable_site_directory() {
    let mut storage = Storage::new(String::from("/"));
    let err = storage.get("no-such-site-directory-zzqq").unwrap_err();
    assert_eq!(err, StoreError::StorageUnavailable);
}

#[test]
fn database_name_with_nul_is_refused() {
    match webpub::store::LMDBWebSite::open(String::from("si\0te"), String::from(""), "/tmp") {
        Err(e) => assert_eq!(e, StoreError::StorageUnavailable),
        Ok(_) => panic!("a database name holding a NUL must be refused"),
    }
}

#[test]
fn publish_then_serve_through_the_registry() {
    let mut view = MainViewImpl::new(String::from("/"));
    let token = view.get_site("tmp").expect("the site opens");
    let again = view.get_site("tmp").expect("a cached name always succeeds");
    assert_eq!(again, token);

    // Publish one index document the way an upload does: the library
    // plans the writes, each commits through its path's setter.
    let rel = UrlPath::new("srcdir", "srcdir/blog/index.html").expect("lies under the root");
    let mime = guess_mime_type(rel.to_str());
    let plan = plan_file(rel.to_str(), &mime, b"<h1>served</h1>".to_vec());
    for write in &plan {
        let setter = view.storage.site(token).get_entities(&write.path).as_setter();
        view.storage.site_set(token, &setter, &write.entities).expect("write commits");
    }

    // Serving the canonical URL negotiates to the stored body.
    let accepts = vec![AcceptedType { mime_type: String::from("text/html"), q_value: 1000 }];
    let site = view.storage.site(token);
    let canonical = site.get_entities("/blog/").as_getter().get(site).expect("get works");
    match negotiate_response(&canonical, &accepts, &Vec::new()) {
        Response::Content { mime_type, body } => {
            assert_eq!(mime_type, "text/html");
            assert_eq!(body, b"<h1>served</h1>".to_vec());
        },
        _ => panic!("expected the stored body"),
    }

    // Serving the slashless URL negotiates to a redirect at the canonical
    // one.
    let slashless = site.get_entities("/blog").as_getter().get(site).expect("get works");
    match negotiate_response(&slashless, &accepts, &Vec::new()) {
        Response::Redirect { target } => assert_eq!(target, "/blog/"),
        _ => panic!("expected a redirect"),
    }
}

#[test]
fn main_view_serves_a_not_found_for_an_empty_path() {
    let mut view = MainViewImpl::new(String::from("/dev"));
    let token = view.get_site("shm").expect("the site opens");
    let site = view.storage.site(token);
    let cell = site.get_entities("/unpublished-path");
    let getter = cell.as_getter();
    let entities = getter.get(site).expect("an absent key is the empty list");
    let response = negotiate_response(
        &entities,
        &vec![AcceptedType { mime_type: String::from("text/html"), q_value: 1000 }],
        &Vec::new(),
    );
    assert!(matches!(response, Response::NotFound));
}
