use webpub::entity::Payload;
use webpub::upload::{
    guess_mime_type, path_str, plan_file, UploadError, UploadWalk, UrlPath,
};

#[test]
fn path_str_accepts_text() {
    assert_eq!(path_str(Some("a/b.txt")).unwrap(), "a/b.txt");
}

#[test]
fn path_str_rejects_non_unicode() {
    assert_eq!(path_str(None).unwrap_err(), UploadError::NonUnicodePath);
}

#[test]
fn url_path_strips_root() {
    let u = UrlPath::new("root", "root/a/b.txt").unwrap();
    assert_eq!(u.to_str(), "a/b.txt");
}

#[test]
fn url_path_empty_root_keeps_path() {
    let u = UrlPath::new("", "a/b.txt").unwrap();
    assert_eq!(u.to_str(), "a/b.txt");
}

#[test]
fn url_path_of_root_itself_is_empty() {
    let u = UrlPath::new("root", "root").unwrap();
    assert_eq!(u.to_str(), "");
}

#[test]
fn url_path_rejects_foreign_prefix() {
    assert_eq!(UrlPath::new("root", "other/a.txt").unwrap_err(), UploadError::StripPrefix);
    // A shared name prefix is not a component boundary.
    assert_eq!(UrlPath::new("root", "rootless/a.txt").unwrap_err(), UploadError::StripPrefix);
}

#[test]
fn url_path_from_str_round_trip() {
    assert_eq!(UrlPath::from_str("x/y").to_str(), "x/y");
}

#[test]
fn mime_guessed_from_extension() {
    assert_eq!(guess_mime_type("a/b.html"), "text/html");
    assert_eq!(guess_mime_type("img/logo.png"), "image/png");
    assert_eq!(guess_mime_type("style.css"), "text/css");
}

#[test]
fn mime_defaults_to_octet_stream() {
    assert_eq!(guess_mime_type("README"), "application/octet-stream");
    assert_eq!(guess_mime_type(".bashrc"), "application/octet-stream");
    assert_eq!(guess_mime_type("a/archive.zzqq"), "application/octet-stream");
    assert_eq!(guess_mime_type("dotted."), "application/octet-stream");
}

#[test]
fn plan_for_ordinary_file() {
    let plan = plan_file("a/b.txt", "text/plain", b"hello".to_vec());
    assert_eq!(plan.len(), 1);
    assert_eq!(plan[0].path, "/a/b.txt");
    assert_eq!(plan[0].entities.len(), 1);
    let e = &plan[0].entities[0];
    assert_eq!(e.mime_type, "text/plain");
    assert_eq!(e.encoding, None);
    match &e.payload {
        Payload::Body(b) => assert_eq!(b, b"hello"),
        Payload::Redirect(_) => panic!("expected a body"),
    }
}

#[test]
fn plan_for_index_document() {
    let plan = plan_file("blog/index.html", "text/html", b"<h1>blog</h1>".to_vec());
    assert_eq!(plan.len(), 3);

    assert_eq!(plan[0].path, "/blog/");
    let body = &plan[0].entities[0];
    assert_eq!(body.mime_type, "text/html");
    match &body.payload {
        Payload::Body(b) => assert_eq!(b, b"<h1>blog</h1>"),
        Payload::Redirect(_) => panic!("expected the body at the canonical URL"),
    }

    assert_eq!(plan[1].path, "/blog");
    match &plan[1].entities[0].payload {
        Payload::Redirect(t) => assert_eq!(t, "/blog/"),
        Payload::Body(_) => panic!("expected a redirect at the slashless URL"),
    }

    assert_eq!(plan[2].path, "/blog/index.html");
    match &plan[2].entities[0].payload {
        Payload::Redirect(t) => assert_eq!(t, "/blog/"),
        Payload::Body(_) => panic!("expected a redirect at the literal URL"),
    }
}

#[test]
fn plan_for_nested_index_document() {
    let plan = plan_file("a/b/index.html", "text/html", b"x".to_vec());
    assert_eq!(plan.len(), 3);
    assert_eq!(plan[0].path, "/a/b/");
    assert_eq!(plan[1].path, "/a/b");
    assert_eq!(plan[2].path, "/a/b/index.html");
}

#[test]
fn plan_for_root_index_document() {
    let plan = plan_file("index.html", "text/html", b"<h1>home</h1>".to_vec());
    assert_eq!(plan.len(), 2);
    assert_eq!(plan[0].path, "/");
    match &plan[0].entities[0].payload {
        Payload::Body(_) => {},
        Payload::Redirect(_) => panic!("expected the body at the root URL"),
    }
    assert_eq!(plan[1].path, "/index.html");
    match &plan[1].entities[0].payload {
        Payload::Redirect(t) => assert_eq!(t, "/"),
        Payload::Body(_) => panic!("expected a redirect at the literal URL"),
    }
}

#[test]
fn plan_treats_index_html_as_whole_component_only() {
    // A file merely ending in the text `index.html` is an ordinary file.
    let plan = plan_file("blog/my-index.html", "text/html", b"x".to_vec());
    assert_eq!(plan.len(), 1);
    assert_eq!(plan[0].path, "/blog/my-index.html");
}

#[test]
fn walk_pops_in_stack_order() {
    let mut w = UploadWalk::new(String::from("root"));
    assert!(!w.is_done());
    let p = w.pop_task().unwrap();
    assert_eq!(p, "root");
    let mut entries = vec![String::from("root/a"), String::from("root/b")];
    w.push_entries(&mut entries);
    assert_eq!(w.pop_task().unwrap(), "root/b");
    assert_eq!(w.pop_task().unwrap(), "root/a");
    assert!(w.pop_task().is_none());
    assert!(w.is_done());
}
