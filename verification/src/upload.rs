//! The upload mapper: turning a source file tree into the writes that
//! publish it as a static site.
//!
//! Each regular file is stored under its root-relative path with a leading
//! slash, under a MIME type guessed from its extension.  A file named
//! `index.html` is canonical for its parent directory: its body is stored
//! at the directory URL with a trailing slash, and redirects to that URL
//! are stored at the directory URL without the slash and at the literal
//! `index.html` path, so all three addresses resolve to one stored body.
//! Redirect variants are stored as `text/html` in the identity coding.
//!
//! The tree walk itself is an explicit work list ([`UploadWalk`]): the
//! caller performs the filesystem steps, and the mapper decides what each
//! step publishes.

use vstd::prelude::*;
use vstd::string::{StrSliceExecFns, StringExecFns};

use crate::entity::{Entity, EntityView, PayloadView};
use crate::store::{store_write, LMDBWebSite, StoreError};

verus! {

/// The failures of mapping a file tree into stored entries.
#[derive(Clone, Copy, Debug, PartialEq, Eq, Structural)]
pub enum UploadError {
    /// The file path does not lie under the upload root.
    StripPrefix,
    /// A path not representable as text cannot become a URL path.
    NonUnicodePath,
    /// A write into the site store failed.
    Store(StoreError),
}

/// The text of a filesystem path, where the platform layer reports a path
/// it could not represent as text with `None`.
pub fn path_str(p: Option<&str>) -> (r: Result<&str, UploadError>)
    ensures
        r matches Ok(s) ==> p matches Option::Some(q) && q@ == s@,
        r matches Err(e) ==> p is None && e == UploadError::NonUnicodePath,
{
    match p {
        Option::Some(s) => Ok(s),
        Option::None => Err(UploadError::NonUnicodePath),
    }
}

// ---------------------------------------------------------------------------
// Root-relative URL paths.
// ---------------------------------------------------------------------------
/// What stripping the upload root from a file path leaves: the remainder
/// after the root and one separating slash, the whole path under an empty
/// root, and nothing when the root (given without a trailing slash) is not
/// a component-wise prefix.
pub open spec fn spec_strip_prefix(root: Seq<char>, path: Seq<char>) -> Option<Seq<char>> {
    if root.len() == 0 {
        Option::Some(path)
    } else if path.len() > root.len() && path.take(root.len() as int) == root && path[root.len() as int]
        == '/' {
        Option::Some(path.skip(root.len() as int + 1))
    } else if path == root {
        Option::Some(Seq::empty())
    } else {
        Option::None
    }
}

/// Whether the first `n` characters of two strings agree.
fn str_prefix_eq(a: &str, b: &str, n: usize) -> (r: bool)
    requires
        n <= a@.len(),
        n <= b@.len(),
    ensures
        r == (a@.take(n as int) == b@.take(n as int)),
{
    let mut i: usize = 0;
    while i < n
        invariant
            i <= n,
            n <= a@.len(),
            n <= b@.len(),
            forall|k: int| 0 <= k < i ==> a@[k] == b@[k],
        decreases n - i,
    {
        if a.get_char(i) != b.get_char(i) {
            proof {
                assert(a@.take(n as int)[i as int] != b@.take(n as int)[i as int]);
            }
            return false;
        }
        i = i + 1;
    }
    proof {
        assert(a@.take(n as int) =~= b@.take(n as int));
    }
    true
}

/// A URL path relative to an upload root, without its leading slash.
#[derive(Debug)]
pub struct UrlPath {
    s: String,
}

impl View for UrlPath {
    type V = Seq<char>;

    closed spec fn view(&self) -> Seq<char> {
        self.s@
    }
}

impl UrlPath {
    /// The path of `file_path` relative to `file_root`.
    pub fn new(file_root: &str, file_path: &str) -> (r: Result<UrlPath, UploadError>)
        ensures
            match r {
                Ok(u) => spec_strip_prefix(file_root@, file_path@) == Option::Some(u@),
                Err(e) => spec_strip_prefix(file_root@, file_path@) is None && e
                    == UploadError::StripPrefix,
            },
    {
        let rl = file_root.unicode_len();
        let pl = file_path.unicode_len();
        if rl == 0 {
            Ok(UrlPath { s: String::from_str(file_path) })
        } else if pl > rl {
            if str_prefix_eq(file_root, file_path, rl) && file_path.get_char(rl) == '/' {
                proof {
                    assert(file_root@.take(rl as int) =~= file_root@);
                }
                Ok(UrlPath { s: String::from_str(file_path.substring_char(rl + 1, pl)) })
            } else {
                proof {
                    assert(file_root@.take(rl as int) =~= file_root@);
                }
                Err(UploadError::StripPrefix)
            }
        } else if pl == rl && str_prefix_eq(file_root, file_path, rl) {
            proof {
                assert(file_root@.take(rl as int) =~= file_root@);
                assert(file_path@.take(rl as int) =~= file_path@);
            }
            Ok(UrlPath { s: String::new() })
        } else {
            proof {
                if pl == rl {
                    assert(file_root@.take(rl as int) =~= file_root@);
                    if file_path@.take(rl as int) == file_root@ {
                        assert(file_path@ =~= file_path@.take(rl as int));
                    }
                }
            }
            Err(UploadError::StripPrefix)
        }
    }

    /// The path's text.
    pub fn to_str(&self) -> (r: &str)
        ensures
            r@ == self@,
    {
        self.s.as_str()
    }

    /// The path holding the given text.
    pub fn from_str(s: &str) -> (r: UrlPath)
        ensures
            r@ == s@,
    {
        UrlPath { s: String::from_str(s) }
    }
}

// ---------------------------------------------------------------------------
// File names: final component, parent, extension.
// ---------------------------------------------------------------------------
/// The final component of a relative path with `/` separators.
pub open spec fn spec_basename(p: Seq<char>) -> Seq<char>
    decreases p.len(),
{
    if p.len() == 0 {
        p
    } else if p.last() == '/' {
        Seq::empty()
    } else {
        spec_basename(p.drop_last()).push(p.last())
    }
}

/// What precedes the final component and its separator; empty for a
/// top-level name.
pub open spec fn spec_parent(p: Seq<char>) -> Seq<char>
    decreases p.len(),
{
    if p.len() == 0 {
        p
    } else if p.last() == '/' {
        p.drop_last()
    } else {
        spec_parent(p.drop_last())
    }
}

/// The extension of a file name: what follows its last dot, where a name
/// whose only dot leads (a hidden file) has none.
pub open spec fn spec_ext(f: Seq<char>) -> Option<Seq<char>>
    decreases f.len(),
{
    if f.len() <= 1 {
        Option::None
    } else if f.last() == '.' {
        Option::Some(Seq::empty())
    } else {
        match spec_ext(f.drop_last()) {
            Option::Some(e) => Option::Some(e.push(f.last())),
            Option::None => Option::None,
        }
    }
}

/// The index where a path's final component starts.
fn split_point(p: &str) -> (i: usize)
    ensures
        i <= p@.len(),
        spec_basename(p@) == p@.skip(i as int),
        i == 0 ==> spec_parent(p@) == spec_parent(Seq::<char>::empty()),
        i > 0 ==> p@[i - 1] == '/' && spec_parent(p@) == p@.take(i - 1),
{
    let n = p.unicode_len();
    let mut j: usize = n;
    proof {
        assert(p@.take(n as int) =~= p@);
        assert(p@.skip(n as int) =~= Seq::<char>::empty());
        assert(spec_basename(p@.take(n as int)) + p@.skip(n as int) =~= spec_basename(p@));
    }
    while j > 0
        invariant
            j <= n,
            n == p@.len(),
            spec_basename(p@) == spec_basename(p@.take(j as int)) + p@.skip(j as int),
            spec_parent(p@) == spec_parent(p@.take(j as int)),
        ensures
            j == 0 || p@[j - 1] == '/',
            spec_basename(p@) == spec_basename(p@.take(j as int)) + p@.skip(j as int),
            spec_parent(p@) == spec_parent(p@.take(j as int)),
        decreases j,
    {
        if p.get_char(j - 1) == '/' {
            break ;
        }
        proof {
            let t = p@.take(j as int);
            assert(t.last() == p@[j - 1]);
            assert(t.drop_last() =~= p@.take(j - 1));
            assert(spec_basename(t) == spec_basename(p@.take(j - 1)).push(p@[j - 1]));
            assert(spec_basename(p@.take(j - 1)).push(p@[j - 1]) + p@.skip(j as int)
                =~= spec_basename(p@.take(j - 1)) + p@.skip(j - 1));
        }
        j = j - 1;
    }
    proof {
        if j == 0 {
            assert(p@.take(0) =~= Seq::<char>::empty());
            assert(spec_basename(Seq::<char>::empty()) + p@.skip(0) =~= p@.skip(0));
        } else {
            let t = p@.take(j as int);
            assert(t.last() == p@[j - 1]);
            assert(t.last() == '/');
            assert(spec_basename(t) == Seq::<char>::empty());
            assert(Seq::<char>::empty() + p@.skip(j as int) =~= p@.skip(j as int));
            assert(spec_parent(t) == t.drop_last());
            assert(t.drop_last() =~= p@.take(j - 1));
        }
    }
    j
}

/// The MIME type a fixed extension table maps the given extension to, with
/// `application/octet-stream` for an empty or unknown one.
pub uninterp spec fn mime_for_ext(ext: Seq<char>) -> Seq<char>;

/// Relies on `mime_guess::from_ext(..).first_or_octet_stream()` and
/// `Mime::essence_str`: a lookup in a fixed, case-insensitive extension
/// table, depending on the extension alone, falling back to
/// `application/octet-stream`.
#[verifier::external_body]
fn mime_from_ext(ext: &str) -> (r: String)
    ensures
        r@ == mime_for_ext(ext@),
{
    String::from(mime_guess::from_ext(ext).first_or_octet_stream().essence_str())
}

/// The MIME type guessed for a relative file path: from its extension, or
/// `application/octet-stream` when it has none.
pub open spec fn spec_guess_mime(rel: Seq<char>) -> Seq<char> {
    match spec_ext(spec_basename(rel)) {
        Option::Some(e) => mime_for_ext(e),
        Option::None => "application/octet-stream"@,
    }
}

/// Guess the MIME type for the file at a relative path.
pub fn guess_mime_type(rel: &str) -> (r: String)
    ensures
        r@ == spec_guess_mime(rel@),
{
    let i = split_point(rel);
    let n = rel.unicode_len();
    let ghost base = spec_basename(rel@);
    proof {
        assert(base =~= rel@.skip(i as int));
    }
    let mut j: usize = n;
    proof {
        assert(rel@.skip(i as int).skip((j - i) as int) =~= Seq::<char>::empty());
        assert(base.take((n - i) as int) =~= base);
        if spec_ext(base) is Some {
            assert(spec_ext(base)->0 + Seq::<char>::empty() =~= spec_ext(base)->0);
        }
    }
    while j - i > 1
        invariant
            i <= j <= n,
            n == rel@.len(),
            base == spec_basename(rel@),
            base == rel@.skip(i as int),
            match spec_ext(base.take((j - i) as int)) {
                Option::Some(e) => spec_ext(base) == Option::Some(e + base.skip((j - i) as int)),
                Option::None => spec_ext(base) is None,
            },
        ensures
            i <= j <= n,
            j <= i + 1 || rel@[j - 1] == '.',
            match spec_ext(base.take((j - i) as int)) {
                Option::Some(e) => spec_ext(base) == Option::Some(e + base.skip((j - i) as int)),
                Option::None => spec_ext(base) is None,
            },
        decreases j,
    {
        if rel.get_char(j - 1) == '.' {
            break ;
        }
        proof {
            let t = base.take((j - i) as int);
            assert(t.len() == j - i);
            assert(t.last() == base[(j - i - 1) as int]);
            assert(base[(j - i - 1) as int] == rel@[j - 1]);
            assert(t.drop_last() =~= base.take((j - i - 1) as int));
            if spec_ext(base.take((j - i - 1) as int)) is Some {
                let e = spec_ext(base.take((j - i - 1) as int))->0;
                assert(spec_ext(t) == Option::Some(e.push(t.last())));
                assert(e.push(t.last()) + base.skip((j - i) as int) =~= e + base.skip(
                    (j - i - 1) as int,
                ));
            }
        }
        j = j - 1;
    }
    if j - i > 1 {
        proof {
            let t = base.take((j - i) as int);
            assert(t.len() >= 2);
            assert(t.last() == base[(j - i - 1) as int]);
            assert(base[(j - i - 1) as int] == rel@[j - 1]);
            assert(spec_ext(t) == Option::Some(Seq::<char>::empty()));
            assert(Seq::<char>::empty() + base.skip((j - i) as int) =~= base.skip((j - i) as int));
            assert(base.skip((j - i) as int) =~= rel@.skip(j as int).subrange(
                0,
                rel@.skip(j as int).len() as int,
            ));
            assert(base.skip((j - i) as int) =~= rel@.subrange(j as int, n as int));
        }
        mime_from_ext(rel.substring_char(j, n))
    } else {
        proof {
            let t = base.take((j - i) as int);
            assert(t.len() <= 1);
            assert(spec_ext(t) is None);
        }
        String::from_str("application/octet-stream")
    }
}

// ---------------------------------------------------------------------------
// Planning the writes for one file.
// ---------------------------------------------------------------------------
/// One planned write: a URL path and the variant list to store there.
pub struct PlannedWrite {
    pub path: String,
    pub entities: Vec<Entity>,
}

/// The mathematical value of a [`PlannedWrite`].
pub struct PlannedWriteView {
    pub path: Seq<char>,
    pub entities: Seq<EntityView>,
}

impl View for PlannedWrite {
    type V = PlannedWriteView;

    open spec fn view(&self) -> PlannedWriteView {
        PlannedWriteView { path: self.path@, entities: self.entities.deep_view() }
    }
}

impl DeepView for PlannedWrite {
    type V = PlannedWriteView;

    open spec fn deep_view(&self) -> PlannedWriteView {
        self.view()
    }
}

/// Whether the relative path names an index document: its final component
/// is exactly `index.html`.
pub open spec fn spec_is_index(rel: Seq<char>) -> bool {
    spec_basename(rel) == "index.html"@
}

/// A single-entity variant list carrying content bytes.
pub open spec fn spec_body_list(mime: Seq<char>, contents: Seq<u8>) -> Seq<EntityView> {
    seq![
        EntityView {
            mime_type: mime,
            encoding: Option::None,
            payload: PayloadView::Body(contents),
        },
    ]
}

/// A single-entity variant list redirecting to the canonical URL.
pub open spec fn spec_redirect_list(target: Seq<char>) -> Seq<EntityView> {
    seq![
        EntityView {
            mime_type: "text/html"@,
            encoding: Option::None,
            payload: PayloadView::Redirect(target),
        },
    ]
}

/// The writes that publish one file at its root-relative path: one body
/// write for an ordinary file; for an index document, the body at the
/// canonical directory URL (with trailing slash) followed by redirects at
/// the slashless directory URL and at the literal file URL.  An index
/// document at the upload root itself has no distinct slashless URL, so
/// only the literal-path redirect accompanies it.
pub open spec fn spec_plan_file(rel: Seq<char>, mime: Seq<char>, contents: Seq<u8>) -> Seq<
    PlannedWriteView,
> {
    if spec_is_index(rel) {
        let parent = spec_parent(rel);
        if parent.len() == 0 {
            seq![
                PlannedWriteView { path: "/"@, entities: spec_body_list(mime, contents) },
                PlannedWriteView {
                    path: "/"@ + rel,
                    entities: spec_redirect_list("/"@),
                },
            ]
        } else {
            let canon = "/"@ + parent + "/"@;
            seq![
                PlannedWriteView { path: canon, entities: spec_body_list(mime, contents) },
                PlannedWriteView { path: "/"@ + parent, entities: spec_redirect_list(canon) },
                PlannedWriteView {
                    path: "/"@ + rel,
                    entities: spec_redirect_list(canon),
                },
            ]
        }
    } else {
        seq![
            PlannedWriteView { path: "/"@ + rel, entities: spec_body_list(mime, contents) },
        ]
    }
}

/// A one-entity variant list holding content bytes.
fn body_list(mime: String, contents: Vec<u8>) -> (v: Vec<Entity>)
    ensures
        v.deep_view() == spec_body_list(mime@, contents@),
{
    let ghost mv = mime@;
    let ghost cv = contents@;
    let mut v: Vec<Entity> = Vec::new();
    v.push(Entity::with_body(mime, contents));
    proof {
        assert(v.deep_view() =~~= spec_body_list(mv, cv));
    }
    v
}

/// A one-entity variant list redirecting to the canonical URL.
fn redirect_list(target: String) -> (v: Vec<Entity>)
    ensures
        v.deep_view() == spec_redirect_list(target@),
{
    let ghost tv = target@;
    let mut v: Vec<Entity> = Vec::new();
    v.push(Entity::with_redirect(String::from_str("text/html"), target));
    proof {
        assert(v.deep_view() =~~= spec_redirect_list(tv));
    }
    v
}

/// Plan the writes for one file, given its root-relative path, its MIME
/// type and its content bytes.
pub fn plan_file(rel: &str, mime_type: &str, contents: Vec<u8>) -> (r: Vec<PlannedWrite>)
    ensures
        r.deep_view() == spec_plan_file(rel@, mime_type@, contents@),
{
    let ghost relv = rel@;
    let i = split_point(rel);
    let n = rel.unicode_len();
    let base = String::from_str(rel.substring_char(i, n));
    proof {
        assert(base@ =~= spec_basename(relv));
    }
    let index_name: String = String::from_str("index.html");
    let slash: String = String::from_str("/");
    let mut out: Vec<PlannedWrite> = Vec::new();
    if base == index_name {
        let parent = if i == 0 {
            String::new()
        } else {
            String::from_str(rel.substring_char(0, i - 1))
        };
        proof {
            assert(parent@ =~= spec_parent(relv));
        }
        if parent.unicode_len() == 0 {
            let canon = slash.clone();
            out.push(
                PlannedWrite {
                    path: canon.clone(),
                    entities: body_list(String::from_str(mime_type), contents),
                },
            );
            out.push(
                PlannedWrite {
                    path: slash.clone().concat(rel),
                    entities: redirect_list(canon.clone()),
                },
            );
            proof {
                assert(spec_parent(relv) =~= Seq::<char>::empty());
                assert(out.deep_view() =~~= spec_plan_file(relv, mime_type@, contents@));
            }
        } else {
            let canon = slash.clone().concat(parent.as_str()).concat("/");
            out.push(
                PlannedWrite {
                    path: canon.clone(),
                    entities: body_list(String::from_str(mime_type), contents),
                },
            );
            out.push(
                PlannedWrite {
                    path: slash.clone().concat(parent.as_str()),
                    entities: redirect_list(canon.clone()),
                },
            );
            out.push(
                PlannedWrite { path: slash.clone().concat(rel), entities: redirect_list(canon) },
            );
            proof {
                assert(out.deep_view() =~~= spec_plan_file(relv, mime_type@, contents@));
            }
        }
    } else {
        out.push(
            PlannedWrite {
                path: slash.clone().concat(rel),
                entities: body_list(String::from_str(mime_type), contents),
            },
        );
        proof {
            assert(out.deep_view() =~~= spec_plan_file(relv, mime_type@, contents@));
        }
    }
    out
}

// ---------------------------------------------------------------------------
// Applying a plan to a site store.
// ---------------------------------------------------------------------------
/// The site contents after the planned writes all commit, each keyed under
/// the site's base URL.
pub open spec fn spec_apply_writes(
    m: Map<Seq<char>, Seq<u8>>,
    ws: Seq<PlannedWriteView>,
    base: Seq<char>,
) -> Map<Seq<char>, Seq<u8>>
    decreases ws.len(),
{
    if ws.len() == 0 {
        m
    } else {
        spec_apply_writes(
            store_write(m, base + ws[0].path, ws[0].entities),
            ws.drop_first(),
            base,
        )
    }
}

/// Publish one file into a site: compute its URL path relative to the
/// upload root, guess its MIME type, and commit the planned writes in
/// order through the path cells' setters.  A failed write aborts the rest;
/// the writes already committed stay, as each is its own transaction.
#[verifier::rlimit(50)]
pub fn upload_file(root: &str, path: &str, contents: Vec<u8>, site: &mut LMDBWebSite) -> (r: Result<
    (),
    UploadError,
>)
    ensures
        final(site).spec_url() == old(site).spec_url(),
        r is Ok ==> (spec_strip_prefix(root@, path@) matches Option::Some(rel) && final(site)@
            == spec_apply_writes(
            old(site)@,
            spec_plan_file(rel, spec_guess_mime(rel), contents@),
            old(site).spec_url(),
        )),
        r matches Err(UploadError::StripPrefix) ==> spec_strip_prefix(root@, path@) is None
            && final(site)@ == old(site)@,
        r matches Err(UploadError::Store(e)) ==> e == StoreError::StorageUnavailable && (
        spec_strip_prefix(root@, path@) matches Option::Some(rel) && exists|k: int|
            0 <= k <= spec_plan_file(rel, spec_guess_mime(rel), contents@).len()
                && final(site)@ == spec_apply_writes(
                old(site)@,
                #[trigger] spec_plan_file(rel, spec_guess_mime(rel), contents@).take(k),
                old(site).spec_url(),
            )),
        !(r matches Err(UploadError::NonUnicodePath)),
{
    let rel = match UrlPath::new(root, path) {
        Ok(u) => u,
        Err(_) => {
            return Err(UploadError::StripPrefix);
        },
    };
    let ghost relv = rel@;
    let ghost cv = contents@;
    let mime = guess_mime_type(rel.to_str());
    let plan = plan_file(rel.to_str(), mime.as_str(), contents);
    let ghost planv = plan.deep_view();
    let ghost base = old(site).spec_url();
    let ghost m0 = old(site)@;
    let mut i: usize = 0;
    proof {
        assert(planv.take(0) =~= Seq::<PlannedWriteView>::empty());
    }
    while i < plan.len()
        invariant
            i <= plan@.len(),
            planv == plan.deep_view(),
            planv.len() == plan@.len(),
            spec_strip_prefix(root@, path@) == Option::Some(relv),
            planv == spec_plan_file(relv, spec_guess_mime(relv), cv),
            cv == contents@,
            m0 == old(site)@,
            base == old(site).spec_url(),
            site.spec_url() == base,
            site@ == spec_apply_writes(m0, planv.take(i as int), base),
        decreases plan@.len() - i,
    {
        let setter = site.get_entities(plan[i].path.as_str()).as_setter();
        match setter.set(site, &plan[i].entities) {
            Ok(()) => {
                proof {
                    assert(plan@[i as int].deep_view() == planv[i as int]);
                    lemma_apply_writes_snoc(m0, planv, i as int, base);
                }
                i = i + 1;
            },
            Err(e) => {
                proof {
                    assert(0 <= i as int <= spec_plan_file(
                        relv,
                        spec_guess_mime(relv),
                        contents@,
                    ).len());
                    assert(spec_plan_file(relv, spec_guess_mime(relv), contents@).take(i as int)
                        == planv.take(i as int));
                    assert(site@ == spec_apply_writes(
                        m0,
                        spec_plan_file(relv, spec_guess_mime(relv), contents@).take(i as int),
                        base,
                    ));
                    let relx = spec_strip_prefix(root@, path@)->0;
                    assert(relx == relv);
                    assert(spec_plan_file(relx, spec_guess_mime(relx), contents@).take(i as int)
                        == planv.take(i as int));
                    assert(exists|k: int|
                        0 <= k <= spec_plan_file(relx, spec_guess_mime(relx), contents@).len()
                            && site@ == spec_apply_writes(
                            m0,
                            #[trigger] spec_plan_file(relx, spec_guess_mime(relx), contents@).take(
                                k,
                            ),
                            base,
                        ));
                }
                return Err(UploadError::Store(e));
            },
        }
    }
    proof {
        assert(planv.take(planv.len() as int) =~= planv);
    }
    Ok(())
}

/// One more committed write extends the applied prefix of a plan.
proof fn lemma_apply_writes_snoc(
    m: Map<Seq<char>, Seq<u8>>,
    ws: Seq<PlannedWriteView>,
    i: int,
    base: Seq<char>,
)
    requires
        0 <= i < ws.len(),
    ensures
        spec_apply_writes(m, ws.take(i + 1), base) == store_write(
            spec_apply_writes(m, ws.take(i), base),
            base + ws[i].path,
            ws[i].entities,
        ),
    decreases i,
{
    let m1 = store_write(m, base + ws[0].path, ws[0].entities);
    if i == 0 {
        assert(ws.take(1) =~= seq![ws[0]]);
        assert(ws.take(1)[0] == ws[0]);
        assert(ws.take(1).drop_first() =~= Seq::<PlannedWriteView>::empty());
        assert(ws.take(0) =~= Seq::<PlannedWriteView>::empty());
        assert(spec_apply_writes(m, ws.take(0), base) == m);
        assert(spec_apply_writes(m1, ws.take(1).drop_first(), base) == m1);
        assert(spec_apply_writes(m, ws.take(1), base) == spec_apply_writes(
            m1,
            ws.take(1).drop_first(),
            base,
        ));
    } else {
        assert(ws.take(i + 1)[0] == ws[0]);
        assert(ws.take(i + 1).drop_first() =~= ws.drop_first().take(i));
        assert(ws.take(i)[0] == ws[0]);
        assert(ws.take(i).drop_first() =~= ws.drop_first().take(i - 1));
        lemma_apply_writes_snoc(m1, ws.drop_first(), i - 1, base);
        assert(ws.drop_first()[i - 1] == ws[i]);
        assert(spec_apply_writes(m, ws.take(i + 1), base) == spec_apply_writes(
            m1,
            ws.take(i + 1).drop_first(),
            base,
        ));
        assert(spec_apply_writes(m, ws.take(i), base) == spec_apply_writes(
            m1,
            ws.take(i).drop_first(),
            base,
        ));
    }
}

// ---------------------------------------------------------------------------
// The tree walk as a work list.
// ---------------------------------------------------------------------------
/// The pending paths of a file-tree walk.  The walk is iterative on
/// purpose: the explicit stack keeps arbitrarily deep trees from
/// exhausting the call stack.  The caller pops one pending path at a time,
/// pushes a directory's entries back, and publishes regular files.
pub struct UploadWalk {
    stack: Vec<String>,
}

impl View for UploadWalk {
    type V = Seq<Seq<char>>;

    /// The pending paths, the next one to visit last.
    closed spec fn view(&self) -> Seq<Seq<char>> {
        self.stack.deep_view()
    }
}

impl UploadWalk {
    /// A walk with the tree root pending.
    pub fn new(root: String) -> (w: UploadWalk)
        ensures
            w@ == seq![root@],
    {
        let mut stack: Vec<String> = Vec::new();
        stack.push(root);
        let w = UploadWalk { stack };
        proof {
            assert(w@ =~= seq![root@]);
        }
        w
    }

    /// The next pending path, removed from the work list; `None` when the
    /// walk is complete.
    pub fn pop_task(&mut self) -> (r: Option<String>)
        ensures
            match r {
                Option::Some(p) => old(self)@.len() > 0 && p@ == old(self)@.last() && final(self)@
                    == old(self)@.drop_last(),
                Option::None => old(self)@.len() == 0 && final(self)@ == old(self)@,
            },
    {
        let r = self.stack.pop();
        proof {
            if old(self)@.len() > 0 {
                assert(final(self)@ =~= old(self)@.drop_last());
            } else {
                assert(final(self)@ =~= old(self)@);
            }
        }
        r
    }

    /// Add a directory's entries to the work list.
    pub fn push_entries(&mut self, entries: &mut Vec<String>)
        ensures
            final(self)@ == old(self)@ + old(entries).deep_view(),
            final(entries)@.len() == 0,
    {
        self.stack.append(entries);
        proof {
            assert(final(self)@ =~= old(self)@ + old(entries).deep_view());
        }
    }

    /// Whether the walk is complete.
    pub fn is_done(&self) -> (r: bool)
        ensures
            r == (self@.len() == 0),
    {
        self.stack.len() == 0
    }
}

} // verus!
