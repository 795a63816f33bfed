//! The site store: durable, transactional CRUD of variant lists keyed by
//! URL path, one embedded LMDB database per site.
//!
//! The store's contents are modelled as a map from path to encoded variant
//! list ([`db_view`]).  Each operation runs in one LMDB transaction, so a
//! reader never observes a partially written value; writes through one
//! handle are reflected in that handle's model.  The model tracks the
//! contents through the handle, so a directory must be opened through at
//! most one live handle at a time (the registry in [`crate::storage`]
//! opens each site once per process, and LMDB itself forbids reopening an
//! environment within a process); a site's environment is assumed not to
//! be written from outside the process holding its handle.

use vstd::prelude::*;
use vstd::string::StringExecFns;

use lmdb::Transaction;

use crate::codec::{decode_entities, decode_list, encode_entities, encode_list, wf_list};
use crate::entity::{Entity, EntityView};

verus! {

#[verifier::external_type_specification]
#[verifier::external_body]
pub struct ExEnvironment(lmdb::Environment);

#[verifier::external_type_specification]
#[verifier::external_body]
pub struct ExDatabase(lmdb::Database);

#[verifier::external_type_specification]
#[verifier::external_body]
pub struct ExLmdbError(lmdb::Error);

/// The open handles onto one site's embedded database.
pub struct SiteDb {
    env: lmdb::Environment,
    db: lmdb::Database,
}

/// The committed contents of one site's database: URL path to the encoded
/// bytes of its variant list.
pub uninterp spec fn db_view(db: &SiteDb) -> Map<Seq<char>, Seq<u8>>;

/// The errors a store operation can surface.
#[derive(Clone, Copy, Debug, PartialEq, Eq, Structural)]
pub enum StoreError {
    /// The database could not be opened, read, or committed.
    StorageUnavailable,
    /// Bytes stored at a present key did not decode as a variant list.
    Corrupt,
}

/// The generic mapping of any database-engine error to the store's own
/// error taxonomy.
pub fn db_err(_e: lmdb::Error) -> (r: StoreError)
    ensures
        r == StoreError::StorageUnavailable,
{
    StoreError::StorageUnavailable
}

/// Whether the string holds a NUL character.
pub open spec fn has_nul(s: Seq<char>) -> bool {
    exists|i: int| 0 <= i < s.len() && s[i] == '\0'
}

/// Whether the string holds a NUL character.
fn contains_nul(s: &str) -> (r: bool)
    ensures
        r == has_nul(s@),
{
    let n = s.unicode_len();
    let mut i: usize = 0;
    while i < n
        invariant
            i <= n,
            n == s@.len(),
            forall|k: int| 0 <= k < i ==> s@[k] != '\0',
        decreases n - i,
    {
        if s.get_char(i) == '\0' {
            proof {
                assert(s@[i as int] == '\0');
            }
            return true;
        }
        i = i + 1;
    }
    false
}

/// Relies on lmdb's `EnvironmentBuilder::open`, `Environment::open_db` and
/// `Environment::create_db`: opens the environment stored in the directory
/// `dir` and a handle to the database named `db_name`, falling back to the
/// default database when no such named database can be opened.  Whatever
/// earlier commits left in it are its contents.  A database name holding a
/// NUL character would abort inside `open_db` (the C string it builds
/// cannot hold one), so the contract excludes it; a NUL in the directory
/// path only fails the open.
#[verifier::external_body]
fn open_env(db_name: &str, dir: &str) -> Result<SiteDb, lmdb::Error>
    requires
        !has_nul(db_name@),
{
    let env = lmdb::Environment::new().open(std::path::Path::new(dir))?;
    let db = match env.open_db(Some(db_name)) {
        Ok(d) => d,
        Err(_) => env.create_db(None, lmdb::DatabaseFlags::empty())?,
    };
    Ok(SiteDb { env, db })
}

/// Relies on lmdb's `Environment::begin_ro_txn`, `Transaction::get` and the
/// abort in the transaction's drop: a read-only transaction observes the
/// committed contents; `get` returns the bytes stored at the key, and fails
/// with `lmdb::Error::NotFound` exactly when the key is absent.
#[verifier::external_body]
fn raw_get(db: &SiteDb, key: &str) -> (r: Result<Option<Vec<u8>>, lmdb::Error>)
    ensures
        match r {
            Ok(Some(v)) => db_view(db).contains_key(key@) && db_view(db)[key@] == v@,
            Ok(None) => !db_view(db).contains_key(key@),
            Err(_) => true,
        },
{
    let txn = match db.env.begin_ro_txn() {
        Ok(t) => t,
        Err(e) => return Err(e),
    };
    match txn.get(db.db, &key) {
        Ok(bytes) => Ok(Some(bytes.to_vec())),
        Err(lmdb::Error::NotFound) => Ok(None),
        Err(e) => Err(e),
    }
}

/// Relies on lmdb's `Environment::begin_rw_txn`, `RwTransaction::put` and
/// `Transaction::commit`: a committed put stores exactly the given bytes
/// under the key, replacing any earlier value; a failed or uncommitted
/// transaction is aborted and changes nothing.
#[verifier::external_body]
fn raw_put(db: &mut SiteDb, key: &str, value: &[u8]) -> (r: Result<(), lmdb::Error>)
    ensures
        match r {
            Ok(_) => db_view(final(db)) == db_view(old(db)).insert(key@, value@),
            Err(_) => db_view(final(db)) == db_view(old(db)),
        },
{
    let mut txn = match db.env.begin_rw_txn() {
        Ok(t) => t,
        Err(e) => return Err(e),
    };
    if let Err(e) = txn.put(db.db, &key, &value, lmdb::WriteFlags::empty()) {
        return Err(e);
    }
    txn.commit()
}

/// Relies on lmdb's `Environment::begin_rw_txn`, `RwTransaction::del` and
/// `Transaction::commit`: a committed delete removes the key; deleting an
/// absent key reports `lmdb::Error::NotFound` and is treated as success; a
/// failed or uncommitted transaction is aborted and changes nothing.
#[verifier::external_body]
fn raw_del(db: &mut SiteDb, key: &str) -> (r: Result<(), lmdb::Error>)
    ensures
        match r {
            Ok(_) => db_view(final(db)) == db_view(old(db)).remove(key@),
            Err(_) => db_view(final(db)) == db_view(old(db)),
        },
{
    let mut txn = match db.env.begin_rw_txn() {
        Ok(t) => t,
        Err(e) => return Err(e),
    };
    match txn.del(db.db, &key, None) {
        Ok(()) | Err(lmdb::Error::NotFound) => txn.commit(),
        Err(e) => Err(e),
    }
}

/// What one committed write leaves as a site's contents: storing the empty
/// list deletes the key, any other list is encoded and upserted.
pub open spec fn store_write(
    m: Map<Seq<char>, Seq<u8>>,
    p: Seq<char>,
    vs: Seq<EntityView>,
) -> Map<Seq<char>, Seq<u8>> {
    if vs.len() == 0 {
        m.remove(p)
    } else {
        m.insert(p, encode_list(vs))
    }
}

/// One site's store: the database handles together with the site's base
/// URL, under which all of its keys live.
pub struct LMDBWebSite {
    db_name: String,
    url: String,
    db: SiteDb,
}

impl View for LMDBWebSite {
    type V = Map<Seq<char>, Seq<u8>>;

    /// The site's committed contents: URL path to encoded variant list.
    closed spec fn view(&self) -> Map<Seq<char>, Seq<u8>> {
        db_view(&self.db)
    }
}

impl LMDBWebSite {
    /// The base URL this store was opened with.
    pub closed spec fn spec_url(&self) -> Seq<char> {
        self.url@
    }

    /// Opens (never creating the directory) the embedded database stored
    /// under the directory `p`.  A database name holding a NUL character
    /// is refused — no such name can reach the engine.
    pub fn open(db_name: String, url: String, p: &str) -> (r: Result<LMDBWebSite, StoreError>)
        ensures
            has_nul(db_name@) ==> r is Err,
            match r {
                Ok(site) => site.spec_url() == url@,
                Err(e) => e == StoreError::StorageUnavailable,
            },
    {
        if contains_nul(db_name.as_str()) {
            return Err(StoreError::StorageUnavailable);
        }
        match open_env(db_name.as_str(), p) {
            Ok(db) => Ok(LMDBWebSite { db_name, url, db }),
            Err(e) => Err(db_err(e)),
        }
    }

    /// The site's base URL.
    pub fn get_url(&self) -> (r: &String)
        ensures
            r@ == self.spec_url(),
    {
        &self.url
    }

    /// The same store rescoped under a longer base URL: every cell derived
    /// from the result is keyed under the extended base.  The handle is
    /// consumed — one handle owns a database at a time, so rescoping hands
    /// the same contents on under the new base.
    pub fn get_subsite(self, prefix: &str) -> (r: LMDBWebSite)
        ensures
            r@ == self@,
            r.spec_url() == self.spec_url() + prefix@,
    {
        LMDBWebSite { db_name: self.db_name, url: self.url.concat(prefix), db: self.db }
    }

    /// Reads the variant list stored at `path`.  An absent key is `None`;
    /// present bytes that do not decode are `Corrupt`, never `None`.
    pub fn read(&self, path: &str) -> (r: Result<Option<Vec<Entity>>, StoreError>)
        ensures
            match r {
                Ok(Some(v)) => self@.contains_key(path@) && decode_list(self@[path@])
                    == Option::Some(v.deep_view()),
                Ok(None) => !self@.contains_key(path@),
                Err(e) => e == StoreError::Corrupt ==> self@.contains_key(path@) && decode_list(
                    self@[path@],
                ) is None,
            },
    {
        match raw_get(&self.db, path) {
            Ok(Some(bytes)) => match decode_entities(bytes.as_slice()) {
                Option::Some(v) => Ok(Some(v)),
                Option::None => Err(StoreError::Corrupt),
            },
            Ok(None) => Ok(None),
            Err(e) => Err(db_err(e)),
        }
    }

    /// Writes the variant list at `path` in one transaction; the empty
    /// list deletes the key, tolerating an already absent key.
    pub fn write(&mut self, path: &str, entities: &Vec<Entity>) -> (r: Result<(), StoreError>)
        ensures
            final(self).spec_url() == old(self).spec_url(),
            match r {
                Ok(_) => final(self)@ == store_write(old(self)@, path@, entities.deep_view())
                    && wf_list(entities.deep_view()),
                Err(e) => final(self)@ == old(self)@ && e == StoreError::StorageUnavailable,
            },
    {
        if entities.len() == 0 {
            match raw_del(&mut self.db, path) {
                Ok(()) => Ok(()),
                Err(e) => Err(db_err(e)),
            }
        } else {
            let buf = encode_entities(entities);
            match raw_put(&mut self.db, path, buf.as_slice()) {
                Ok(()) => Ok(()),
                Err(e) => Err(db_err(e)),
            }
        }
    }
}

// ---------------------------------------------------------------------------
// Laws of the store's contents.
// ---------------------------------------------------------------------------
/// Round trip: after a committed write of a non-empty, well-formed variant
/// list, the bytes stored at that path decode to exactly that list, so a
/// read finds it again.
pub proof fn lemma_write_read_round_trip(
    m: Map<Seq<char>, Seq<u8>>,
    p: Seq<char>,
    vs: Seq<EntityView>,
)
    requires
        vs.len() > 0,
        wf_list(vs),
    ensures
        store_write(m, p, vs).contains_key(p),
        decode_list(store_write(m, p, vs)[p]) == Option::Some(vs),
{
    crate::codec::lemma_codec_round_trip(vs);
}

/// The deletion idiom: a committed write of the empty list leaves the key
/// absent, and repeating it is a no-op.
pub proof fn lemma_delete_idempotent(m: Map<Seq<char>, Seq<u8>>, p: Seq<char>)
    ensures
        !store_write(m, p, Seq::<EntityView>::empty()).contains_key(p),
        store_write(store_write(m, p, Seq::<EntityView>::empty()), p, Seq::<EntityView>::empty())
            == store_write(m, p, Seq::<EntityView>::empty()),
{
    assert(store_write(store_write(m, p, Seq::<EntityView>::empty()), p, Seq::<
        EntityView,
    >::empty()) =~= store_write(m, p, Seq::<EntityView>::empty()));
}

/// Writes to distinct paths are independent: after both commit, each path
/// holds exactly what was written to it.
pub proof fn lemma_distinct_paths_independent(
    m: Map<Seq<char>, Seq<u8>>,
    p1: Seq<char>,
    vs1: Seq<EntityView>,
    p2: Seq<char>,
    vs2: Seq<EntityView>,
)
    requires
        p1 != p2,
        vs1.len() > 0,
        vs2.len() > 0,
        wf_list(vs1),
        wf_list(vs2),
    ensures
        store_write(store_write(m, p1, vs1), p2, vs2).contains_key(p1),
        decode_list(store_write(store_write(m, p1, vs1), p2, vs2)[p1]) == Option::Some(vs1),
        store_write(store_write(m, p1, vs1), p2, vs2).contains_key(p2),
        decode_list(store_write(store_write(m, p1, vs1), p2, vs2)[p2]) == Option::Some(vs2),
{
    crate::codec::lemma_codec_round_trip(vs1);
    crate::codec::lemma_codec_round_trip(vs2);
}

} // verus!
