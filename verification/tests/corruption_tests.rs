//! A present key whose bytes are not a valid encoding must read as
//! corrupt — distinctly from an absent key, so data loss cannot hide
//! behind a not-found.  The undecodable value is planted through the
//! database engine directly; the engine handle is closed before the store
//! opens the same environment.

use lmdb::Transaction;

use webpub::store::{LMDBWebSite, StoreError};

#[test]
fn undecodable_stored_bytes_read_as_corrupt() {
    {
        let env = lmdb::Environment::new()
            .open(std::path::Path::new("/tmp"))
            .expect("the engine opens the environment");
        let db = env.create_db(None, lmdb::DatabaseFlags::empty()).expect("the database opens");
        let mut txn = env.begin_rw_txn().expect("a write transaction begins");
        txn.put(db, b"/corrupt-key", b"not an encoded variant list", lmdb::WriteFlags::empty())
            .expect("the raw bytes are stored");
        txn.commit().expect("the transaction commits");
    }

    let site =
        LMDBWebSite::open(String::from("site"), String::from(""), "/tmp").expect("opens");
    match site.read("/corrupt-key") {
        Err(StoreError::Corrupt) => {},
        Err(StoreError::StorageUnavailable) => panic!("the store should be reachable"),
        Ok(None) => panic!("a present key must not read as absent"),
        Ok(Some(_)) => panic!("the planted bytes must not decode"),
    }
}
