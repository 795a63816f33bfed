//! Path cells: capabilities scoped to exactly one (site, path) key.
//!
//! A cell binds one URL path and hands out its two sides separately: a
//! [`Getter`] can only read that key and a [`Setter`] can only write it, so
//! a holder of one side gets no more authority than that side grants.  The
//! store handle itself is passed to each operation, because the verified
//! model of a store's contents is tracked through exclusive references.

use vstd::prelude::*;
use vstd::string::StringExecFns;

use crate::codec::{decode_list, wf_list};
use crate::entity::Entity;
use crate::store::{store_write, LMDBWebSite, StoreError};

verus! {

/// A capability over one URL path of a site, from which the read side and
/// the write side are derived.
pub struct EntitiesCell {
    path: String,
}

impl View for EntitiesCell {
    type V = Seq<char>;

    /// The key this cell is scoped to.
    closed spec fn view(&self) -> Seq<char> {
        self.path@
    }
}

/// The read side of a cell: it can only fetch the variant list at its key.
pub struct Getter {
    path: String,
}

impl View for Getter {
    type V = Seq<char>;

    closed spec fn view(&self) -> Seq<char> {
        self.path@
    }
}

/// The write side of a cell: it can only store a variant list at its key.
pub struct Setter {
    path: String,
}

impl View for Setter {
    type V = Seq<char>;

    closed spec fn view(&self) -> Seq<char> {
        self.path@
    }
}

impl EntitiesCell {
    /// The cell scoped to the given key.
    pub fn new(path: String) -> (c: EntitiesCell)
        ensures
            c@ == path@,
    {
        EntitiesCell { path }
    }

    /// The read capability over this cell's key.
    pub fn as_getter(&self) -> (g: Getter)
        ensures
            g@ == self@,
    {
        Getter { path: self.path.clone() }
    }

    /// The write capability over this cell's key.
    pub fn as_setter(&self) -> (s: Setter)
        ensures
            s@ == self@,
    {
        Setter { path: self.path.clone() }
    }
}

impl Getter {
    /// The variant list at this cell's key.  An absent key yields the
    /// empty list: nothing published here is a normal state, not a fault.
    pub fn get(&self, site: &LMDBWebSite) -> (r: Result<Vec<Entity>, StoreError>)
        ensures
            match r {
                Ok(v) => (site@.contains_key(self@) ==> decode_list(site@[self@]) == Option::Some(
                    v.deep_view(),
                )) && (!site@.contains_key(self@) ==> v@.len() == 0),
                Err(e) => e == StoreError::Corrupt ==> site@.contains_key(self@) && decode_list(
                    site@[self@],
                ) is None,
            },
    {
        match site.read(self.path.as_str()) {
            Ok(Some(v)) => Ok(v),
            Ok(None) => Ok(Vec::new()),
            Err(e) => Err(e),
        }
    }
}

impl Setter {
    /// Store a variant list at this cell's key, in one transaction; the
    /// empty list is the deletion idiom.
    pub fn set(&self, site: &mut LMDBWebSite, entities: &Vec<Entity>) -> (r: Result<
        (),
        StoreError,
    >)
        ensures
            final(site).spec_url() == old(site).spec_url(),
            match r {
                Ok(_) => final(site)@ == store_write(old(site)@, self@, entities.deep_view())
                    && wf_list(entities.deep_view()),
                Err(e) => final(site)@ == old(site)@ && e == StoreError::StorageUnavailable,
            },
    {
        site.write(self.path.as_str(), entities)
    }
}

impl LMDBWebSite {
    /// The cell scoped to `path` under this site's base URL.
    pub fn get_entities(&self, path: &str) -> (c: EntitiesCell)
        ensures
            c@ == self.spec_url() + path@,
    {
        EntitiesCell { path: self.get_url().clone().concat(path) }
    }
}

} // verus!
