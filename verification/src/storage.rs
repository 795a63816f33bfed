//! The site registry: lazily opens one store per site name and caches the
//! open handles for the life of the process.
//!
//! Handles are never evicted: embedded-database environments are expensive
//! to reopen, and the set of sites served is assumed to fit the process's
//! resource budget.  Because each handle exclusively models its database's
//! contents, the registry owns every handle and callers address a site by
//! the index the registry returned for it; indices stay valid for the
//! registry's lifetime.  Listing the site directories on disk is directory
//! I/O and is left to the caller.

use vstd::prelude::*;
use vstd::string::StringExecFns;

use crate::cell::Setter;
use crate::codec::wf_list;
use crate::entity::Entity;
use crate::store::{store_write, LMDBWebSite, StoreError};

verus! {

/// The registry: the root directory that holds one subdirectory per site,
/// and the handles opened so far.
pub struct Storage {
    path: String,
    dbs: Vec<(String, LMDBWebSite)>,
}

impl Storage {
    /// The root directory the sites live under.
    pub closed spec fn root(&self) -> Seq<char> {
        self.path@
    }

    /// The cached (name, handle) pairs, in the order opened.
    pub closed spec fn sites(&self) -> Seq<(String, LMDBWebSite)> {
        self.dbs@
    }

    /// Whether a handle for the named site is cached.
    pub open spec fn has_site(&self, n: Seq<char>) -> bool {
        exists|k: int| 0 <= k < self.sites().len() && self.sites()[k].0@ == n
    }

    /// Every cached site name occurs once.
    pub open spec fn wf(&self) -> bool {
        forall|i: int, j: int|
            0 <= i < j < self.sites().len() ==> #[trigger] self.sites()[i].0@ != #[trigger] self.sites()[j].0@
    }

    /// A registry over the given root directory, with nothing opened yet.
    pub fn new(path: String) -> (s: Storage)
        ensures
            s.root() == path@,
            s.sites() == Seq::<(String, LMDBWebSite)>::empty(),
            s.wf(),
    {
        Storage { path, dbs: Vec::new() }
    }

    /// The handle for the named site: the cached one if present, else one
    /// freshly opened from the directory `<root>/<name>` and cached.  A
    /// cached name always succeeds — no database call is involved; only a
    /// fresh open can fail.  The directory itself is not created here; a
    /// missing one surfaces as `StorageUnavailable`.
    pub fn get(&mut self, name: &str) -> (r: Result<usize, StoreError>)
        requires
            old(self).wf(),
        ensures
            final(self).wf(),
            final(self).root() == old(self).root(),
            old(self).has_site(name@) ==> r is Ok,
            match r {
                Ok(i) => {
                    &&& i < final(self).sites().len()
                    &&& final(self).sites()[i as int].0@ == name@
                    &&& (old(self).has_site(name@) ==> *final(self) == *old(self))
                    &&& (!old(self).has_site(name@) ==> i == old(self).sites().len()
                        && final(self).sites() == old(self).sites().push(
                        final(self).sites()[i as int],
                    ))
                },
                Err(e) => *final(self) == *old(self) && e == StoreError::StorageUnavailable && !old(
                    self,
                ).has_site(name@),
            },
    {
        let name_s = String::from_str(name);
        let mut i: usize = 0;
        while i < self.dbs.len()
            invariant
                old(self).wf(),
                *self == *old(self),
                name_s@ == name@,
                i <= self.dbs@.len(),
                forall|k: int| 0 <= k < i ==> #[trigger] self.dbs@[k].0@ != name@,
            decreases self.dbs@.len() - i,
        {
            if self.dbs[i].0 == name_s {
                proof {
                    assert(self.sites()[i as int].0@ == name@);
                }
                return Ok(i);
            }
            i = i + 1;
        }
        proof {
            assert(!old(self).has_site(name@));
        }
        let dir = self.path.clone().concat("/").concat(name);
        match LMDBWebSite::open(
            String::from_str("site"),
            String::from_str("http://example.com"),
            dir.as_str(),
        ) {
            Ok(site) => {
                let idx = self.dbs.len();
                self.dbs.push((name_s, site));
                proof {
                    assert(!old(self).has_site(name@));
                    assert(final(self).sites() =~= old(self).sites().push(
                        final(self).sites()[idx as int],
                    ));
                }
                Ok(idx)
            },
            Err(e) => Err(e),
        }
    }

    /// The handle at a registry index, for reading.
    pub fn site(&self, i: usize) -> (site: &LMDBWebSite)
        requires
            i < self.sites().len(),
        ensures
            *site == self.sites()[i as int].1,
    {
        &self.dbs[i].1
    }

    /// Write through a path cell's setter into the site at a registry
    /// index; every other cached handle is untouched.
    pub fn site_set(&mut self, i: usize, setter: &Setter, entities: &Vec<Entity>) -> (r: Result<
        (),
        StoreError,
    >)
        requires
            old(self).wf(),
            i < old(self).sites().len(),
        ensures
            final(self).wf(),
            final(self).root() == old(self).root(),
            final(self).sites().len() == old(self).sites().len(),
            forall|k: int|
                0 <= k < old(self).sites().len() && k != i ==> final(self).sites()[k] == old(
                    self,
                ).sites()[k],
            final(self).sites()[i as int].0 == old(self).sites()[i as int].0,
            final(self).sites()[i as int].1.spec_url() == old(self).sites()[i as int].1.spec_url(),
            match r {
                Ok(_) => final(self).sites()[i as int].1@ == store_write(
                    old(self).sites()[i as int].1@,
                    setter@,
                    entities.deep_view(),
                ) && wf_list(entities.deep_view()),
                Err(e) => final(self).sites()[i as int].1@ == old(self).sites()[i as int].1@ && e
                    == StoreError::StorageUnavailable,
            },
    {
        let r = setter.set(&mut self.dbs[i].1, entities);
        proof {
            assert forall|a: int, b: int|
                0 <= a < b < final(self).sites().len() implies #[trigger] final(self).sites()[a].0@
                != #[trigger] final(self).sites()[b].0@ by {
                assert(final(self).sites()[a].0 == old(self).sites()[a].0);
                assert(final(self).sites()[b].0 == old(self).sites()[b].0);
            }
        }
        r
    }
}

} // verus!
