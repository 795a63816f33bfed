//! The top-level view a serving process holds: the registry for the site
//! directory it was started on.
//!
//! The session and RPC wiring around it lives outside the library; this
//! type is what such a layer resolves site names through.

use vstd::prelude::*;

use crate::storage::Storage;
use crate::store::StoreError;

verus! {

/// The process-wide entry point: one registry over the configured site
/// directory.
pub struct MainViewImpl {
    /// The site registry; shared mutable access around it, if any, is the
    /// caller's to arrange.
    pub storage: Storage,
}

impl MainViewImpl {
    /// A view over the given site directory, with no site opened yet.
    pub fn new(site_dir: String) -> (v: MainViewImpl)
        ensures
            v.storage.root() == site_dir@,
            v.storage.sites().len() == 0,
            v.storage.wf(),
    {
        MainViewImpl { storage: Storage::new(site_dir) }
    }

    /// The registry index of the named site, opening and caching its store
    /// on first reference.  A name already cached always succeeds; only a
    /// fresh open can fail.
    pub fn get_site(&mut self, name: &str) -> (r: Result<usize, StoreError>)
        requires
            old(self).storage.wf(),
        ensures
            final(self).storage.wf(),
            final(self).storage.root() == old(self).storage.root(),
            old(self).storage.has_site(name@) ==> r is Ok,
            match r {
                Ok(i) => {
                    &&& i < final(self).storage.sites().len()
                    &&& final(self).storage.sites()[i as int].0@ == name@
                    &&& (old(self).storage.has_site(name@) ==> *final(self) == *old(self))
                    &&& (!old(self).storage.has_site(name@) ==> i == old(
                        self,
                    ).storage.sites().len() && final(self).storage.sites() == old(
                        self,
                    ).storage.sites().push(final(self).storage.sites()[i as int]))
                },
                Err(e) => *final(self) == *old(self) && e == StoreError::StorageUnavailable && !old(
                    self,
                ).storage.has_site(name@),
            },
    {
        self.storage.get(name)
    }
}

} // verus!
