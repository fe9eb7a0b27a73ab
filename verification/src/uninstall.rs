//! The uninstall transaction: look the record up — absent packages are
//! refused — then, after the surrounding program has removed the owned
//! files, drop the record from the state store. A force variant skips the
//! lookup gate and removes best-effort.
use vstd::prelude::*;
use crate::config::Config;
use crate::error::CocoatlyError;
use crate::state::GlobalState;
use crate::types::{record_matches, InstalledPackage, PackageName};

verus! {

/// Drives uninstall transactions against one configuration and state store.
pub struct PackageUninstaller {
    pub config: Config,
    pub state: GlobalState,
}

impl PackageUninstaller {
    pub fn new(config: Config, state: GlobalState) -> (r: Self)
        ensures
            r.config == config,
            r.state == state,
    {
        PackageUninstaller { config, state }
    }

    /// The uninstall gate: the record to remove, or `PackageNotFound` when
    /// no package of that name is installed. Mutates nothing; the caller
    /// removes the returned record's files before committing.
    pub fn begin_uninstall(&self, name: &PackageName) -> (r: Result<
        InstalledPackage,
        CocoatlyError,
    >)
        requires
            self.state.wf(),
        ensures
            r is Ok <==> self.state.spec_get(name@) is Some,
            r matches Err(e) ==> e is PackageNotFound,
            r matches Ok(p) ==> self.state.spec_get(name@) matches Some(q) && record_matches(
                q,
                p,
            ),
    {
        match self.state.get_package(name) {
            Some(p) => Ok(p.duplicate()),
            None => Err(CocoatlyError::PackageNotFound(name.as_str().to_owned())),
        }
    }

    /// The commit point of an uninstall: drops the record from the store.
    /// The caller persists the store after.
    pub fn commit_uninstall(&mut self, name: &PackageName) -> (r: Option<InstalledPackage>)
        requires
            old(self).state.wf(),
        ensures
            final(self).state.wf(),
            final(self).config == old(self).config,
            r == old(self).state.spec_get(name@),
            final(self).state.spec_get(name@) is None,
            forall|n: Seq<char>|
                n != name@ ==> #[trigger] final(self).state.spec_get(n) == old(
                    self,
                ).state.spec_get(n),
            final(self).state.installed_packages@.len() == old(
                self,
            ).state.installed_packages@.len() - (
            if r is Some {
                1int
            } else {
                0int
            }),
    {
        self.state.remove_package(name)
    }

    /// Best-effort removal: no gate, no error; the record is dropped if it
    /// was there at all.
    pub fn force_uninstall(&mut self, name: &PackageName) -> (r: Option<InstalledPackage>)
        requires
            old(self).state.wf(),
        ensures
            final(self).state.wf(),
            final(self).config == old(self).config,
            final(self).state.spec_get(name@) is None,
            forall|n: Seq<char>|
                n != name@ ==> #[trigger] final(self).state.spec_get(n) == old(
                    self,
                ).state.spec_get(n),
    {
        self.state.remove_package(name)
    }
}

} // verus!
