//! The update transaction: uninstall the old version, install the new one,
//! carrying the old record's requester provenance over. An update to a
//! version that is not strictly greater than the installed one is refused
//! before anything runs.
use vstd::prelude::*;
use crate::config::Config;
use crate::error::CocoatlyError;
use crate::state::GlobalState;
use crate::types::{
    record_matches, spec_version_lt, version_lt, InstalledPackage, PackageArtifact, PackageName,
};

verus! {

/// Drives update transactions against one configuration and state store.
pub struct PackageUpdater {
    pub config: Config,
    pub state: GlobalState,
}

impl PackageUpdater {
    pub fn new(config: Config, state: GlobalState) -> (r: Self)
        ensures
            r.config == config,
            r.state == state,
    {
        PackageUpdater { config, state }
    }

    /// The update gate: the currently installed record, whose requester list
    /// the new install will inherit. Fails with `PackageNotFound` when the
    /// package is absent, and refuses — mutating nothing — when the new
    /// version is not strictly greater than the installed one.
    pub fn check_update(&self, name: &PackageName, new_artifact: &PackageArtifact) -> (r: Result<
        InstalledPackage,
        CocoatlyError,
    >)
        requires
            self.state.wf(),
        ensures
            r is Ok <==> (self.state.spec_get(name@) matches Some(p) && spec_version_lt(
                p.version,
                new_artifact.version,
            )),
            self.state.spec_get(name@) is None ==> (r matches Err(e) && e is PackageNotFound),
            (self.state.spec_get(name@) matches Some(p) && !spec_version_lt(
                p.version,
                new_artifact.version,
            )) ==> (r matches Err(e) && e is InstallationFailed),
            r matches Ok(p) ==> self.state.spec_get(name@) matches Some(q) && record_matches(
                q,
                p,
            ),
    {
        let current = match self.state.get_package(name) {
            Some(p) => p,
            None => {
                return Err(CocoatlyError::PackageNotFound(name.as_str().to_owned()));
            },
        };
        if !version_lt(&current.version, &new_artifact.version) {
            return Err(
                CocoatlyError::InstallationFailed(
                    "Current version is already up to date or newer".to_owned(),
                ),
            );
        }
        Ok(current.duplicate())
    }
}

} // verus!
