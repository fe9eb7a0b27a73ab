//! The installation transaction: the ordered pipeline download → verify →
//! extract → install → commit. Until `commit` runs, nothing here can touch
//! a state store — every earlier stage borrows it immutably — so a failure
//! at any earlier stage leaves the store exactly as it was. The surrounding
//! program performs the network fetch and the file moves between stages and
//! hands the bytes back in.
use vstd::prelude::*;
use vstd::bytes::{spec_u128_to_le_bytes, u128_to_le_bytes};
use crate::codec::{
    entries_safe, entry_views, spec_unpack, FileEntry, TarGzCompressor,
};
use crate::config::Config;
use crate::error::CocoatlyError;
use crate::hash::spec_digest_hex;
use crate::hexcode::hex_chars_of;
use crate::ids::{new_uuid_v4, now_unix};
use crate::state::GlobalState;
use crate::types::{
    record_matches, spec_version_chars, InstallOperation, InstalledPackage, OperationStatus,
    PackageArtifact, PackageName, Version,
};
use crate::verify::{spec_signature_ok, verify_artifact};

verus! {

/// `base`, a slash, then `name`.
pub open spec fn spec_path_join(base: Seq<char>, name: Seq<char>) -> Seq<char> {
    base + seq!['/'] + name
}

/// Joins one path component onto a base path.
pub fn path_join(base: &str, name: &str) -> (r: String)
    ensures
        r@ == spec_path_join(base@, name@),
{
    proof {
        reveal_strlit("/");
    }
    let mut s = base.to_owned();
    s.append("/");
    s.append(name);
    proof {
        assert("/"@ =~= seq!['/']);
        assert(s@ =~= spec_path_join(base@, name@));
    }
    s
}

/// The deterministic name of a downloaded artifact in the temp directory.
pub open spec fn spec_archive_file_name(name: Seq<char>, v: Version) -> Seq<char> {
    name + seq!['-'] + spec_version_chars(v.major, v.minor, v.patch) + ".tar.gz"@
}

/// Renders the archive file name `name-major.minor.patch.tar.gz`.
pub fn archive_file_name(name: &PackageName, version: &Version) -> (r: String)
    ensures
        r@ == spec_archive_file_name(name@, *version),
{
    proof {
        reveal_strlit("-");
    }
    let mut s = name.as_str().to_owned();
    s.append("-");
    let v = version.to_string();
    s.append(v.as_str());
    s.append(".tar.gz");
    proof {
        assert("-"@ =~= seq!['-']);
        assert(s@ =~= spec_archive_file_name(name@, *version));
    }
    s
}

/// The unique extraction directory of one transaction, named by its id.
pub open spec fn spec_extract_dir(temp_dir: Seq<char>, id: u128) -> Seq<char> {
    spec_path_join(temp_dir, "extract-"@ + hex_chars_of(spec_u128_to_le_bytes(id)))
}

/// The final install directory `install_root/name/version`.
pub open spec fn spec_install_dir(root: Seq<char>, name: Seq<char>, v: Version) -> Seq<char> {
    spec_path_join(spec_path_join(root, name), spec_version_chars(v.major, v.minor, v.patch))
}

/// One run of the install pipeline for a single package. The `operation`
/// record tracks the lifecycle status; the three paths are fixed at `begin`.
#[derive(Debug)]
pub struct InstallTransaction {
    pub operation: InstallOperation,
    pub archive_path: String,
    pub extract_dir: String,
    pub install_path: String,
}

impl InstallTransaction {
    /// Opens a transaction: refuses immediately, mutating nothing, when this
    /// exact name and version is already installed; otherwise computes the
    /// transaction's private temp paths and its final install path, and
    /// enters the downloading stage.
    pub fn begin(config: &Config, st: &GlobalState, artifact: &PackageArtifact) -> (r: Result<
        InstallTransaction,
        CocoatlyError,
    >)
        requires
            st.wf(),
        ensures
            r is Ok <==> !st.spec_has_package(artifact.name@, artifact.version),
            r matches Err(e) ==> e is InstallationFailed,
            r matches Ok(t) ==> ({
                &&& t.operation.package@ == artifact.name@
                &&& t.operation.version.spec_eq(artifact.version)
                &&& t.operation.status is Downloading
                &&& t.operation.completed_at is None
                &&& t.operation.error is None
                &&& t.archive_path@ == spec_path_join(
                    config.storage.temp_dir@,
                    spec_archive_file_name(artifact.name@, artifact.version),
                )
                &&& t.extract_dir@ == spec_extract_dir(
                    config.storage.temp_dir@,
                    t.operation.operation_id,
                )
                &&& t.install_path@ == spec_install_dir(
                    config.storage.install_root@,
                    artifact.name@,
                    artifact.version,
                )
            }),
    {
        if st.has_package(&artifact.name, &artifact.version) {
            return Err(CocoatlyError::InstallationFailed("Package already installed".to_owned()));
        }
        let operation_id = new_uuid_v4();
        let started_at = now_unix();
        let file_name = archive_file_name(&artifact.name, &artifact.version);
        let archive_path = path_join(config.storage.temp_dir.as_str(), file_name.as_str());
        let id_bytes = u128_to_le_bytes(operation_id);
        let id_hex = crate::hexcode::hex_encode(id_bytes.as_slice());
        let mut extract_name = "extract-".to_owned();
        extract_name.append(id_hex.as_str());
        let extract_dir = path_join(config.storage.temp_dir.as_str(), extract_name.as_str());
        let per_name = path_join(config.storage.install_root.as_str(), artifact.name.as_str());
        let version_text = artifact.version.to_string();
        let install_path = path_join(per_name.as_str(), version_text.as_str());
        let operation = InstallOperation {
            operation_id,
            package: artifact.name.duplicate(),
            version: artifact.version.duplicate(),
            status: OperationStatus::Downloading,
            started_at,
            completed_at: None,
            error: None,
        };
        Ok(InstallTransaction { operation, archive_path, extract_dir, install_path })
    }

    /// Verifies the downloaded archive's bytes and unpacks them. The digest
    /// (and, when a key and signature are present, the signature) gate runs
    /// unless checksum verification is switched off. On any failure the
    /// transaction is marked failed; no state store was touched, so the
    /// system is exactly as before the attempt.
    pub fn process_archive(
        &mut self,
        data: &[u8],
        artifact: &PackageArtifact,
        verify_checksums: bool,
        public_key: Option<&[u8]>,
    ) -> (r: Result<Vec<FileEntry>, CocoatlyError>)
        requires
            old(self).operation.status is Downloading,
        ensures
            r is Ok <==> ((!verify_checksums || (artifact.checksum@ == spec_digest_hex(
                data@,
                artifact.checksum_algorithm,
            ) && spec_signature_ok(
                artifact.signature.deep_view(),
                (match public_key {
                    Option::Some(pk) => Some(pk@),
                    Option::None => None,
                }),
                spec_digest_hex(data@, artifact.checksum_algorithm),
            ))) && spec_unpack(data@) is Some),
            r matches Ok(es) ==> spec_unpack(data@) == Some(entry_views(es@)) && entries_safe(
                entry_views(es@),
            ),
            verify_checksums && artifact.checksum@ != spec_digest_hex(
                data@,
                artifact.checksum_algorithm,
            ) ==> (r matches Err(e) && e matches CocoatlyError::HashMismatch {
                expected: ex,
                actual: act,
            } && ex@ == artifact.checksum@ && act@ == spec_digest_hex(
                data@,
                artifact.checksum_algorithm,
            )),
            r is Ok ==> final(self).operation.status is Installing,
            r is Err ==> final(self).operation.status is Failed,
            r is Err ==> final(self).operation.error is Some,
            final(self).operation.operation_id == old(self).operation.operation_id,
            final(self).operation.package == old(self).operation.package,
            final(self).operation.version == old(self).operation.version,
            final(self).operation.started_at == old(self).operation.started_at,
            final(self).archive_path == old(self).archive_path,
            final(self).extract_dir == old(self).extract_dir,
            final(self).install_path == old(self).install_path,
    {
        self.operation.status = OperationStatus::Verifying;
        if verify_checksums {
            match verify_artifact(data, artifact, public_key) {
                Ok(()) => {},
                Err(e) => {
                    self.operation.status = OperationStatus::Failed;
                    self.operation.error = Some("artifact verification failed".to_owned());
                    return Err(e);
                },
            }
        }
        self.operation.status = OperationStatus::Extracting;
        match TarGzCompressor::unpack(data) {
            Ok(entries) => {
                self.operation.status = OperationStatus::Installing;
                Ok(entries)
            },
            Err(e) => {
                self.operation.status = OperationStatus::Failed;
                self.operation.error = Some("archive extraction failed".to_owned());
                Err(e)
            },
        }
    }

    /// The commit point: builds the installed-package record — its file
    /// list taken from the final install path — inserts it into the state
    /// store and completes the transaction. Only after this call is the
    /// package considered installed.
    pub fn commit(
        &mut self,
        st: &mut GlobalState,
        artifact: &PackageArtifact,
        requested_by: Vec<PackageName>,
        files: Vec<String>,
    ) -> (r: InstalledPackage)
        requires
            old(self).operation.status is Installing,
            old(st).wf(),
        ensures
            final(st).wf(),
            final(st).spec_has_package(artifact.name@, artifact.version),
            final(st).spec_get(artifact.name@) matches Some(p) && record_matches(p, r),
            r.name@ == artifact.name@,
            r.version.spec_eq(artifact.version),
            r.checksum@ == artifact.checksum@,
            r.install_path@ == old(self).install_path@,
            r.files.deep_view() == files.deep_view(),
            r.requested_by@.map_values(|pn: PackageName| pn@) == requested_by@.map_values(
                |pn: PackageName| pn@,
            ),
            forall|n: Seq<char>|
                n != artifact.name@ ==> #[trigger] final(st).spec_get(n) == old(st).spec_get(n),
            final(st).installed_packages@.len() == old(st).installed_packages@.len() + (
            if old(st).spec_get(artifact.name@) is Some {
                0int
            } else {
                1int
            }),
            final(self).operation.status is Completed,
            final(self).operation.completed_at is Some,
            final(self).archive_path == old(self).archive_path,
            final(self).extract_dir == old(self).extract_dir,
            final(self).install_path == old(self).install_path,
    {
        let id = new_uuid_v4();
        let installed_at = now_unix();
        let record = InstalledPackage {
            id,
            name: artifact.name.duplicate(),
            version: artifact.version.duplicate(),
            install_path: self.install_path.clone(),
            installed_at,
            requested_by,
            files,
            checksum: artifact.checksum.clone(),
        };
        let ret = record.duplicate();
        st.add_package(record);
        self.operation.status = OperationStatus::Completed;
        self.operation.completed_at = Some(now_unix());
        ret
    }

    /// Marks the transaction failed, recording the reason.
    pub fn fail(&mut self, message: String)
        requires
            !(old(self).operation.status is Completed),
        ensures
            final(self).operation.status is Failed,
            final(self).operation.error == Some(message),
            final(self).operation.completed_at is Some,
            final(self).archive_path == old(self).archive_path,
            final(self).extract_dir == old(self).extract_dir,
            final(self).install_path == old(self).install_path,
            final(self).operation.operation_id == old(self).operation.operation_id,
            final(self).operation.package == old(self).operation.package,
            final(self).operation.version == old(self).operation.version,
    {
        self.operation.status = OperationStatus::Failed;
        self.operation.error = Some(message);
        self.operation.completed_at = Some(now_unix());
    }

    /// Marks the transaction cancelled.
    pub fn cancel(&mut self)
        requires
            !(old(self).operation.status is Completed),
            !(old(self).operation.status is Failed),
        ensures
            final(self).operation.status is Cancelled,
            final(self).operation.completed_at is Some,
            final(self).archive_path == old(self).archive_path,
            final(self).extract_dir == old(self).extract_dir,
            final(self).install_path == old(self).install_path,
    {
        self.operation.status = OperationStatus::Cancelled;
        self.operation.completed_at = Some(now_unix());
    }
}

/// What an installer needs for one transaction: the configuration, the
/// loaded state store, and the temp directory the archive lands in.
pub struct InstallContext {
    pub config: Config,
    pub state: GlobalState,
    pub temp_dir: String,
}

impl InstallContext {
    pub fn new(config: Config, state: GlobalState) -> (r: Self)
        ensures
            r.state == state,
            r.temp_dir@ == r.config.storage.temp_dir@,
            r.config == config,
    {
        let temp_dir = config.storage.temp_dir.clone();
        InstallContext { config, state, temp_dir }
    }
}

/// Drives install transactions against one context.
pub struct PackageInstaller {
    pub context: InstallContext,
}

impl PackageInstaller {
    pub fn new(context: InstallContext) -> (r: Self)
        ensures
            r.context == context,
    {
        PackageInstaller { context }
    }

    /// Opens a transaction for an artifact; see [`InstallTransaction::begin`].
    pub fn begin(&self, artifact: &PackageArtifact) -> (r: Result<
        InstallTransaction,
        CocoatlyError,
    >)
        requires
            self.context.state.wf(),
        ensures
            r is Ok <==> !self.context.state.spec_has_package(
                artifact.name@,
                artifact.version,
            ),
            r matches Err(e) ==> e is InstallationFailed,
    {
        InstallTransaction::begin(&self.context.config, &self.context.state, artifact)
    }

    /// Verifies and unpacks a downloaded archive under this context's
    /// security settings; see [`InstallTransaction::process_archive`]. The
    /// install pipeline supplies no public key, so signatures are not
    /// checked here; `verify_artifact` is the opt-in entry for that.
    pub fn process_archive(
        &self,
        txn: &mut InstallTransaction,
        data: &[u8],
        artifact: &PackageArtifact,
    ) -> (r: Result<Vec<FileEntry>, CocoatlyError>)
        requires
            old(txn).operation.status is Downloading,
        ensures
            r matches Ok(es) ==> spec_unpack(data@) == Some(entry_views(es@)) && entries_safe(
                entry_views(es@),
            ),
            self.context.config.security.verify_checksums && artifact.checksum@
                != spec_digest_hex(data@, artifact.checksum_algorithm) ==> (r matches Err(e)
                && e matches CocoatlyError::HashMismatch { expected: ex, actual: act } && ex@
                == artifact.checksum@ && act@ == spec_digest_hex(
                data@,
                artifact.checksum_algorithm,
            )),
            r is Ok ==> final(txn).operation.status is Installing,
            r is Err ==> final(txn).operation.status is Failed,
    {
        txn.process_archive(data, artifact, self.context.config.security.verify_checksums, None)
    }

    /// Commits a transaction into this context's state store; see
    /// [`InstallTransaction::commit`]. The caller persists the store after.
    pub fn commit(
        &mut self,
        txn: &mut InstallTransaction,
        artifact: &PackageArtifact,
        requested_by: Vec<PackageName>,
        files: Vec<String>,
    ) -> (r: InstalledPackage)
        requires
            old(txn).operation.status is Installing,
            old(self).context.state.wf(),
        ensures
            final(self).context.state.wf(),
            final(self).context.state.spec_has_package(artifact.name@, artifact.version),
            final(self).context.config == old(self).context.config,
            r.name@ == artifact.name@,
            r.version.spec_eq(artifact.version),
            r.files.deep_view() == files.deep_view(),
            forall|n: Seq<char>|
                n != artifact.name@ ==> #[trigger] final(self).context.state.spec_get(n) == old(
                    self,
                ).context.state.spec_get(n),
    {
        txn.commit(&mut self.context.state, artifact, requested_by, files)
    }
}

} // verus!
