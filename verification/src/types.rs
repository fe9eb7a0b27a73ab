use vstd::prelude::*;
use crate::strutil::{
    dec_chars, lex_lt, opt_str_eq, parse_u32_range, spec_parse_u32, str_eq, str_lex_lt,
    u32_to_dec_string,
};

verus! {

/// The name of a package, the key under which it is registered.
#[derive(Debug, Clone)]
pub struct PackageName(pub String);

impl View for PackageName {
    type V = Seq<char>;

    open spec fn view(&self) -> Seq<char> {
        self.0@
    }
}

impl PackageName {
    pub fn new(name: String) -> (r: Self)
        ensures
            r@ == name@,
    {
        PackageName(name)
    }

    pub fn as_str(&self) -> (r: &str)
        ensures
            r@ == self@,
    {
        self.0.as_str()
    }
}

impl PartialEq for PackageName {
    fn eq(&self, other: &PackageName) -> (r: bool) {
        str_eq(self.0.as_str(), other.0.as_str())
    }
}

impl vstd::std_specs::cmp::PartialEqSpecImpl for PackageName {
    open spec fn obeys_eq_spec() -> bool {
        true
    }

    open spec fn eq_spec(&self, other: &PackageName) -> bool {
        self@ == other@
    }
}

/// A semantic version. Ordering is lexicographic on the numeric triple,
/// then on the optional prerelease and build tags.
#[derive(Debug, Clone)]
pub struct Version {
    pub major: u32,
    pub minor: u32,
    pub patch: u32,
    pub prerelease: Option<String>,
    pub build: Option<String>,
}

/// Index of the first `'.'` in a character sequence, if any.
pub open spec fn first_dot(s: Seq<char>) -> Option<int>
    decreases s.len(),
{
    if s.len() == 0 {
        None
    } else if s[0] == '.' {
        Some(0int)
    } else {
        match first_dot(s.drop_first()) {
            Some(i) => Some(i + 1),
            None => None,
        }
    }
}

pub proof fn lemma_first_dot(s: Seq<char>)
    ensures
        match first_dot(s) {
            Some(i) => 0 <= i < s.len() && s[i] == '.' && (forall|j: int|
                0 <= j < i ==> s[j] != '.'),
            None => forall|j: int| 0 <= j < s.len() ==> s[j] != '.',
        },
    decreases s.len(),
{
    if s.len() > 0 && s[0] != '.' {
        let t = s.drop_first();
        lemma_first_dot(t);
        assert(forall|j: int| 1 <= j < s.len() ==> #[trigger] s[j] == t[j - 1]);
    }
}

/// What `Version::parse` accepts: at least three dot-separated segments,
/// of which the first three must be decimal numbers; anything after the
/// third segment is ignored.
pub open spec fn spec_version_parse(s: Seq<char>) -> Option<(u32, u32, u32)> {
    match first_dot(s) {
        None => None,
        Some(d0) => {
            let r1 = s.skip(d0 + 1);
            match first_dot(r1) {
                None => None,
                Some(e1) => {
                    let r2 = r1.skip(e1 + 1);
                    let part2 = match first_dot(r2) {
                        None => r2,
                        Some(e2) => r2.take(e2),
                    };
                    match (
                        spec_parse_u32(s.take(d0)),
                        spec_parse_u32(r1.take(e1)),
                        spec_parse_u32(part2),
                    ) {
                        (Some(a), Some(b), Some(c)) => Some((a, b, c)),
                        _ => None,
                    }
                },
            }
        },
    }
}

/// The rendered form of a version: the numeric triple, dot-separated.
pub open spec fn spec_version_chars(major: u32, minor: u32, patch: u32) -> Seq<char> {
    dec_chars(major as nat) + seq!['.'] + dec_chars(minor as nat) + seq!['.'] + dec_chars(
        patch as nat,
    )
}

/// Strict order on optional tags: an absent tag sorts before any present one.
pub open spec fn opt_chars_lt(a: Option<Seq<char>>, b: Option<Seq<char>>) -> bool {
    match (a, b) {
        (Option::None, Option::Some(_)) => true,
        (Option::Some(x), Option::Some(y)) => lex_lt(x, y),
        _ => false,
    }
}

/// Strict order on versions: numeric triple first, then prerelease, then
/// build, each compared only when all earlier parts are equal.
pub open spec fn spec_version_lt(a: Version, b: Version) -> bool {
    if a.major != b.major {
        a.major < b.major
    } else if a.minor != b.minor {
        a.minor < b.minor
    } else if a.patch != b.patch {
        a.patch < b.patch
    } else if a.prerelease.deep_view() != b.prerelease.deep_view() {
        opt_chars_lt(a.prerelease.deep_view(), b.prerelease.deep_view())
    } else {
        opt_chars_lt(a.build.deep_view(), b.build.deep_view())
    }
}

/// Finds the first `'.'` at or after `from`.
fn find_dot(s: &str, from: usize) -> (r: Option<usize>)
    requires
        from <= s@.len(),
    ensures
        match r {
            Some(i) => from <= i < s@.len() && s@[i as int] == '.' && (forall|j: int|
                from <= j < i ==> s@[j] != '.'),
            None => forall|j: int| from <= j < s@.len() ==> s@[j] != '.',
        },
{
    let n = s.unicode_len();
    let mut i: usize = from;
    while i < n
        invariant
            from <= i <= n == s@.len(),
            forall|j: int| from <= j < i ==> s@[j] != '.',
        decreases n - i,
    {
        if s.get_char(i) == '.' {
            return Some(i);
        }
        i += 1;
    }
    None
}

impl Version {
    pub open spec fn spec_eq(self, other: Version) -> bool {
        &&& self.major == other.major
        &&& self.minor == other.minor
        &&& self.patch == other.patch
        &&& self.prerelease.deep_view() == other.prerelease.deep_view()
        &&& self.build.deep_view() == other.build.deep_view()
    }

    pub fn new(major: u32, minor: u32, patch: u32) -> (r: Self)
        ensures
            r.major == major,
            r.minor == minor,
            r.patch == patch,
            r.prerelease is None,
            r.build is None,
    {
        Version { major, minor, patch, prerelease: None, build: None }
    }

    pub fn parse(s: &str) -> (r: Option<Self>)
        ensures
            match r {
                Some(v) => {
                    &&& spec_version_parse(s@) == Some((v.major, v.minor, v.patch))
                    &&& v.prerelease is None
                    &&& v.build is None
                },
                None => spec_version_parse(s@) is None,
            },
    {
        let n = s.unicode_len();
        proof {
            lemma_first_dot(s@);
        }
        let d0 = match find_dot(s, 0) {
            Some(i) => i,
            None => {
                return None;
            },
        };
        proof {
            match first_dot(s@) {
                Some(k) => {
                    assert(k == d0);
                },
                None => {
                    assert(false);
                },
            }
            lemma_first_dot(s@.skip(d0 + 1));
        }
        let ghost r1 = s@.skip(d0 + 1);
        let d1 = match find_dot(s, d0 + 1) {
            Some(i) => i,
            None => {
                proof {
                    match first_dot(r1) {
                        Some(e) => {
                            assert(r1[e] == s@[d0 + 1 + e]);
                            assert(false);
                        },
                        None => {},
                    }
                }
                return None;
            },
        };
        let ghost e1 = d1 - (d0 + 1);
        proof {
            assert(r1[e1] == s@[d1 as int]);
            match first_dot(r1) {
                Some(k) => {
                    assert(r1[k] == s@[d0 + 1 + k]);
                    assert(k == e1);
                },
                None => {
                    assert(false);
                },
            }
            lemma_first_dot(r1.skip(e1 + 1));
        }
        let ghost r2 = r1.skip(e1 + 1);
        let end2 = match find_dot(s, d1 + 1) {
            Some(i) => {
                proof {
                    let e2 = i - (d1 + 1);
                    assert(r2[e2] == s@[i as int]);
                    match first_dot(r2) {
                        Some(k) => {
                            assert(r2[k] == s@[d1 + 1 + k]);
                            assert(k == e2);
                            assert(r2.take(k) =~= s@.subrange(d1 + 1, i as int));
                        },
                        None => {
                            assert(false);
                        },
                    }
                }
                i
            },
            None => {
                proof {
                    match first_dot(r2) {
                        Some(e) => {
                            assert(r2[e] == s@[d1 + 1 + e]);
                            assert(false);
                        },
                        None => {},
                    }
                    assert(r2 =~= s@.subrange(d1 + 1, n as int));
                }
                n
            },
        };
        proof {
            assert(s@.take(d0 as int) =~= s@.subrange(0, d0 as int));
            assert(r1.take(e1) =~= s@.subrange(d0 + 1, d1 as int));
        }
        let a = match parse_u32_range(s, 0, d0) {
            Some(x) => x,
            None => {
                return None;
            },
        };
        let b = match parse_u32_range(s, d0 + 1, d1) {
            Some(x) => x,
            None => {
                return None;
            },
        };
        let c = match parse_u32_range(s, d1 + 1, end2) {
            Some(x) => x,
            None => {
                return None;
            },
        };
        Some(Version::new(a, b, c))
    }

    pub fn to_string(&self) -> (r: String)
        ensures
            r@ == spec_version_chars(self.major, self.minor, self.patch),
    {
        proof {
            reveal_strlit(".");
        }
        let mut s = u32_to_dec_string(self.major);
        s.append(".");
        let minor_s = u32_to_dec_string(self.minor);
        s.append(minor_s.as_str());
        s.append(".");
        let patch_s = u32_to_dec_string(self.patch);
        s.append(patch_s.as_str());
        proof {
            assert("."@ =~= seq!['.']);
            assert(s@ =~= spec_version_chars(self.major, self.minor, self.patch));
        }
        s
    }
}

impl PartialEq for Version {
    fn eq(&self, other: &Version) -> (r: bool) {
        self.major == other.major && self.minor == other.minor && self.patch == other.patch
            && opt_str_eq(&self.prerelease, &other.prerelease) && opt_str_eq(
            &self.build,
            &other.build,
        )
    }
}

impl vstd::std_specs::cmp::PartialEqSpecImpl for Version {
    open spec fn obeys_eq_spec() -> bool {
        true
    }

    open spec fn eq_spec(&self, other: &Version) -> bool {
        self.spec_eq(*other)
    }
}

/// Decides the strict version order `spec_version_lt`.
pub fn version_lt(a: &Version, b: &Version) -> (r: bool)
    ensures
        r == spec_version_lt(*a, *b),
{
    if a.major != b.major {
        a.major < b.major
    } else if a.minor != b.minor {
        a.minor < b.minor
    } else if a.patch != b.patch {
        a.patch < b.patch
    } else if !opt_str_eq(&a.prerelease, &b.prerelease) {
        match (&a.prerelease, &b.prerelease) {
            (Option::None, Option::Some(_)) => true,
            (Option::Some(x), Option::Some(y)) => str_lex_lt(x.as_str(), y.as_str()),
            _ => false,
        }
    } else {
        match (&a.build, &b.build) {
            (Option::None, Option::Some(_)) => true,
            (Option::Some(x), Option::Some(y)) => str_lex_lt(x.as_str(), y.as_str()),
            _ => false,
        }
    }
}

/// The digest algorithm named by an artifact descriptor.
#[derive(Debug, Clone, PartialEq, Eq, Structural)]
pub enum HashAlgorithm {
    Blake3,
    Sha256,
    Sha512,
}

impl HashAlgorithm {
    pub fn as_str(&self) -> (r: &str)
        ensures
            *self is Blake3 ==> r@ == "blake3"@,
            *self is Sha256 ==> r@ == "sha256"@,
            *self is Sha512 ==> r@ == "sha512"@,
    {
        match self {
            HashAlgorithm::Blake3 => "blake3",
            HashAlgorithm::Sha256 => "sha256",
            HashAlgorithm::Sha512 => "sha512",
        }
    }
}

/// Descriptive metadata of a package, as a registry or manifest reports it.
/// Identifiers are held as 128-bit values and timestamps as seconds since
/// the Unix epoch.
#[derive(Debug, Clone)]
pub struct PackageMetadata {
    pub id: u128,
    pub name: PackageName,
    pub version: Version,
    pub description: Option<String>,
    pub authors: Vec<String>,
    pub license: Option<String>,
    pub homepage: Option<String>,
    pub repository: Option<String>,
    pub keywords: Vec<String>,
    pub categories: Vec<String>,
    pub created_at: i64,
    pub updated_at: i64,
}

/// One declared dependency of a manifest.
#[derive(Debug, Clone)]
pub struct Dependency {
    pub name: PackageName,
    pub version_requirement: VersionRequirement,
    pub optional: bool,
    pub features: Vec<String>,
}

/// The forms a version requirement can take in a manifest.
#[derive(Debug, Clone)]
pub enum VersionRequirement {
    Exact(Version),
    Range { min: Version, max: Version },
    GreaterThan(Version),
    GreaterThanOrEqual(Version),
    LessThan(Version),
    LessThanOrEqual(Version),
    Compatible(Version),
    Any,
}

/// A full package manifest. Scripts and features are held as association
/// lists keyed by name.
#[derive(Debug, Clone)]
pub struct PackageManifest {
    pub package: PackageMetadata,
    pub dependencies: Vec<Dependency>,
    pub dev_dependencies: Vec<Dependency>,
    pub build_dependencies: Vec<Dependency>,
    pub scripts: Vec<(String, String)>,
    pub features: Vec<(String, Vec<String>)>,
}

/// The record the state store keeps for one installed package.
#[derive(Debug, Clone)]
pub struct InstalledPackage {
    pub id: u128,
    pub name: PackageName,
    pub version: Version,
    pub install_path: String,
    pub installed_at: i64,
    pub requested_by: Vec<PackageName>,
    pub files: Vec<String>,
    pub checksum: String,
}

/// A resolved artifact descriptor: where to fetch one package version and
/// how to authenticate its bytes.
#[derive(Debug, Clone)]
pub struct PackageArtifact {
    pub package_id: u128,
    pub name: PackageName,
    pub version: Version,
    pub download_url: String,
    pub checksum: String,
    pub checksum_algorithm: HashAlgorithm,
    pub signature: Option<String>,
    pub size: u64,
}

/// The observability record of one install transaction.
#[derive(Debug, Clone)]
pub struct InstallOperation {
    pub operation_id: u128,
    pub package: PackageName,
    pub version: Version,
    pub status: OperationStatus,
    pub started_at: i64,
    pub completed_at: Option<i64>,
    pub error: Option<String>,
}

/// The observability record of one uninstall transaction.
#[derive(Debug, Clone)]
pub struct UninstallOperation {
    pub operation_id: u128,
    pub package: PackageName,
    pub version: Version,
    pub status: OperationStatus,
    pub started_at: i64,
    pub completed_at: Option<i64>,
}

/// An optional string with the same text.
pub fn dup_opt_string(o: &Option<String>) -> (r: Option<String>)
    ensures
        r.deep_view() == o.deep_view(),
{
    match o {
        Option::Some(s) => {
            let c = s.clone();
            proof {
                assert(Some(c).deep_view() =~= o.deep_view());
            }
            Some(c)
        },
        Option::None => None,
    }
}

impl PackageName {
    /// A name with the same text.
    pub fn duplicate(&self) -> (r: PackageName)
        ensures
            r@ == self@,
    {
        PackageName(self.0.clone())
    }
}

impl Version {
    /// A version equal to this one.
    pub fn duplicate(&self) -> (r: Version)
        ensures
            r.spec_eq(*self),
    {
        Version {
            major: self.major,
            minor: self.minor,
            patch: self.patch,
            prerelease: dup_opt_string(&self.prerelease),
            build: dup_opt_string(&self.build),
        }
    }
}

/// Two records carry the same data.
pub open spec fn record_matches(a: InstalledPackage, b: InstalledPackage) -> bool {
    &&& a.id == b.id
    &&& a.name@ == b.name@
    &&& a.version.spec_eq(b.version)
    &&& a.install_path@ == b.install_path@
    &&& a.installed_at == b.installed_at
    &&& a.requested_by@.map_values(|pn: PackageName| pn@) == b.requested_by@.map_values(
        |pn: PackageName| pn@,
    )
    &&& a.files.deep_view() == b.files.deep_view()
    &&& a.checksum@ == b.checksum@
}

/// A list of strings with the same texts.
pub fn dup_strings(v: &Vec<String>) -> (r: Vec<String>)
    ensures
        r.deep_view() == v.deep_view(),
{
    let mut out: Vec<String> = Vec::new();
    let n = v.len();
    let mut i: usize = 0;
    while i < n
        invariant
            i <= n == v@.len(),
            out.deep_view() =~= v.deep_view().take(i as int),
        decreases n - i,
    {
        let ghost pre = out.deep_view();
        out.push(v[i].clone());
        proof {
            assert(out.deep_view() =~= pre.push(v@[i as int]@));
            assert(v.deep_view().take(i + 1) =~= v.deep_view().take(i as int).push(
                v.deep_view()[i as int],
            ));
        }
        i += 1;
    }
    proof {
        assert(v.deep_view().take(n as int) =~= v.deep_view());
    }
    out
}

/// A list of names with the same texts.
pub fn dup_names(v: &Vec<PackageName>) -> (r: Vec<PackageName>)
    ensures
        r@.map_values(|pn: PackageName| pn@) == v@.map_values(|pn: PackageName| pn@),
{
    let mut out: Vec<PackageName> = Vec::new();
    let n = v.len();
    let mut i: usize = 0;
    while i < n
        invariant
            i <= n == v@.len(),
            out@.map_values(|pn: PackageName| pn@) =~= v@.map_values(
                |pn: PackageName| pn@,
            ).take(i as int),
        decreases n - i,
    {
        let ghost pre = out@.map_values(|pn: PackageName| pn@);
        out.push(v[i].duplicate());
        proof {
            assert(out@.map_values(|pn: PackageName| pn@) =~= pre.push(v@[i as int]@));
            assert(v@.map_values(|pn: PackageName| pn@).take(i + 1) =~= v@.map_values(
                |pn: PackageName| pn@,
            ).take(i as int).push(v@[i as int]@));
        }
        i += 1;
    }
    proof {
        assert(v@.map_values(|pn: PackageName| pn@).take(n as int) =~= v@.map_values(
            |pn: PackageName| pn@,
        ));
    }
    out
}

impl InstalledPackage {
    /// A record carrying the same data.
    pub fn duplicate(&self) -> (r: InstalledPackage)
        ensures
            record_matches(*self, r),
    {
        InstalledPackage {
            id: self.id,
            name: self.name.duplicate(),
            version: self.version.duplicate(),
            install_path: self.install_path.clone(),
            installed_at: self.installed_at,
            requested_by: dup_names(&self.requested_by),
            files: dup_strings(&self.files),
            checksum: self.checksum.clone(),
        }
    }
}

/// The lifecycle status of an install or uninstall transaction.
#[derive(Debug, Clone, PartialEq, Eq, Structural)]
pub enum OperationStatus {
    Pending,
    Downloading,
    Verifying,
    Extracting,
    Installing,
    Completed,
    Failed,
    Cancelled,
}

} // verus!
