//! The on-disk form of the state store: a single binary document holding
//! the schema version, the last-modified timestamp, every installed-package
//! record, the pending-operation markers and the aggregate metadata.
//!
//! `save_state_bytes` renders a store; `load_state_bytes` parses one and
//! accepts exactly the documents some well-formed store renders to. Parsing
//! a rendered store gives the store back ([`lemma_state_roundtrip`]), and
//! the format is canonical ([`lemma_state_canonical`]), so loading and then
//! saving reproduces the document byte for byte.
use vstd::prelude::*;
use crate::state::{names_unique, GlobalState, StateMetadata};
use crate::strutil::str_eq;
use crate::types::{InstalledPackage, PackageName, Version};
use crate::wire::{
    dec_i64, dec_opt_i64, dec_opt_string, dec_string, dec_strings, dec_u128, dec_u32, dec_u64,
    enc_i64, enc_opt_i64, enc_opt_string, enc_string, enc_strings, enc_u128, enc_u32, enc_u64,
    lemma_rt_i64, lemma_rt_opt_i64, lemma_rt_opt_string, lemma_rt_string, lemma_rt_strings,
    lemma_concat_assoc, lemma_rt_u128, lemma_rt_u32, lemma_rt_u64, lemma_ser_strings_items_snoc,
    lemma_canon_i64, lemma_canon_opt_i64, lemma_canon_opt_string, lemma_canon_string,
    lemma_canon_strings, lemma_canon_u128, lemma_canon_u32, lemma_canon_u64,
    lemma_skip_concat, lemma_skip_two, lemma_take_split, len_limit,
    ser_i64, ser_opt_i64, ser_opt_string, ser_string, ser_strings, ser_u128, ser_u32, ser_u64,
    sp_i64, sp_opt_i64, sp_opt_string, sp_string, sp_strings, sp_u128, sp_u32, sp_u64, str_ok,
    strings_ok,
};

verus! {

/// The mathematical shadow of a [`Version`].
pub struct VersionView {
    pub major: u32,
    pub minor: u32,
    pub patch: u32,
    pub prerelease: Option<Seq<char>>,
    pub build: Option<Seq<char>>,
}

/// The mathematical shadow of an [`InstalledPackage`].
pub struct PackageView {
    pub id: u128,
    pub name: Seq<char>,
    pub version: VersionView,
    pub install_path: Seq<char>,
    pub installed_at: i64,
    pub requested_by: Seq<Seq<char>>,
    pub files: Seq<Seq<char>>,
    pub checksum: Seq<char>,
}

/// The mathematical shadow of a [`StateMetadata`].
pub struct MetadataView {
    pub total_packages: u64,
    pub total_size_bytes: u64,
    pub last_cleanup: Option<i64>,
    pub corrupted_packages: Seq<Seq<char>>,
}

/// The mathematical shadow of a [`GlobalState`].
pub struct StateView {
    pub version: Seq<char>,
    pub last_updated: i64,
    pub packages: Seq<PackageView>,
    pub pending_operations: Seq<Seq<char>>,
    pub metadata: MetadataView,
}

pub open spec fn names_view(v: Seq<PackageName>) -> Seq<Seq<char>> {
    v.map_values(|pn: PackageName| pn@)
}

pub open spec fn version_view(v: Version) -> VersionView {
    VersionView {
        major: v.major,
        minor: v.minor,
        patch: v.patch,
        prerelease: v.prerelease.deep_view(),
        build: v.build.deep_view(),
    }
}

pub open spec fn package_view(p: InstalledPackage) -> PackageView {
    PackageView {
        id: p.id,
        name: p.name@,
        version: version_view(p.version),
        install_path: p.install_path@,
        installed_at: p.installed_at,
        requested_by: names_view(p.requested_by@),
        files: p.files.deep_view(),
        checksum: p.checksum@,
    }
}

pub open spec fn metadata_view(m: StateMetadata) -> MetadataView {
    MetadataView {
        total_packages: m.total_packages as u64,
        total_size_bytes: m.total_size_bytes,
        last_cleanup: m.last_cleanup,
        corrupted_packages: m.corrupted_packages.deep_view(),
    }
}

pub open spec fn state_view(s: GlobalState) -> StateView {
    StateView {
        version: s.version@,
        last_updated: s.last_updated,
        packages: s.installed_packages@.map_values(|p: InstalledPackage| package_view(p)),
        pending_operations: s.pending_operations.deep_view(),
        metadata: metadata_view(s.metadata),
    }
}

/// Bounds every length prefix must respect.
pub open spec fn version_view_ok(v: VersionView) -> bool {
    &&& (v.prerelease matches Some(s) ==> str_ok(s))
    &&& (v.build matches Some(s) ==> str_ok(s))
}

pub open spec fn package_view_ok(p: PackageView) -> bool {
    &&& str_ok(p.name)
    &&& version_view_ok(p.version)
    &&& str_ok(p.install_path)
    &&& strings_ok(p.requested_by)
    &&& strings_ok(p.files)
    &&& str_ok(p.checksum)
}

pub open spec fn state_view_ok(s: StateView) -> bool {
    &&& str_ok(s.version)
    &&& s.packages.len() < len_limit()
    &&& (forall|i: int| 0 <= i < s.packages.len() ==> package_view_ok(#[trigger] s.packages[i]))
    &&& strings_ok(s.pending_operations)
    &&& strings_ok(s.metadata.corrupted_packages)
}

/// Well-formedness of a document: unique names, and the cached count equal
/// to the number of records.
pub open spec fn view_names_unique(ps: Seq<PackageView>) -> bool {
    forall|i: int, j: int| 0 <= i < j < ps.len() ==> ps[i].name != ps[j].name
}

pub open spec fn state_view_wf(s: StateView) -> bool {
    &&& view_names_unique(s.packages)
    &&& s.metadata.total_packages == s.packages.len()
}

// ---------------------------------------------------------------------------
// serializers
// ---------------------------------------------------------------------------
pub open spec fn ser_version_v(v: VersionView) -> Seq<u8> {
    ser_u32(v.major) + ser_u32(v.minor) + ser_u32(v.patch) + ser_opt_string(v.prerelease)
        + ser_opt_string(v.build)
}

pub open spec fn ser_package_v(p: PackageView) -> Seq<u8> {
    ser_u128(p.id) + ser_string(p.name) + ser_version_v(p.version) + ser_string(p.install_path)
        + ser_i64(p.installed_at) + ser_strings(p.requested_by) + ser_strings(p.files)
        + ser_string(p.checksum)
}

pub open spec fn ser_packages_items(ps: Seq<PackageView>) -> Seq<u8>
    decreases ps.len(),
{
    if ps.len() == 0 {
        Seq::empty()
    } else {
        ser_package_v(ps[0]) + ser_packages_items(ps.drop_first())
    }
}

pub open spec fn ser_metadata_v(m: MetadataView) -> Seq<u8> {
    ser_u64(m.total_packages) + ser_u64(m.total_size_bytes) + ser_opt_i64(m.last_cleanup)
        + ser_strings(m.corrupted_packages)
}

pub open spec fn ser_state_v(s: StateView) -> Seq<u8> {
    ser_string(s.version) + ser_i64(s.last_updated) + ser_u64(s.packages.len() as u64)
        + ser_packages_items(s.packages) + ser_strings(s.pending_operations) + ser_metadata_v(
        s.metadata,
    )
}

// ---------------------------------------------------------------------------
// parsers
// ---------------------------------------------------------------------------
pub open spec fn sp_version(b: Seq<u8>) -> Option<(VersionView, int)> {
    match sp_u32(b) {
        Option::None => None,
        Option::Some((major, c1)) => match sp_u32(b.skip(c1)) {
            Option::None => None,
            Option::Some((minor, c2)) => match sp_u32(b.skip(c1 + c2)) {
                Option::None => None,
                Option::Some((patch, c3)) => match sp_opt_string(b.skip(c1 + c2 + c3)) {
                    Option::None => None,
                    Option::Some((prerelease, c4)) => match sp_opt_string(
                        b.skip(c1 + c2 + c3 + c4),
                    ) {
                        Option::None => None,
                        Option::Some((build, c5)) => Some(
                            (
                                VersionView { major, minor, patch, prerelease, build },
                                c1 + c2 + c3 + c4 + c5,
                            ),
                        ),
                    },
                },
            },
        },
    }
}

pub open spec fn sp_package(b: Seq<u8>) -> Option<(PackageView, int)> {
    match sp_u128(b) {
        Option::None => None,
        Option::Some((id, c1)) => match sp_string(b.skip(c1)) {
            Option::None => None,
            Option::Some((name, c2)) => match sp_version(b.skip(c1 + c2)) {
                Option::None => None,
                Option::Some((version, c3)) => match sp_string(b.skip(c1 + c2 + c3)) {
                    Option::None => None,
                    Option::Some((install_path, c4)) => match sp_i64(b.skip(c1 + c2 + c3 + c4)) {
                        Option::None => None,
                        Option::Some((installed_at, c5)) => match sp_strings(
                            b.skip(c1 + c2 + c3 + c4 + c5),
                        ) {
                            Option::None => None,
                            Option::Some((requested_by, c6)) => match sp_strings(
                                b.skip(c1 + c2 + c3 + c4 + c5 + c6),
                            ) {
                                Option::None => None,
                                Option::Some((files, c7)) => match sp_string(
                                    b.skip(c1 + c2 + c3 + c4 + c5 + c6 + c7),
                                ) {
                                    Option::None => None,
                                    Option::Some((checksum, c8)) => Some(
                                        (
                                            PackageView {
                                                id,
                                                name,
                                                version,
                                                install_path,
                                                installed_at,
                                                requested_by,
                                                files,
                                                checksum,
                                            },
                                            c1 + c2 + c3 + c4 + c5 + c6 + c7 + c8,
                                        ),
                                    ),
                                },
                            },
                        },
                    },
                },
            },
        },
    }
}

pub open spec fn sp_packages_items(b: Seq<u8>, count: nat) -> Option<(Seq<PackageView>, int)>
    decreases count,
{
    if count == 0 {
        Some((Seq::empty(), 0int))
    } else {
        match sp_package(b) {
            Option::None => None,
            Option::Some((p, c)) => match sp_packages_items(b.skip(c), (count - 1) as nat) {
                Option::None => None,
                Option::Some((ps, c2)) => Some((seq![p] + ps, c + c2)),
            },
        }
    }
}

pub open spec fn sp_metadata(b: Seq<u8>) -> Option<(MetadataView, int)> {
    match sp_u64(b) {
        Option::None => None,
        Option::Some((total_packages, c1)) => match sp_u64(b.skip(c1)) {
            Option::None => None,
            Option::Some((total_size_bytes, c2)) => match sp_opt_i64(b.skip(c1 + c2)) {
                Option::None => None,
                Option::Some((last_cleanup, c3)) => match sp_strings(b.skip(c1 + c2 + c3)) {
                    Option::None => None,
                    Option::Some((corrupted_packages, c4)) => Some(
                        (
                            MetadataView {
                                total_packages,
                                total_size_bytes,
                                last_cleanup,
                                corrupted_packages,
                            },
                            c1 + c2 + c3 + c4,
                        ),
                    ),
                },
            },
        },
    }
}

pub open spec fn sp_state(b: Seq<u8>) -> Option<(StateView, int)> {
    match sp_string(b) {
        Option::None => None,
        Option::Some((version, c1)) => match sp_i64(b.skip(c1)) {
            Option::None => None,
            Option::Some((last_updated, c2)) => match sp_u64(b.skip(c1 + c2)) {
                Option::None => None,
                Option::Some((count, c3)) => match sp_packages_items(
                    b.skip(c1 + c2 + c3),
                    count as nat,
                ) {
                    Option::None => None,
                    Option::Some((packages, c4)) => match sp_strings(b.skip(c1 + c2 + c3 + c4)) {
                        Option::None => None,
                        Option::Some((pending_operations, c5)) => match sp_metadata(
                            b.skip(c1 + c2 + c3 + c4 + c5),
                        ) {
                            Option::None => None,
                            Option::Some((metadata, c6)) => Some(
                                (
                                    StateView {
                                        version,
                                        last_updated,
                                        packages,
                                        pending_operations,
                                        metadata,
                                    },
                                    c1 + c2 + c3 + c4 + c5 + c6,
                                ),
                            ),
                        },
                    },
                },
            },
        },
    }
}

/// A whole document: one state, nothing after it, well-formed.
pub open spec fn sp_state_doc(b: Seq<u8>) -> Option<StateView> {
    match sp_state(b) {
        Option::None => None,
        Option::Some((sv, c)) => if c == b.len() && state_view_wf(sv) {
            Some(sv)
        } else {
            None
        },
    }
}

// ---------------------------------------------------------------------------
// round trips
// ---------------------------------------------------------------------------
pub proof fn lemma_rt_version(v: VersionView, rest: Seq<u8>)
    requires
        version_view_ok(v),
    ensures
        sp_version(ser_version_v(v) + rest) == Some((v, ser_version_v(v).len() as int)),
{
    let whole = ser_version_v(v) + rest;
    let r1 = ser_u32(v.minor) + (ser_u32(v.patch) + (ser_opt_string(v.prerelease) + (
    ser_opt_string(v.build) + rest)));
    assert(whole =~= ser_u32(v.major) + r1);
    lemma_rt_u32(v.major, r1);
    assert(whole.skip(4) =~= r1);
    let r2 = ser_u32(v.patch) + (ser_opt_string(v.prerelease) + (ser_opt_string(v.build) + rest));
    lemma_rt_u32(v.minor, r2);
    assert(whole.skip(4).skip(4) =~= r2);
    assert(whole.skip(8) =~= r2);
    let r3 = ser_opt_string(v.prerelease) + (ser_opt_string(v.build) + rest);
    lemma_rt_u32(v.patch, r3);
    assert(whole.skip(12) =~= r3);
    let r4 = ser_opt_string(v.build) + rest;
    lemma_rt_opt_string(v.prerelease, r4);
    let c4 = ser_opt_string(v.prerelease).len() as int;
    assert(whole.skip(12 + c4) =~= r4);
    lemma_rt_opt_string(v.build, rest);
}

#[verifier::rlimit(100)]
pub proof fn lemma_rt_package(p: PackageView, rest: Seq<u8>)
    requires
        package_view_ok(p),
    ensures
        sp_package(ser_package_v(p) + rest) == Some((p, ser_package_v(p).len() as int)),
{
    let s1 = ser_u128(p.id);
    let s2 = ser_string(p.name);
    let s3 = ser_version_v(p.version);
    let s4 = ser_string(p.install_path);
    let s5 = ser_i64(p.installed_at);
    let s6 = ser_strings(p.requested_by);
    let s7 = ser_strings(p.files);
    let s8 = ser_string(p.checksum);
    let whole = ser_package_v(p) + rest;
    let t7 = s8 + rest;
    let t6 = s7 + t7;
    let t5 = s6 + t6;
    let t4 = s5 + t5;
    let t3 = s4 + t4;
    let t2 = s3 + t3;
    let t1 = s2 + t2;
    lemma_concat_assoc((((((s1 + s2) + s3) + s4) + s5) + s6) + s7, s8, rest);
    lemma_concat_assoc(((((s1 + s2) + s3) + s4) + s5) + s6, s7, t7);
    lemma_concat_assoc((((s1 + s2) + s3) + s4) + s5, s6, t6);
    lemma_concat_assoc(((s1 + s2) + s3) + s4, s5, t5);
    lemma_concat_assoc((s1 + s2) + s3, s4, t4);
    lemma_concat_assoc(s1 + s2, s3, t3);
    lemma_concat_assoc(s1, s2, t2);
    assert(whole == s1 + t1);
    lemma_rt_u128(p.id, t1);
    lemma_skip_concat(s1, t1);
    assert(whole.skip(16) == t1);
    lemma_rt_string(p.name, t2);
    lemma_skip_concat(s2, t2);
    let c2 = s2.len() as int;
    lemma_skip_two(whole, 16, c2);
    assert(whole.skip(16 + c2) == t2);
    lemma_rt_version(p.version, t3);
    lemma_skip_concat(s3, t3);
    let c3 = s3.len() as int;
    lemma_skip_two(whole, 16 + c2, c3);
    assert(whole.skip(16 + c2 + c3) == t3);
    lemma_rt_string(p.install_path, t4);
    lemma_skip_concat(s4, t4);
    let c4 = s4.len() as int;
    lemma_skip_two(whole, 16 + c2 + c3, c4);
    assert(whole.skip(16 + c2 + c3 + c4) == t4);
    lemma_rt_i64(p.installed_at, t5);
    lemma_skip_concat(s5, t5);
    lemma_skip_two(whole, 16 + c2 + c3 + c4, 8);
    assert(whole.skip(16 + c2 + c3 + c4 + 8) == t5);
    lemma_rt_strings(p.requested_by, t6);
    lemma_skip_concat(s6, t6);
    let c6 = s6.len() as int;
    lemma_skip_two(whole, 16 + c2 + c3 + c4 + 8, c6);
    assert(whole.skip(16 + c2 + c3 + c4 + 8 + c6) == t6);
    lemma_rt_strings(p.files, t7);
    lemma_skip_concat(s7, t7);
    let c7 = s7.len() as int;
    lemma_skip_two(whole, 16 + c2 + c3 + c4 + 8 + c6, c7);
    assert(whole.skip(16 + c2 + c3 + c4 + 8 + c6 + c7) == t7);
    lemma_rt_string(p.checksum, rest);
    lemma_skip_concat(s8, rest);
}

pub proof fn lemma_ser_packages_items_snoc(ps: Seq<PackageView>, p: PackageView)
    ensures
        ser_packages_items(ps.push(p)) == ser_packages_items(ps) + ser_package_v(p),
    decreases ps.len(),
{
    reveal_with_fuel(ser_packages_items, 3);
    if ps.len() == 0 {
        assert(ps.push(p)[0] == p);
        assert(ps.push(p).drop_first() =~= Seq::<PackageView>::empty());
        assert(ser_packages_items(ps.push(p)) =~= ser_packages_items(ps) + ser_package_v(p));
    } else {
        assert(ps.push(p)[0] == ps[0]);
        assert(ps.push(p).drop_first() =~= ps.drop_first().push(p));
        lemma_ser_packages_items_snoc(ps.drop_first(), p);
        assert(ser_packages_items(ps.push(p)) == ser_package_v(ps[0]) + ser_packages_items(
            ps.drop_first().push(p),
        ));
        assert(ser_packages_items(ps.push(p)) =~= ser_packages_items(ps) + ser_package_v(p));
    }
}

pub proof fn lemma_rt_packages_items(ps: Seq<PackageView>, rest: Seq<u8>)
    requires
        forall|i: int| 0 <= i < ps.len() ==> package_view_ok(#[trigger] ps[i]),
    ensures
        sp_packages_items(ser_packages_items(ps) + rest, ps.len() as nat) == Some(
            (ps, ser_packages_items(ps).len() as int),
        ),
    decreases ps.len(),
{
    if ps.len() == 0 {
        assert(ps =~= Seq::<PackageView>::empty());
    } else {
        let p0 = ps[0];
        let tail = ps.drop_first();
        let whole = ser_packages_items(ps) + rest;
        let t = ser_packages_items(tail) + rest;
        lemma_concat_assoc(ser_package_v(p0), ser_packages_items(tail), rest);
        assert(whole == ser_package_v(p0) + t);
        lemma_rt_package(p0, t);
        let c = ser_package_v(p0).len() as int;
        lemma_skip_concat(ser_package_v(p0), t);
        assert(whole.skip(c) == t);
        lemma_rt_packages_items(tail, rest);
        assert(seq![p0] + tail =~= ps);
    }
}

pub proof fn lemma_rt_metadata(m: MetadataView, rest: Seq<u8>)
    requires
        strings_ok(m.corrupted_packages),
    ensures
        sp_metadata(ser_metadata_v(m) + rest) == Some((m, ser_metadata_v(m).len() as int)),
{
    let whole = ser_metadata_v(m) + rest;
    let s3 = ser_opt_i64(m.last_cleanup);
    let s4 = ser_strings(m.corrupted_packages);
    let r1 = ser_u64(m.total_size_bytes) + (s3 + (s4 + rest));
    assert(whole =~= ser_u64(m.total_packages) + r1);
    lemma_rt_u64(m.total_packages, r1);
    assert(whole.skip(8) =~= r1);
    let r2 = s3 + (s4 + rest);
    lemma_rt_u64(m.total_size_bytes, r2);
    assert(whole.skip(16) =~= r2);
    let r3 = s4 + rest;
    lemma_rt_opt_i64(m.last_cleanup, r3);
    let c3 = s3.len() as int;
    assert(whole.skip(16 + c3) =~= r3);
    lemma_rt_strings(m.corrupted_packages, rest);
}

#[verifier::rlimit(100)]
pub proof fn lemma_rt_state(s: StateView, rest: Seq<u8>)
    requires
        state_view_ok(s),
    ensures
        sp_state(ser_state_v(s) + rest) == Some((s, ser_state_v(s).len() as int)),
{
    let s1 = ser_string(s.version);
    let s2 = ser_i64(s.last_updated);
    let s3 = ser_u64(s.packages.len() as u64);
    let s4 = ser_packages_items(s.packages);
    let s5 = ser_strings(s.pending_operations);
    let s6 = ser_metadata_v(s.metadata);
    let whole = ser_state_v(s) + rest;
    let t5 = s6 + rest;
    let t4 = s5 + t5;
    let t3 = s4 + t4;
    let t2 = s3 + t3;
    let t1 = s2 + t2;
    lemma_concat_assoc((((s1 + s2) + s3) + s4) + s5, s6, rest);
    lemma_concat_assoc(((s1 + s2) + s3) + s4, s5, t5);
    lemma_concat_assoc((s1 + s2) + s3, s4, t4);
    lemma_concat_assoc(s1 + s2, s3, t3);
    lemma_concat_assoc(s1, s2, t2);
    assert(whole == s1 + t1);
    lemma_rt_string(s.version, t1);
    lemma_skip_concat(s1, t1);
    let c1 = s1.len() as int;
    assert(whole.skip(c1) == t1);
    lemma_rt_i64(s.last_updated, t2);
    lemma_skip_concat(s2, t2);
    lemma_skip_two(whole, c1, 8);
    assert(whole.skip(c1 + 8) == t2);
    lemma_rt_u64(s.packages.len() as u64, t3);
    lemma_skip_concat(s3, t3);
    lemma_skip_two(whole, c1 + 8, 8);
    assert(whole.skip(c1 + 16) == t3);
    lemma_rt_packages_items(s.packages, t4);
    lemma_skip_concat(s4, t4);
    let c4 = s4.len() as int;
    lemma_skip_two(whole, c1 + 16, c4);
    assert(whole.skip(c1 + 16 + c4) == t4);
    lemma_rt_strings(s.pending_operations, t5);
    lemma_skip_concat(s5, t5);
    let c5 = s5.len() as int;
    lemma_skip_two(whole, c1 + 16 + c4, c5);
    assert(whole.skip(c1 + 16 + c4 + c5) == t5);
    lemma_rt_metadata(s.metadata, rest);
    lemma_skip_concat(s6, rest);
}

/// Parsing a rendered well-formed document gives the document back:
/// loading after saving reproduces the same store, so saving right after
/// loading changes nothing in meaning.
pub proof fn lemma_state_roundtrip(s: StateView)
    requires
        state_view_ok(s),
        state_view_wf(s),
    ensures
        sp_state_doc(ser_state_v(s)) == Some(s),
{
    lemma_rt_state(s, Seq::empty());
    assert(ser_state_v(s) + Seq::<u8>::empty() =~= ser_state_v(s));
}

// ---------------------------------------------------------------------------
// canonicity: a document parse consumes exactly the serialization of the
// store it returns, so saving right after loading reproduces the very bytes
// ---------------------------------------------------------------------------
proof fn lemma_canon_version(b: Seq<u8>)
    ensures
        sp_version(b) matches Some((v, c)) ==> ser_version_v(v) == b.take(c) && 0 <= c
            <= b.len(),
{
    lemma_canon_u32(b);
    match sp_u32(b) {
        Option::Some(_) => {
            lemma_canon_u32(b.skip(4));
            match sp_u32(b.skip(4)) {
                Option::Some(_) => {
                    lemma_canon_u32(b.skip(8));
                    match sp_u32(b.skip(8)) {
                        Option::Some(_) => {
                            lemma_canon_opt_string(b.skip(12));
                            match sp_opt_string(b.skip(12)) {
                                Option::Some((_, c4)) => {
                                    lemma_canon_opt_string(b.skip(12 + c4));
                                    match sp_opt_string(b.skip(12 + c4)) {
                                        Option::Some((_, c5)) => {
                                            lemma_take_split(b, 4, 4);
                                            lemma_take_split(b, 8, 4);
                                            lemma_take_split(b, 12, c4);
                                            lemma_take_split(b, 12 + c4, c5);
                                        },
                                        Option::None => {},
                                    }
                                },
                                Option::None => {},
                            }
                        },
                        Option::None => {},
                    }
                },
                Option::None => {},
            }
        },
        Option::None => {},
    }
}

#[verifier::rlimit(100)]
proof fn lemma_canon_package(b: Seq<u8>)
    ensures
        sp_package(b) matches Some((p, c)) ==> ser_package_v(p) == b.take(c) && 0 <= c
            <= b.len(),
{
    lemma_canon_u128(b);
    match sp_u128(b) {
        Option::Some(_) => {
            lemma_canon_string(b.skip(16));
            match sp_string(b.skip(16)) {
                Option::Some((_, c2)) => {
                    let o3 = 16 + c2;
                    lemma_canon_version(b.skip(o3));
                    match sp_version(b.skip(o3)) {
                        Option::Some((_, c3)) => {
                            let o4 = o3 + c3;
                            lemma_canon_string(b.skip(o4));
                            match sp_string(b.skip(o4)) {
                                Option::Some((_, c4)) => {
                                    let o5 = o4 + c4;
                                    lemma_canon_i64(b.skip(o5));
                                    match sp_i64(b.skip(o5)) {
                                        Option::Some(_) => {
                                            let o6 = o5 + 8;
                                            lemma_canon_strings(b.skip(o6));
                                            match sp_strings(b.skip(o6)) {
                                                Option::Some((_, c6)) => {
                                                    let o7 = o6 + c6;
                                                    lemma_canon_strings(b.skip(o7));
                                                    match sp_strings(b.skip(o7)) {
                                                        Option::Some((_, c7)) => {
                                                            let o8 = o7 + c7;
                                                            lemma_canon_string(b.skip(o8));
                                                            match sp_string(b.skip(o8)) {
                                                                Option::Some((_, c8)) => {
                                                                    lemma_take_split(b, 16, c2);
                                                                    lemma_take_split(b, o3, c3);
                                                                    lemma_take_split(b, o4, c4);
                                                                    lemma_take_split(b, o5, 8);
                                                                    lemma_take_split(b, o6, c6);
                                                                    lemma_take_split(b, o7, c7);
                                                                    lemma_take_split(b, o8, c8);
                                                                },
                                                                Option::None => {},
                                                            }
                                                        },
                                                        Option::None => {},
                                                    }
                                                },
                                                Option::None => {},
                                            }
                                        },
                                        Option::None => {},
                                    }
                                },
                                Option::None => {},
                            }
                        },
                        Option::None => {},
                    }
                },
                Option::None => {},
            }
        },
        Option::None => {},
    }
}

proof fn lemma_canon_packages_items(b: Seq<u8>, count: nat)
    ensures
        sp_packages_items(b, count) matches Some((ps, c)) ==> ser_packages_items(ps) == b.take(c)
            && 0 <= c <= b.len() && ps.len() == count,
    decreases count,
{
    if count == 0 {
        assert(ser_packages_items(Seq::<PackageView>::empty()) =~= b.take(0));
    } else {
        lemma_canon_package(b);
        match sp_package(b) {
            Option::Some((p, c1)) => {
                lemma_canon_packages_items(b.skip(c1), (count - 1) as nat);
                match sp_packages_items(b.skip(c1), (count - 1) as nat) {
                    Option::Some((ps, c2)) => {
                        assert((seq![p] + ps)[0] == p);
                        assert((seq![p] + ps).drop_first() =~= ps);
                        assert(ser_packages_items(seq![p] + ps) == ser_package_v(p)
                            + ser_packages_items(ps));
                        lemma_take_split(b, c1, c2);
                    },
                    Option::None => {},
                }
            },
            Option::None => {},
        }
    }
}

proof fn lemma_canon_metadata(b: Seq<u8>)
    ensures
        sp_metadata(b) matches Some((m, c)) ==> ser_metadata_v(m) == b.take(c) && 0 <= c
            <= b.len(),
{
    lemma_canon_u64(b);
    match sp_u64(b) {
        Option::Some(_) => {
            lemma_canon_u64(b.skip(8));
            match sp_u64(b.skip(8)) {
                Option::Some(_) => {
                    lemma_canon_opt_i64(b.skip(16));
                    match sp_opt_i64(b.skip(16)) {
                        Option::Some((_, c3)) => {
                            lemma_canon_strings(b.skip(16 + c3));
                            match sp_strings(b.skip(16 + c3)) {
                                Option::Some((_, c4)) => {
                                    lemma_take_split(b, 8, 8);
                                    lemma_take_split(b, 16, c3);
                                    lemma_take_split(b, 16 + c3, c4);
                                },
                                Option::None => {},
                            }
                        },
                        Option::None => {},
                    }
                },
                Option::None => {},
            }
        },
        Option::None => {},
    }
}

#[verifier::rlimit(100)]
proof fn lemma_canon_state(b: Seq<u8>)
    ensures
        sp_state(b) matches Some((sv, c)) ==> ser_state_v(sv) == b.take(c) && 0 <= c <= b.len(),
{
    lemma_canon_string(b);
    match sp_string(b) {
        Option::Some((_, c1)) => {
            lemma_canon_i64(b.skip(c1));
            match sp_i64(b.skip(c1)) {
                Option::Some(_) => {
                    let o3 = c1 + 8;
                    lemma_canon_u64(b.skip(o3));
                    match sp_u64(b.skip(o3)) {
                        Option::Some((count, _)) => {
                            let o4 = o3 + 8;
                            lemma_canon_packages_items(b.skip(o4), count as nat);
                            match sp_packages_items(b.skip(o4), count as nat) {
                                Option::Some((ps, c4)) => {
                                    let o5 = o4 + c4;
                                    lemma_canon_strings(b.skip(o5));
                                    match sp_strings(b.skip(o5)) {
                                        Option::Some((_, c5)) => {
                                            let o6 = o5 + c5;
                                            lemma_canon_metadata(b.skip(o6));
                                            match sp_metadata(b.skip(o6)) {
                                                Option::Some((_, c6)) => {
                                                    assert((ps.len() as u64) == count);
                                                    lemma_take_split(b, c1, 8);
                                                    lemma_take_split(b, o3, 8);
                                                    lemma_take_split(b, o4, c4);
                                                    lemma_take_split(b, o5, c5);
                                                    lemma_take_split(b, o6, c6);
                                                },
                                                Option::None => {},
                                            }
                                        },
                                        Option::None => {},
                                    }
                                },
                                Option::None => {},
                            }
                        },
                        Option::None => {},
                    }
                },
                Option::None => {},
            }
        },
        Option::None => {},
    }
}

/// The document is canonical: a store parsed from bytes serializes back to
/// those very bytes. With [`lemma_state_roundtrip`] this makes loading and
/// then saving the state store reproduce the document byte for byte.
pub proof fn lemma_state_canonical(b: Seq<u8>)
    ensures
        sp_state_doc(b) matches Some(sv) ==> ser_state_v(sv) == b,
{
    lemma_canon_state(b);
    match sp_state(b) {
        Option::Some((sv, c)) => {
            if c == b.len() && state_view_wf(sv) {
                assert(b.take(c) =~= b);
            }
        },
        Option::None => {},
    }
}

/// A well-formed store has a well-formed document view.
pub proof fn lemma_state_wf_view(s: GlobalState)
    requires
        s.wf(),
    ensures
        state_view_wf(state_view(s)),
{
    assert(state_view(s).packages.len() == s.installed_packages@.len());
}

// ---------------------------------------------------------------------------
// executable rendering
// ---------------------------------------------------------------------------
fn enc_version(out: &mut Vec<u8>, v: &Version)
    ensures
        final(out)@ == old(out)@ + ser_version_v(version_view(*v)),
        version_view_ok(version_view(*v)),
{
    let ghost g0 = out@;
    enc_u32(out, v.major);
    enc_u32(out, v.minor);
    proof {
        lemma_concat_assoc(g0, ser_u32(v.major), ser_u32(v.minor));
    }
    enc_u32(out, v.patch);
    proof {
        lemma_concat_assoc(g0, ser_u32(v.major) + ser_u32(v.minor), ser_u32(v.patch));
    }
    enc_opt_string(out, &v.prerelease);
    proof {
        lemma_concat_assoc(
            g0,
            ser_u32(v.major) + ser_u32(v.minor) + ser_u32(v.patch),
            ser_opt_string(v.prerelease.deep_view()),
        );
    }
    enc_opt_string(out, &v.build);
    proof {
        lemma_concat_assoc(
            g0,
            ser_u32(v.major) + ser_u32(v.minor) + ser_u32(v.patch) + ser_opt_string(
                v.prerelease.deep_view(),
            ),
            ser_opt_string(v.build.deep_view()),
        );
    }
}

/// Appends the serialization of a list of package names, as a string list.
fn enc_names(out: &mut Vec<u8>, names: &Vec<PackageName>)
    ensures
        final(out)@ == old(out)@ + ser_strings(names_view(names@)),
        strings_ok(names_view(names@)),
{
    enc_u64(out, names.len() as u64);
    let ghost base = out@;
    let n = names.len();
    let mut i: usize = 0;
    while i < n
        invariant
            i <= n == names@.len(),
            out@ == base + crate::wire::ser_strings_items(names_view(names@).take(i as int)),
            forall|j: int| 0 <= j < i ==> str_ok(#[trigger] names_view(names@)[j]),
        decreases n - i,
    {
        let ghost pre = names_view(names@).take(i as int);
        enc_string(out, names[i].0.as_str());
        proof {
            assert(names_view(names@)[i as int] == names@[i as int]@);
            assert(names_view(names@).take(i + 1) =~= pre.push(names@[i as int]@));
            lemma_ser_strings_items_snoc(pre, names@[i as int]@);
            lemma_concat_assoc(
                base,
                crate::wire::ser_strings_items(pre),
                ser_string(names@[i as int]@),
            );
        }
        i += 1;
    }
    proof {
        assert(names_view(names@).take(n as int) =~= names_view(names@));
        assert(final(out)@ =~= old(out)@ + ser_strings(names_view(names@)));
    }
}

fn enc_package(out: &mut Vec<u8>, p: &InstalledPackage)
    ensures
        final(out)@ == old(out)@ + ser_package_v(package_view(*p)),
        package_view_ok(package_view(*p)),
{
    let ghost g0 = out@;
    let ghost pv = package_view(*p);
    enc_u128(out, p.id);
    enc_string(out, p.name.0.as_str());
    proof {
        lemma_concat_assoc(g0, ser_u128(pv.id), ser_string(pv.name));
    }
    enc_version(out, &p.version);
    proof {
        lemma_concat_assoc(
            g0,
            ser_u128(pv.id) + ser_string(pv.name),
            ser_version_v(pv.version),
        );
    }
    enc_string(out, p.install_path.as_str());
    proof {
        lemma_concat_assoc(
            g0,
            ser_u128(pv.id) + ser_string(pv.name) + ser_version_v(pv.version),
            ser_string(pv.install_path),
        );
    }
    enc_i64(out, p.installed_at);
    proof {
        lemma_concat_assoc(
            g0,
            ser_u128(pv.id) + ser_string(pv.name) + ser_version_v(pv.version) + ser_string(
                pv.install_path,
            ),
            ser_i64(pv.installed_at),
        );
    }
    enc_names(out, &p.requested_by);
    proof {
        lemma_concat_assoc(
            g0,
            ser_u128(pv.id) + ser_string(pv.name) + ser_version_v(pv.version) + ser_string(
                pv.install_path,
            ) + ser_i64(pv.installed_at),
            ser_strings(pv.requested_by),
        );
    }
    enc_strings(out, &p.files);
    proof {
        lemma_concat_assoc(
            g0,
            ser_u128(pv.id) + ser_string(pv.name) + ser_version_v(pv.version) + ser_string(
                pv.install_path,
            ) + ser_i64(pv.installed_at) + ser_strings(pv.requested_by),
            ser_strings(pv.files),
        );
    }
    enc_string(out, p.checksum.as_str());
    proof {
        lemma_concat_assoc(
            g0,
            ser_u128(pv.id) + ser_string(pv.name) + ser_version_v(pv.version) + ser_string(
                pv.install_path,
            ) + ser_i64(pv.installed_at) + ser_strings(pv.requested_by) + ser_strings(pv.files),
            ser_string(pv.checksum),
        );
    }
}

fn enc_metadata(out: &mut Vec<u8>, m: &StateMetadata)
    ensures
        final(out)@ == old(out)@ + ser_metadata_v(metadata_view(*m)),
        strings_ok(metadata_view(*m).corrupted_packages),
{
    let ghost g0 = out@;
    let ghost mv = metadata_view(*m);
    enc_u64(out, m.total_packages as u64);
    enc_u64(out, m.total_size_bytes);
    proof {
        lemma_concat_assoc(g0, ser_u64(mv.total_packages), ser_u64(mv.total_size_bytes));
    }
    enc_opt_i64(out, &m.last_cleanup);
    proof {
        lemma_concat_assoc(
            g0,
            ser_u64(mv.total_packages) + ser_u64(mv.total_size_bytes),
            ser_opt_i64(mv.last_cleanup),
        );
    }
    enc_strings(out, &m.corrupted_packages);
    proof {
        lemma_concat_assoc(
            g0,
            ser_u64(mv.total_packages) + ser_u64(mv.total_size_bytes) + ser_opt_i64(
                mv.last_cleanup,
            ),
            ser_strings(mv.corrupted_packages),
        );
    }
}

/// Renders a store as its single on-disk document.
pub fn save_state_bytes(s: &GlobalState) -> (r: Vec<u8>)
    ensures
        r@ == ser_state_v(state_view(*s)),
        state_view_ok(state_view(*s)),
{
    let ghost sv = state_view(*s);
    let mut out: Vec<u8> = Vec::new();
    let ghost g0 = out@;
    enc_string(&mut out, s.version.as_str());
    enc_i64(&mut out, s.last_updated);
    proof {
        lemma_concat_assoc(g0, ser_string(sv.version), ser_i64(sv.last_updated));
    }
    enc_u64(&mut out, s.installed_packages.len() as u64);
    proof {
        lemma_concat_assoc(
            g0,
            ser_string(sv.version) + ser_i64(sv.last_updated),
            ser_u64(sv.packages.len() as u64),
        );
    }
    let ghost base = out@;
    let n = s.installed_packages.len();
    let mut i: usize = 0;
    while i < n
        invariant
            i <= n == s.installed_packages@.len(),
            sv == state_view(*s),
            out@ == base + ser_packages_items(sv.packages.take(i as int)),
            forall|j: int| 0 <= j < i ==> package_view_ok(#[trigger] sv.packages[j]),
        decreases n - i,
    {
        let ghost pre = sv.packages.take(i as int);
        enc_package(&mut out, &s.installed_packages[i]);
        proof {
            assert(sv.packages[i as int] == package_view(s.installed_packages@[i as int]));
            assert(sv.packages.take(i + 1) =~= pre.push(sv.packages[i as int]));
            lemma_ser_packages_items_snoc(pre, sv.packages[i as int]);
            lemma_concat_assoc(
                base,
                ser_packages_items(pre),
                ser_package_v(sv.packages[i as int]),
            );
        }
        i += 1;
    }
    proof {
        assert(sv.packages.take(n as int) =~= sv.packages);
    }
    let ghost mid = out@;
    enc_strings(&mut out, &s.pending_operations);
    enc_metadata(&mut out, &s.metadata);
    proof {
        lemma_concat_assoc(mid, ser_strings(sv.pending_operations), ser_metadata_v(sv.metadata));
        assert(out@ =~= ser_state_v(sv));
    }
    out
}

// ---------------------------------------------------------------------------
// executable parsing
// ---------------------------------------------------------------------------
fn dec_version(b: &[u8], pos: usize) -> (r: Option<(Version, usize)>)
    requires
        pos <= b@.len(),
    ensures
        match r {
            Some((v, end)) => pos <= end <= b@.len() && sp_version(b@.skip(pos as int)) == Some(
                (version_view(v), end - pos as int),
            ),
            None => sp_version(b@.skip(pos as int)) is None,
        },
{
    let (major, p1) = match dec_u32(b, pos) {
        Some(x) => x,
        None => {
            return None;
        },
    };
    proof {
        lemma_skip_two(b@, pos as int, p1 - pos as int);
    }
    let (minor, p2) = match dec_u32(b, p1) {
        Some(x) => x,
        None => {
            return None;
        },
    };
    proof {
        lemma_skip_two(b@, pos as int, p2 - pos as int);
    }
    let (patch, p3) = match dec_u32(b, p2) {
        Some(x) => x,
        None => {
            return None;
        },
    };
    proof {
        lemma_skip_two(b@, pos as int, p3 - pos as int);
    }
    let (prerelease, p4) = match dec_opt_string(b, p3) {
        Some(x) => x,
        None => {
            return None;
        },
    };
    proof {
        lemma_skip_two(b@, pos as int, p4 - pos as int);
    }
    let (build, p5) = match dec_opt_string(b, p4) {
        Some(x) => x,
        None => {
            return None;
        },
    };
    Some((Version { major, minor, patch, prerelease, build }, p5))
}

#[verifier::rlimit(100)]
fn dec_package(b: &[u8], pos: usize) -> (r: Option<(InstalledPackage, usize)>)
    requires
        pos <= b@.len(),
    ensures
        match r {
            Some((p, end)) => pos <= end <= b@.len() && sp_package(b@.skip(pos as int)) == Some(
                (package_view(p), end - pos as int),
            ),
            None => sp_package(b@.skip(pos as int)) is None,
        },
{
    let (id, p1) = match dec_u128(b, pos) {
        Some(x) => x,
        None => {
            return None;
        },
    };
    proof {
        lemma_skip_two(b@, pos as int, p1 - pos as int);
    }
    let (name, p2) = match dec_string(b, p1) {
        Some(x) => x,
        None => {
            return None;
        },
    };
    proof {
        lemma_skip_two(b@, pos as int, p2 - pos as int);
    }
    let (version, p3) = match dec_version(b, p2) {
        Some(x) => x,
        None => {
            return None;
        },
    };
    proof {
        lemma_skip_two(b@, pos as int, p3 - pos as int);
    }
    let (install_path, p4) = match dec_string(b, p3) {
        Some(x) => x,
        None => {
            return None;
        },
    };
    proof {
        lemma_skip_two(b@, pos as int, p4 - pos as int);
    }
    let (installed_at, p5) = match dec_i64(b, p4) {
        Some(x) => x,
        None => {
            return None;
        },
    };
    proof {
        lemma_skip_two(b@, pos as int, p5 - pos as int);
    }
    let (requested_raw, p6) = match dec_strings(b, p5) {
        Some(x) => x,
        None => {
            return None;
        },
    };
    proof {
        lemma_skip_two(b@, pos as int, p6 - pos as int);
    }
    let (files, p7) = match dec_strings(b, p6) {
        Some(x) => x,
        None => {
            return None;
        },
    };
    proof {
        lemma_skip_two(b@, pos as int, p7 - pos as int);
    }
    let (checksum, p8) = match dec_string(b, p7) {
        Some(x) => x,
        None => {
            return None;
        },
    };
    let mut requested_by: Vec<PackageName> = Vec::new();
    let rn = requested_raw.len();
    let mut i: usize = 0;
    while i < rn
        invariant
            i <= rn == requested_raw@.len(),
            requested_by@.len() == i,
            names_view(requested_by@) =~= requested_raw.deep_view().take(i as int),
        decreases rn - i,
    {
        let ghost pre = names_view(requested_by@);
        let s = requested_raw[i].clone();
        proof {
            assert(s@ == requested_raw@[i as int]@);
        }
        requested_by.push(PackageName(s));
        proof {
            assert(names_view(requested_by@) =~= pre.push(requested_raw.deep_view()[i as int]));
            assert(requested_raw.deep_view().take(i + 1) =~= requested_raw.deep_view().take(
                i as int,
            ).push(requested_raw.deep_view()[i as int]));
        }
        i += 1;
    }
    proof {
        assert(requested_raw.deep_view().take(rn as int) =~= requested_raw.deep_view());
    }
    let pkg = InstalledPackage {
        id,
        name: PackageName(name),
        version,
        install_path,
        installed_at,
        requested_by,
        files,
        checksum,
    };
    Some((pkg, p8))
}

fn dec_metadata(b: &[u8], pos: usize) -> (r: Option<(StateMetadata, usize)>)
    requires
        pos <= b@.len(),
    ensures
        match r {
            Some((m, end)) => pos <= end <= b@.len() && sp_metadata(b@.skip(pos as int)) == Some(
                (metadata_view(m), end - pos as int),
            ),
            None => sp_metadata(b@.skip(pos as int)) is None || (match sp_metadata(
                b@.skip(pos as int),
            ) {
                Option::Some((mv, _)) => mv.total_packages > usize::MAX as u64,
                Option::None => true,
            }),
        },
{
    let (total, p1) = match dec_u64(b, pos) {
        Some(x) => x,
        None => {
            return None;
        },
    };
    proof {
        lemma_skip_two(b@, pos as int, p1 - pos as int);
    }
    let (total_size_bytes, p2) = match dec_u64(b, p1) {
        Some(x) => x,
        None => {
            return None;
        },
    };
    proof {
        lemma_skip_two(b@, pos as int, p2 - pos as int);
    }
    let (last_cleanup, p3) = match dec_opt_i64(b, p2) {
        Some(x) => x,
        None => {
            return None;
        },
    };
    proof {
        lemma_skip_two(b@, pos as int, p3 - pos as int);
    }
    let (corrupted_packages, p4) = match dec_strings(b, p3) {
        Some(x) => x,
        None => {
            return None;
        },
    };
    if total > usize::MAX as u64 {
        return None;
    }
    let m = StateMetadata {
        total_packages: total as usize,
        total_size_bytes,
        last_cleanup,
        corrupted_packages,
    };
    Some((m, p4))
}

/// Whether any two records share a name.
fn check_names_unique(v: &Vec<InstalledPackage>) -> (r: bool)
    ensures
        r == names_unique(v@),
{
    let n = v.len();
    let mut i: usize = 0;
    while i < n
        invariant
            i <= n == v@.len(),
            forall|a: int, c: int| 0 <= a < c < v@.len() && a < i ==> v@[a].name@ != v@[c].name@,
        decreases n - i,
    {
        let mut j: usize = i + 1;
        while j < n
            invariant
                i < j <= n == v@.len(),
                forall|c: int| i < c < j ==> v@[i as int].name@ != #[trigger] v@[c].name@,
            decreases n - j,
        {
            if str_eq(v[i].name.0.as_str(), v[j].name.0.as_str()) {
                return false;
            }
            j += 1;
        }
        i += 1;
    }
    true
}

/// Parses a counted list of package records.
#[verifier::rlimit(100)]
fn dec_packages(b: &[u8], pos: usize, count: u64) -> (r: Option<(Vec<InstalledPackage>, usize)>)
    requires
        pos <= b@.len(),
    ensures
        match r {
            Some((ps, end)) => pos <= end <= b@.len() && sp_packages_items(
                b@.skip(pos as int),
                count as nat,
            ) == Some(
                (ps@.map_values(|q: InstalledPackage| package_view(q)), end - pos as int),
            ),
            None => sp_packages_items(b@.skip(pos as int), count as nat) is None,
        },
{
    let mut packages: Vec<InstalledPackage> = Vec::new();
    let mut p: usize = pos;
    let mut k: u64 = 0;
    while k < count
        invariant
            pos <= p <= b@.len(),
            k <= count,
            packages@.len() == k as int,
            (match sp_packages_items(b@.skip(p as int), (count - k) as nat) {
                Option::Some((ps2, c2)) => sp_packages_items(b@.skip(pos as int), count as nat)
                    == Some(
                    (
                        packages@.map_values(|q: InstalledPackage| package_view(q)) + ps2,
                        (p - pos) + c2,
                    ),
                ),
                Option::None => sp_packages_items(b@.skip(pos as int), count as nat) is None,
            }),
        decreases count - k,
    {
        let ghost pre = packages@.map_values(|q: InstalledPackage| package_view(q));
        match dec_package(b, p) {
            Some((pkg, end)) => {
                proof {
                    lemma_skip_two(b@, p as int, end - p as int);
                }
                packages.push(pkg);
                proof {
                    assert(packages@.map_values(|q: InstalledPackage| package_view(q)) =~= pre.push(
                        package_view(pkg),
                    ));
                    assert forall|ps2: Seq<PackageView>| true implies pre + (seq![
                        package_view(pkg),
                    ] + ps2) =~= (pre.push(package_view(pkg)) + ps2) by {}
                }
                p = end;
            },
            None => {
                return None;
            },
        }
        k += 1;
    }
    proof {
        assert(sp_packages_items(b@.skip(p as int), 0nat) == Some(
            (Seq::<PackageView>::empty(), 0int),
        ));
        assert(packages@.map_values(|q: InstalledPackage| package_view(q))
            + Seq::<PackageView>::empty() =~= packages@.map_values(
            |q: InstalledPackage| package_view(q),
        ));
    }
    Some((packages, p))
}

/// Assembles the whole-document parse from its six field parses.
proof fn lemma_sp_state_assemble(
    b: Seq<u8>,
    version: Seq<char>,
    p1: int,
    last_updated: i64,
    p2: int,
    count: u64,
    p3: int,
    packages: Seq<PackageView>,
    p4: int,
    pending_operations: Seq<Seq<char>>,
    p5: int,
    metadata: MetadataView,
    p6: int,
)
    requires
        sp_string(b) == Some((version, p1)),
        sp_i64(b.skip(p1)) == Some((last_updated, p2 - p1)),
        sp_u64(b.skip(p2)) == Some((count, p3 - p2)),
        sp_packages_items(b.skip(p3), count as nat) == Some((packages, p4 - p3)),
        sp_strings(b.skip(p4)) == Some((pending_operations, p5 - p4)),
        sp_metadata(b.skip(p5)) == Some((metadata, p6 - p5)),
    ensures
        sp_state(b) == Some(
            (StateView { version, last_updated, packages, pending_operations, metadata }, p6),
        ),
{
}

/// Parses the state document prefix of a byte stream.
#[verifier::rlimit(100)]
fn dec_state(b: &[u8]) -> (r: Option<(GlobalState, usize)>)
    ensures
        match r {
            Some((s, end)) => end <= b@.len() && sp_state(b@) == Some(
                (state_view(s), end as int),
            ),
            None => sp_state(b@) is None || (match sp_state(b@) {
                Option::Some((sv, _)) => !state_view_wf(sv),
                Option::None => true,
            }),
        },
{
    proof {
        assert(b@.skip(0) =~= b@);
    }
    let (version, p1) = match dec_string(b, 0) {
        Some(x) => x,
        None => {
            return None;
        },
    };
    let (last_updated, p2) = match dec_i64(b, p1) {
        Some(x) => x,
        None => {
            return None;
        },
    };
    proof {
        lemma_skip_two(b@, p1 as int, p2 - p1 as int);
    }
    let (count, p3) = match dec_u64(b, p2) {
        Some(x) => x,
        None => {
            return None;
        },
    };
    proof {
        lemma_skip_two(b@, p2 as int, p3 - p2 as int);
    }
    let (packages, p4) = match dec_packages(b, p3, count) {
        Some(x) => x,
        None => {
            return None;
        },
    };
    proof {
        lemma_skip_two(b@, p3 as int, p4 - p3 as int);
    }
    let (pending_operations, p5) = match dec_strings(b, p4) {
        Some(x) => x,
        None => {
            return None;
        },
    };
    proof {
        lemma_skip_two(b@, p4 as int, p5 - p4 as int);
    }
    let (metadata, p6) = match dec_metadata(b, p5) {
        Some(x) => x,
        None => {
            // either the metadata bytes are malformed, or the package count
            // they carry cannot be an in-memory count; in the latter case the
            // document cannot be well-formed, because the parsed record list
            // does fit in memory
            let pl = packages.len();
            proof {
                match sp_metadata(b@.skip(p5 as int)) {
                    Option::Some((mv, c6)) => {
                        assert(mv.total_packages > usize::MAX as u64);
                        lemma_sp_state_assemble(
                            b@,
                            version@,
                            p1 as int,
                            last_updated,
                            p2 as int,
                            count,
                            p3 as int,
                            packages@.map_values(|q: InstalledPackage| package_view(q)),
                            p4 as int,
                            pending_operations.deep_view(),
                            p5 as int,
                            mv,
                            p5 + c6,
                        );
                        let sv = StateView {
                            version: version@,
                            last_updated,
                            packages: packages@.map_values(
                                |q: InstalledPackage| package_view(q),
                            ),
                            pending_operations: pending_operations.deep_view(),
                            metadata: mv,
                        };
                        assert(sv.packages.len() == pl as int);
                        assert(!state_view_wf(sv));
                    },
                    Option::None => {},
                }
            }
            return None;
        },
    };
    let s = GlobalState {
        version,
        last_updated,
        installed_packages: packages,
        pending_operations,
        metadata,
    };
    proof {
        assert(state_view(s).packages =~= s.installed_packages@.map_values(
            |q: InstalledPackage| package_view(q),
        ));
        lemma_sp_state_assemble(
            b@,
            s.version@,
            p1 as int,
            s.last_updated,
            p2 as int,
            count,
            p3 as int,
            state_view(s).packages,
            p4 as int,
            s.pending_operations.deep_view(),
            p5 as int,
            metadata_view(s.metadata),
            p6 as int,
        );
    }
    Some((s, p6))
}

/// Parses a store document. Exactly the documents some well-formed store
/// renders to are accepted; the result is that store.
pub fn load_state_bytes(b: &[u8]) -> (r: Option<GlobalState>)
    ensures
        match r {
            Some(s) => sp_state_doc(b@) == Some(state_view(s)) && s.wf(),
            None => sp_state_doc(b@) is None,
        },
{
    let (s, end) = match dec_state(b) {
        Some(x) => x,
        None => {
            return None;
        },
    };
    if end != b.len() {
        return None;
    }
    if s.metadata.total_packages != s.installed_packages.len() {
        proof {
            assert(state_view(s).metadata.total_packages != state_view(s).packages.len());
        }
        return None;
    }
    if !check_names_unique(&s.installed_packages) {
        proof {
            if sp_state_doc(b@) is Some {
                let ps = state_view(s).packages;
                assert(view_names_unique(ps));
                let (a, c) = choose|a: int, c: int|
                    0 <= a < c < s.installed_packages@.len()
                        && s.installed_packages@[a].name@ == s.installed_packages@[c].name@;
                assert(ps[a].name == ps[c].name);
                assert(false);
            }
        }
        return None;
    }
    proof {
        assert forall|a: int, c: int|
            0 <= a < c < s.installed_packages@.len() implies s.installed_packages@[a].name@
            != s.installed_packages@[c].name@ by {
            assert(names_unique(s.installed_packages@));
        }
        assert(state_view_wf(state_view(s)));
    }
    Some(s)
}

} // verus!
