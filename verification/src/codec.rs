//! The archive codec: a directory's regular files are packed as a counted
//! list of (relative path, contents) entries on the wire format, and the
//! whole stream is gzip-compressed. Unpacking refuses any entry whose
//! relative path could escape the directory it is extracted into: absolute
//! paths and paths with `..`, `.` or empty components are rejected.
use vstd::prelude::*;
use crate::error::CocoatlyError;
use crate::wire::{
    dec_bytes, dec_string, dec_u64, enc_bytes, enc_string, enc_u64, lemma_concat_assoc,
    lemma_rt_bytes, lemma_rt_string, lemma_rt_u64, lemma_skip_concat, lemma_skip_two, len_limit,
    ser_bytes, ser_string, ser_u64, sp_bytes, sp_string, sp_u64, str_ok, bytes_ok,
};

verus! {

/// One file of a directory tree: its path relative to the tree's root, and
/// its bytes.
#[derive(Debug, Clone)]
pub struct FileEntry {
    pub path: String,
    pub data: Vec<u8>,
}

/// The mathematical shadow of a [`FileEntry`].
pub struct FileEntryView {
    pub path: Seq<char>,
    pub data: Seq<u8>,
}

pub open spec fn entry_view(e: FileEntry) -> FileEntryView {
    FileEntryView { path: e.path@, data: e.data@ }
}

pub open spec fn entry_views(es: Seq<FileEntry>) -> Seq<FileEntryView> {
    es.map_values(|e: FileEntry| entry_view(e))
}

/// Whether a component of length one or two starting at `i` is `.` or `..`.
pub open spec fn dot_component_at(p: Seq<char>, i: int) -> bool {
    (p[i] == '.' && (i + 1 == p.len() || p[i + 1] == '/')) || (p[i] == '.' && i + 1 < p.len()
        && p[i + 1] == '.' && (i + 2 == p.len() || p[i + 2] == '/'))
}

/// A path that stays under the directory it is joined to: non-empty, not
/// absolute, no empty components, and no `.` or `..` components.
pub open spec fn safe_rel_path(p: Seq<char>) -> bool {
    &&& p.len() > 0
    &&& p[0] != '/'
    &&& p[p.len() - 1] != '/'
    &&& (forall|i: int| 0 <= i < p.len() - 1 ==> !(#[trigger] p[i] == '/' && p[i + 1] == '/'))
    &&& (forall|i: int|
        0 <= i < p.len() && (i == 0 || p[i - 1] == '/') ==> !dot_component_at(p, i))
}

/// A path beginning with a `..` component is not safe.
pub proof fn lemma_traversal_not_safe(p: Seq<char>)
    requires
        p.len() >= 2,
        p[0] == '.',
        p[1] == '.',
        p.len() == 2 || p[2] == '/',
    ensures
        !safe_rel_path(p),
{
    assert(dot_component_at(p, 0));
}

/// An absolute path is not safe.
pub proof fn lemma_absolute_not_safe(p: Seq<char>)
    requires
        p.len() > 0,
        p[0] == '/',
    ensures
        !safe_rel_path(p),
{
}

/// Decides [`safe_rel_path`].
pub fn is_safe_rel_path(s: &str) -> (r: bool)
    ensures
        r == safe_rel_path(s@),
{
    let n = s.unicode_len();
    if n == 0 {
        return false;
    }
    if s.get_char(0) == '/' {
        return false;
    }
    if s.get_char(n - 1) == '/' {
        return false;
    }
    let mut i: usize = 0;
    while i < n
        invariant
            0 < n == s@.len(),
            i <= n,
            forall|j: int| 0 <= j < i && j < n - 1 ==> !(#[trigger] s@[j] == '/' && s@[j + 1] == '/'),
            forall|j: int|
                0 <= j < i && (j == 0 || s@[j - 1] == '/') ==> !dot_component_at(s@, j),
        decreases n - i,
    {
        let c = s.get_char(i);
        if i + 1 < n && c == '/' && s.get_char(i + 1) == '/' {
            return false;
        }
        if (i == 0 || s.get_char(i - 1) == '/') && c == '.' {
            if i + 1 == n {
                proof {
                    assert(dot_component_at(s@, i as int));
                }
                return false;
            }
            let c1 = s.get_char(i + 1);
            if c1 == '/' {
                proof {
                    assert(dot_component_at(s@, i as int));
                }
                return false;
            }
            if c1 == '.' && (i + 2 == n || s.get_char(i + 2) == '/') {
                proof {
                    assert(dot_component_at(s@, i as int));
                }
                return false;
            }
        }
        i += 1;
    }
    true
}

// ---------------------------------------------------------------------------
// the uncompressed entry stream
// ---------------------------------------------------------------------------
pub open spec fn ser_entry_v(e: FileEntryView) -> Seq<u8> {
    ser_string(e.path) + ser_bytes(e.data)
}

pub open spec fn ser_entries_items(es: Seq<FileEntryView>) -> Seq<u8>
    decreases es.len(),
{
    if es.len() == 0 {
        Seq::empty()
    } else {
        ser_entry_v(es[0]) + ser_entries_items(es.drop_first())
    }
}

pub open spec fn ser_entries(es: Seq<FileEntryView>) -> Seq<u8> {
    ser_u64(es.len() as u64) + ser_entries_items(es)
}

pub open spec fn entry_view_ok(e: FileEntryView) -> bool {
    &&& str_ok(e.path)
    &&& bytes_ok(e.data)
}

pub open spec fn entries_ok(es: Seq<FileEntryView>) -> bool {
    &&& es.len() < len_limit()
    &&& forall|i: int| 0 <= i < es.len() ==> entry_view_ok(#[trigger] es[i])
}

pub open spec fn entries_safe(es: Seq<FileEntryView>) -> bool {
    forall|i: int| 0 <= i < es.len() ==> safe_rel_path(#[trigger] es[i].path)
}

pub open spec fn sp_entry(b: Seq<u8>) -> Option<(FileEntryView, int)> {
    match sp_string(b) {
        Option::None => None,
        Option::Some((path, c1)) => match sp_bytes(b.skip(c1)) {
            Option::None => None,
            Option::Some((data, c2)) => Some((FileEntryView { path, data }, c1 + c2)),
        },
    }
}

pub open spec fn sp_entries_items(b: Seq<u8>, count: nat) -> Option<(Seq<FileEntryView>, int)>
    decreases count,
{
    if count == 0 {
        Some((Seq::empty(), 0int))
    } else {
        match sp_entry(b) {
            Option::None => None,
            Option::Some((e, c)) => match sp_entries_items(b.skip(c), (count - 1) as nat) {
                Option::None => None,
                Option::Some((es, c2)) => Some((seq![e] + es, c + c2)),
            },
        }
    }
}

/// A whole entry stream: a count, that many entries, nothing after them.
pub open spec fn sp_entries_doc(b: Seq<u8>) -> Option<Seq<FileEntryView>> {
    match sp_u64(b) {
        Option::None => None,
        Option::Some((n, c)) => match sp_entries_items(b.skip(c), n as nat) {
            Option::None => None,
            Option::Some((es, c2)) => if c + c2 == b.len() {
                Some(es)
            } else {
                None
            },
        },
    }
}

// ---------------------------------------------------------------------------
// round trips
// ---------------------------------------------------------------------------
pub proof fn lemma_rt_entry(e: FileEntryView, rest: Seq<u8>)
    requires
        entry_view_ok(e),
    ensures
        sp_entry(ser_entry_v(e) + rest) == Some((e, ser_entry_v(e).len() as int)),
{
    let s1 = ser_string(e.path);
    let s2 = ser_bytes(e.data);
    let whole = ser_entry_v(e) + rest;
    let t1 = s2 + rest;
    lemma_concat_assoc(s1, s2, rest);
    assert(whole == s1 + t1);
    lemma_rt_string(e.path, t1);
    lemma_skip_concat(s1, t1);
    let c1 = s1.len() as int;
    assert(whole.skip(c1) == t1);
    lemma_rt_bytes(e.data, rest);
}

pub proof fn lemma_ser_entries_items_snoc(es: Seq<FileEntryView>, e: FileEntryView)
    ensures
        ser_entries_items(es.push(e)) == ser_entries_items(es) + ser_entry_v(e),
    decreases es.len(),
{
    reveal_with_fuel(ser_entries_items, 3);
    if es.len() == 0 {
        assert(es.push(e)[0] == e);
        assert(es.push(e).drop_first() =~= Seq::<FileEntryView>::empty());
        assert(ser_entries_items(es.push(e)) =~= ser_entries_items(es) + ser_entry_v(e));
    } else {
        assert(es.push(e)[0] == es[0]);
        assert(es.push(e).drop_first() =~= es.drop_first().push(e));
        lemma_ser_entries_items_snoc(es.drop_first(), e);
        assert(ser_entries_items(es.push(e)) == ser_entry_v(es[0]) + ser_entries_items(
            es.drop_first().push(e),
        ));
        assert(ser_entries_items(es.push(e)) =~= ser_entries_items(es) + ser_entry_v(e));
    }
}

pub proof fn lemma_rt_entries_items(es: Seq<FileEntryView>, rest: Seq<u8>)
    requires
        forall|i: int| 0 <= i < es.len() ==> entry_view_ok(#[trigger] es[i]),
    ensures
        sp_entries_items(ser_entries_items(es) + rest, es.len() as nat) == Some(
            (es, ser_entries_items(es).len() as int),
        ),
    decreases es.len(),
{
    if es.len() == 0 {
        assert(es =~= Seq::<FileEntryView>::empty());
    } else {
        let e0 = es[0];
        let tail = es.drop_first();
        let whole = ser_entries_items(es) + rest;
        let t = ser_entries_items(tail) + rest;
        lemma_concat_assoc(ser_entry_v(e0), ser_entries_items(tail), rest);
        assert(whole == ser_entry_v(e0) + t);
        lemma_rt_entry(e0, t);
        let c = ser_entry_v(e0).len() as int;
        lemma_skip_concat(ser_entry_v(e0), t);
        assert(whole.skip(c) == t);
        lemma_rt_entries_items(tail, rest);
        assert(seq![e0] + tail =~= es);
    }
}

/// Parsing a rendered entry stream yields the entries back.
pub proof fn lemma_rt_entries(es: Seq<FileEntryView>)
    requires
        entries_ok(es),
    ensures
        sp_entries_doc(ser_entries(es)) == Some(es),
{
    let n = es.len() as u64;
    let body = ser_entries_items(es);
    let whole = ser_entries(es);
    assert(whole + Seq::<u8>::empty() =~= whole);
    lemma_rt_u64(n, body);
    assert(whole =~= ser_u64(n) + body);
    lemma_skip_concat(ser_u64(n), body);
    assert(whole.skip(8) == body);
    assert(body + Seq::<u8>::empty() =~= body);
    lemma_rt_entries_items(es, Seq::empty());
}

// ---------------------------------------------------------------------------
// the gzip layer, behind trusted wrappers
// ---------------------------------------------------------------------------
/// What flate2's gzip encoder, at the highest compression level and with the
/// default header, emits for a byte stream.
pub uninterp spec fn gzip_of(b: Seq<u8>) -> Seq<u8>;

/// What flate2's gzip decoder recovers from a byte stream, where it is a
/// valid stream.
pub uninterp spec fn gunzip_of(b: Seq<u8>) -> Option<Seq<u8>>;

/// Relies on flate2's `write::GzEncoder` with `Compression::best`: the
/// output is a function of the input bytes alone — the default header
/// carries no time stamp and a fixed operating-system byte — and gzip is
/// lossless, so decoding the output gives the input back.
#[verifier::external_body]
fn gzip_bytes(data: &[u8]) -> (r: Vec<u8>)
    ensures
        r@ == gzip_of(data@),
        gunzip_of(r@) == Some(data@),
{
    let mut enc = flate2::write::GzEncoder::new(Vec::new(), flate2::Compression::best());
    std::io::Write::write_all(&mut enc, data).expect("writing to a vec cannot fail");
    enc.finish().expect("finishing into a vec cannot fail")
}

/// Relies on flate2's `read::GzDecoder`: decoding is a function of the input
/// bytes; it fails exactly on streams that are not valid gzip.
#[verifier::external_body]
fn gunzip_bytes(data: &[u8]) -> (r: Option<Vec<u8>>)
    ensures
        match r {
            Some(v) => gunzip_of(data@) == Some(v@),
            None => gunzip_of(data@) is None,
        },
{
    let mut dec = flate2::read::GzDecoder::new(data);
    let mut out = Vec::new();
    match std::io::Read::read_to_end(&mut dec, &mut out) {
        Ok(_) => Some(out),
        Err(_) => None,
    }
}

/// What `pack` emits for a list of entries.
pub open spec fn spec_pack(es: Seq<FileEntryView>) -> Seq<u8> {
    gzip_of(ser_entries(es))
}

/// What `unpack` accepts and recovers: a valid gzip stream holding a whole
/// entry stream, all of whose paths are safe.
pub open spec fn spec_unpack(b: Seq<u8>) -> Option<Seq<FileEntryView>> {
    match gunzip_of(b) {
        Option::None => None,
        Option::Some(p) => match sp_entries_doc(p) {
            Option::None => None,
            Option::Some(es) => if entries_safe(es) {
                Some(es)
            } else {
                None
            },
        },
    }
}

/// Unpacking an archive that `pack` produced from safe entries yields the
/// entries back. The premise on `packed` is exactly what `pack` ensures of
/// its result.
pub proof fn lemma_pack_unpack_roundtrip(es: Seq<FileEntryView>, packed: Seq<u8>)
    requires
        entries_ok(es),
        entries_safe(es),
        gunzip_of(packed) == Some(ser_entries(es)),
    ensures
        spec_unpack(packed) == Some(es),
{
    lemma_rt_entries(es);
}

/// The gzip-compressed archive codec.
pub struct TarGzCompressor;

impl TarGzCompressor {
    /// Packs a directory's files into one compressed archive stream.
    pub fn pack(entries: &Vec<FileEntry>) -> (r: Vec<u8>)
        ensures
            r@ == spec_pack(entry_views(entries@)),
            gunzip_of(r@) == Some(ser_entries(entry_views(entries@))),
            entries_ok(entry_views(entries@)),
    {
        let ghost evs = entry_views(entries@);
        let mut out: Vec<u8> = Vec::new();
        let ghost g0 = out@;
        enc_u64(&mut out, entries.len() as u64);
        let ghost base = out@;
        let n = entries.len();
        let mut i: usize = 0;
        while i < n
            invariant
                i <= n == entries@.len(),
                evs == entry_views(entries@),
                out@ == base + ser_entries_items(evs.take(i as int)),
                base == ser_u64(evs.len() as u64),
                forall|j: int| 0 <= j < i ==> entry_view_ok(#[trigger] evs[j]),
            decreases n - i,
        {
            let ghost pre = evs.take(i as int);
            let ghost mid0 = out@;
            enc_string(&mut out, entries[i].path.as_str());
            enc_bytes(&mut out, entries[i].data.as_slice());
            proof {
                assert(evs[i as int] == entry_view(entries@[i as int]));
                lemma_concat_assoc(
                    mid0,
                    ser_string(evs[i as int].path),
                    ser_bytes(evs[i as int].data),
                );
                assert(evs.take(i + 1) =~= pre.push(evs[i as int]));
                lemma_ser_entries_items_snoc(pre, evs[i as int]);
                lemma_concat_assoc(base, ser_entries_items(pre), ser_entry_v(evs[i as int]));
            }
            i += 1;
        }
        proof {
            assert(evs.take(n as int) =~= evs);
            assert(out@ =~= ser_entries(evs));
        }
        gzip_bytes(out.as_slice())
    }

    /// Unpacks a compressed archive stream into its entries, refusing any
    /// entry whose path is absolute or travels upward.
    pub fn unpack(archive: &[u8]) -> (r: Result<Vec<FileEntry>, CocoatlyError>)
        ensures
            r matches Ok(es) ==> spec_unpack(archive@) == Some(entry_views(es@)) && entries_safe(
                entry_views(es@),
            ),
            r is Ok <==> spec_unpack(archive@) is Some,
            gunzip_of(archive@) is None ==> (r matches Err(e) && e is SerializationError),
            (match gunzip_of(archive@) {
                Option::Some(p) => sp_entries_doc(p) is None ==> (r matches Err(e) && (
                e is SerializationError || e is VerificationFailed)),
                Option::None => true,
            }),
            (match gunzip_of(archive@) {
                Option::Some(p) => match sp_entries_doc(p) {
                    Option::Some(es) => !entries_safe(es) ==> (r matches Err(e)
                        && e is VerificationFailed),
                    Option::None => true,
                },
                Option::None => true,
            }),
    {
        let plain = match gunzip_bytes(archive) {
            Some(v) => v,
            None => {
                return Err(
                    CocoatlyError::SerializationError("archive is not a valid gzip stream".to_owned()),
                );
            },
        };
        let b = plain.as_slice();
        proof {
            assert(b@.skip(0) =~= b@);
        }
        let (count, p0) = match dec_u64(b, 0) {
            Some(x) => x,
            None => {
                return Err(
                    CocoatlyError::SerializationError("archive stream is truncated".to_owned()),
                );
            },
        };
        let mut entries: Vec<FileEntry> = Vec::new();
        let mut p: usize = p0;
        let mut k: u64 = 0;
        while k < count
            invariant
                p0 <= p <= b@.len(),
                k <= count,
                b@ == plain@,
                gunzip_of(archive@) == Some(plain@),
                sp_u64(b@) == Some((count, p0 as int)),
                entries@.len() == k as int,
                entries_safe(entry_views(entries@)),
                (match sp_entries_items(b@.skip(p as int), (count - k) as nat) {
                    Option::Some((es2, c2)) => sp_entries_items(b@.skip(p0 as int), count as nat)
                        == Some((entry_views(entries@) + es2, (p - p0) + c2)),
                    Option::None => sp_entries_items(b@.skip(p0 as int), count as nat) is None,
                }),
            decreases count - k,
        {
            let ghost pre = entry_views(entries@);
            let (path, p1) = match dec_string(b, p) {
                Some(x) => x,
                None => {
                    return Err(
                        CocoatlyError::SerializationError("archive entry is malformed".to_owned()),
                    );
                },
            };
            proof {
                lemma_skip_two(b@, p as int, p1 - p as int);
            }
            let (data, p2) = match dec_bytes(b, p1) {
                Some(x) => x,
                None => {
                    return Err(
                        CocoatlyError::SerializationError("archive entry is malformed".to_owned()),
                    );
                },
            };
            proof {
                lemma_skip_two(b@, p as int, p2 - p as int);
            }
            if !is_safe_rel_path(path.as_str()) {
                proof {
                    let whole_items = sp_entries_items(b@.skip(p0 as int), count as nat);
                    if spec_unpack(archive@) is Some {
                        let es = sp_entries_doc(plain@).unwrap();
                        assert(entries_safe(es));
                        match sp_entries_items(b@.skip(p as int), (count - k) as nat) {
                            Option::Some((es2, c2)) => {
                                assert(es == entry_views(entries@) + es2);
                                assert(es2[0].path == path@);
                                assert(es[k as int].path == path@);
                                assert(false);
                            },
                            Option::None => {
                                assert(false);
                            },
                        }
                    }
                }
                return Err(
                    CocoatlyError::VerificationFailed(
                        "archive entry path escapes the output directory".to_owned(),
                    ),
                );
            }
            entries.push(FileEntry { path, data });
            proof {
                assert(entry_views(entries@) =~= pre.push(
                    FileEntryView { path: path@, data: data@ },
                ));
                assert forall|es2: Seq<FileEntryView>| true implies pre + (seq![
                    FileEntryView { path: path@, data: data@ },
                ] + es2) =~= (pre.push(FileEntryView { path: path@, data: data@ }) + es2) by {}
            }
            p = p2;
            k += 1;
        }
        proof {
            assert(sp_entries_items(b@.skip(p as int), 0nat) == Some(
                (Seq::<FileEntryView>::empty(), 0int),
            ));
            assert(entry_views(entries@) + Seq::<FileEntryView>::empty() =~= entry_views(
                entries@,
            ));
        }
        if p != b.len() {
            return Err(
                CocoatlyError::SerializationError("archive holds trailing bytes".to_owned()),
            );
        }
        Ok(entries)
    }

    /// Lists the entry paths of an archive without extracting it.
    pub fn list_contents(archive: &[u8]) -> (r: Result<Vec<String>, CocoatlyError>)
        ensures
            (match gunzip_of(archive@) {
                Option::Some(p) => match sp_entries_doc(p) {
                    Option::Some(es) => r matches Ok(ps) && ps.deep_view() =~= es.map_values(
                        |e: FileEntryView| e.path,
                    ),
                    Option::None => r is Err,
                },
                Option::None => r is Err,
            }),
    {
        let plain = match gunzip_bytes(archive) {
            Some(v) => v,
            None => {
                return Err(
                    CocoatlyError::SerializationError("archive is not a valid gzip stream".to_owned()),
                );
            },
        };
        let b = plain.as_slice();
        proof {
            assert(b@.skip(0) =~= b@);
        }
        let (count, p0) = match dec_u64(b, 0) {
            Some(x) => x,
            None => {
                return Err(
                    CocoatlyError::SerializationError("archive stream is truncated".to_owned()),
                );
            },
        };
        let mut paths: Vec<String> = Vec::new();
        let mut p: usize = p0;
        let mut k: u64 = 0;
        while k < count
            invariant
                p0 <= p <= b@.len(),
                k <= count,
                b@ == plain@,
                gunzip_of(archive@) == Some(plain@),
                sp_u64(b@) == Some((count, p0 as int)),
                paths@.len() == k as int,
                (match sp_entries_items(b@.skip(p as int), (count - k) as nat) {
                    Option::Some((es2, c2)) => sp_entries_items(b@.skip(p0 as int), count as nat)
                        matches Some((all, call)) && all.map_values(|e: FileEntryView| e.path)
                        =~= paths.deep_view() + es2.map_values(|e: FileEntryView| e.path) && call
                        == (p - p0) + c2,
                    Option::None => sp_entries_items(b@.skip(p0 as int), count as nat) is None,
                }),
            decreases count - k,
        {
            let ghost pre = paths.deep_view();
            let (path, p1) = match dec_string(b, p) {
                Some(x) => x,
                None => {
                    return Err(
                        CocoatlyError::SerializationError("archive entry is malformed".to_owned()),
                    );
                },
            };
            proof {
                lemma_skip_two(b@, p as int, p1 - p as int);
            }
            let (_data, p2) = match dec_bytes(b, p1) {
                Some(x) => x,
                None => {
                    return Err(
                        CocoatlyError::SerializationError("archive entry is malformed".to_owned()),
                    );
                },
            };
            proof {
                lemma_skip_two(b@, p as int, p2 - p as int);
            }
            paths.push(path);
            proof {
                assert(paths.deep_view() =~= pre.push(paths@[k as int]@));
            }
            p = p2;
            k += 1;
        }
        proof {
            assert(sp_entries_items(b@.skip(p as int), 0nat) == Some(
                (Seq::<FileEntryView>::empty(), 0int),
            ));
        }
        if p != b.len() {
            return Err(
                CocoatlyError::SerializationError("archive holds trailing bytes".to_owned()),
            );
        }
        Ok(paths)
    }
}

} // verus!
