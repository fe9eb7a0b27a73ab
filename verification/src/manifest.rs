//! Manifest field logic: version requirements as they appear in manifest
//! text, and the dependency lists built from them. Reading and writing the
//! manifest document itself is a caller concern; this module owns the
//! grammar of its fields.
use vstd::prelude::*;
use crate::error::CocoatlyError;
use crate::types::{
    spec_version_parse, Dependency, PackageName, Version, VersionRequirement,
};

verus! {

/// The Unicode white-space characters, as `str::trim` removes them.
pub open spec fn is_space(c: char) -> bool {
    ||| c == '\u{9}'
    ||| c == '\u{a}'
    ||| c == '\u{b}'
    ||| c == '\u{c}'
    ||| c == '\u{d}'
    ||| c == ' '
    ||| c == '\u{85}'
    ||| c == '\u{a0}'
    ||| c == '\u{1680}'
    ||| ('\u{2000}' <= c && c <= '\u{200a}')
    ||| c == '\u{2028}'
    ||| c == '\u{2029}'
    ||| c == '\u{202f}'
    ||| c == '\u{205f}'
    ||| c == '\u{3000}'
}

fn is_space_exec(c: char) -> (r: bool)
    ensures
        r == is_space(c),
{
    c == '\u{9}' || c == '\u{a}' || c == '\u{b}' || c == '\u{c}' || c == '\u{d}' || c == ' ' || c
        == '\u{85}' || c == '\u{a0}' || c == '\u{1680}' || ('\u{2000}' <= c && c <= '\u{200a}')
        || c == '\u{2028}' || c == '\u{2029}' || c == '\u{202f}' || c == '\u{205f}' || c
        == '\u{3000}'
}

pub open spec fn trim_front(s: Seq<char>) -> Seq<char>
    decreases s.len(),
{
    if s.len() > 0 && is_space(s[0]) {
        trim_front(s.drop_first())
    } else {
        s
    }
}

pub open spec fn trim_back(s: Seq<char>) -> Seq<char>
    decreases s.len(),
{
    if s.len() > 0 && is_space(s.last()) {
        trim_back(s.drop_last())
    } else {
        s
    }
}

/// What `str::trim` leaves: the text with white space removed at both ends.
pub open spec fn spec_trim(s: Seq<char>) -> Seq<char> {
    trim_back(trim_front(s))
}

/// The bounds of the trimmed text inside `s`.
fn trim_range(s: &str) -> (r: (usize, usize))
    ensures
        r.0 <= r.1 <= s@.len(),
        s@.subrange(r.0 as int, r.1 as int) == spec_trim(s@),
{
    let n = s.unicode_len();
    let mut a: usize = 0;
    proof {
        assert(s@.skip(0) =~= s@);
    }
    while a < n && is_space_exec(s.get_char(a))
        invariant
            a <= n == s@.len(),
            trim_front(s@) == trim_front(s@.skip(a as int)),
        decreases n - a,
    {
        proof {
            assert(s@.skip(a as int)[0] == s@[a as int]);
            assert(s@.skip(a as int).drop_first() =~= s@.skip(a + 1));
        }
        a += 1;
    }
    proof {
        if a < n {
            assert(s@.skip(a as int)[0] == s@[a as int]);
        } else {
            assert(s@.skip(a as int).len() == 0);
        }
        assert(trim_front(s@) == s@.skip(a as int));
    }
    let mut b: usize = n;
    proof {
        assert(s@.skip(a as int).take(n - a as int) =~= s@.skip(a as int));
    }
    while b > a && is_space_exec(s.get_char(b - 1))
        invariant
            a <= b <= n == s@.len(),
            trim_front(s@) == s@.skip(a as int),
            trim_back(s@.skip(a as int)) == trim_back(
                s@.skip(a as int).take(b - a as int),
            ),
        decreases b,
    {
        proof {
            let t = s@.skip(a as int).take(b - a as int);
            assert(t.last() == s@[b - 1]);
            assert(t.drop_last() =~= s@.skip(a as int).take(b - 1 - a as int));
        }
        b -= 1;
    }
    proof {
        let t = s@.skip(a as int).take(b - a as int);
        if b > a {
            assert(t.last() == s@[b - 1]);
        } else {
            assert(t.len() == 0);
        }
        assert(trim_back(t) == t);
        assert(t =~= s@.subrange(a as int, b as int));
    }
    (a, b)
}

/// A version with the given triple and no tags.
pub open spec fn mk_version(t: (u32, u32, u32)) -> Version {
    Version { major: t.0, minor: t.1, patch: t.2, prerelease: None, build: None }
}

/// What a manifest version requirement means: the text is trimmed; `*` or
/// an empty text accepts anything; a `^`, `>=`, `>`, `<=` or `<` prefix
/// qualifies the version after it; bare text is an exact version.
pub open spec fn spec_parse_vreq(s: Seq<char>) -> Option<VersionRequirement> {
    let t = spec_trim(s);
    if t.len() == 0 || t == seq!['*'] {
        Some(VersionRequirement::Any)
    } else if t[0] == '^' {
        match spec_version_parse(t.drop_first()) {
            Option::Some(v) => Some(VersionRequirement::Compatible(mk_version(v))),
            Option::None => None,
        }
    } else if t.len() >= 2 && t[0] == '>' && t[1] == '=' {
        match spec_version_parse(spec_trim(t.skip(2))) {
            Option::Some(v) => Some(VersionRequirement::GreaterThanOrEqual(mk_version(v))),
            Option::None => None,
        }
    } else if t[0] == '>' {
        match spec_version_parse(spec_trim(t.skip(1))) {
            Option::Some(v) => Some(VersionRequirement::GreaterThan(mk_version(v))),
            Option::None => None,
        }
    } else if t.len() >= 2 && t[0] == '<' && t[1] == '=' {
        match spec_version_parse(spec_trim(t.skip(2))) {
            Option::Some(v) => Some(VersionRequirement::LessThanOrEqual(mk_version(v))),
            Option::None => None,
        }
    } else if t[0] == '<' {
        match spec_version_parse(spec_trim(t.skip(1))) {
            Option::Some(v) => Some(VersionRequirement::LessThan(mk_version(v))),
            Option::None => None,
        }
    } else {
        match spec_version_parse(t) {
            Option::Some(v) => Some(VersionRequirement::Exact(mk_version(v))),
            Option::None => None,
        }
    }
}

/// Parses one version requirement as written in a manifest.
pub fn parse_version_requirement(req: &str) -> (r: Result<VersionRequirement, CocoatlyError>)
    ensures
        r matches Ok(v) ==> spec_parse_vreq(req@) == Some(v),
        r is Ok <==> spec_parse_vreq(req@) is Some,
        r matches Err(e) ==> e is InvalidManifest,
{
    let (a, b) = trim_range(req);
    let tstr = req.substring_char(a, b);
    let ghost t = spec_trim(req@);
    let tn = b - a;
    if tn == 0 {
        return Ok(VersionRequirement::Any);
    }
    if tn == 1 && tstr.get_char(0) == '*' {
        proof {
            assert(t =~= seq!['*']);
        }
        return Ok(VersionRequirement::Any);
    }
    proof {
        if t == seq!['*'] {
            assert(t.len() == 1);
            assert(tstr@[0] == '*');
        }
    }
    let c0 = tstr.get_char(0);
    if c0 == '^' {
        let vstr = tstr.substring_char(1, tn);
        proof {
            assert(vstr@ =~= t.drop_first());
        }
        return match Version::parse(vstr) {
            Some(v) => {
                proof {
                    assert(v == mk_version((v.major, v.minor, v.patch)));
                }
                Ok(VersionRequirement::Compatible(v))
            },
            None => Err(
                CocoatlyError::InvalidManifest("Invalid version requirement".to_owned()),
            ),
        };
    }
    if c0 == '>' && tn >= 2 && tstr.get_char(1) == '=' {
        let inner = tstr.substring_char(2, tn);
        proof {
            assert(inner@ =~= t.skip(2));
        }
        let (ia, ib) = trim_range(inner);
        let vstr = inner.substring_char(ia, ib);
        return match Version::parse(vstr) {
            Some(v) => {
                proof {
                    assert(v == mk_version((v.major, v.minor, v.patch)));
                }
                Ok(VersionRequirement::GreaterThanOrEqual(v))
            },
            None => Err(
                CocoatlyError::InvalidManifest("Invalid version requirement".to_owned()),
            ),
        };
    }
    if c0 == '>' {
        let inner = tstr.substring_char(1, tn);
        proof {
            assert(inner@ =~= t.skip(1));
        }
        let (ia, ib) = trim_range(inner);
        let vstr = inner.substring_char(ia, ib);
        return match Version::parse(vstr) {
            Some(v) => {
                proof {
                    assert(v == mk_version((v.major, v.minor, v.patch)));
                }
                Ok(VersionRequirement::GreaterThan(v))
            },
            None => Err(
                CocoatlyError::InvalidManifest("Invalid version requirement".to_owned()),
            ),
        };
    }
    if c0 == '<' && tn >= 2 && tstr.get_char(1) == '=' {
        let inner = tstr.substring_char(2, tn);
        proof {
            assert(inner@ =~= t.skip(2));
        }
        let (ia, ib) = trim_range(inner);
        let vstr = inner.substring_char(ia, ib);
        return match Version::parse(vstr) {
            Some(v) => {
                proof {
                    assert(v == mk_version((v.major, v.minor, v.patch)));
                }
                Ok(VersionRequirement::LessThanOrEqual(v))
            },
            None => Err(
                CocoatlyError::InvalidManifest("Invalid version requirement".to_owned()),
            ),
        };
    }
    if c0 == '<' {
        let inner = tstr.substring_char(1, tn);
        proof {
            assert(inner@ =~= t.skip(1));
        }
        let (ia, ib) = trim_range(inner);
        let vstr = inner.substring_char(ia, ib);
        return match Version::parse(vstr) {
            Some(v) => {
                proof {
                    assert(v == mk_version((v.major, v.minor, v.patch)));
                }
                Ok(VersionRequirement::LessThan(v))
            },
            None => Err(
                CocoatlyError::InvalidManifest("Invalid version requirement".to_owned()),
            ),
        };
    }
    match Version::parse(tstr) {
        Some(v) => {
            proof {
                assert(v == mk_version((v.major, v.minor, v.patch)));
            }
            Ok(VersionRequirement::Exact(v))
        },
        None => Err(CocoatlyError::InvalidManifest("Invalid version requirement".to_owned())),
    }
}

/// Builds dependency entries from name–requirement pairs.
pub fn parse_dependency_list(d: &Vec<(String, String)>) -> (r: Result<
    Vec<Dependency>,
    CocoatlyError,
>)
    ensures
        r is Ok <==> (forall|i: int|
            0 <= i < d@.len() ==> spec_parse_vreq(#[trigger] d@[i].1@) is Some),
        r matches Ok(v) ==> v@.len() == d@.len() && (forall|i: int|
            0 <= i < d@.len() ==> {
                &&& (#[trigger] v@[i]).name@ == d@[i].0@
                &&& Some(v@[i].version_requirement) == spec_parse_vreq(d@[i].1@)
                &&& v@[i].optional == false
                &&& v@[i].features@.len() == 0
            }),
        r matches Err(e) ==> e is InvalidManifest,
{
    let mut out: Vec<Dependency> = Vec::new();
    let n = d.len();
    let mut i: usize = 0;
    while i < n
        invariant
            i <= n == d@.len(),
            out@.len() == i,
            forall|j: int|
                0 <= j < i ==> {
                    &&& (#[trigger] out@[j]).name@ == d@[j].0@
                    &&& Some(out@[j].version_requirement) == spec_parse_vreq(d@[j].1@)
                    &&& out@[j].optional == false
                    &&& out@[j].features@.len() == 0
                },
        decreases n - i,
    {
        let version_requirement = match parse_version_requirement(d[i].1.as_str()) {
            Ok(v) => v,
            Err(e) => {
                return Err(e);
            },
        };
        out.push(
            Dependency {
                name: PackageName(d[i].0.clone()),
                version_requirement,
                optional: false,
                features: Vec::new(),
            },
        );
        i += 1;
    }
    proof {
        assert forall|k: int| 0 <= k < d@.len() implies spec_parse_vreq(
            #[trigger] d@[k].1@,
        ) is Some by {
            assert(Some(out@[k].version_requirement) == spec_parse_vreq(d@[k].1@));
        }
    }
    Ok(out)
}

/// Builds dependency entries from an optional table; an absent table means
/// no dependencies.
pub fn parse_dependencies(deps: &Option<Vec<(String, String)>>) -> (r: Result<
    Vec<Dependency>,
    CocoatlyError,
>)
    ensures
        deps is None ==> (r matches Ok(v) && v@.len() == 0),
        deps matches Some(d) ==> {
            &&& (r is Ok <==> (forall|i: int|
                0 <= i < d@.len() ==> spec_parse_vreq(#[trigger] d@[i].1@) is Some))
            &&& (r matches Ok(v) ==> v@.len() == d@.len() && (forall|i: int|
                0 <= i < d@.len() ==> {
                    &&& (#[trigger] v@[i]).name@ == d@[i].0@
                    &&& Some(v@[i].version_requirement) == spec_parse_vreq(d@[i].1@)
                    &&& v@[i].optional == false
                    &&& v@[i].features@.len() == 0
                }))
            &&& (r matches Err(e) ==> e is InvalidManifest)
        },
{
    match deps {
        Some(d) => parse_dependency_list(d),
        None => Ok(Vec::new()),
    }
}

/// The rendered text of a version requirement.
pub open spec fn spec_vreq_chars(req: VersionRequirement) -> Seq<char> {
    match req {
        VersionRequirement::Exact(v) => crate::types::spec_version_chars(
            v.major,
            v.minor,
            v.patch,
        ),
        VersionRequirement::Compatible(v) => "^"@ + crate::types::spec_version_chars(
            v.major,
            v.minor,
            v.patch,
        ),
        VersionRequirement::GreaterThan(v) => ">"@ + crate::types::spec_version_chars(
            v.major,
            v.minor,
            v.patch,
        ),
        VersionRequirement::GreaterThanOrEqual(v) => ">="@ + crate::types::spec_version_chars(
            v.major,
            v.minor,
            v.patch,
        ),
        VersionRequirement::LessThan(v) => "<"@ + crate::types::spec_version_chars(
            v.major,
            v.minor,
            v.patch,
        ),
        VersionRequirement::LessThanOrEqual(v) => "<="@ + crate::types::spec_version_chars(
            v.major,
            v.minor,
            v.patch,
        ),
        VersionRequirement::Any => "*"@,
        VersionRequirement::Range { min, max } => ">="@ + crate::types::spec_version_chars(
            min.major,
            min.minor,
            min.patch,
        ) + ",<"@ + crate::types::spec_version_chars(max.major, max.minor, max.patch),
    }
}

/// Renders a version requirement as manifest text.
pub fn version_req_to_string(req: &VersionRequirement) -> (r: String)
    ensures
        r@ == spec_vreq_chars(*req),
{
    match req {
        VersionRequirement::Exact(v) => v.to_string(),
        VersionRequirement::Compatible(v) => {
            let mut s = "^".to_owned();
            let vs = v.to_string();
            s.append(vs.as_str());
            s
        },
        VersionRequirement::GreaterThan(v) => {
            let mut s = ">".to_owned();
            let vs = v.to_string();
            s.append(vs.as_str());
            s
        },
        VersionRequirement::GreaterThanOrEqual(v) => {
            let mut s = ">=".to_owned();
            let vs = v.to_string();
            s.append(vs.as_str());
            s
        },
        VersionRequirement::LessThan(v) => {
            let mut s = "<".to_owned();
            let vs = v.to_string();
            s.append(vs.as_str());
            s
        },
        VersionRequirement::LessThanOrEqual(v) => {
            let mut s = "<=".to_owned();
            let vs = v.to_string();
            s.append(vs.as_str());
            s
        },
        VersionRequirement::Any => "*".to_owned(),
        VersionRequirement::Range { min, max } => {
            let mut s = ">=".to_owned();
            let mins = min.to_string();
            s.append(mins.as_str());
            s.append(",<");
            let maxs = max.to_string();
            s.append(maxs.as_str());
            s
        },
    }
}

/// Renders dependency entries back into name–requirement pairs.
pub fn deps_to_map(deps: &Vec<Dependency>) -> (r: Vec<(String, String)>)
    ensures
        r@.len() == deps@.len(),
        forall|i: int|
            0 <= i < deps@.len() ==> (#[trigger] r@[i]).0@ == deps@[i].name@ && r@[i].1@
                == spec_vreq_chars(deps@[i].version_requirement),
{
    let mut out: Vec<(String, String)> = Vec::new();
    let n = deps.len();
    let mut i: usize = 0;
    while i < n
        invariant
            i <= n == deps@.len(),
            out@.len() == i,
            forall|j: int|
                0 <= j < i ==> (#[trigger] out@[j]).0@ == deps@[j].name@ && out@[j].1@
                    == spec_vreq_chars(deps@[j].version_requirement),
        decreases n - i,
    {
        let name = deps[i].name.0.clone();
        let req_text = version_req_to_string(&deps[i].version_requirement);
        out.push((name, req_text));
        i += 1;
    }
    out
}

} // verus!
