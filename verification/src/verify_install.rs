//! Verification of an installed package against the filesystem: every owned
//! file must still exist under the install path. Repair re-validates and
//! fails loudly when files are missing — contents cannot be rebuilt without
//! re-downloading, and pretending otherwise would hide corruption.
use vstd::prelude::*;
use crate::error::CocoatlyError;
use crate::state::GlobalState;
use crate::strutil::contains_str;
use crate::types::PackageName;
use crate::verify::contains_string;

verus! {

/// The outcome of verifying one installed package.
#[derive(Debug)]
pub struct VerificationResult {
    pub package: PackageName,
    pub valid: bool,
    pub missing_files: Vec<String>,
    pub corrupted_files: Vec<String>,
}

/// The owned files that are not among the present ones, in recorded order.
pub open spec fn missing_of(files: Seq<Seq<char>>, present: Seq<Seq<char>>) -> Seq<Seq<char>>
    decreases files.len(),
{
    if files.len() == 0 {
        Seq::empty()
    } else {
        missing_of(files.take(files.len() - 1), present) + (if contains_str(
            present,
            files.last(),
        ) {
            Seq::empty()
        } else {
            seq![files.last()]
        })
    }
}

/// A deleted owned file shows up in the missing list.
pub proof fn lemma_missing_reports_deleted(files: Seq<Seq<char>>, present: Seq<Seq<char>>, i: int)
    requires
        0 <= i < files.len(),
        !contains_str(present, files[i]),
    ensures
        contains_str(missing_of(files, present), files[i]),
    decreases files.len(),
{
    if i == files.len() - 1 {
        let m = missing_of(files, present);
        assert(m.last() == files[i]);
        assert(0 <= m.len() - 1 < m.len() && m[m.len() - 1] == files[i]);
    } else {
        lemma_missing_reports_deleted(files.take(files.len() - 1), present, i);
        let pre = missing_of(files.take(files.len() - 1), present);
        let k = choose|k: int| 0 <= k < pre.len() && pre[k] == files.take(files.len() - 1)[i];
        assert(missing_of(files, present)[k] == pre[k]);
    }
}

/// Computes the missing list.
fn compute_missing(files: &Vec<String>, present: &Vec<String>) -> (r: Vec<String>)
    ensures
        r.deep_view() == missing_of(files.deep_view(), present.deep_view()),
{
    let mut out: Vec<String> = Vec::new();
    let n = files.len();
    let mut i: usize = 0;
    while i < n
        invariant
            i <= n == files@.len(),
            out.deep_view() =~= missing_of(
                files.deep_view().take(i as int),
                present.deep_view(),
            ),
        decreases n - i,
    {
        let ghost fv = files.deep_view();
        let ghost pre = out.deep_view();
        proof {
            assert(fv.take(i + 1).take(i as int) =~= fv.take(i as int));
            assert(fv.take(i + 1).last() == fv[i as int]);
        }
        if !contains_string(present, files[i].as_str()) {
            out.push(files[i].clone());
            proof {
                assert(out.deep_view() =~= pre.push(fv[i as int]));
                assert(pre.push(fv[i as int]) =~= pre + seq![fv[i as int]]);
            }
        } else {
            proof {
                assert(pre + Seq::<Seq<char>>::empty() =~= pre);
            }
        }
        i += 1;
    }
    proof {
        assert(files.deep_view().take(n as int) =~= files.deep_view());
    }
    out
}

/// Verifies an installed package: the record must exist; when the install
/// path itself is gone every owned file counts as missing, otherwise the
/// owned files are checked against the files actually present. The result
/// is valid exactly when nothing is missing and nothing is corrupted;
/// corruption detection is reserved, so that list is always empty here.
pub fn verify_installation(
    state: &GlobalState,
    name: &PackageName,
    install_path_exists: bool,
    present_files: &Vec<String>,
) -> (r: Result<VerificationResult, CocoatlyError>)
    requires
        state.wf(),
    ensures
        r is Ok <==> state.spec_get(name@) is Some,
        r matches Err(e) ==> e is PackageNotFound,
        r matches Ok(v) ==> (state.spec_get(name@) matches Some(p) && {
            &&& v.package@ == name@
            &&& v.corrupted_files@.len() == 0
            &&& (!install_path_exists ==> v.missing_files.deep_view() == p.files.deep_view())
            &&& (install_path_exists ==> v.missing_files.deep_view() == missing_of(
                p.files.deep_view(),
                present_files.deep_view(),
            ))
            &&& v.valid == (v.missing_files@.len() == 0 && install_path_exists)
        }),
{
    let package = match state.get_package(name) {
        Some(p) => p,
        None => {
            return Err(CocoatlyError::PackageNotFound(name.as_str().to_owned()));
        },
    };
    if !install_path_exists {
        let missing = crate::types::dup_strings(&package.files);
        let valid = missing.len() == 0 && false;
        return Ok(
            VerificationResult {
                package: name.duplicate(),
                valid,
                missing_files: missing,
                corrupted_files: Vec::new(),
            },
        );
    }
    let missing = compute_missing(&package.files, present_files);
    let valid = missing.len() == 0;
    proof {
        assert(missing@.len() == missing.deep_view().len());
    }
    Ok(
        VerificationResult {
            package: name.duplicate(),
            valid,
            missing_files: missing,
            corrupted_files: Vec::new(),
        },
    )
}

/// Re-validates a package and refuses to pretend success: missing files
/// cannot be repaired locally, so they surface as a verification failure.
pub fn repair_package(
    state: &GlobalState,
    name: &PackageName,
    install_path_exists: bool,
    present_files: &Vec<String>,
) -> (r: Result<(), CocoatlyError>)
    requires
        state.wf(),
    ensures
        r is Ok <==> (state.spec_get(name@) matches Some(p) && install_path_exists && missing_of(
            p.files.deep_view(),
            present_files.deep_view(),
        ).len() == 0),
        state.spec_get(name@) is None ==> (r matches Err(e) && e is PackageNotFound),
        (r is Err && state.spec_get(name@) is Some) ==> (r matches Err(e)
            && e is VerificationFailed),
{
    let verification = match verify_installation(state, name, install_path_exists, present_files) {
        Ok(v) => v,
        Err(e) => {
            return Err(e);
        },
    };
    if verification.valid {
        return Ok(());
    }
    proof {
        match state.spec_get(name@) {
            Some(p) => {
                if install_path_exists && missing_of(
                    p.files.deep_view(),
                    present_files.deep_view(),
                ).len() == 0 {
                    assert(verification.missing_files@.len()
                        == verification.missing_files.deep_view().len());
                }
            },
            None => {},
        }
    }
    Err(CocoatlyError::VerificationFailed("package has missing files".to_owned()))
}

} // verus!
