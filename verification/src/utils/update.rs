//! Whether a newer version of the tool has been published.
use vstd::prelude::*;

use crate::pkgs::pkg_json::PackageJsonReturn;

verus! {

/// What `semver::Version::parse` of both texts, then `<`, gives: `None` where
/// either text is not a semantic version, else whether the first precedes
/// the second in semantic-version order.
pub uninterp spec fn semver_less(a: Seq<char>, b: Seq<char>) -> Option<bool>;

/// Parses both texts with `semver::Version::parse` and compares them with
/// `<`. The result is named `semver_less` of the two texts. Of it is stated
/// only that a text never precedes itself: parsing is a function of the
/// text, and `<` on `Version` (a derived order over its fields) is strict.
#[verifier::external_body]
fn semver_lt(a: &str, b: &str) -> (r: Option<bool>)
    ensures
        r == semver_less(a@, b@),
        a@ == b@ ==> r != Some(true),
{
    match (semver::Version::parse(a), semver::Version::parse(b)) {
        (Ok(x), Ok(y)) => Some(x < y),
        _ => None,
    }
}

/// The outcome of comparing the running version with the published one.
pub enum UpdateCheck {
    /// The registry gave no `latest` version.
    NoLatest,
    /// One of the two versions is not a semantic version.
    BadVersion,
    /// The running version is not older than the published one.
    UpToDate,
    /// A newer version has been published.
    Outdated,
}

/// The outcome of comparing the running version `current` with what the
/// registry gave for `latest`.
pub open spec fn update_check_of(current: Seq<char>, latest: PackageJsonReturn) -> UpdateCheck {
    match latest {
        PackageJsonReturn::Version(v) => match semver_less(current, v.version@) {
            None => UpdateCheck::BadVersion,
            Some(true) => UpdateCheck::Outdated,
            Some(false) => UpdateCheck::UpToDate,
        },
        _ => UpdateCheck::NoLatest,
    }
}

/// Compares the running version `current` with the published one, as
/// `update_check_of` says.
pub fn check_update(current: &str, latest: &PackageJsonReturn) -> (r: UpdateCheck)
    ensures
        r == update_check_of(current@, *latest),
        latest matches PackageJsonReturn::Version(v) ==> ((r is Outdated) <==> semver_less(
            current@,
            v.version@,
        ) == Some(true)),
        latest matches PackageJsonReturn::Version(v) ==> ((r is BadVersion) <==> semver_less(
            current@,
            v.version@,
        ) is None),
        latest matches PackageJsonReturn::Version(v) ==> (v.version@ == current@ ==> !(r is Outdated)),
        !(latest is Version) ==> r is NoLatest,
{
    match latest {
        PackageJsonReturn::Version(v) => match semver_lt(current, v.version.as_str()) {
            None => UpdateCheck::BadVersion,
            Some(true) => UpdateCheck::Outdated,
            Some(false) => UpdateCheck::UpToDate,
        },
        _ => UpdateCheck::NoLatest,
    }
}


/// A newer version is announced exactly when the running version precedes
/// the published one in semantic-version order; when both parse and the
/// running one does not precede, it is up to date; a version that does not
/// parse is reported as such; and without a published version there is
/// nothing to compare.
pub proof fn law_update_outdated_exactly_when_older(current: Seq<char>, latest: PackageJsonReturn)
    ensures
        latest matches PackageJsonReturn::Version(v) ==> ((update_check_of(current, latest) is Outdated)
            <==> semver_less(current, v.version@) == Some(true)),
        latest matches PackageJsonReturn::Version(v) ==> ((update_check_of(current, latest) is UpToDate)
            <==> semver_less(current, v.version@) == Some(false)),
        latest matches PackageJsonReturn::Version(v) ==> ((update_check_of(current, latest) is BadVersion)
            <==> semver_less(current, v.version@) is None),
        !(latest is Version) ==> update_check_of(current, latest) is NoLatest,
{
}

} // verus!
