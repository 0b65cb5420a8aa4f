//! The decisions of the self-update: the platform's release asset, how the
//! running version compares with the latest release, and what to do about it.
//! Fetching, unpacking and installing are the caller's.

use vstd::prelude::*;
use core::cmp::Ordering;
use crate::text::{strip_leading, strip_leading_char};

verus! {

#[verifier::external_type_specification]
#[verifier::external_body]
pub struct ExSemverVersion(semver::Version);

#[verifier::external_type_specification]
#[verifier::external_body]
pub struct ExSemverError(semver::Error);

/// Whether `semver::Version::parse` accepts the text as a version.
pub uninterp spec fn semver_accepts(text: Seq<char>) -> bool;

/// Relies on `semver::Version::parse`: whether it succeeds depends on the text
/// alone.
#[verifier::external_body]
fn parse_version(text: &str) -> (r: Result<semver::Version, semver::Error>)
    ensures
        r is Ok <==> semver_accepts(text@),
{
    semver::Version::parse(text)
}

/// How `semver::Version`'s order ranks the versions that two texts parse to.
pub uninterp spec fn semver_order(a: Seq<char>, b: Seq<char>) -> Ordering;

/// Relies on `semver::Version::parse` on both texts and the derived `Ord` of
/// `semver::Version` (major, minor, patch, pre-release, build): the order
/// depends on the two texts alone.
#[verifier::external_body]
fn order_texts(a: &str, b: &str) -> (r: Option<Ordering>)
    ensures
        (r is Some) == (semver_accepts(a@) && semver_accepts(b@)),
        r is Some ==> r == Some(semver_order(a@, b@)),
{
    match (semver::Version::parse(a), semver::Version::parse(b)) {
        (Ok(x), Ok(y)) => Some(x.cmp(&y)),
        _ => None,
    }
}

/// Which of two versions failed to parse.
#[derive(Debug, PartialEq, Eq, Structural, Clone, Copy)]
pub enum VersionError {
    Current,
    Latest,
}

/// How the running version compares with the latest release. A leading `v` is
/// ignored on both.
pub fn compare_versions(current: &str, latest: &str) -> (r: Result<Ordering, VersionError>)
    ensures
        match r {
            Ok(o) => semver_accepts(strip_leading(current@, 'v')) && semver_accepts(
                strip_leading(latest@, 'v'),
            ) && o == semver_order(strip_leading(current@, 'v'), strip_leading(latest@, 'v')),
            Err(VersionError::Current) => !semver_accepts(strip_leading(current@, 'v')),
            Err(VersionError::Latest) => semver_accepts(strip_leading(current@, 'v'))
                && !semver_accepts(strip_leading(latest@, 'v')),
        },
{
    let c = strip_leading_char(current, 'v');
    let l = strip_leading_char(latest, 'v');
    match order_texts(c.as_str(), l.as_str()) {
        Some(o) => Ok(o),
        None => if parse_version(c.as_str()).is_ok() {
            Err(VersionError::Latest)
        } else {
            Err(VersionError::Current)
        },
    }
}

/// The release's platform name for an operating system and architecture as
/// Rust names them; `None` where no release is built for it.
pub open spec fn platform_of(os: Seq<char>, arch: Seq<char>) -> Option<Seq<char>> {
    let o = if os == "linux"@ {
        Some("Linux"@)
    } else if os == "macos"@ {
        Some("macOS"@)
    } else {
        None
    };
    let a = if arch == "x86_64"@ {
        Some("X64"@)
    } else if arch == "aarch64"@ {
        Some("ARM64"@)
    } else {
        None
    };
    match (o, a) {
        (Some(x), Some(y)) => Some(x + "-"@ + y),
        _ => None,
    }
}

fn same_text(a: &str, b: &str) -> (r: bool)
    ensures
        r == (a@ == b@),
{
    String::from_str(a) == String::from_str(b)
}

/// The release's platform name for an operating system and architecture.
pub fn detect_platform(os: &str, arch: &str) -> (r: Option<String>)
    ensures
        match r {
            Some(p) => platform_of(os@, arch@) == Some(p@),
            None => platform_of(os@, arch@) is None,
        },
{
    let o = if same_text(os, "linux") {
        "Linux"
    } else if same_text(os, "macos") {
        "macOS"
    } else {
        return None;
    };
    let a = if same_text(arch, "x86_64") {
        "X64"
    } else if same_text(arch, "aarch64") {
        "ARM64"
    } else {
        return None;
    };
    let mut out = String::from_str(o);
    out.append("-");
    out.append(a);
    Some(out)
}

/// The name of the release asset for a tag and platform.
pub open spec fn asset_name_of(tag: Seq<char>, platform: Seq<char>) -> Seq<char> {
    "ccm-"@ + tag + "-"@ + platform + ".tar.gz"@
}

/// The name of the release asset for a tag and platform.
pub fn asset_name(tag: &str, platform: &str) -> (r: String)
    ensures
        r@ == asset_name_of(tag@, platform@),
{
    let mut out = String::from_str("ccm-");
    out.append(tag);
    out.append("-");
    out.append(platform);
    out.append(".tar.gz");
    out
}

/// What the update does once the versions are compared.
#[derive(Debug)]
pub enum UpdatePlan {
    /// The running version is the latest.
    UpToDate,
    /// The running version is newer than the latest release.
    AheadOfRelease,
    /// A newer release exists; only a check was asked for.
    Available,
    /// Install the asset at this index.
    Install(usize),
    /// No asset of the release has the expected name.
    NoAsset(String),
}

/// Decides what the update does, given how the running version compares with
/// the latest release and the names of the release's assets.
pub fn plan_update(
    order: Ordering,
    check_only: bool,
    tag: &str,
    platform: &str,
    assets: &Vec<String>,
) -> (r: UpdatePlan)
    ensures
        match order {
            Ordering::Equal => r is UpToDate,
            Ordering::Greater => r is AheadOfRelease,
            Ordering::Less => if check_only {
                r is Available
            } else {
                match r {
                    UpdatePlan::Install(i) => i < assets.len() && assets@[i as int]@
                        == asset_name_of(tag@, platform@) && forall|j: int|
                        0 <= j < i ==> assets@[j]@ != asset_name_of(tag@, platform@),
                    UpdatePlan::NoAsset(n) => n@ == asset_name_of(tag@, platform@) && forall|j: int|
                        0 <= j < assets.len() ==> assets@[j]@ != asset_name_of(tag@, platform@),
                    _ => false,
                }
            },
        },
{
    match order {
        Ordering::Equal => UpdatePlan::UpToDate,
        Ordering::Greater => UpdatePlan::AheadOfRelease,
        Ordering::Less => {
            if check_only {
                return UpdatePlan::Available;
            }
            let expected = asset_name(tag, platform);
            let mut i: usize = 0;
            while i < assets.len()
                invariant
                    i <= assets.len(),
                    expected@ == asset_name_of(tag@, platform@),
                    order == Ordering::Less,
                    !check_only,
                    forall|j: int| 0 <= j < i ==> assets@[j]@ != expected@,
                decreases assets.len() - i,
            {
                if assets[i] == expected {
                    return UpdatePlan::Install(i);
                }
                i += 1;
            }
            UpdatePlan::NoAsset(expected)
        },
    }
}

} // verus!
