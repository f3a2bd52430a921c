//! The version gate: a cache may be consumed only by a tool whose version
//! is compatible with the producing tool's version. Both versions are
//! semantic versions, each optionally carrying a pre-release tag.

use vstd::prelude::*;
use crate::strutil::str_eq;

verus! {

/// A parsed semantic version.
pub struct Version {
    pub major: u64,
    pub minor: u64,
    pub patch: u64,
    pub pre: String,
    pub build: String,
}

/// What semver parsing returns for a given string: the numeric triple and
/// the pre-release and build-metadata tags (empty when absent), or nothing
/// when the string is not a semantic version.
pub uninterp spec fn semver_parse_of(s: Seq<char>) -> Option<(u64, u64, u64, Seq<char>, Seq<char>)>;

/// Relies on semver::Version::parse: deterministic in its input, it yields
/// the version's numeric components and its pre-release and build tags, and
/// fails exactly on strings that are not semantic versions.
#[verifier::external_body]
fn parse_semver(s: &str) -> (r: Option<Version>)
    ensures
        match r {
            Some(v) => semver_parse_of(s@) == Some((v.major, v.minor, v.patch, v.pre@, v.build@)),
            None => semver_parse_of(s@) is None,
        },
{
    match semver::Version::parse(s) {
        Ok(v) => Some(
            Version {
                major: v.major,
                minor: v.minor,
                patch: v.patch,
                pre: v.pre.as_str().to_string(),
                build: v.build.as_str().to_string(),
            },
        ),
        Err(_) => None,
    }
}

/// The compatibility rule between the cache producer's version `k` and the
/// consumer's version `v`: with a pre-release tag on either side only exact
/// equality passes; under major 0 minor 0 the patch must agree; under major
/// 0 the minor must agree; otherwise major and minor must agree. Patch skew
/// is tolerated in both directions within a compatible line.
pub open spec fn spec_version_compatible(k: Version, v: Version) -> bool {
    if k.pre@.len() != 0 || v.pre@.len() != 0 {
        k.major == v.major && k.minor == v.minor && k.patch == v.patch && k.pre@ == v.pre@
            && k.build@ == v.build@
    } else if v.major == 0 && v.minor == 0 {
        k.major == 0 && k.minor == 0 && k.patch == v.patch
    } else if v.major == 0 {
        k.major == 0 && k.minor == v.minor
    } else {
        k.major == v.major && k.minor == v.minor
    }
}

/// The compatibility rule over parsed components.
pub open spec fn spec_parts_compatible(
    k: (u64, u64, u64, Seq<char>, Seq<char>),
    v: (u64, u64, u64, Seq<char>, Seq<char>),
) -> bool {
    if k.3.len() != 0 || v.3.len() != 0 {
        k.0 == v.0 && k.1 == v.1 && k.2 == v.2 && k.3 == v.3 && k.4 == v.4
    } else if v.0 == 0 && v.1 == 0 {
        k.0 == 0 && k.1 == 0 && k.2 == v.2
    } else if v.0 == 0 {
        k.0 == 0 && k.1 == v.1
    } else {
        k.0 == v.0 && k.1 == v.1
    }
}

/// Decides the compatibility rule on two parsed versions.
pub fn version_compatible(k: &Version, v: &Version) -> (r: bool)
    ensures
        r == spec_version_compatible(*k, *v),
{
    if !k.pre.as_str().is_empty() || !v.pre.as_str().is_empty() {
        k.major == v.major && k.minor == v.minor && k.patch == v.patch && str_eq(
            k.pre.as_str(),
            v.pre.as_str(),
        ) && str_eq(k.build.as_str(), v.build.as_str())
    } else if v.major == 0 && v.minor == 0 {
        k.major == 0 && k.minor == 0 && k.patch == v.patch
    } else if v.major == 0 {
        k.major == 0 && k.minor == v.minor
    } else {
        k.major == v.major && k.minor == v.minor
    }
}

/// Decides whether a cache produced by the tool version named first may be
/// consumed by the tool version named second. Nothing is decided when
/// either string is not a semantic version.
pub fn krnlc_version_compatible(krnlc_version: &str, version: &str) -> (r: Option<bool>)
    ensures
        ({
            let pk = semver_parse_of(krnlc_version@);
            let pv = semver_parse_of(version@);
            match (pk, pv) {
                (Some(a), Some(b)) => r == Some(spec_parts_compatible(a, b)),
                _ => r is None,
            }
        }),
{
    let k = match parse_semver(krnlc_version) {
        Some(v) => v,
        None => {
            return None;
        },
    };
    let v = match parse_semver(version) {
        Some(v) => v,
        None => {
            return None;
        },
    };
    Some(version_compatible(&k, &v))
}

} // verus!
