//! The cache protocol end to end: encoding a completed-descriptor
//! collection into the embeddable blob, and consuming one — version gate,
//! decode, and the producer-version consistency check.

use vstd::prelude::*;
use vstd::string::StrSliceExecFns;
use vstd::string::StringExecFns;
use crate::blob::{decode_blob, encode_blob, gz_compress, gz_decompress, gz_unzip_of, spec_decode_blob};
use crate::codec::{cache_v_wf, decode_cache_bytes, encode_cache_bytes, lemma_cache_roundtrip, spec_decode_bytes};
use crate::desc::{Cache, CacheV};
use crate::strutil::str_eq;
use crate::version::{krnlc_version_compatible, semver_parse_of, spec_parts_compatible};

verus! {

/// A failure while consuming an embedded cache.
pub enum CacheError {
    /// A malformed chunk, stream or serialization, or a producer version
    /// recorded inside the blob that differs from the declared one: always
    /// a corrupted or mismatched build artifact.
    Format,
    /// The producing tool's version is not compatible with the consumer's,
    /// or one of the two is not a semantic version.
    VersionIncompatible { krnlc_version: String, version: String },
}

impl CacheError {
    /// The diagnostic text of the failure.
    pub fn message(&self) -> (r: String)
        ensures
            match self {
                CacheError::Format => r@ == "invalid kernel cache!"@,
                CacheError::VersionIncompatible { krnlc_version, version } => r@
                    == "Cache created by krnlc "@ + krnlc_version@
                    + " is not compatible with krnl "@ + version@ + "!"@,
            },
    {
        match self {
            CacheError::Format => ("invalid kernel cache!").to_owned(),
            CacheError::VersionIncompatible { krnlc_version, version } => {
                let mut r: String = ("Cache created by krnlc ").to_owned();
                r.append(krnlc_version.as_str());
                r.append(" is not compatible with krnl ");
                r.append(version.as_str());
                r.append("!");
                r
            },
        }
    }
}

/// Whether the version gate passes: both strings parse as semantic
/// versions and the compatibility rule holds.
pub open spec fn spec_gate_ok(k: Seq<char>, v: Seq<char>) -> bool {
    match (semver_parse_of(k), semver_parse_of(v)) {
        (Some(a), Some(b)) => spec_parts_compatible(a, b),
        _ => false,
    }
}

/// The full decode pipeline of an embedded data string: split and decode
/// the chunks, decompress, deserialize.
pub open spec fn spec_decode_cache_data(s: Seq<char>) -> Option<CacheV> {
    match spec_decode_blob(s) {
        Some(comp) => match gz_unzip_of(comp) {
            Some(payload) => spec_decode_bytes(payload),
            None => None,
        },
        None => None,
    }
}

/// Encodes a completed-descriptor collection into the embeddable blob:
/// serialize, compress, frame, cut into chunks, encode each chunk, join
/// with whitespace. Decoding the result yields the collection back, field
/// for field, program bytes included.
pub fn encode_cache(c: &Cache) -> (r: String)
    ensures
        cache_v_wf(c@) ==> spec_decode_cache_data(r@) == Some(c@),
{
    let bytes = encode_cache_bytes(c);
    proof {
        if cache_v_wf(c@) {
            lemma_cache_roundtrip(c@);
        }
    }
    let comp = gz_compress(&bytes);
    encode_blob(&comp)
}

/// Runs the decode pipeline on an embedded data string.
pub fn decode_cache_data(data: &str) -> (r: Option<Cache>)
    ensures
        match r {
            Some(c) => spec_decode_cache_data(data@) == Some(c@),
            None => spec_decode_cache_data(data@) is None,
        },
{
    let comp = match decode_blob(data) {
        Some(v) => v,
        None => {
            return None;
        },
    };
    let payload = match gz_decompress(&comp) {
        Some(v) => v,
        None => {
            return None;
        },
    };
    decode_cache_bytes(&payload)
}

/// Consumes an embedded cache: the version gate must pass, the data must
/// decode, and the producer version recorded inside the blob must equal the
/// declared one.
pub fn decode_cache(krnlc_version: &str, version: &str, data: &str) -> (r: Result<
    Cache,
    CacheError,
>)
    ensures
        match r {
            Ok(c) => spec_gate_ok(krnlc_version@, version@) && spec_decode_cache_data(data@)
                == Some(c@) && c@.version == krnlc_version@,
            Err(e) => match e {
                CacheError::VersionIncompatible { krnlc_version: kv, version: vv } => !spec_gate_ok(
                    krnlc_version@,
                    version@,
                ) && kv@ == krnlc_version@ && vv@ == version@,
                CacheError::Format => spec_gate_ok(krnlc_version@, version@) && (match
                    spec_decode_cache_data(data@) {
                    None => true,
                    Some(cv) => cv.version != krnlc_version@,
                }),
            },
        },
{
    let compatible = match krnlc_version_compatible(krnlc_version, version) {
        Some(b) => b,
        None => false,
    };
    if !compatible {
        return Err(
            CacheError::VersionIncompatible {
                krnlc_version: krnlc_version.to_owned(),
                version: version.to_owned(),
            },
        );
    }
    let cache = match decode_cache_data(data) {
        Some(c) => c,
        None => {
            return Err(CacheError::Format);
        },
    };
    if !str_eq(cache.version.as_str(), krnlc_version) {
        return Err(CacheError::Format);
    }
    Ok(cache)
}

} // verus!
