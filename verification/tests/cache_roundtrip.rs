use krnl_macros::cache::{decode_cache, decode_cache_data, encode_cache, CacheError};
use krnl_macros::desc::{Cache, KernelDesc, PushDesc, SliceDesc, SpecDesc};
use krnl_macros::features::Features;
use krnl_macros::scalar::ScalarType;
use std::io::Read;
use zero85::FromZ85;

fn sample_cache() -> Cache {
    Cache {
        version: "0.1.0".to_string(),
        kernels: vec![
            KernelDesc {
                name: "lib::kernels::saxpy".to_string(),
                spirv: vec![0x0723_0203, 42, 7, 0xffff_ffff],
                features: Features::new(0x10001),
                safe: true,
                spec_descs: vec![SpecDesc { name: "N".to_string(), scalar_type: ScalarType::U32 }],
                slice_descs: vec![
                    SliceDesc {
                        name: "x".to_string(),
                        scalar_type: ScalarType::F32,
                        mutable: false,
                        item: false,
                    },
                    SliceDesc {
                        name: "y".to_string(),
                        scalar_type: ScalarType::F32,
                        mutable: true,
                        item: true,
                    },
                ],
                push_descs: vec![PushDesc { name: "alpha".to_string(), scalar_type: ScalarType::F32 }],
            },
            KernelDesc {
                name: "lib::kernéls::fill".to_string(),
                spirv: vec![1, 2, 3],
                features: Features::new(0),
                safe: false,
                spec_descs: vec![],
                slice_descs: vec![],
                push_descs: vec![],
            },
        ],
    }
}

fn assert_descs_equal(a: &KernelDesc, b: &KernelDesc) {
    assert_eq!(a.name, b.name);
    assert_eq!(a.spirv, b.spirv);
    assert_eq!(a.features.bits, b.features.bits);
    assert_eq!(a.safe, b.safe);
    assert_eq!(a.spec_descs.len(), b.spec_descs.len());
    for (x, y) in a.spec_descs.iter().zip(b.spec_descs.iter()) {
        assert_eq!(x.name, y.name);
        assert_eq!(x.scalar_type, y.scalar_type);
    }
    assert_eq!(a.slice_descs.len(), b.slice_descs.len());
    for (x, y) in a.slice_descs.iter().zip(b.slice_descs.iter()) {
        assert_eq!(x.name, y.name);
        assert_eq!(x.scalar_type, y.scalar_type);
        assert_eq!(x.mutable, y.mutable);
        assert_eq!(x.item, y.item);
    }
    assert_eq!(a.push_descs.len(), b.push_descs.len());
    for (x, y) in a.push_descs.iter().zip(b.push_descs.iter()) {
        assert_eq!(x.name, y.name);
        assert_eq!(x.scalar_type, y.scalar_type);
    }
}

#[test]
fn cache_roundtrip_field_for_field() {
    let cache = sample_cache();
    let blob = encode_cache(&cache);
    let back = decode_cache_data(&blob).expect("decoding an encoded cache");
    assert_eq!(back.version, cache.version);
    assert_eq!(back.kernels.len(), cache.kernels.len());
    for (a, b) in back.kernels.iter().zip(cache.kernels.iter()) {
        assert_descs_equal(a, b);
    }
}

#[test]
fn encoded_blob_is_real_z85_and_gzip() {
    // Decode the blob by hand with the outside crates: every chunk must be
    // genuine Z85, the frame length must bound a genuine gzip stream, and
    // the decompressed payload must begin with the length-prefixed version.
    let cache = sample_cache();
    let blob = encode_cache(&cache);
    let mut bytes: Vec<u8> = Vec::new();
    let mut chunks = 0;
    for part in blob.split_ascii_whitespace() {
        bytes.extend_from_slice(&part.from_z85().expect("each chunk is Z85"));
        chunks += 1;
    }
    assert!(chunks > 1);
    let n = u64::from_le_bytes(bytes[0..8].try_into().unwrap()) as usize;
    assert!(8 + n <= bytes.len());
    let compressed = &bytes[8..8 + n];
    let mut payload: Vec<u8> = Vec::new();
    flate2::read::GzDecoder::new(compressed)
        .read_to_end(&mut payload)
        .expect("the frame holds a gzip stream");
    let version_len = u64::from_le_bytes(payload[0..8].try_into().unwrap());
    assert_eq!(version_len, 5);
    assert_eq!(&payload[8..13], b"0.1.0");
}

#[test]
fn decode_rejects_corrupt_blobs() {
    assert!(decode_cache_data("~~~~~").is_none());
    // all-high digits overflow a 32-bit group and are rejected up front
    assert!(decode_cache_data("#####").is_none());
    assert!(decode_cache_data("").is_none());
    let cache = sample_cache();
    let blob = encode_cache(&cache);
    let truncated = &blob[0..blob.len() / 2 - 3];
    assert!(decode_cache_data(truncated).is_none());
}

#[test]
fn decode_cache_checks_version_gate_and_recorded_version() {
    let cache = sample_cache();
    let blob = encode_cache(&cache);
    let ok = decode_cache("0.1.0", "0.1.5", &blob);
    assert!(ok.is_ok());
    match decode_cache("0.2.0", "0.1.0", &blob) {
        Err(CacheError::VersionIncompatible { krnlc_version, version }) => {
            assert_eq!(krnlc_version, "0.2.0");
            assert_eq!(version, "0.1.0");
        }
        _ => panic!("expected a version error"),
    }
    let msg = CacheError::VersionIncompatible {
        krnlc_version: "0.2.0".to_string(),
        version: "0.1.0".to_string(),
    }
    .message();
    assert_eq!(msg, "Cache created by krnlc 0.2.0 is not compatible with krnl 0.1.0!");
    // the blob records 0.1.0, so declaring a different (compatible) producer fails
    match decode_cache("0.1.5", "0.1.0", &blob) {
        Err(CacheError::Format) => {}
        _ => panic!("expected a format error"),
    }
}
