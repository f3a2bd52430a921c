//! The compact binary serialization of completed kernel descriptors: the
//! byte format written into the cache blob before compression, and the
//! parser that reads it back. Integers are little-endian; strings are
//! length-prefixed UTF-8; scalar types round-trip through their name-based
//! textual encoding.

use vstd::prelude::*;
use vstd::string::StrSliceExecFns;
use vstd::utf8::{decode_utf8, encode_utf8, valid_utf8};
use crate::desc::{Cache, CacheV, KernelDesc, KernelDescV, PushDesc, PushDescV, SliceDesc, SliceDescV, SpecDesc, SpecDescV};
use crate::scalar::{scalar_upper_name, spec_scalar_from_str, ScalarType};

verus! {

/// The little-endian bytes of a 32-bit word.
pub open spec fn ser_u32(x: u32) -> Seq<u8> {
    seq![
        (x & 0xff) as u8,
        ((x >> 8) & 0xff) as u8,
        ((x >> 16) & 0xff) as u8,
        ((x >> 24) & 0xff) as u8,
    ]
}

/// The little-endian bytes of a 64-bit word.
pub open spec fn ser_u64(x: u64) -> Seq<u8> {
    seq![
        (x & 0xff) as u8,
        ((x >> 8) & 0xff) as u8,
        ((x >> 16) & 0xff) as u8,
        ((x >> 24) & 0xff) as u8,
        ((x >> 32) & 0xff) as u8,
        ((x >> 40) & 0xff) as u8,
        ((x >> 48) & 0xff) as u8,
        ((x >> 56) & 0xff) as u8,
    ]
}

/// A 32-bit word read back from four little-endian bytes.
pub open spec fn u32_from_le(b0: u8, b1: u8, b2: u8, b3: u8) -> u32 {
    (b0 as u32) | (b1 as u32) << 8 | (b2 as u32) << 16 | (b3 as u32) << 24
}

/// A 64-bit word read back from eight little-endian bytes.
pub open spec fn u64_from_le(
    b0: u8,
    b1: u8,
    b2: u8,
    b3: u8,
    b4: u8,
    b5: u8,
    b6: u8,
    b7: u8,
) -> u64 {
    (b0 as u64) | (b1 as u64) << 8 | (b2 as u64) << 16 | (b3 as u64) << 24 | (b4 as u64) << 32 | (
    b5 as u64) << 40 | (b6 as u64) << 48 | (b7 as u64) << 56
}

/// Reading four little-endian bytes undoes writing them.
pub proof fn lemma_u32_le_roundtrip(x: u32)
    ensures
        u32_from_le(
            (x & 0xff) as u8,
            ((x >> 8) & 0xff) as u8,
            ((x >> 16) & 0xff) as u8,
            ((x >> 24) & 0xff) as u8,
        ) == x,
{
    let b0 = (x & 0xff) as u8;
    let b1 = ((x >> 8) & 0xff) as u8;
    let b2 = ((x >> 16) & 0xff) as u8;
    let b3 = ((x >> 24) & 0xff) as u8;
    assert((b0 as u32) | (b1 as u32) << 8 | (b2 as u32) << 16 | (b3 as u32) << 24 == x)
        by (bit_vector)
        requires
            b0 == (x & 0xff) as u8 && b1 == ((x >> 8) & 0xff) as u8 && b2 == ((x >> 16)
                & 0xff) as u8 && b3 == ((x >> 24) & 0xff) as u8,
    ;
}

/// Reading eight little-endian bytes undoes writing them.
pub proof fn lemma_u64_le_roundtrip(x: u64)
    ensures
        u64_from_le(
            (x & 0xff) as u8,
            ((x >> 8) & 0xff) as u8,
            ((x >> 16) & 0xff) as u8,
            ((x >> 24) & 0xff) as u8,
            ((x >> 32) & 0xff) as u8,
            ((x >> 40) & 0xff) as u8,
            ((x >> 48) & 0xff) as u8,
            ((x >> 56) & 0xff) as u8,
        ) == x,
{
    let b0 = (x & 0xff) as u8;
    let b1 = ((x >> 8) & 0xff) as u8;
    let b2 = ((x >> 16) & 0xff) as u8;
    let b3 = ((x >> 24) & 0xff) as u8;
    let b4 = ((x >> 32) & 0xff) as u8;
    let b5 = ((x >> 40) & 0xff) as u8;
    let b6 = ((x >> 48) & 0xff) as u8;
    let b7 = ((x >> 56) & 0xff) as u8;
    assert((b0 as u64) | (b1 as u64) << 8 | (b2 as u64) << 16 | (b3 as u64) << 24 | (b4 as u64)
        << 32 | (b5 as u64) << 40 | (b6 as u64) << 48 | (b7 as u64) << 56 == x) by (bit_vector)
        requires
            b0 == (x & 0xff) as u8 && b1 == ((x >> 8) & 0xff) as u8 && b2 == ((x >> 16)
                & 0xff) as u8 && b3 == ((x >> 24) & 0xff) as u8 && b4 == ((x >> 32) & 0xff) as u8
                && b5 == ((x >> 40) & 0xff) as u8 && b6 == ((x >> 48) & 0xff) as u8 && b7 == ((x
                >> 56) & 0xff) as u8,
    ;
}

/// One byte for a boolean.
pub open spec fn ser_bool(b: bool) -> Seq<u8> {
    seq![if b { 1u8 } else { 0u8 }]
}

/// A length-prefixed UTF-8 string.
pub open spec fn ser_str(s: Seq<char>) -> Seq<u8> {
    ser_u64(encode_utf8(s).len() as u64) + encode_utf8(s)
}

/// A scalar type, serialized as its upper-case name.
pub open spec fn ser_scalar(st: ScalarType) -> Seq<u8> {
    ser_str(scalar_upper_name(st))
}

/// Parsing a 32-bit word at `pos`.
pub open spec fn parse_u32(b: Seq<u8>, pos: int) -> Option<(u32, int)> {
    if 0 <= pos && pos + 4 <= b.len() {
        Some((u32_from_le(b[pos], b[pos + 1], b[pos + 2], b[pos + 3]), pos + 4))
    } else {
        None
    }
}

/// Parsing a 64-bit word at `pos`.
pub open spec fn parse_u64(b: Seq<u8>, pos: int) -> Option<(u64, int)> {
    if 0 <= pos && pos + 8 <= b.len() {
        Some(
            (
                u64_from_le(
                    b[pos],
                    b[pos + 1],
                    b[pos + 2],
                    b[pos + 3],
                    b[pos + 4],
                    b[pos + 5],
                    b[pos + 6],
                    b[pos + 7],
                ),
                pos + 8,
            ),
        )
    } else {
        None
    }
}

/// Parsing one boolean byte at `pos`: only 0 and 1 are accepted.
pub open spec fn parse_bool(b: Seq<u8>, pos: int) -> Option<(bool, int)> {
    if 0 <= pos && pos + 1 <= b.len() {
        if b[pos] == 1u8 {
            Some((true, pos + 1))
        } else if b[pos] == 0u8 {
            Some((false, pos + 1))
        } else {
            None
        }
    } else {
        None
    }
}

/// Parsing a length-prefixed UTF-8 string at `pos`.
pub open spec fn parse_str(b: Seq<u8>, pos: int) -> Option<(Seq<char>, int)> {
    match parse_u64(b, pos) {
        None => None,
        Some((n, p)) => if p + n <= b.len() && valid_utf8(b.subrange(p, p + n)) {
            Some((decode_utf8(b.subrange(p, p + n)), p + n as int))
        } else {
            None
        },
    }
}

/// Parsing a scalar type at `pos`: a string recognized by name.
pub open spec fn parse_scalar(b: Seq<u8>, pos: int) -> Option<(ScalarType, int)> {
    match parse_str(b, pos) {
        None => None,
        Some((s, p)) => match spec_scalar_from_str(s) {
            Some(st) => Some((st, p)),
            None => None,
        },
    }
}

/// Parsing a word at `pos` reads back exactly what was written there.
pub proof fn lemma_parse_u32(b: Seq<u8>, pos: int, x: u32)
    requires
        0 <= pos,
        pos + 4 <= b.len(),
        b.subrange(pos, pos + 4) == ser_u32(x),
    ensures
        parse_u32(b, pos) == Some((x, pos + 4)),
{
    let sub = b.subrange(pos, pos + 4);
    assert(b[pos] == sub[0] && b[pos + 1] == sub[1] && b[pos + 2] == sub[2] && b[pos + 3]
        == sub[3]);
    lemma_u32_le_roundtrip(x);
}

/// Parsing a word at `pos` reads back exactly what was written there.
pub proof fn lemma_parse_u64(b: Seq<u8>, pos: int, x: u64)
    requires
        0 <= pos,
        pos + 8 <= b.len(),
        b.subrange(pos, pos + 8) == ser_u64(x),
    ensures
        parse_u64(b, pos) == Some((x, pos + 8)),
{
    let sub = b.subrange(pos, pos + 8);
    assert(b[pos] == sub[0] && b[pos + 1] == sub[1] && b[pos + 2] == sub[2] && b[pos + 3] == sub[3]
        && b[pos + 4] == sub[4] && b[pos + 5] == sub[5] && b[pos + 6] == sub[6] && b[pos + 7]
        == sub[7]);
    lemma_u64_le_roundtrip(x);
}

/// Parsing a boolean byte reads back exactly what was written there.
pub proof fn lemma_parse_bool(b: Seq<u8>, pos: int, x: bool)
    requires
        0 <= pos,
        pos + 1 <= b.len(),
        b.subrange(pos, pos + 1) == ser_bool(x),
    ensures
        parse_bool(b, pos) == Some((x, pos + 1)),
{
    let sub = b.subrange(pos, pos + 1);
    assert(b[pos] == sub[0]);
}

/// Parsing a string reads back exactly what was written there.
pub proof fn lemma_parse_str(b: Seq<u8>, pos: int, s: Seq<char>)
    requires
        0 <= pos,
        encode_utf8(s).len() < 0x1_0000_0000_0000_0000,
        pos + ser_str(s).len() <= b.len(),
        b.subrange(pos, pos + ser_str(s).len()) == ser_str(s),
    ensures
        parse_str(b, pos) == Some((s, pos + ser_str(s).len())),
{
    let u = encode_utf8(s);
    let n = u.len() as u64;
    let total = ser_str(s).len();
    assert(b.subrange(pos, pos + 8) =~= ser_u64(n)) by {
        assert(forall|i: int|
            0 <= i < 8 ==> b.subrange(pos, pos + total as int)[i] == ser_u64(n)[i]);
    }
    lemma_parse_u64(b, pos, n);
    let p = pos + 8;
    assert(b.subrange(p, p + n as int) =~= u) by {
        assert(forall|i: int|
            0 <= i < u.len() ==> b.subrange(pos, pos + total as int)[8 + i] == u[i]);
    }
    vstd::utf8::encode_utf8_valid_utf8(s);
    vstd::utf8::encode_utf8_decode_utf8(s);
}

/// Every scalar type is recognized by its upper-case name.
pub proof fn lemma_scalar_from_upper_name(st: ScalarType)
    ensures
        spec_scalar_from_str(scalar_upper_name(st)) == Some(st),
{
    reveal_strlit("U8");
    reveal_strlit("u8");
    reveal_strlit("I8");
    reveal_strlit("i8");
    reveal_strlit("U16");
    reveal_strlit("u16");
    reveal_strlit("I16");
    reveal_strlit("i16");
    reveal_strlit("F16");
    reveal_strlit("f16");
    reveal_strlit("BF16");
    reveal_strlit("bf16");
    reveal_strlit("U32");
    reveal_strlit("u32");
    reveal_strlit("I32");
    reveal_strlit("i32");
    reveal_strlit("F32");
    reveal_strlit("f32");
    reveal_strlit("U64");
    reveal_strlit("u64");
    reveal_strlit("I64");
    reveal_strlit("i64");
    reveal_strlit("F64");
    reveal_strlit("f64");
    match st {
        ScalarType::U8 => {
            assert(spec_scalar_from_str("U8"@) == Some(ScalarType::U8));
        },
        ScalarType::I8 => {
    assert("I8"@ != "U8"@) by {
        assert("I8"@[0] == 'I');
        assert("U8"@[0] == 'U');
    }
    assert("I8"@ != "u8"@) by {
        assert("I8"@[0] == 'I');
        assert("u8"@[0] == 'u');
    }
            assert(spec_scalar_from_str("I8"@) == Some(ScalarType::I8));
        },
        ScalarType::U16 => {
    assert("U16"@ != "U8"@) by {
        assert("U16"@.len() == 3);
        assert("U8"@.len() == 2);
    }
    assert("U16"@ != "u8"@) by {
        assert("U16"@.len() == 3);
        assert("u8"@.len() == 2);
    }
    assert("U16"@ != "I8"@) by {
        assert("U16"@.len() == 3);
        assert("I8"@.len() == 2);
    }
    assert("U16"@ != "i8"@) by {
        assert("U16"@.len() == 3);
        assert("i8"@.len() == 2);
    }
            assert(spec_scalar_from_str("U16"@) == Some(ScalarType::U16));
        },
        ScalarType::I16 => {
    assert("I16"@ != "U8"@) by {
        assert("I16"@.len() == 3);
        assert("U8"@.len() == 2);
    }
    assert("I16"@ != "u8"@) by {
        assert("I16"@.len() == 3);
        assert("u8"@.len() == 2);
    }
    assert("I16"@ != "I8"@) by {
        assert("I16"@.len() == 3);
        assert("I8"@.len() == 2);
    }
    assert("I16"@ != "i8"@) by {
        assert("I16"@.len() == 3);
        assert("i8"@.len() == 2);
    }
    assert("I16"@ != "U16"@) by {
        assert("I16"@[0] == 'I');
        assert("U16"@[0] == 'U');
    }
    assert("I16"@ != "u16"@) by {
        assert("I16"@[0] == 'I');
        assert("u16"@[0] == 'u');
    }
            assert(spec_scalar_from_str("I16"@) == Some(ScalarType::I16));
        },
        ScalarType::F16 => {
    assert("F16"@ != "U8"@) by {
        assert("F16"@.len() == 3);
        assert("U8"@.len() == 2);
    }
    assert("F16"@ != "u8"@) by {
        assert("F16"@.len() == 3);
        assert("u8"@.len() == 2);
    }
    assert("F16"@ != "I8"@) by {
        assert("F16"@.len() == 3);
        assert("I8"@.len() == 2);
    }
    assert("F16"@ != "i8"@) by {
        assert("F16"@.len() == 3);
        assert("i8"@.len() == 2);
    }
    assert("F16"@ != "U16"@) by {
        assert("F16"@[0] == 'F');
        assert("U16"@[0] == 'U');
    }
    assert("F16"@ != "u16"@) by {
        assert("F16"@[0] == 'F');
        assert("u16"@[0] == 'u');
    }
    assert("F16"@ != "I16"@) by {
        assert("F16"@[0] == 'F');
        assert("I16"@[0] == 'I');
    }
    assert("F16"@ != "i16"@) by {
        assert("F16"@[0] == 'F');
        assert("i16"@[0] == 'i');
    }
            assert(spec_scalar_from_str("F16"@) == Some(ScalarType::F16));
        },
        ScalarType::BF16 => {
    assert("BF16"@ != "U8"@) by {
        assert("BF16"@.len() == 4);
        assert("U8"@.len() == 2);
    }
    assert("BF16"@ != "u8"@) by {
        assert("BF16"@.len() == 4);
        assert("u8"@.len() == 2);
    }
    assert("BF16"@ != "I8"@) by {
        assert("BF16"@.len() == 4);
        assert("I8"@.len() == 2);
    }
    assert("BF16"@ != "i8"@) by {
        assert("BF16"@.len() == 4);
        assert("i8"@.len() == 2);
    }
    assert("BF16"@ != "U16"@) by {
        assert("BF16"@.len() == 4);
        assert("U16"@.len() == 3);
    }
    assert("BF16"@ != "u16"@) by {
        assert("BF16"@.len() == 4);
        assert("u16"@.len() == 3);
    }
    assert("BF16"@ != "I16"@) by {
        assert("BF16"@.len() == 4);
        assert("I16"@.len() == 3);
    }
    assert("BF16"@ != "i16"@) by {
        assert("BF16"@.len() == 4);
        assert("i16"@.len() == 3);
    }
    assert("BF16"@ != "F16"@) by {
        assert("BF16"@.len() == 4);
        assert("F16"@.len() == 3);
    }
    assert("BF16"@ != "f16"@) by {
        assert("BF16"@.len() == 4);
        assert("f16"@.len() == 3);
    }
            assert(spec_scalar_from_str("BF16"@) == Some(ScalarType::BF16));
        },
        ScalarType::U32 => {
    assert("U32"@ != "U8"@) by {
        assert("U32"@.len() == 3);
        assert("U8"@.len() == 2);
    }
    assert("U32"@ != "u8"@) by {
        assert("U32"@.len() == 3);
        assert("u8"@.len() == 2);
    }
    assert("U32"@ != "I8"@) by {
        assert("U32"@.len() == 3);
        assert("I8"@.len() == 2);
    }
    assert("U32"@ != "i8"@) by {
        assert("U32"@.len() == 3);
        assert("i8"@.len() == 2);
    }
    assert("U32"@ != "U16"@) by {
        assert("U32"@[1] == '3');
        assert("U16"@[1] == '1');
    }
    assert("U32"@ != "u16"@) by {
        assert("U32"@[0] == 'U');
        assert("u16"@[0] == 'u');
    }
    assert("U32"@ != "I16"@) by {
        assert("U32"@[0] == 'U');
        assert("I16"@[0] == 'I');
    }
    assert("U32"@ != "i16"@) by {
        assert("U32"@[0] == 'U');
        assert("i16"@[0] == 'i');
    }
    assert("U32"@ != "F16"@) by {
        assert("U32"@[0] == 'U');
        assert("F16"@[0] == 'F');
    }
    assert("U32"@ != "f16"@) by {
        assert("U32"@[0] == 'U');
        assert("f16"@[0] == 'f');
    }
    assert("U32"@ != "BF16"@) by {
        assert("U32"@.len() == 3);
        assert("BF16"@.len() == 4);
    }
    assert("U32"@ != "bf16"@) by {
        assert("U32"@.len() == 3);
        assert("bf16"@.len() == 4);
    }
            assert(spec_scalar_from_str("U32"@) == Some(ScalarType::U32));
        },
        ScalarType::I32 => {
    assert("I32"@ != "U8"@) by {
        assert("I32"@.len() == 3);
        assert("U8"@.len() == 2);
    }
    assert("I32"@ != "u8"@) by {
        assert("I32"@.len() == 3);
        assert("u8"@.len() == 2);
    }
    assert("I32"@ != "I8"@) by {
        assert("I32"@.len() == 3);
        assert("I8"@.len() == 2);
    }
    assert("I32"@ != "i8"@) by {
        assert("I32"@.len() == 3);
        assert("i8"@.len() == 2);
    }
    assert("I32"@ != "U16"@) by {
        assert("I32"@[0] == 'I');
        assert("U16"@[0] == 'U');
    }
    assert("I32"@ != "u16"@) by {
        assert("I32"@[0] == 'I');
        assert("u16"@[0] == 'u');
    }
    assert("I32"@ != "I16"@) by {
        assert("I32"@[1] == '3');
        assert("I16"@[1] == '1');
    }
    assert("I32"@ != "i16"@) by {
        assert("I32"@[0] == 'I');
        assert("i16"@[0] == 'i');
    }
    assert("I32"@ != "F16"@) by {
        assert("I32"@[0] == 'I');
        assert("F16"@[0] == 'F');
    }
    assert("I32"@ != "f16"@) by {
        assert("I32"@[0] == 'I');
        assert("f16"@[0] == 'f');
    }
    assert("I32"@ != "BF16"@) by {
        assert("I32"@.len() == 3);
        assert("BF16"@.len() == 4);
    }
    assert("I32"@ != "bf16"@) by {
        assert("I32"@.len() == 3);
        assert("bf16"@.len() == 4);
    }
    assert("I32"@ != "U32"@) by {
        assert("I32"@[0] == 'I');
        assert("U32"@[0] == 'U');
    }
    assert("I32"@ != "u32"@) by {
        assert("I32"@[0] == 'I');
        assert("u32"@[0] == 'u');
    }
            assert(spec_scalar_from_str("I32"@) == Some(ScalarType::I32));
        },
        ScalarType::F32 => {
    assert("F32"@ != "U8"@) by {
        assert("F32"@.len() == 3);
        assert("U8"@.len() == 2);
    }
    assert("F32"@ != "u8"@) by {
        assert("F32"@.len() == 3);
        assert("u8"@.len() == 2);
    }
    assert("F32"@ != "I8"@) by {
        assert("F32"@.len() == 3);
        assert("I8"@.len() == 2);
    }
    assert("F32"@ != "i8"@) by {
        assert("F32"@.len() == 3);
        assert("i8"@.len() == 2);
    }
    assert("F32"@ != "U16"@) by {
        assert("F32"@[0] == 'F');
        assert("U16"@[0] == 'U');
    }
    assert("F32"@ != "u16"@) by {
        assert("F32"@[0] == 'F');
        assert("u16"@[0] == 'u');
    }
    assert("F32"@ != "I16"@) by {
        assert("F32"@[0] == 'F');
        assert("I16"@[0] == 'I');
    }
    assert("F32"@ != "i16"@) by {
        assert("F32"@[0] == 'F');
        assert("i16"@[0] == 'i');
    }
    assert("F32"@ != "F16"@) by {
        assert("F32"@[1] == '3');
        assert("F16"@[1] == '1');
    }
    assert("F32"@ != "f16"@) by {
        assert("F32"@[0] == 'F');
        assert("f16"@[0] == 'f');
    }
    assert("F32"@ != "BF16"@) by {
        assert("F32"@.len() == 3);
        assert("BF16"@.len() == 4);
    }
    assert("F32"@ != "bf16"@) by {
        assert("F32"@.len() == 3);
        assert("bf16"@.len() == 4);
    }
    assert("F32"@ != "U32"@) by {
        assert("F32"@[0] == 'F');
        assert("U32"@[0] == 'U');
    }
    assert("F32"@ != "u32"@) by {
        assert("F32"@[0] == 'F');
        assert("u32"@[0] == 'u');
    }
    assert("F32"@ != "I32"@) by {
        assert("F32"@[0] == 'F');
        assert("I32"@[0] == 'I');
    }
    assert("F32"@ != "i32"@) by {
        assert("F32"@[0] == 'F');
        assert("i32"@[0] == 'i');
    }
            assert(spec_scalar_from_str("F32"@) == Some(ScalarType::F32));
        },
        ScalarType::U64 => {
    assert("U64"@ != "U8"@) by {
        assert("U64"@.len() == 3);
        assert("U8"@.len() == 2);
    }
    assert("U64"@ != "u8"@) by {
        assert("U64"@.len() == 3);
        assert("u8"@.len() == 2);
    }
    assert("U64"@ != "I8"@) by {
        assert("U64"@.len() == 3);
        assert("I8"@.len() == 2);
    }
    assert("U64"@ != "i8"@) by {
        assert("U64"@.len() == 3);
        assert("i8"@.len() == 2);
    }
    assert("U64"@ != "U16"@) by {
        assert("U64"@[1] == '6');
        assert("U16"@[1] == '1');
    }
    assert("U64"@ != "u16"@) by {
        assert("U64"@[0] == 'U');
        assert("u16"@[0] == 'u');
    }
    assert("U64"@ != "I16"@) by {
        assert("U64"@[0] == 'U');
        assert("I16"@[0] == 'I');
    }
    assert("U64"@ != "i16"@) by {
        assert("U64"@[0] == 'U');
        assert("i16"@[0] == 'i');
    }
    assert("U64"@ != "F16"@) by {
        assert("U64"@[0] == 'U');
        assert("F16"@[0] == 'F');
    }
    assert("U64"@ != "f16"@) by {
        assert("U64"@[0] == 'U');
        assert("f16"@[0] == 'f');
    }
    assert("U64"@ != "BF16"@) by {
        assert("U64"@.len() == 3);
        assert("BF16"@.len() == 4);
    }
    assert("U64"@ != "bf16"@) by {
        assert("U64"@.len() == 3);
        assert("bf16"@.len() == 4);
    }
    assert("U64"@ != "U32"@) by {
        assert("U64"@[1] == '6');
        assert("U32"@[1] == '3');
    }
    assert("U64"@ != "u32"@) by {
        assert("U64"@[0] == 'U');
        assert("u32"@[0] == 'u');
    }
    assert("U64"@ != "I32"@) by {
        assert("U64"@[0] == 'U');
        assert("I32"@[0] == 'I');
    }
    assert("U64"@ != "i32"@) by {
        assert("U64"@[0] == 'U');
        assert("i32"@[0] == 'i');
    }
    assert("U64"@ != "F32"@) by {
        assert("U64"@[0] == 'U');
        assert("F32"@[0] == 'F');
    }
    assert("U64"@ != "f32"@) by {
        assert("U64"@[0] == 'U');
        assert("f32"@[0] == 'f');
    }
            assert(spec_scalar_from_str("U64"@) == Some(ScalarType::U64));
        },
        ScalarType::I64 => {
    assert("I64"@ != "U8"@) by {
        assert("I64"@.len() == 3);
        assert("U8"@.len() == 2);
    }
    assert("I64"@ != "u8"@) by {
        assert("I64"@.len() == 3);
        assert("u8"@.len() == 2);
    }
    assert("I64"@ != "I8"@) by {
        assert("I64"@.len() == 3);
        assert("I8"@.len() == 2);
    }
    assert("I64"@ != "i8"@) by {
        assert("I64"@.len() == 3);
        assert("i8"@.len() == 2);
    }
    assert("I64"@ != "U16"@) by {
        assert("I64"@[0] == 'I');
        assert("U16"@[0] == 'U');
    }
    assert("I64"@ != "u16"@) by {
        assert("I64"@[0] == 'I');
        assert("u16"@[0] == 'u');
    }
    assert("I64"@ != "I16"@) by {
        assert("I64"@[1] == '6');
        assert("I16"@[1] == '1');
    }
    assert("I64"@ != "i16"@) by {
        assert("I64"@[0] == 'I');
        assert("i16"@[0] == 'i');
    }
    assert("I64"@ != "F16"@) by {
        assert("I64"@[0] == 'I');
        assert("F16"@[0] == 'F');
    }
    assert("I64"@ != "f16"@) by {
        assert("I64"@[0] == 'I');
        assert("f16"@[0] == 'f');
    }
    assert("I64"@ != "BF16"@) by {
        assert("I64"@.len() == 3);
        assert("BF16"@.len() == 4);
    }
    assert("I64"@ != "bf16"@) by {
        assert("I64"@.len() == 3);
        assert("bf16"@.len() == 4);
    }
    assert("I64"@ != "U32"@) by {
        assert("I64"@[0] == 'I');
        assert("U32"@[0] == 'U');
    }
    assert("I64"@ != "u32"@) by {
        assert("I64"@[0] == 'I');
        assert("u32"@[0] == 'u');
    }
    assert("I64"@ != "I32"@) by {
        assert("I64"@[1] == '6');
        assert("I32"@[1] == '3');
    }
    assert("I64"@ != "i32"@) by {
        assert("I64"@[0] == 'I');
        assert("i32"@[0] == 'i');
    }
    assert("I64"@ != "F32"@) by {
        assert("I64"@[0] == 'I');
        assert("F32"@[0] == 'F');
    }
    assert("I64"@ != "f32"@) by {
        assert("I64"@[0] == 'I');
        assert("f32"@[0] == 'f');
    }
    assert("I64"@ != "U64"@) by {
        assert("I64"@[0] == 'I');
        assert("U64"@[0] == 'U');
    }
    assert("I64"@ != "u64"@) by {
        assert("I64"@[0] == 'I');
        assert("u64"@[0] == 'u');
    }
            assert(spec_scalar_from_str("I64"@) == Some(ScalarType::I64));
        },
        ScalarType::F64 => {
    assert("F64"@ != "U8"@) by {
        assert("F64"@.len() == 3);
        assert("U8"@.len() == 2);
    }
    assert("F64"@ != "u8"@) by {
        assert("F64"@.len() == 3);
        assert("u8"@.len() == 2);
    }
    assert("F64"@ != "I8"@) by {
        assert("F64"@.len() == 3);
        assert("I8"@.len() == 2);
    }
    assert("F64"@ != "i8"@) by {
        assert("F64"@.len() == 3);
        assert("i8"@.len() == 2);
    }
    assert("F64"@ != "U16"@) by {
        assert("F64"@[0] == 'F');
        assert("U16"@[0] == 'U');
    }
    assert("F64"@ != "u16"@) by {
        assert("F64"@[0] == 'F');
        assert("u16"@[0] == 'u');
    }
    assert("F64"@ != "I16"@) by {
        assert("F64"@[0] == 'F');
        assert("I16"@[0] == 'I');
    }
    assert("F64"@ != "i16"@) by {
        assert("F64"@[0] == 'F');
        assert("i16"@[0] == 'i');
    }
    assert("F64"@ != "F16"@) by {
        assert("F64"@[1] == '6');
        assert("F16"@[1] == '1');
    }
    assert("F64"@ != "f16"@) by {
        assert("F64"@[0] == 'F');
        assert("f16"@[0] == 'f');
    }
    assert("F64"@ != "BF16"@) by {
        assert("F64"@.len() == 3);
        assert("BF16"@.len() == 4);
    }
    assert("F64"@ != "bf16"@) by {
        assert("F64"@.len() == 3);
        assert("bf16"@.len() == 4);
    }
    assert("F64"@ != "U32"@) by {
        assert("F64"@[0] == 'F');
        assert("U32"@[0] == 'U');
    }
    assert("F64"@ != "u32"@) by {
        assert("F64"@[0] == 'F');
        assert("u32"@[0] == 'u');
    }
    assert("F64"@ != "I32"@) by {
        assert("F64"@[0] == 'F');
        assert("I32"@[0] == 'I');
    }
    assert("F64"@ != "i32"@) by {
        assert("F64"@[0] == 'F');
        assert("i32"@[0] == 'i');
    }
    assert("F64"@ != "F32"@) by {
        assert("F64"@[1] == '6');
        assert("F32"@[1] == '3');
    }
    assert("F64"@ != "f32"@) by {
        assert("F64"@[0] == 'F');
        assert("f32"@[0] == 'f');
    }
    assert("F64"@ != "U64"@) by {
        assert("F64"@[0] == 'F');
        assert("U64"@[0] == 'U');
    }
    assert("F64"@ != "u64"@) by {
        assert("F64"@[0] == 'F');
        assert("u64"@[0] == 'u');
    }
    assert("F64"@ != "I64"@) by {
        assert("F64"@[0] == 'F');
        assert("I64"@[0] == 'I');
    }
    assert("F64"@ != "i64"@) by {
        assert("F64"@[0] == 'F');
        assert("i64"@[0] == 'i');
    }
            assert(spec_scalar_from_str("F64"@) == Some(ScalarType::F64));
        },
    }
}

/// Parsing a scalar type reads back exactly what was written there.
pub proof fn lemma_parse_scalar(b: Seq<u8>, pos: int, st: ScalarType)
    requires
        0 <= pos,
        pos + ser_scalar(st).len() <= b.len(),
        b.subrange(pos, pos + ser_scalar(st).len()) == ser_scalar(st),
    ensures
        parse_scalar(b, pos) == Some((st, pos + ser_scalar(st).len())),
{
    lemma_scalar_upper_name_short(st);
    lemma_parse_str(b, pos, scalar_upper_name(st));
    lemma_scalar_from_upper_name(st);
}

/// The encoded upper-case names are short.
proof fn lemma_scalar_upper_name_short(st: ScalarType)
    ensures
        encode_utf8(scalar_upper_name(st)).len() < 8,
{
    reveal_strlit("U8");
    reveal_strlit("I8");
    reveal_strlit("U16");
    reveal_strlit("I16");
    reveal_strlit("F16");
    reveal_strlit("BF16");
    reveal_strlit("U32");
    reveal_strlit("I32");
    reveal_strlit("F32");
    reveal_strlit("U64");
    reveal_strlit("I64");
    reveal_strlit("F64");
    let s = scalar_upper_name(st);
    assert(vstd::utf8::is_ascii_chars(s));
    vstd::utf8::is_ascii_chars_encode_utf8(s);
}


/// A string whose UTF-8 encoding fits the 64-bit length prefix.
pub open spec fn str_wf(s: Seq<char>) -> bool {
    encode_utf8(s).len() < 0x1_0000_0000_0000_0000
}

/// The serialization of a sequence of items, one after the other.
pub open spec fn ser_items<T>(s: Seq<T>, f: spec_fn(T) -> Seq<u8>) -> Seq<u8>
    decreases s.len(),
{
    if s.len() == 0 {
        Seq::empty()
    } else {
        f(s.first()) + ser_items(s.drop_first(), f)
    }
}

/// Parsing `n` items in sequence.
pub open spec fn parse_items<T>(
    b: Seq<u8>,
    pos: int,
    n: int,
    f: spec_fn(Seq<u8>, int) -> Option<(T, int)>,
) -> Option<(Seq<T>, int)>
    decreases n,
{
    if n <= 0 {
        Some((Seq::empty(), pos))
    } else {
        match f(b, pos) {
            None => None,
            Some((x, p)) => match parse_items(b, p, n - 1, f) {
                None => None,
                Some((s, p2)) => Some((seq![x] + s, p2)),
            },
        }
    }
}

/// Two adjacent serialized parts can be read back one at a time.
pub proof fn lemma_subrange_concat(b: Seq<u8>, pos: int, x: Seq<u8>, y: Seq<u8>)
    requires
        0 <= pos,
        pos + x.len() + y.len() <= b.len(),
        b.subrange(pos, pos + x.len() + y.len()) == x + y,
    ensures
        b.subrange(pos, pos + x.len()) == x,
        b.subrange(pos + x.len(), pos + x.len() + y.len()) == y,
{
    let whole = b.subrange(pos, pos + x.len() + y.len());
    assert(b.subrange(pos, pos + x.len() as int) =~= x) by {
        assert(forall|i: int| 0 <= i < x.len() ==> b[pos + i] == #[trigger] whole[i]);
        assert(forall|i: int| 0 <= i < x.len() ==> #[trigger] (x + y)[i] == x[i]);
    }
    assert forall|i: int| 0 <= i < y.len() implies b.subrange(
        pos + x.len(),
        pos + x.len() + y.len(),
    )[i] == y[i] by {
        assert((x + y)[x.len() + i] == y[i]);
        assert(whole[x.len() + i] == b[pos + x.len() + i]);
    }
    assert(b.subrange(pos + x.len(), pos + x.len() + y.len()) =~= y);
}

/// Parsing a serialized item sequence reads back exactly the items written.
pub proof fn lemma_parse_items<T>(
    b: Seq<u8>,
    pos: int,
    s: Seq<T>,
    ser_item: spec_fn(T) -> Seq<u8>,
    parse_item: spec_fn(Seq<u8>, int) -> Option<(T, int)>,
    wf: spec_fn(T) -> bool,
)
    requires
        forall|j: int| 0 <= j < s.len() ==> wf(#[trigger] s[j]),
        forall|x: T, q: int|
            #![trigger parse_item(b, q), ser_item(x)]
            (wf(x) && 0 <= q && q + ser_item(x).len() <= b.len() && b.subrange(
                q,
                q + ser_item(x).len() as int,
            ) == ser_item(x)) ==> parse_item(b, q) == Some((x, q + ser_item(x).len() as int)),
        0 <= pos,
        pos + ser_items(s, ser_item).len() <= b.len(),
        b.subrange(pos, pos + ser_items(s, ser_item).len()) == ser_items(s, ser_item),
    ensures
        parse_items(b, pos, s.len() as int, parse_item) == Some(
            (s, pos + ser_items(s, ser_item).len()),
        ),
    decreases s.len(),
{
    if s.len() == 0 {
    } else {
        let x = s.first();
        let rest = s.drop_first();
        let fx = ser_item(x);
        let frest = ser_items(rest, ser_item);
        assert(ser_items(s, ser_item) == fx + frest);
        lemma_subrange_concat(b, pos, fx, frest);
        assert(parse_item(b, pos) == Some((x, pos + fx.len() as int)));
        assert(forall|j: int| 0 <= j < rest.len() ==> wf(#[trigger] rest[j])) by {
            assert(forall|j: int| 0 <= j < rest.len() ==> #[trigger] rest[j] == s[j + 1]);
        }
        lemma_parse_items(b, pos + fx.len(), rest, ser_item, parse_item, wf);
        assert(seq![x] + rest =~= s);
    }
}

/// Continues parsing `m` more items after an earlier partial parse.
pub open spec fn parse_more<T>(
    b: Seq<u8>,
    f: spec_fn(Seq<u8>, int) -> Option<(T, int)>,
    first: Option<(Seq<T>, int)>,
    m: int,
) -> Option<(Seq<T>, int)> {
    match first {
        None => None,
        Some((s, p)) => match parse_items(b, p, m, f) {
            None => None,
            Some((s2, p2)) => Some((s + s2, p2)),
        },
    }
}

/// Parsing `n` items decomposes into parsing `i` items and then the rest.
pub proof fn lemma_parse_items_unroll<T>(
    b: Seq<u8>,
    f: spec_fn(Seq<u8>, int) -> Option<(T, int)>,
    pos: int,
    n: int,
    i: int,
)
    requires
        0 <= i <= n,
    ensures
        parse_items(b, pos, n, f) == parse_more(b, f, parse_items(b, pos, i, f), n - i),
    decreases i,
{
    if i == 0 {
        match parse_items(b, pos, n, f) {
            None => {},
            Some((s2, p2)) => {
                assert(Seq::<T>::empty() + s2 =~= s2);
            },
        }
    } else {
        match f(b, pos) {
            None => {},
            Some((x, p)) => {
                lemma_parse_items_unroll(b, f, p, n - 1, i - 1);
                match parse_items(b, p, i - 1, f) {
                    None => {},
                    Some((s1, p1)) => {
                        match parse_items(b, p1, n - i, f) {
                            None => {},
                            Some((s2, p2)) => {
                                assert((seq![x] + s1) + s2 =~= seq![x] + (s1 + s2));
                            },
                        }
                    },
                }
            },
        }
    }
}


/// The largest count or length the 64-bit prefixes can carry.
pub open spec fn max_count() -> int {
    0x1_0000_0000_0000_0000
}

/// The serializer of one program word.
pub open spec fn u32_item_ser() -> spec_fn(u32) -> Seq<u8> {
    |x: u32| ser_u32(x)
}

/// The parser of one program word.
pub open spec fn u32_item_parse() -> spec_fn(Seq<u8>, int) -> Option<(u32, int)> {
    |b: Seq<u8>, pos: int| parse_u32(b, pos)
}

/// A serialized program: a word count, then the words.
pub open spec fn ser_spirv(s: Seq<u32>) -> Seq<u8> {
    ser_u64(s.len() as u64) + ser_items(s, u32_item_ser())
}

/// Parsing a serialized program.
pub open spec fn parse_spirv(b: Seq<u8>, pos: int) -> Option<(Seq<u32>, int)> {
    match parse_u64(b, pos) {
        None => None,
        Some((n, p)) => parse_items(b, p, n as int, u32_item_parse()),
    }
}

/// A serialized specialization descriptor: name, then scalar type.
pub open spec fn ser_spec_desc(d: SpecDescV) -> Seq<u8> {
    ser_str(d.name) + ser_scalar(d.scalar_type)
}

/// Parsing a specialization descriptor.
pub open spec fn parse_spec_desc(b: Seq<u8>, pos: int) -> Option<(SpecDescV, int)> {
    match parse_str(b, pos) {
        None => None,
        Some((name, p)) => match parse_scalar(b, p) {
            None => None,
            Some((st, p2)) => Some((SpecDescV { name, scalar_type: st }, p2)),
        },
    }
}

/// The serializer of one specialization descriptor.
pub open spec fn spec_desc_ser() -> spec_fn(SpecDescV) -> Seq<u8> {
    |d: SpecDescV| ser_spec_desc(d)
}

/// The parser of one specialization descriptor.
pub open spec fn spec_desc_parse() -> spec_fn(Seq<u8>, int) -> Option<(SpecDescV, int)> {
    |b: Seq<u8>, pos: int| parse_spec_desc(b, pos)
}

/// A serialized slice descriptor: name, scalar type, mutability, item flag.
pub open spec fn ser_slice_desc(d: SliceDescV) -> Seq<u8> {
    ser_str(d.name) + ser_scalar(d.scalar_type) + ser_bool(d.mutable) + ser_bool(d.item)
}

/// Parsing a slice descriptor.
pub open spec fn parse_slice_desc(b: Seq<u8>, pos: int) -> Option<(SliceDescV, int)> {
    match parse_str(b, pos) {
        None => None,
        Some((name, p)) => match parse_scalar(b, p) {
            None => None,
            Some((st, p2)) => match parse_bool(b, p2) {
                None => None,
                Some((mutable, p3)) => match parse_bool(b, p3) {
                    None => None,
                    Some((item, p4)) => Some(
                        (SliceDescV { name, scalar_type: st, mutable, item }, p4),
                    ),
                },
            },
        },
    }
}

/// The serializer of one slice descriptor.
pub open spec fn slice_desc_ser() -> spec_fn(SliceDescV) -> Seq<u8> {
    |d: SliceDescV| ser_slice_desc(d)
}

/// The parser of one slice descriptor.
pub open spec fn slice_desc_parse() -> spec_fn(Seq<u8>, int) -> Option<(SliceDescV, int)> {
    |b: Seq<u8>, pos: int| parse_slice_desc(b, pos)
}

/// A serialized push descriptor: name, then scalar type.
pub open spec fn ser_push_desc(d: PushDescV) -> Seq<u8> {
    ser_str(d.name) + ser_scalar(d.scalar_type)
}

/// Parsing a push descriptor.
pub open spec fn parse_push_desc(b: Seq<u8>, pos: int) -> Option<(PushDescV, int)> {
    match parse_str(b, pos) {
        None => None,
        Some((name, p)) => match parse_scalar(b, p) {
            None => None,
            Some((st, p2)) => Some((PushDescV { name, scalar_type: st }, p2)),
        },
    }
}

/// The serializer of one push descriptor.
pub open spec fn push_desc_ser() -> spec_fn(PushDescV) -> Seq<u8> {
    |d: PushDescV| ser_push_desc(d)
}

/// The parser of one push descriptor.
pub open spec fn push_desc_parse() -> spec_fn(Seq<u8>, int) -> Option<(PushDescV, int)> {
    |b: Seq<u8>, pos: int| parse_push_desc(b, pos)
}

/// The head of a serialized kernel descriptor: name, program, features,
/// safety.
pub open spec fn ser_desc_head(d: KernelDescV) -> Seq<u8> {
    ser_str(d.name) + ser_spirv(d.spirv) + ser_u32(d.features) + ser_bool(d.safe)
}

/// A serialized specialization descriptor list: a count, then the items.
pub open spec fn ser_spec_descs(s: Seq<SpecDescV>) -> Seq<u8> {
    ser_u64(s.len() as u64) + ser_items(s, spec_desc_ser())
}

/// A serialized slice descriptor list: a count, then the items.
pub open spec fn ser_slice_descs(s: Seq<SliceDescV>) -> Seq<u8> {
    ser_u64(s.len() as u64) + ser_items(s, slice_desc_ser())
}

/// A serialized push descriptor list: a count, then the items.
pub open spec fn ser_push_descs(s: Seq<PushDescV>) -> Seq<u8> {
    ser_u64(s.len() as u64) + ser_items(s, push_desc_ser())
}

/// The three descriptor lists of a serialized kernel descriptor.
pub open spec fn ser_desc_lists(d: KernelDescV) -> Seq<u8> {
    ser_spec_descs(d.spec_descs) + ser_slice_descs(d.slice_descs) + ser_push_descs(d.push_descs)
}

/// A serialized kernel descriptor: every field in declaration order,
/// program bytes and required features included.
pub open spec fn ser_desc(d: KernelDescV) -> Seq<u8> {
    ser_desc_head(d) + ser_desc_lists(d)
}

/// Parsing a kernel descriptor.
pub open spec fn parse_desc(b: Seq<u8>, pos: int) -> Option<(KernelDescV, int)> {
    match parse_str(b, pos) {
        None => None,
        Some((name, p1)) => match parse_spirv(b, p1) {
            None => None,
            Some((spirv, p2)) => match parse_u32(b, p2) {
                None => None,
                Some((features, p3)) => match parse_bool(b, p3) {
                    None => None,
                    Some((safe, p4)) => match parse_u64(b, p4) {
                        None => None,
                        Some((nspec, p5)) => match parse_items(
                            b,
                            p5,
                            nspec as int,
                            spec_desc_parse(),
                        ) {
                            None => None,
                            Some((spec_descs, p6)) => match parse_u64(b, p6) {
                                None => None,
                                Some((nslice, p7)) => match parse_items(
                                    b,
                                    p7,
                                    nslice as int,
                                    slice_desc_parse(),
                                ) {
                                    None => None,
                                    Some((slice_descs, p8)) => match parse_u64(b, p8) {
                                        None => None,
                                        Some((npush, p9)) => match parse_items(
                                            b,
                                            p9,
                                            npush as int,
                                            push_desc_parse(),
                                        ) {
                                            None => None,
                                            Some((push_descs, p10)) => Some(
                                                (
                                                    KernelDescV {
                                                        name,
                                                        spirv,
                                                        features,
                                                        safe,
                                                        spec_descs,
                                                        slice_descs,
                                                        push_descs,
                                                    },
                                                    p10,
                                                ),
                                            ),
                                        },
                                    },
                                },
                            },
                        },
                    },
                },
            },
        },
    }
}

/// The serializer of one kernel descriptor.
pub open spec fn desc_ser() -> spec_fn(KernelDescV) -> Seq<u8> {
    |d: KernelDescV| ser_desc(d)
}

/// The parser of one kernel descriptor.
pub open spec fn desc_parse() -> spec_fn(Seq<u8>, int) -> Option<(KernelDescV, int)> {
    |b: Seq<u8>, pos: int| parse_desc(b, pos)
}

/// A serialized cache: the producing tool's version, then the completed
/// descriptors.
pub open spec fn ser_cache(c: CacheV) -> Seq<u8> {
    ser_str(c.version) + ser_u64(c.kernels.len() as u64) + ser_items(c.kernels, desc_ser())
}

/// Parsing a cache.
pub open spec fn parse_cache(b: Seq<u8>, pos: int) -> Option<(CacheV, int)> {
    match parse_str(b, pos) {
        None => None,
        Some((version, p1)) => match parse_u64(b, p1) {
            None => None,
            Some((n, p2)) => match parse_items(b, p2, n as int, desc_parse()) {
                None => None,
                Some((kernels, p3)) => Some((CacheV { version, kernels }, p3)),
            },
        },
    }
}

/// Decoding serialized cache bytes: the parse must consume every byte.
pub open spec fn spec_decode_bytes(b: Seq<u8>) -> Option<CacheV> {
    match parse_cache(b, 0) {
        None => None,
        Some((c, p)) => if p == b.len() {
            Some(c)
        } else {
            None
        },
    }
}

/// A specialization descriptor the byte format can carry.
pub open spec fn spec_desc_v_wf(d: SpecDescV) -> bool {
    str_wf(d.name)
}

/// A slice descriptor the byte format can carry.
pub open spec fn slice_desc_v_wf(d: SliceDescV) -> bool {
    str_wf(d.name)
}

/// A push descriptor the byte format can carry.
pub open spec fn push_desc_v_wf(d: PushDescV) -> bool {
    str_wf(d.name)
}

/// A kernel descriptor the byte format can carry: every string fits its
/// length prefix and every list fits its count prefix.
pub open spec fn desc_v_wf(d: KernelDescV) -> bool {
    &&& str_wf(d.name)
    &&& d.spirv.len() < max_count()
    &&& d.spec_descs.len() < max_count()
    &&& d.slice_descs.len() < max_count()
    &&& d.push_descs.len() < max_count()
    &&& forall|i: int| 0 <= i < d.spec_descs.len() ==> spec_desc_v_wf(#[trigger] d.spec_descs[i])
    &&& forall|i: int| 0 <= i < d.slice_descs.len() ==> slice_desc_v_wf(#[trigger] d.slice_descs[i])
    &&& forall|i: int| 0 <= i < d.push_descs.len() ==> push_desc_v_wf(#[trigger] d.push_descs[i])
}

/// A cache the byte format can carry.
pub open spec fn cache_v_wf(c: CacheV) -> bool {
    &&& str_wf(c.version)
    &&& c.kernels.len() < max_count()
    &&& forall|i: int| 0 <= i < c.kernels.len() ==> desc_v_wf(#[trigger] c.kernels[i])
}


/// Parsing a serialized specialization descriptor reads it back.
pub proof fn lemma_parse_spec_desc_rt(b: Seq<u8>, pos: int, d: SpecDescV)
    requires
        spec_desc_v_wf(d),
        0 <= pos,
        pos + ser_spec_desc(d).len() <= b.len(),
        b.subrange(pos, pos + ser_spec_desc(d).len()) == ser_spec_desc(d),
    ensures
        parse_spec_desc(b, pos) == Some((d, pos + ser_spec_desc(d).len())),
{
    lemma_subrange_concat(b, pos, ser_str(d.name), ser_scalar(d.scalar_type));
    lemma_parse_str(b, pos, d.name);
    lemma_parse_scalar(b, pos + ser_str(d.name).len(), d.scalar_type);
    assert(d == SpecDescV { name: d.name, scalar_type: d.scalar_type });
}

/// Parsing a serialized push descriptor reads it back.
pub proof fn lemma_parse_push_desc_rt(b: Seq<u8>, pos: int, d: PushDescV)
    requires
        push_desc_v_wf(d),
        0 <= pos,
        pos + ser_push_desc(d).len() <= b.len(),
        b.subrange(pos, pos + ser_push_desc(d).len()) == ser_push_desc(d),
    ensures
        parse_push_desc(b, pos) == Some((d, pos + ser_push_desc(d).len())),
{
    lemma_subrange_concat(b, pos, ser_str(d.name), ser_scalar(d.scalar_type));
    lemma_parse_str(b, pos, d.name);
    lemma_parse_scalar(b, pos + ser_str(d.name).len(), d.scalar_type);
    assert(d == PushDescV { name: d.name, scalar_type: d.scalar_type });
}

/// Parsing a serialized slice descriptor reads it back.
pub proof fn lemma_parse_slice_desc_rt(b: Seq<u8>, pos: int, d: SliceDescV)
    requires
        slice_desc_v_wf(d),
        0 <= pos,
        pos + ser_slice_desc(d).len() <= b.len(),
        b.subrange(pos, pos + ser_slice_desc(d).len()) == ser_slice_desc(d),
    ensures
        parse_slice_desc(b, pos) == Some((d, pos + ser_slice_desc(d).len())),
{
    let x1 = ser_str(d.name);
    let x2 = ser_scalar(d.scalar_type);
    let x3 = ser_bool(d.mutable);
    let x4 = ser_bool(d.item);
    assert(ser_slice_desc(d) =~= x1 + (x2 + x3 + x4));
    lemma_subrange_concat(b, pos, x1, x2 + x3 + x4);
    lemma_parse_str(b, pos, d.name);
    let p1 = pos + x1.len();
    assert(x2 + x3 + x4 =~= x2 + (x3 + x4));
    lemma_subrange_concat(b, p1, x2, x3 + x4);
    lemma_parse_scalar(b, p1, d.scalar_type);
    let p2 = p1 + x2.len();
    lemma_subrange_concat(b, p2, x3, x4);
    lemma_parse_bool(b, p2, d.mutable);
    let p3 = p2 + x3.len();
    lemma_parse_bool(b, p3, d.item);
    assert(d == SliceDescV {
        name: d.name,
        scalar_type: d.scalar_type,
        mutable: d.mutable,
        item: d.item,
    });
}

/// Parsing a serialized program reads it back.
pub proof fn lemma_parse_spirv_rt(b: Seq<u8>, pos: int, s: Seq<u32>)
    requires
        s.len() < max_count(),
        0 <= pos,
        pos + ser_spirv(s).len() <= b.len(),
        b.subrange(pos, pos + ser_spirv(s).len()) == ser_spirv(s),
    ensures
        parse_spirv(b, pos) == Some((s, pos + ser_spirv(s).len())),
{
    let x1 = ser_u64(s.len() as u64);
    let x2 = ser_items(s, u32_item_ser());
    lemma_subrange_concat(b, pos, x1, x2);
    lemma_parse_u64(b, pos, s.len() as u64);
    let p1 = pos + 8;
    assert forall|x: u32, q: int|
        #![trigger u32_item_parse()(b, q), u32_item_ser()(x)]
        (0 <= q && q + u32_item_ser()(x).len() <= b.len() && b.subrange(
            q,
            q + u32_item_ser()(x).len() as int,
        ) == u32_item_ser()(x)) implies u32_item_parse()(b, q) == Some(
        (x, q + u32_item_ser()(x).len() as int),
    ) by {
        lemma_parse_u32(b, q, x);
    }
    lemma_parse_items(b, p1, s, u32_item_ser(), u32_item_parse(), |x: u32| true);
}

/// Parsing a serialized specialization descriptor list reads it back.
pub proof fn lemma_parse_spec_descs_rt(b: Seq<u8>, pos: int, s: Seq<SpecDescV>)
    requires
        s.len() < max_count(),
        forall|i: int| 0 <= i < s.len() ==> spec_desc_v_wf(#[trigger] s[i]),
        0 <= pos,
        pos + ser_spec_descs(s).len() <= b.len(),
        b.subrange(pos, pos + ser_spec_descs(s).len()) == ser_spec_descs(s),
    ensures
        parse_u64(b, pos) == Some((s.len() as u64, pos + 8)),
        parse_items(b, pos + 8, s.len() as int, spec_desc_parse()) == Some(
            (s, pos + ser_spec_descs(s).len()),
        ),
{
    lemma_subrange_concat(b, pos, ser_u64(s.len() as u64), ser_items(s, spec_desc_ser()));
    lemma_parse_u64(b, pos, s.len() as u64);
    assert forall|x: SpecDescV, q: int|
        #![trigger spec_desc_parse()(b, q), spec_desc_ser()(x)]
        (spec_desc_v_wf(x) && 0 <= q && q + spec_desc_ser()(x).len() <= b.len() && b.subrange(
            q,
            q + spec_desc_ser()(x).len() as int,
        ) == spec_desc_ser()(x)) implies spec_desc_parse()(b, q) == Some(
        (x, q + spec_desc_ser()(x).len() as int),
    ) by {
        lemma_parse_spec_desc_rt(b, q, x);
    }
    lemma_parse_items(
        b,
        pos + 8,
        s,
        spec_desc_ser(),
        spec_desc_parse(),
        |x: SpecDescV| spec_desc_v_wf(x),
    );
}

/// Parsing a serialized slice descriptor list reads it back.
pub proof fn lemma_parse_slice_descs_rt(b: Seq<u8>, pos: int, s: Seq<SliceDescV>)
    requires
        s.len() < max_count(),
        forall|i: int| 0 <= i < s.len() ==> slice_desc_v_wf(#[trigger] s[i]),
        0 <= pos,
        pos + ser_slice_descs(s).len() <= b.len(),
        b.subrange(pos, pos + ser_slice_descs(s).len()) == ser_slice_descs(s),
    ensures
        parse_u64(b, pos) == Some((s.len() as u64, pos + 8)),
        parse_items(b, pos + 8, s.len() as int, slice_desc_parse()) == Some(
            (s, pos + ser_slice_descs(s).len()),
        ),
{
    lemma_subrange_concat(b, pos, ser_u64(s.len() as u64), ser_items(s, slice_desc_ser()));
    lemma_parse_u64(b, pos, s.len() as u64);
    assert forall|x: SliceDescV, q: int|
        #![trigger slice_desc_parse()(b, q), slice_desc_ser()(x)]
        (slice_desc_v_wf(x) && 0 <= q && q + slice_desc_ser()(x).len() <= b.len() && b.subrange(
            q,
            q + slice_desc_ser()(x).len() as int,
        ) == slice_desc_ser()(x)) implies slice_desc_parse()(b, q) == Some(
        (x, q + slice_desc_ser()(x).len() as int),
    ) by {
        lemma_parse_slice_desc_rt(b, q, x);
    }
    lemma_parse_items(
        b,
        pos + 8,
        s,
        slice_desc_ser(),
        slice_desc_parse(),
        |x: SliceDescV| slice_desc_v_wf(x),
    );
}

/// Parsing a serialized push descriptor list reads it back.
pub proof fn lemma_parse_push_descs_rt(b: Seq<u8>, pos: int, s: Seq<PushDescV>)
    requires
        s.len() < max_count(),
        forall|i: int| 0 <= i < s.len() ==> push_desc_v_wf(#[trigger] s[i]),
        0 <= pos,
        pos + ser_push_descs(s).len() <= b.len(),
        b.subrange(pos, pos + ser_push_descs(s).len()) == ser_push_descs(s),
    ensures
        parse_u64(b, pos) == Some((s.len() as u64, pos + 8)),
        parse_items(b, pos + 8, s.len() as int, push_desc_parse()) == Some(
            (s, pos + ser_push_descs(s).len()),
        ),
{
    lemma_subrange_concat(b, pos, ser_u64(s.len() as u64), ser_items(s, push_desc_ser()));
    lemma_parse_u64(b, pos, s.len() as u64);
    assert forall|x: PushDescV, q: int|
        #![trigger push_desc_parse()(b, q), push_desc_ser()(x)]
        (push_desc_v_wf(x) && 0 <= q && q + push_desc_ser()(x).len() <= b.len() && b.subrange(
            q,
            q + push_desc_ser()(x).len() as int,
        ) == push_desc_ser()(x)) implies push_desc_parse()(b, q) == Some(
        (x, q + push_desc_ser()(x).len() as int),
    ) by {
        lemma_parse_push_desc_rt(b, q, x);
    }
    lemma_parse_items(
        b,
        pos + 8,
        s,
        push_desc_ser(),
        push_desc_parse(),
        |x: PushDescV| push_desc_v_wf(x),
    );
}

/// Parsing a serialized kernel descriptor reads it back.
#[verifier::rlimit(100)]
pub proof fn lemma_parse_desc_rt(b: Seq<u8>, pos: int, d: KernelDescV)
    requires
        desc_v_wf(d),
        0 <= pos,
        pos + ser_desc(d).len() <= b.len(),
        b.subrange(pos, pos + ser_desc(d).len()) == ser_desc(d),
    ensures
        parse_desc(b, pos) == Some((d, pos + ser_desc(d).len())),
{
    let x1 = ser_str(d.name);
    let x2 = ser_spirv(d.spirv);
    let x3 = ser_u32(d.features);
    let x4 = ser_bool(d.safe);
    let l1 = ser_spec_descs(d.spec_descs);
    let l2 = ser_slice_descs(d.slice_descs);
    let l3 = ser_push_descs(d.push_descs);
    lemma_subrange_concat(b, pos, ser_desc_head(d), ser_desc_lists(d));
    assert(ser_desc_head(d) =~= x1 + (x2 + x3 + x4));
    lemma_subrange_concat(b, pos, x1, x2 + x3 + x4);
    lemma_parse_str(b, pos, d.name);
    let p1 = pos + x1.len();
    assert(x2 + x3 + x4 =~= x2 + (x3 + x4));
    lemma_subrange_concat(b, p1, x2, x3 + x4);
    lemma_parse_spirv_rt(b, p1, d.spirv);
    let p2 = p1 + x2.len();
    lemma_subrange_concat(b, p2, x3, x4);
    lemma_parse_u32(b, p2, d.features);
    let p3 = p2 + x3.len();
    lemma_parse_bool(b, p3, d.safe);
    let p4 = p3 + x4.len();
    assert(p4 == pos + ser_desc_head(d).len());
    assert(ser_desc_lists(d) =~= l1 + (l2 + l3));
    lemma_subrange_concat(b, p4, l1, l2 + l3);
    lemma_parse_spec_descs_rt(b, p4, d.spec_descs);
    let p5 = p4 + l1.len();
    lemma_subrange_concat(b, p5, l2, l3);
    lemma_parse_slice_descs_rt(b, p5, d.slice_descs);
    let p6 = p5 + l2.len();
    lemma_parse_push_descs_rt(b, p6, d.push_descs);
    assert(d == KernelDescV {
        name: d.name,
        spirv: d.spirv,
        features: d.features,
        safe: d.safe,
        spec_descs: d.spec_descs,
        slice_descs: d.slice_descs,
        push_descs: d.push_descs,
    });
}

/// Parsing a serialized cache reads it back.
pub proof fn lemma_parse_cache_rt(b: Seq<u8>, pos: int, c: CacheV)
    requires
        cache_v_wf(c),
        0 <= pos,
        pos + ser_cache(c).len() <= b.len(),
        b.subrange(pos, pos + ser_cache(c).len()) == ser_cache(c),
    ensures
        parse_cache(b, pos) == Some((c, pos + ser_cache(c).len())),
{
    let x1 = ser_str(c.version);
    let x2 = ser_u64(c.kernels.len() as u64);
    let x3 = ser_items(c.kernels, desc_ser());
    assert(ser_cache(c) =~= x1 + (x2 + x3));
    lemma_subrange_concat(b, pos, x1, x2 + x3);
    lemma_parse_str(b, pos, c.version);
    let p1 = pos + x1.len();
    lemma_subrange_concat(b, p1, x2, x3);
    lemma_parse_u64(b, p1, c.kernels.len() as u64);
    let p2 = p1 + x2.len();
    assert forall|x: KernelDescV, q: int|
        #![trigger desc_parse()(b, q), desc_ser()(x)]
        (desc_v_wf(x) && 0 <= q && q + desc_ser()(x).len() <= b.len() && b.subrange(
            q,
            q + desc_ser()(x).len() as int,
        ) == desc_ser()(x)) implies desc_parse()(b, q) == Some(
        (x, q + desc_ser()(x).len() as int),
    ) by {
        lemma_parse_desc_rt(b, q, x);
    }
    lemma_parse_items(
        b,
        p2,
        c.kernels,
        desc_ser(),
        desc_parse(),
        |x: KernelDescV| desc_v_wf(x),
    );
    assert(c == CacheV { version: c.version, kernels: c.kernels });
}

/// Cache round-trip: decoding the serialization of a descriptor collection
/// yields a collection equal field for field to the original, program bytes
/// included.
pub proof fn lemma_cache_roundtrip(c: CacheV)
    requires
        cache_v_wf(c),
    ensures
        spec_decode_bytes(ser_cache(c)) == Some(c),
{
    let b = ser_cache(c);
    assert(b.subrange(0, b.len() as int) =~= b);
    lemma_parse_cache_rt(b, 0, c);
}


/// Appending one more item extends the serialization at the end.
pub proof fn lemma_ser_items_snoc<T>(s: Seq<T>, f: spec_fn(T) -> Seq<u8>, x: T)
    ensures
        ser_items(s.push(x), f) == ser_items(s, f) + f(x),
    decreases s.len(),
{
    if s.len() == 0 {
        assert(s.push(x).drop_first() =~= Seq::<T>::empty());
        assert(s.push(x).first() == x);
        assert(ser_items(Seq::<T>::empty(), f) =~= Seq::<u8>::empty());
        assert(ser_items(s, f) =~= Seq::<u8>::empty());
        assert(ser_items(s.push(x), f) =~= f(x));
        assert(ser_items(s, f) + f(x) =~= f(x));
    } else {
        assert(s.push(x).drop_first() =~= s.drop_first().push(x));
        assert(s.push(x).first() == s.first());
        lemma_ser_items_snoc(s.drop_first(), f, x);
        assert(ser_items(s.push(x), f) =~= f(s.first()) + (ser_items(s.drop_first(), f) + f(x)));
        assert(f(s.first()) + (ser_items(s.drop_first(), f) + f(x)) =~= (f(s.first()) + ser_items(
            s.drop_first(),
            f,
        )) + f(x));
    }
}

/// Writes a 32-bit word in little-endian order.
fn write_u32(out: &mut Vec<u8>, x: u32)
    ensures
        final(out)@ == old(out)@ + ser_u32(x),
{
    out.push((x & 0xff) as u8);
    out.push(((x >> 8) & 0xff) as u8);
    out.push(((x >> 16) & 0xff) as u8);
    out.push(((x >> 24) & 0xff) as u8);
    proof {
        assert(out@ =~= old(out)@ + ser_u32(x));
    }
}

/// Writes a 64-bit word in little-endian order.
pub(crate) fn write_u64(out: &mut Vec<u8>, x: u64)
    ensures
        final(out)@ == old(out)@ + ser_u64(x),
{
    out.push((x & 0xff) as u8);
    out.push(((x >> 8) & 0xff) as u8);
    out.push(((x >> 16) & 0xff) as u8);
    out.push(((x >> 24) & 0xff) as u8);
    out.push(((x >> 32) & 0xff) as u8);
    out.push(((x >> 40) & 0xff) as u8);
    out.push(((x >> 48) & 0xff) as u8);
    out.push(((x >> 56) & 0xff) as u8);
    proof {
        assert(out@ =~= old(out)@ + ser_u64(x));
    }
}

/// Writes one boolean byte.
fn write_bool(out: &mut Vec<u8>, b: bool)
    ensures
        final(out)@ == old(out)@ + ser_bool(b),
{
    out.push(if b { 1 } else { 0 });
    proof {
        assert(out@ =~= old(out)@ + ser_bool(b));
    }
}

/// Writes a length-prefixed UTF-8 string.
fn write_str(out: &mut Vec<u8>, s: &str)
    ensures
        final(out)@ == old(out)@ + ser_str(s@),
{
    let mut bytes = s.as_bytes_vec();
    write_u64(out, bytes.len() as u64);
    out.append(&mut bytes);
    proof {
        assert(out@ =~= old(out)@ + ser_str(s@));
    }
}

/// Writes a scalar type as its upper-case name.
fn write_scalar(out: &mut Vec<u8>, st: ScalarType)
    ensures
        final(out)@ == old(out)@ + ser_scalar(st),
{
    write_str(out, st.as_str());
}

/// Writes a program: a word count, then the words.
fn write_spirv(out: &mut Vec<u8>, s: &Vec<u32>)
    ensures
        final(out)@ == old(out)@ + ser_spirv(s@),
{
    write_u64(out, s.len() as u64);
    let ghost start = out@;
    let mut i: usize = 0;
    while i < s.len()
        invariant
            i <= s@.len(),
            out@ == start + ser_items(s@.take(i as int), u32_item_ser()),
        decreases s@.len() - i,
    {
        proof {
            assert(s@.take(i + 1) =~= s@.take(i as int).push(s@[i as int]));
            lemma_ser_items_snoc(s@.take(i as int), u32_item_ser(), s@[i as int]);
        }
        write_u32(out, s[i]);
        i += 1;
    }
    proof {
        assert(s@.take(s@.len() as int) =~= s@);
        assert(out@ =~= old(out)@ + ser_spirv(s@));
    }
}

/// Writes one specialization descriptor.
fn write_spec_desc(out: &mut Vec<u8>, d: &SpecDesc)
    ensures
        final(out)@ == old(out)@ + ser_spec_desc(d@),
{
    write_str(out, d.name.as_str());
    write_scalar(out, d.scalar_type);
    proof {
        assert(out@ =~= old(out)@ + ser_spec_desc(d@));
    }
}

/// Writes one slice descriptor.
fn write_slice_desc(out: &mut Vec<u8>, d: &SliceDesc)
    ensures
        final(out)@ == old(out)@ + ser_slice_desc(d@),
{
    write_str(out, d.name.as_str());
    write_scalar(out, d.scalar_type);
    write_bool(out, d.mutable);
    write_bool(out, d.item);
    proof {
        assert(out@ =~= old(out)@ + ser_slice_desc(d@));
    }
}

/// Writes one push descriptor.
fn write_push_desc(out: &mut Vec<u8>, d: &PushDesc)
    ensures
        final(out)@ == old(out)@ + ser_push_desc(d@),
{
    write_str(out, d.name.as_str());
    write_scalar(out, d.scalar_type);
    proof {
        assert(out@ =~= old(out)@ + ser_push_desc(d@));
    }
}

/// Writes a specialization descriptor list: a count, then the items.
fn write_spec_descs(out: &mut Vec<u8>, v: &Vec<SpecDesc>)
    ensures
        final(out)@ == old(out)@ + ser_spec_descs(v@.map_values(|d: SpecDesc| d@)),
{
    write_u64(out, v.len() as u64);
    let ghost vv = v@.map_values(|d: SpecDesc| d@);
    let ghost start = out@;
    let mut i: usize = 0;
    while i < v.len()
        invariant
            i <= v@.len(),
            vv == v@.map_values(|d: SpecDesc| d@),
            out@ == start + ser_items(vv.take(i as int), spec_desc_ser()),
        decreases v@.len() - i,
    {
        proof {
            assert(vv[i as int] == v@[i as int]@);
            assert(vv.take(i + 1) =~= vv.take(i as int).push(vv[i as int]));
            lemma_ser_items_snoc(vv.take(i as int), spec_desc_ser(), vv[i as int]);
        }
        write_spec_desc(out, &v[i]);
        i += 1;
    }
    proof {
        assert(vv.take(vv.len() as int) =~= vv);
        assert(out@ =~= old(out)@ + ser_spec_descs(vv));
    }
}

/// Writes a slice descriptor list: a count, then the items.
fn write_slice_descs(out: &mut Vec<u8>, v: &Vec<SliceDesc>)
    ensures
        final(out)@ == old(out)@ + ser_slice_descs(v@.map_values(|d: SliceDesc| d@)),
{
    write_u64(out, v.len() as u64);
    let ghost vv = v@.map_values(|d: SliceDesc| d@);
    let ghost start = out@;
    let mut i: usize = 0;
    while i < v.len()
        invariant
            i <= v@.len(),
            vv == v@.map_values(|d: SliceDesc| d@),
            out@ == start + ser_items(vv.take(i as int), slice_desc_ser()),
        decreases v@.len() - i,
    {
        proof {
            assert(vv[i as int] == v@[i as int]@);
            assert(vv.take(i + 1) =~= vv.take(i as int).push(vv[i as int]));
            lemma_ser_items_snoc(vv.take(i as int), slice_desc_ser(), vv[i as int]);
        }
        write_slice_desc(out, &v[i]);
        i += 1;
    }
    proof {
        assert(vv.take(vv.len() as int) =~= vv);
        assert(out@ =~= old(out)@ + ser_slice_descs(vv));
    }
}

/// Writes a push descriptor list: a count, then the items.
fn write_push_descs(out: &mut Vec<u8>, v: &Vec<PushDesc>)
    ensures
        final(out)@ == old(out)@ + ser_push_descs(v@.map_values(|d: PushDesc| d@)),
{
    write_u64(out, v.len() as u64);
    let ghost vv = v@.map_values(|d: PushDesc| d@);
    let ghost start = out@;
    let mut i: usize = 0;
    while i < v.len()
        invariant
            i <= v@.len(),
            vv == v@.map_values(|d: PushDesc| d@),
            out@ == start + ser_items(vv.take(i as int), push_desc_ser()),
        decreases v@.len() - i,
    {
        proof {
            assert(vv[i as int] == v@[i as int]@);
            assert(vv.take(i + 1) =~= vv.take(i as int).push(vv[i as int]));
            lemma_ser_items_snoc(vv.take(i as int), push_desc_ser(), vv[i as int]);
        }
        write_push_desc(out, &v[i]);
        i += 1;
    }
    proof {
        assert(vv.take(vv.len() as int) =~= vv);
        assert(out@ =~= old(out)@ + ser_push_descs(vv));
    }
}

/// Writes one kernel descriptor, program bytes and features included.
fn write_desc(out: &mut Vec<u8>, d: &KernelDesc)
    ensures
        final(out)@ == old(out)@ + ser_desc(d@),
{
    write_str(out, d.name.as_str());
    write_spirv(out, &d.spirv);
    write_u32(out, d.features.bits);
    write_bool(out, d.safe);
    proof {
        assert(out@ =~= old(out)@ + ser_desc_head(d@));
    }
    write_spec_descs(out, &d.spec_descs);
    write_slice_descs(out, &d.slice_descs);
    write_push_descs(out, &d.push_descs);
    proof {
        assert(out@ =~= old(out)@ + ser_desc(d@));
    }
}

/// Serializes a whole cache into its compact byte form.
pub fn encode_cache_bytes(c: &Cache) -> (r: Vec<u8>)
    ensures
        r@ == ser_cache(c@),
{
    let mut out: Vec<u8> = Vec::new();
    write_str(&mut out, c.version.as_str());
    write_u64(&mut out, c.kernels.len() as u64);
    let ghost cv = c@;
    let ghost start = out@;
    let mut i: usize = 0;
    while i < c.kernels.len()
        invariant
            i <= c.kernels@.len(),
            cv == c@,
            out@ == start + ser_items(cv.kernels.take(i as int), desc_ser()),
        decreases c.kernels@.len() - i,
    {
        proof {
            assert(cv.kernels[i as int] == c.kernels@[i as int]@);
            assert(cv.kernels.take(i + 1) =~= cv.kernels.take(i as int).push(
                cv.kernels[i as int],
            ));
            lemma_ser_items_snoc(cv.kernels.take(i as int), desc_ser(), cv.kernels[i as int]);
        }
        write_desc(&mut out, &c.kernels[i]);
        i += 1;
    }
    proof {
        assert(cv.kernels.take(cv.kernels.len() as int) =~= cv.kernels);
        assert(out@ =~= ser_cache(cv));
    }
    out
}


/// Relies on String::from_utf8: it succeeds exactly on valid UTF-8 input
/// and the returned string's characters decode from those bytes.
#[verifier::external_body]
fn string_from_utf8(v: Vec<u8>) -> (r: Option<String>)
    ensures
        match r {
            Some(s) => valid_utf8(v@) && s@ == decode_utf8(v@),
            None => !valid_utf8(v@),
        },
{
    match String::from_utf8(v) {
        Ok(s) => Some(s),
        Err(_) => None,
    }
}

/// Reads a 32-bit little-endian word.
fn read_u32(b: &Vec<u8>, pos: usize) -> (r: Option<(u32, usize)>)
    ensures
        match r {
            Some((x, p)) => parse_u32(b@, pos as int) == Some((x, p as int)),
            None => parse_u32(b@, pos as int) is None,
        },
{
    if b.len() >= 4 && pos <= b.len() - 4 {
        let x = (b[pos] as u32) | (b[pos + 1] as u32) << 8 | (b[pos + 2] as u32) << 16 | (b[pos
            + 3] as u32) << 24;
        Some((x, pos + 4))
    } else {
        None
    }
}

/// Reads a 64-bit little-endian word.
pub(crate) fn read_u64(b: &Vec<u8>, pos: usize) -> (r: Option<(u64, usize)>)
    ensures
        match r {
            Some((x, p)) => parse_u64(b@, pos as int) == Some((x, p as int)),
            None => parse_u64(b@, pos as int) is None,
        },
{
    if b.len() >= 8 && pos <= b.len() - 8 {
        let x = (b[pos] as u64) | (b[pos + 1] as u64) << 8 | (b[pos + 2] as u64) << 16 | (b[pos
            + 3] as u64) << 24 | (b[pos + 4] as u64) << 32 | (b[pos + 5] as u64) << 40 | (b[pos
            + 6] as u64) << 48 | (b[pos + 7] as u64) << 56;
        Some((x, pos + 8))
    } else {
        None
    }
}

/// Reads one boolean byte.
fn read_bool(b: &Vec<u8>, pos: usize) -> (r: Option<(bool, usize)>)
    ensures
        match r {
            Some((x, p)) => parse_bool(b@, pos as int) == Some((x, p as int)),
            None => parse_bool(b@, pos as int) is None,
        },
{
    if pos < b.len() {
        if b[pos] == 1 {
            Some((true, pos + 1))
        } else if b[pos] == 0 {
            Some((false, pos + 1))
        } else {
            None
        }
    } else {
        None
    }
}

/// Copies `n` bytes starting at `pos`.
pub(crate) fn read_exact(b: &Vec<u8>, pos: usize, n: usize) -> (r: Vec<u8>)
    requires
        pos + n <= b@.len(),
    ensures
        r@ == b@.subrange(pos as int, pos as int + n as int),
{
    let bl = b.len();
    let mut r: Vec<u8> = Vec::new();
    let mut i: usize = 0;
    while i < n
        invariant
            i <= n,
            pos + n <= b@.len(),
            b@.len() == bl,
            r@ == b@.subrange(pos as int, pos as int + i as int),
        decreases n - i,
    {
        r.push(b[pos + i]);
        proof {
            assert(r@ =~= b@.subrange(pos as int, pos as int + (i + 1)));
        }
        i += 1;
    }
    r
}

/// Reads a length-prefixed UTF-8 string.
fn read_str(b: &Vec<u8>, pos: usize) -> (r: Option<(String, usize)>)
    ensures
        match r {
            Some((s, p)) => parse_str(b@, pos as int) == Some((s@, p as int)),
            None => parse_str(b@, pos as int) is None,
        },
{
    let (n, p) = match read_u64(b, pos) {
        Some(v) => v,
        None => {
            return None;
        },
    };
    if n > (b.len() - p) as u64 {
        return None;
    }
    let n_us = n as usize;
    let sub = read_exact(b, p, n_us);
    match string_from_utf8(sub) {
        Some(s) => Some((s, p + n_us)),
        None => None,
    }
}

/// Reads a scalar type by name.
fn read_scalar(b: &Vec<u8>, pos: usize) -> (r: Option<(ScalarType, usize)>)
    ensures
        match r {
            Some((x, p)) => parse_scalar(b@, pos as int) == Some((x, p as int)),
            None => parse_scalar(b@, pos as int) is None,
        },
{
    let (s, p) = match read_str(b, pos) {
        Some(v) => v,
        None => {
            return None;
        },
    };
    match ScalarType::from_str(s.as_str()) {
        Some(st) => Some((st, p)),
        None => None,
    }
}

/// Reads a program: a word count, then the words.
fn read_spirv(b: &Vec<u8>, pos: usize) -> (r: Option<(Vec<u32>, usize)>)
    ensures
        match r {
            Some((v, p)) => parse_spirv(b@, pos as int) == Some((v@, p as int)),
            None => parse_spirv(b@, pos as int) is None,
        },
{
    let (n, p0) = match read_u64(b, pos) {
        Some(v) => v,
        None => {
            return None;
        },
    };
    let mut acc: Vec<u32> = Vec::new();
    let mut cur: usize = p0;
    let mut i: u64 = 0;
    while i < n
        invariant
            i <= n,
            parse_u64(b@, pos as int) == Some((n, p0 as int)),
            parse_items(b@, p0 as int, i as int, u32_item_parse()) == Some((acc@, cur as int)),
        decreases n - i,
    {
        let ghost accv = acc@;
        proof {
            lemma_parse_items_unroll(b@, u32_item_parse(), p0 as int, n as int, i as int);
            assert(u32_item_parse()(b@, cur as int) == parse_u32(b@, cur as int));
        }
        let (x, p2) = match read_u32(b, cur) {
            Some(v) => v,
            None => {
                return None;
            },
        };
        proof {
            lemma_parse_items_unroll(b@, u32_item_parse(), p0 as int, i as int + 1, i as int);
            assert(seq![x] + Seq::<u32>::empty() =~= seq![x]);
            assert(parse_items(b@, p2 as int, 0, u32_item_parse()) == Some(
                (Seq::<u32>::empty(), p2 as int),
            ));
            assert(parse_items(b@, cur as int, 1, u32_item_parse()) == Some((seq![x], p2 as int)));
        }
        acc.push(x);
        proof {
            assert(acc@ =~= accv + seq![x]);
        }
        cur = p2;
        i += 1;
    }
    Some((acc, cur))
}


/// Reads one specialization descriptor.
fn read_spec_desc(b: &Vec<u8>, pos: usize) -> (r: Option<(SpecDesc, usize)>)
    ensures
        match r {
            Some((d, p)) => parse_spec_desc(b@, pos as int) == Some((d@, p as int)),
            None => parse_spec_desc(b@, pos as int) is None,
        },
{
    let (name, p) = match read_str(b, pos) {
        Some(v) => v,
        None => {
            return None;
        },
    };
    let (st, p2) = match read_scalar(b, p) {
        Some(v) => v,
        None => {
            return None;
        },
    };
    Some((SpecDesc { name, scalar_type: st }, p2))
}

/// Reads one slice descriptor.
fn read_slice_desc(b: &Vec<u8>, pos: usize) -> (r: Option<(SliceDesc, usize)>)
    ensures
        match r {
            Some((d, p)) => parse_slice_desc(b@, pos as int) == Some((d@, p as int)),
            None => parse_slice_desc(b@, pos as int) is None,
        },
{
    let (name, p) = match read_str(b, pos) {
        Some(v) => v,
        None => {
            return None;
        },
    };
    let (st, p2) = match read_scalar(b, p) {
        Some(v) => v,
        None => {
            return None;
        },
    };
    let (mutable, p3) = match read_bool(b, p2) {
        Some(v) => v,
        None => {
            return None;
        },
    };
    let (item, p4) = match read_bool(b, p3) {
        Some(v) => v,
        None => {
            return None;
        },
    };
    Some((SliceDesc { name, scalar_type: st, mutable, item }, p4))
}

/// Reads one push descriptor.
fn read_push_desc(b: &Vec<u8>, pos: usize) -> (r: Option<(PushDesc, usize)>)
    ensures
        match r {
            Some((d, p)) => parse_push_desc(b@, pos as int) == Some((d@, p as int)),
            None => parse_push_desc(b@, pos as int) is None,
        },
{
    let (name, p) = match read_str(b, pos) {
        Some(v) => v,
        None => {
            return None;
        },
    };
    let (st, p2) = match read_scalar(b, p) {
        Some(v) => v,
        None => {
            return None;
        },
    };
    Some((PushDesc { name, scalar_type: st }, p2))
}

/// Reads a counted list of specialization descriptors.
fn read_spec_descs(b: &Vec<u8>, pos: usize) -> (r: Option<(Vec<SpecDesc>, usize)>)
    ensures
        match r {
            Some((v, p)) => parse_u64(b@, pos as int) matches Some((n, p0)) && parse_items(
                b@,
                p0,
                n as int,
                spec_desc_parse(),
            ) == Some((v@.map_values(|d: SpecDesc| d@), p as int)),
            None => parse_u64(b@, pos as int) is None || (parse_u64(
                b@,
                pos as int,
            ) matches Some((n, p0)) && parse_items(b@, p0, n as int, spec_desc_parse()) is None),
        },
{
    let (n, p0) = match read_u64(b, pos) {
        Some(v) => v,
        None => {
            return None;
        },
    };
    let mut acc: Vec<SpecDesc> = Vec::new();
    let mut cur: usize = p0;
    let mut i: u64 = 0;
    while i < n
        invariant
            i <= n,
            parse_u64(b@, pos as int) == Some((n, p0 as int)),
            parse_items(b@, p0 as int, i as int, spec_desc_parse()) == Some(
                (acc@.map_values(|d: SpecDesc| d@), cur as int),
            ),
        decreases n - i,
    {
        let ghost accv = acc@.map_values(|d: SpecDesc| d@);
        proof {
            lemma_parse_items_unroll(b@, spec_desc_parse(), p0 as int, n as int, i as int);
            assert(spec_desc_parse()(b@, cur as int) == parse_spec_desc(b@, cur as int));
        }
        let (x, p2) = match read_spec_desc(b, cur) {
            Some(v) => v,
            None => {
                return None;
            },
        };
        proof {
            lemma_parse_items_unroll(b@, spec_desc_parse(), p0 as int, i as int + 1, i as int);
            assert(seq![x@] + Seq::<SpecDescV>::empty() =~= seq![x@]);
            assert(parse_items(b@, p2 as int, 0, spec_desc_parse()) == Some(
                (Seq::<SpecDescV>::empty(), p2 as int),
            ));
            assert(parse_items(b@, cur as int, 1, spec_desc_parse()) == Some(
                (seq![x@], p2 as int),
            ));
        }
        acc.push(x);
        proof {
            assert(acc@.map_values(|d: SpecDesc| d@) =~= accv + seq![acc@.last()@]);
        }
        cur = p2;
        i += 1;
    }
    Some((acc, cur))
}

/// Reads a counted list of slice descriptors.
fn read_slice_descs(b: &Vec<u8>, pos: usize) -> (r: Option<(Vec<SliceDesc>, usize)>)
    ensures
        match r {
            Some((v, p)) => parse_u64(b@, pos as int) matches Some((n, p0)) && parse_items(
                b@,
                p0,
                n as int,
                slice_desc_parse(),
            ) == Some((v@.map_values(|d: SliceDesc| d@), p as int)),
            None => parse_u64(b@, pos as int) is None || (parse_u64(
                b@,
                pos as int,
            ) matches Some((n, p0)) && parse_items(b@, p0, n as int, slice_desc_parse()) is None),
        },
{
    let (n, p0) = match read_u64(b, pos) {
        Some(v) => v,
        None => {
            return None;
        },
    };
    let mut acc: Vec<SliceDesc> = Vec::new();
    let mut cur: usize = p0;
    let mut i: u64 = 0;
    while i < n
        invariant
            i <= n,
            parse_u64(b@, pos as int) == Some((n, p0 as int)),
            parse_items(b@, p0 as int, i as int, slice_desc_parse()) == Some(
                (acc@.map_values(|d: SliceDesc| d@), cur as int),
            ),
        decreases n - i,
    {
        let ghost accv = acc@.map_values(|d: SliceDesc| d@);
        proof {
            lemma_parse_items_unroll(b@, slice_desc_parse(), p0 as int, n as int, i as int);
            assert(slice_desc_parse()(b@, cur as int) == parse_slice_desc(b@, cur as int));
        }
        let (x, p2) = match read_slice_desc(b, cur) {
            Some(v) => v,
            None => {
                return None;
            },
        };
        proof {
            lemma_parse_items_unroll(b@, slice_desc_parse(), p0 as int, i as int + 1, i as int);
            assert(seq![x@] + Seq::<SliceDescV>::empty() =~= seq![x@]);
            assert(parse_items(b@, p2 as int, 0, slice_desc_parse()) == Some(
                (Seq::<SliceDescV>::empty(), p2 as int),
            ));
            assert(parse_items(b@, cur as int, 1, slice_desc_parse()) == Some(
                (seq![x@], p2 as int),
            ));
        }
        acc.push(x);
        proof {
            assert(acc@.map_values(|d: SliceDesc| d@) =~= accv + seq![acc@.last()@]);
        }
        cur = p2;
        i += 1;
    }
    Some((acc, cur))
}

/// Reads a counted list of push descriptors.
fn read_push_descs(b: &Vec<u8>, pos: usize) -> (r: Option<(Vec<PushDesc>, usize)>)
    ensures
        match r {
            Some((v, p)) => parse_u64(b@, pos as int) matches Some((n, p0)) && parse_items(
                b@,
                p0,
                n as int,
                push_desc_parse(),
            ) == Some((v@.map_values(|d: PushDesc| d@), p as int)),
            None => parse_u64(b@, pos as int) is None || (parse_u64(
                b@,
                pos as int,
            ) matches Some((n, p0)) && parse_items(b@, p0, n as int, push_desc_parse()) is None),
        },
{
    let (n, p0) = match read_u64(b, pos) {
        Some(v) => v,
        None => {
            return None;
        },
    };
    let mut acc: Vec<PushDesc> = Vec::new();
    let mut cur: usize = p0;
    let mut i: u64 = 0;
    while i < n
        invariant
            i <= n,
            parse_u64(b@, pos as int) == Some((n, p0 as int)),
            parse_items(b@, p0 as int, i as int, push_desc_parse()) == Some(
                (acc@.map_values(|d: PushDesc| d@), cur as int),
            ),
        decreases n - i,
    {
        let ghost accv = acc@.map_values(|d: PushDesc| d@);
        proof {
            lemma_parse_items_unroll(b@, push_desc_parse(), p0 as int, n as int, i as int);
            assert(push_desc_parse()(b@, cur as int) == parse_push_desc(b@, cur as int));
        }
        let (x, p2) = match read_push_desc(b, cur) {
            Some(v) => v,
            None => {
                return None;
            },
        };
        proof {
            lemma_parse_items_unroll(b@, push_desc_parse(), p0 as int, i as int + 1, i as int);
            assert(seq![x@] + Seq::<PushDescV>::empty() =~= seq![x@]);
            assert(parse_items(b@, p2 as int, 0, push_desc_parse()) == Some(
                (Seq::<PushDescV>::empty(), p2 as int),
            ));
            assert(parse_items(b@, cur as int, 1, push_desc_parse()) == Some(
                (seq![x@], p2 as int),
            ));
        }
        acc.push(x);
        proof {
            assert(acc@.map_values(|d: PushDesc| d@) =~= accv + seq![acc@.last()@]);
        }
        cur = p2;
        i += 1;
    }
    Some((acc, cur))
}

/// Reads one kernel descriptor.
fn read_desc(b: &Vec<u8>, pos: usize) -> (r: Option<(KernelDesc, usize)>)
    ensures
        match r {
            Some((d, p)) => parse_desc(b@, pos as int) == Some((d@, p as int)),
            None => parse_desc(b@, pos as int) is None,
        },
{
    let (name, p1) = match read_str(b, pos) {
        Some(v) => v,
        None => {
            return None;
        },
    };
    let (spirv, p2) = match read_spirv(b, p1) {
        Some(v) => v,
        None => {
            return None;
        },
    };
    let (features, p3) = match read_u32(b, p2) {
        Some(v) => v,
        None => {
            return None;
        },
    };
    let (safe, p4) = match read_bool(b, p3) {
        Some(v) => v,
        None => {
            return None;
        },
    };
    let (spec_descs, p5) = match read_spec_descs(b, p4) {
        Some(v) => v,
        None => {
            return None;
        },
    };
    let (slice_descs, p6) = match read_slice_descs(b, p5) {
        Some(v) => v,
        None => {
            return None;
        },
    };
    let (push_descs, p7) = match read_push_descs(b, p6) {
        Some(v) => v,
        None => {
            return None;
        },
    };
    let d = KernelDesc {
        name,
        spirv,
        features: crate::features::Features { bits: features },
        safe,
        spec_descs,
        slice_descs,
        push_descs,
    };
    Some((d, p7))
}

/// Reads a whole cache.
fn read_cache(b: &Vec<u8>, pos: usize) -> (r: Option<(Cache, usize)>)
    ensures
        match r {
            Some((c, p)) => parse_cache(b@, pos as int) == Some((c@, p as int)),
            None => parse_cache(b@, pos as int) is None,
        },
{
    let (version, p1) = match read_str(b, pos) {
        Some(v) => v,
        None => {
            return None;
        },
    };
    let (n, p2) = match read_u64(b, p1) {
        Some(v) => v,
        None => {
            return None;
        },
    };
    let mut acc: Vec<KernelDesc> = Vec::new();
    let mut cur: usize = p2;
    let mut i: u64 = 0;
    while i < n
        invariant
            i <= n,
            parse_str(b@, pos as int) == Some((version@, p1 as int)),
            parse_u64(b@, p1 as int) == Some((n, p2 as int)),
            parse_items(b@, p2 as int, i as int, desc_parse()) == Some(
                (acc@.map_values(|d: KernelDesc| d@), cur as int),
            ),
        decreases n - i,
    {
        let ghost accv = acc@.map_values(|d: KernelDesc| d@);
        proof {
            lemma_parse_items_unroll(b@, desc_parse(), p2 as int, n as int, i as int);
            assert(desc_parse()(b@, cur as int) == parse_desc(b@, cur as int));
        }
        let (x, pn) = match read_desc(b, cur) {
            Some(v) => v,
            None => {
                return None;
            },
        };
        proof {
            lemma_parse_items_unroll(b@, desc_parse(), p2 as int, i as int + 1, i as int);
            assert(seq![x@] + Seq::<KernelDescV>::empty() =~= seq![x@]);
            assert(parse_items(b@, pn as int, 0, desc_parse()) == Some(
                (Seq::<KernelDescV>::empty(), pn as int),
            ));
            assert(parse_items(b@, cur as int, 1, desc_parse()) == Some((seq![x@], pn as int)));
        }
        acc.push(x);
        proof {
            assert(acc@.map_values(|d: KernelDesc| d@) =~= accv + seq![acc@.last()@]);
        }
        cur = pn;
        i += 1;
    }
    Some((Cache { version, kernels: acc }, cur))
}

/// Deserializes a cache from its compact byte form: the bytes must hold
/// exactly one serialized cache.
pub fn decode_cache_bytes(b: &Vec<u8>) -> (r: Option<Cache>)
    ensures
        match r {
            Some(c) => spec_decode_bytes(b@) == Some(c@),
            None => spec_decode_bytes(b@) is None,
        },
{
    match read_cache(b, 0) {
        Some((c, p)) => {
            if p == b.len() {
                Some(c)
            } else {
                None
            }
        },
        None => None,
    }
}


/// The lower-case hex digit of one value below 16.
pub open spec fn hex_digit(n: int) -> char {
    if n == 0 {
        '0'
    } else if n == 1 {
        '1'
    } else if n == 2 {
        '2'
    } else if n == 3 {
        '3'
    } else if n == 4 {
        '4'
    } else if n == 5 {
        '5'
    } else if n == 6 {
        '6'
    } else if n == 7 {
        '7'
    } else if n == 8 {
        '8'
    } else if n == 9 {
        '9'
    } else if n == 10 {
        'a'
    } else if n == 11 {
        'b'
    } else if n == 12 {
        'c'
    } else if n == 13 {
        'd'
    } else if n == 14 {
        'e'
    } else {
        'f'
    }
}

/// The lower-case hex spelling of a byte sequence: two digits per byte, in
/// order, high nibble first.
pub open spec fn hex_of(b: Seq<u8>) -> Seq<char>
    decreases b.len(),
{
    if b.len() == 0 {
        Seq::empty()
    } else {
        seq![hex_digit(b[0] as int / 16), hex_digit(b[0] as int % 16)] + hex_of(b.drop_first())
    }
}

/// Relies on hex::encode: two lower-case digits per byte, high nibble
/// first, bytes in order.
#[verifier::external_body]
fn hex_encode(b: &Vec<u8>) -> (r: String)
    ensures
        r@ == hex_of(b@),
{
    hex::encode(b.as_slice())
}

/// A kernel descriptor's interface fields alone, without program bytes or
/// features: what the device-side data identifier carries.
pub open spec fn ser_desc_meta(d: KernelDescV) -> Seq<u8> {
    ser_str(d.name) + ser_bool(d.safe) + ser_spec_descs(d.spec_descs) + ser_slice_descs(
        d.slice_descs,
    ) + ser_push_descs(d.push_descs)
}

impl KernelDesc {
    /// The device-side data identifier: a fixed prefix followed by the hex
    /// spelling of the serialized interface fields, so the offline compiler
    /// can recover the descriptor from the compiled module.
    pub fn encode(&self) -> (r: String)
        ensures
            r@ == "__krnl_kernel_data_"@ + hex_of(ser_desc_meta(self@)),
    {
        let mut bytes: Vec<u8> = Vec::new();
        write_str(&mut bytes, self.name.as_str());
        write_bool(&mut bytes, self.safe);
        write_spec_descs(&mut bytes, &self.spec_descs);
        write_slice_descs(&mut bytes, &self.slice_descs);
        write_push_descs(&mut bytes, &self.push_descs);
        proof {
            assert(bytes@ =~= ser_desc_meta(self@));
        }
        let hex = hex_encode(&bytes);
        let mut out: String = ("__krnl_kernel_data_").to_owned();
        out.append(hex.as_str());
        out
    }
}

} // verus!
