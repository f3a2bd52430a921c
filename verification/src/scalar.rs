//! The closed enumeration of scalar numeric types a kernel interface may
//! mention, with their canonical names and byte sizes.

use vstd::prelude::*;
use crate::strutil::str_eq;

verus! {

/// A scalar element type. Buffers, push constants and specialization
/// constants each carry exactly one of these.
#[derive(Clone, Copy, PartialEq, Eq, Hash, Debug, Structural)]
pub enum ScalarType {
    U8,
    I8,
    U16,
    I16,
    F16,
    BF16,
    U32,
    I32,
    F32,
    U64,
    I64,
    F64,
}

/// All scalar types, in canonical order.
pub open spec fn scalar_list() -> Seq<ScalarType> {
    seq![
        ScalarType::U8,
        ScalarType::I8,
        ScalarType::U16,
        ScalarType::I16,
        ScalarType::F16,
        ScalarType::BF16,
        ScalarType::U32,
        ScalarType::I32,
        ScalarType::F32,
        ScalarType::U64,
        ScalarType::I64,
        ScalarType::F64,
    ]
}

/// The lower-case name, as spelled in kernel source.
pub open spec fn scalar_name(s: ScalarType) -> Seq<char> {
    match s {
        ScalarType::U8 => "u8"@,
        ScalarType::I8 => "i8"@,
        ScalarType::U16 => "u16"@,
        ScalarType::I16 => "i16"@,
        ScalarType::F16 => "f16"@,
        ScalarType::BF16 => "bf16"@,
        ScalarType::U32 => "u32"@,
        ScalarType::I32 => "i32"@,
        ScalarType::F32 => "f32"@,
        ScalarType::U64 => "u64"@,
        ScalarType::I64 => "i64"@,
        ScalarType::F64 => "f64"@,
    }
}

/// The upper-case variant name, used by the textual serialization.
pub open spec fn scalar_upper_name(s: ScalarType) -> Seq<char> {
    match s {
        ScalarType::U8 => "U8"@,
        ScalarType::I8 => "I8"@,
        ScalarType::U16 => "U16"@,
        ScalarType::I16 => "I16"@,
        ScalarType::F16 => "F16"@,
        ScalarType::BF16 => "BF16"@,
        ScalarType::U32 => "U32"@,
        ScalarType::I32 => "I32"@,
        ScalarType::F32 => "F32"@,
        ScalarType::U64 => "U64"@,
        ScalarType::I64 => "I64"@,
        ScalarType::F64 => "F64"@,
    }
}

/// The size of one element in bytes.
pub open spec fn scalar_size(s: ScalarType) -> usize {
    match s {
        ScalarType::U8 | ScalarType::I8 => 1usize,
        ScalarType::U16 | ScalarType::I16 | ScalarType::F16 | ScalarType::BF16 => 2usize,
        ScalarType::U32 | ScalarType::I32 | ScalarType::F32 => 4usize,
        ScalarType::U64 | ScalarType::I64 | ScalarType::F64 => 8usize,
    }
}

/// Name-based decoding: a scalar type is recognized by either its
/// upper-case variant name or its lower-case source name.
pub open spec fn spec_scalar_from_str(s: Seq<char>) -> Option<ScalarType> {
    if s == "U8"@ || s == "u8"@ {
        Some(ScalarType::U8)
    } else if s == "I8"@ || s == "i8"@ {
        Some(ScalarType::I8)
    } else if s == "U16"@ || s == "u16"@ {
        Some(ScalarType::U16)
    } else if s == "I16"@ || s == "i16"@ {
        Some(ScalarType::I16)
    } else if s == "F16"@ || s == "f16"@ {
        Some(ScalarType::F16)
    } else if s == "BF16"@ || s == "bf16"@ {
        Some(ScalarType::BF16)
    } else if s == "U32"@ || s == "u32"@ {
        Some(ScalarType::U32)
    } else if s == "I32"@ || s == "i32"@ {
        Some(ScalarType::I32)
    } else if s == "F32"@ || s == "f32"@ {
        Some(ScalarType::F32)
    } else if s == "U64"@ || s == "u64"@ {
        Some(ScalarType::U64)
    } else if s == "I64"@ || s == "i64"@ {
        Some(ScalarType::I64)
    } else if s == "F64"@ || s == "f64"@ {
        Some(ScalarType::F64)
    } else {
        None
    }
}

impl ScalarType {
    /// All scalar types, in canonical order.
    pub fn iter() -> (r: Vec<ScalarType>)
        ensures
            r@ == scalar_list(),
    {
        let r = vec![
            ScalarType::U8,
            ScalarType::I8,
            ScalarType::U16,
            ScalarType::I16,
            ScalarType::F16,
            ScalarType::BF16,
            ScalarType::U32,
            ScalarType::I32,
            ScalarType::F32,
            ScalarType::U64,
            ScalarType::I64,
            ScalarType::F64,
        ];
        proof {
            assert(r@ =~= scalar_list());
        }
        r
    }

    /// The lower-case name, as spelled in kernel source.
    pub fn name(&self) -> (r: &'static str)
        ensures
            r@ == scalar_name(*self),
    {
        match self {
            ScalarType::U8 => "u8",
            ScalarType::I8 => "i8",
            ScalarType::U16 => "u16",
            ScalarType::I16 => "i16",
            ScalarType::F16 => "f16",
            ScalarType::BF16 => "bf16",
            ScalarType::U32 => "u32",
            ScalarType::I32 => "i32",
            ScalarType::F32 => "f32",
            ScalarType::U64 => "u64",
            ScalarType::I64 => "i64",
            ScalarType::F64 => "f64",
        }
    }

    /// The upper-case variant name, used by the textual serialization.
    pub fn as_str(&self) -> (r: &'static str)
        ensures
            r@ == scalar_upper_name(*self),
    {
        match self {
            ScalarType::U8 => "U8",
            ScalarType::I8 => "I8",
            ScalarType::U16 => "U16",
            ScalarType::I16 => "I16",
            ScalarType::F16 => "F16",
            ScalarType::BF16 => "BF16",
            ScalarType::U32 => "U32",
            ScalarType::I32 => "I32",
            ScalarType::F32 => "F32",
            ScalarType::U64 => "U64",
            ScalarType::I64 => "I64",
            ScalarType::F64 => "F64",
        }
    }

    /// The size of one element in bytes.
    pub fn size(&self) -> (r: usize)
        ensures
            r == scalar_size(*self),
    {
        match self {
            ScalarType::U8 | ScalarType::I8 => 1,
            ScalarType::U16 | ScalarType::I16 | ScalarType::F16 | ScalarType::BF16 => 2,
            ScalarType::U32 | ScalarType::I32 | ScalarType::F32 => 4,
            ScalarType::U64 | ScalarType::I64 | ScalarType::F64 => 8,
        }
    }

    /// Decodes a scalar type from either of its two names.
    pub fn from_str(s: &str) -> (r: Option<ScalarType>)
        ensures
            r == spec_scalar_from_str(s@),
    {
        if str_eq(s, "U8") || str_eq(s, "u8") {
            Some(ScalarType::U8)
        } else if str_eq(s, "I8") || str_eq(s, "i8") {
            Some(ScalarType::I8)
        } else if str_eq(s, "U16") || str_eq(s, "u16") {
            Some(ScalarType::U16)
        } else if str_eq(s, "I16") || str_eq(s, "i16") {
            Some(ScalarType::I16)
        } else if str_eq(s, "F16") || str_eq(s, "f16") {
            Some(ScalarType::F16)
        } else if str_eq(s, "BF16") || str_eq(s, "bf16") {
            Some(ScalarType::BF16)
        } else if str_eq(s, "U32") || str_eq(s, "u32") {
            Some(ScalarType::U32)
        } else if str_eq(s, "I32") || str_eq(s, "i32") {
            Some(ScalarType::I32)
        } else if str_eq(s, "F32") || str_eq(s, "f32") {
            Some(ScalarType::F32)
        } else if str_eq(s, "U64") || str_eq(s, "u64") {
            Some(ScalarType::U64)
        } else if str_eq(s, "I64") || str_eq(s, "i64") {
            Some(ScalarType::I64)
        } else if str_eq(s, "F64") || str_eq(s, "f64") {
            Some(ScalarType::F64)
        } else {
            None
        }
    }
}

} // verus!
