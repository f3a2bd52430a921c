//! The push-constant block layout: push descriptors in sorted order, then
//! up to three single-byte padding fields rounding the size up to a 4-byte
//! boundary, then an (offset, length) pair of 32-bit words per slice
//! descriptor in declaration order. Host dispatch and device entry point
//! must reproduce this layout byte for byte; it is their wire contract.

use vstd::prelude::*;
use vstd::string::StrSliceExecFns;
use vstd::string::StringExecFns;
use crate::desc::{KernelDesc, PushDesc};
use crate::scalar::scalar_size;

verus! {

/// What one field of the push-constant block stands for.
#[derive(Clone, Copy, PartialEq, Eq, Debug, Structural)]
pub enum PushFieldKind {
    /// A push-constant argument's value.
    Value,
    /// A padding byte.
    Pad,
    /// The 32-bit buffer offset of one slice argument.
    SliceOffset,
    /// The 32-bit length of one slice argument.
    SliceLen,
}

/// One field of the push-constant block, with its byte offset and size.
pub struct PushConstField {
    pub name: String,
    pub kind: PushFieldKind,
    pub offset: u32,
    pub size: u32,
}

/// The summed byte size of the first `i` push descriptors.
pub open spec fn sum_push_sizes(s: Seq<PushDesc>, i: int) -> int
    decreases i,
{
    if i <= 0 {
        0
    } else {
        sum_push_sizes(s, i - 1) + scalar_size(s[i - 1].scalar_type)
    }
}

/// How many single-byte padding fields round `sz` up to a 4-byte boundary.
pub open spec fn pad_count(sz: int) -> int {
    (4 - sz % 4) % 4
}

/// The names of the padding fields.
pub open spec fn pad_name(k: int) -> Seq<char> {
    if k == 0 {
        "__krnl_pad0"@
    } else if k == 1 {
        "__krnl_pad1"@
    } else {
        "__krnl_pad2"@
    }
}

/// After padding, the block size so far is a multiple of 4.
pub proof fn lemma_padded_size_aligned(sz: int)
    requires
        sz >= 0,
    ensures
        0 <= pad_count(sz) <= 3,
        (sz + pad_count(sz)) % 4 == 0,
{
    let r = sz % 4;
    assert(0 <= r < 4);
}

impl KernelDesc {
    /// The push-constant block of this descriptor: every field with its
    /// name, role, byte offset and byte size, together with the total block
    /// size, which is always a multiple of 4.
    pub fn push_const_layout(&self) -> (r: (Vec<PushConstField>, u32))
        requires
            self.push_descs@.len() <= 0x0800_0000,
            self.slice_descs@.len() <= 0x0800_0000,
        ensures
            ({
                let pushes = self.push_descs@;
                let slices = self.slice_descs@;
                let np = pushes.len() as int;
                let sz = sum_push_sizes(pushes, np);
                let pad = pad_count(sz);
                let base = sz + pad;
                let fields = r.0@;
                &&& fields.len() == np + pad + 2 * slices.len()
                &&& forall|i: int|
                    0 <= i < np ==> {
                        let f = #[trigger] fields[i];
                        f.kind is Value && f.name == pushes[i].name && f.offset
                            == sum_push_sizes(pushes, i) && f.size == scalar_size(
                            pushes[i].scalar_type,
                        )
                    }
                &&& forall|k: int|
                    0 <= k < pad ==> {
                        let f = #[trigger] fields[np + k];
                        f.kind is Pad && f.name@ == pad_name(k) && f.offset == sz + k && f.size
                            == 1
                    }
                &&& forall|i: int|
                    0 <= i < slices.len() ==> {
                        let fo = #[trigger] fields[np + pad + 2 * i];
                        let fl = fields[np + pad + 2 * i + 1];
                        &&& fo.kind is SliceOffset
                        &&& fo.name@ == "__krnl_offset_"@ + slices[i].name@
                        &&& fo.offset == base + 8 * i
                        &&& fo.size == 4
                        &&& fl.kind is SliceLen
                        &&& fl.name@ == "__krnl_len_"@ + slices[i].name@
                        &&& fl.offset == base + 8 * i + 4
                        &&& fl.size == 4
                    }
                &&& r.1 == base + 8 * slices.len()
                &&& r.1 % 4 == 0
            }),
    {
        let ghost pushes = self.push_descs@;
        let ghost slices = self.slice_descs@;
        let mut fields: Vec<PushConstField> = Vec::new();
        let mut size: u32 = 0;
        let mut i: usize = 0;
        while i < self.push_descs.len()
            invariant
                i <= pushes.len(),
                pushes == self.push_descs@,
                pushes.len() <= 0x0800_0000,
                size == sum_push_sizes(pushes, i as int),
                size <= 8 * i,
                fields@.len() == i,
                forall|j: int|
                    0 <= j < i ==> {
                        let f = #[trigger] fields@[j];
                        f.kind is Value && f.name == pushes[j].name && f.offset
                            == sum_push_sizes(pushes, j) && f.size == scalar_size(
                            pushes[j].scalar_type,
                        )
                    },
            decreases pushes.len() - i,
        {
            let p = &self.push_descs[i];
            let psize = p.scalar_type.size() as u32;
            fields.push(
                PushConstField {
                    name: p.name.clone(),
                    kind: PushFieldKind::Value,
                    offset: size,
                    size: psize,
                },
            );
            size += psize;
            i += 1;
        }
        let ghost sz = sum_push_sizes(pushes, pushes.len() as int);
        let ghost np = pushes.len() as int;
        proof {
            lemma_padded_size_aligned(sz as int);
        }
        let pad = ((4 - (size % 4)) % 4) as usize;
        let mut k: usize = 0;
        while k < pad
            invariant
                k <= pad,
                np == pushes.len() as int,
                pushes == self.push_descs@,
                sz == sum_push_sizes(pushes, np),
                pad == pad_count(sz),
                size == sz,
                fields@.len() == np + k,
                forall|j: int|
                    0 <= j < np ==> {
                        let f = #[trigger] fields@[j];
                        f.kind is Value && f.name == pushes[j].name && f.offset
                            == sum_push_sizes(pushes, j) && f.size == scalar_size(
                            pushes[j].scalar_type,
                        )
                    },
                forall|j: int|
                    0 <= j < k ==> {
                        let f = #[trigger] fields@[np + j];
                        f.kind is Pad && f.name@ == pad_name(j) && f.offset == sz + j && f.size
                            == 1
                    },
            decreases pad - k,
        {
            let name: &'static str = if k == 0 {
                "__krnl_pad0"
            } else if k == 1 {
                "__krnl_pad1"
            } else {
                "__krnl_pad2"
            };
            let field = PushConstField {
                name: name.to_owned(),
                kind: PushFieldKind::Pad,
                offset: size + k as u32,
                size: 1,
            };
            let ghost gf = field;
            let ghost pre = fields@;
            fields.push(field);
            proof {
                assert(fields@ == pre.push(gf));
                assert forall|j: int| 0 <= j < k + 1 implies {
                    let f = #[trigger] fields@[np + j];
                    f.kind is Pad && f.name@ == pad_name(j) && f.offset == sz + j && f.size == 1
                } by {
                    if j < k {
                        assert(fields@[np + j] == pre[np + j]);
                    } else {
                        assert(fields@[np + j] == gf);
                    }
                }
                assert(forall|j: int| 0 <= j < np ==> fields@[j] == #[trigger] pre[j]);
            }
            k += 1;
        }
        let base: u32 = size + pad as u32;
        let mut i: usize = 0;
        while i < self.slice_descs.len()
            invariant
                i <= slices.len(),
                slices == self.slice_descs@,
                slices.len() <= 0x0800_0000,
                np == pushes.len() as int,
                pushes == self.push_descs@,
                sz == sum_push_sizes(pushes, np),
                base == sz + pad_count(sz),
                base <= 0x4000_0010,
                fields@.len() == np + pad_count(sz) + 2 * i,
                forall|j: int|
                    0 <= j < np ==> {
                        let f = #[trigger] fields@[j];
                        f.kind is Value && f.name == pushes[j].name && f.offset
                            == sum_push_sizes(pushes, j) && f.size == scalar_size(
                            pushes[j].scalar_type,
                        )
                    },
                forall|j: int|
                    0 <= j < pad_count(sz) ==> {
                        let f = #[trigger] fields@[np + j];
                        f.kind is Pad && f.name@ == pad_name(j) && f.offset == sz + j && f.size
                            == 1
                    },
                forall|j: int|
                    0 <= j < i ==> {
                        let fo = #[trigger] fields@[np + pad_count(sz) + 2 * j];
                        let fl = fields@[np + pad_count(sz) + 2 * j + 1];
                        &&& fo.kind is SliceOffset
                        &&& fo.name@ == "__krnl_offset_"@ + slices[j].name@
                        &&& fo.offset == base + 8 * j
                        &&& fo.size == 4
                        &&& fl.kind is SliceLen
                        &&& fl.name@ == "__krnl_len_"@ + slices[j].name@
                        &&& fl.offset == base + 8 * j + 4
                        &&& fl.size == 4
                    },
            decreases slices.len() - i,
        {
            let s = &self.slice_descs[i];
            let mut offset_name: String = ("__krnl_offset_").to_owned();
            offset_name.append(s.name.as_str());
            let mut len_name: String = ("__krnl_len_").to_owned();
            len_name.append(s.name.as_str());
            let fo_field = PushConstField {
                name: offset_name,
                kind: PushFieldKind::SliceOffset,
                offset: base + 8 * (i as u32),
                size: 4,
            };
            let fl_field = PushConstField {
                name: len_name,
                kind: PushFieldKind::SliceLen,
                offset: base + 8 * (i as u32) + 4,
                size: 4,
            };
            let ghost gfo = fo_field;
            let ghost gfl = fl_field;
            let ghost pre = fields@;
            fields.push(fo_field);
            fields.push(fl_field);
            proof {
                assert(fields@ == pre.push(gfo).push(gfl));
                assert(forall|j: int| 0 <= j < pre.len() ==> fields@[j] == #[trigger] pre[j]);
                let ghost pc = pad_count(sz);
                assert forall|j: int| 0 <= j < i + 1 implies {
                    let fo = #[trigger] fields@[np + pc + 2 * j];
                    let fl = fields@[np + pc + 2 * j + 1];
                    &&& fo.kind is SliceOffset
                    &&& fo.name@ == "__krnl_offset_"@ + slices[j].name@
                    &&& fo.offset == base + 8 * j
                    &&& fo.size == 4
                    &&& fl.kind is SliceLen
                    &&& fl.name@ == "__krnl_len_"@ + slices[j].name@
                    &&& fl.offset == base + 8 * j + 4
                    &&& fl.size == 4
                } by {
                    if j < i {
                        assert(fields@[np + pc + 2 * j] == pre[np + pc + 2 * j]);
                        assert(fields@[np + pc + 2 * j + 1] == pre[np + pc + 2 * j + 1]);
                    } else {
                        assert(fields@[np + pc + 2 * j] == gfo);
                        assert(fields@[np + pc + 2 * j + 1] == gfl);
                    }
                }
                assert forall|j: int| 0 <= j < pc implies {
                    let f = #[trigger] fields@[np + j];
                    f.kind is Pad && f.name@ == pad_name(j) && f.offset == sz + j && f.size == 1
                } by {
                    assert(fields@[np + j] == pre[np + j]);
                }
            }
            i += 1;
        }
        let total: u32 = base + 8 * (self.slice_descs.len() as u32);
        (fields, total)
    }
}

} // verus!
