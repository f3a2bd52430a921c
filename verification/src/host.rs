//! The host-side half of the dual code generator, as a builder and dispatch
//! model: specialization must precede build, a kernel may be built only on
//! a device whose features contain the descriptor's requirement, and
//! dispatch packs the push-constant block byte for byte as the layout rules
//! demand.

use vstd::prelude::*;
use crate::codec::{ser_u32, ser_u64};
use crate::desc::{desc_matches, KernelDesc, SliceDesc};
use crate::features::{spec_contains, Features};
use crate::layout::pad_count;
use crate::scalar::{scalar_size, ScalarType};

verus! {

/// A scalar argument value, carried as its bit pattern: floating-point
/// values travel as the bits the caller gives.
#[derive(Clone, Copy, PartialEq, Eq, Debug, Structural)]
pub struct ScalarValue {
    pub scalar_type: ScalarType,
    pub bits: u64,
}

/// The capability set a target device offers.
#[derive(Clone, Copy, PartialEq, Eq, Debug, Structural)]
pub struct Device {
    pub features: Features,
}

/// A buffer view handed to dispatch: its element type, mutability, and the
/// (offset, length) pair the push-constant block carries for it.
#[derive(Clone, Copy, PartialEq, Eq, Debug, Structural)]
pub struct SliceArg {
    pub scalar_type: ScalarType,
    pub mutable: bool,
    pub offset: u32,
    pub len: u32,
}

/// Building failed: the device's features do not contain the descriptor's
/// requirement.
#[derive(Clone, Copy, PartialEq, Eq, Debug, Structural)]
pub struct DeviceCapabilityError {
    pub required: Features,
    pub available: Features,
}

/// Dispatch arguments do not match the descriptor's arity, element types or
/// mutability.
#[derive(Clone, Copy, PartialEq, Eq, Debug, Structural)]
pub struct DispatchLayoutError {}

/// A builder for one kernel, carrying its descriptor, the threads per
/// group, and the specialization-constant values once given.
pub struct KernelBuilder {
    pub desc: KernelDesc,
    pub threads: u32,
    pub spec_values: Vec<ScalarValue>,
    pub specialized: bool,
}

/// A builder is ready to build once specialization happened, or
/// immediately when the kernel declares no specialization constants.
pub open spec fn spec_ready(b: KernelBuilder) -> bool {
    b.desc.spec_descs@.len() == 0 || b.specialized
}

impl KernelBuilder {
    /// Starts a builder from a completed descriptor; the default threads
    /// per group come from the execution environment.
    pub fn from_desc(desc: KernelDesc, default_threads: u32) -> (r: KernelBuilder)
        requires
            default_threads > 0,
        ensures
            desc_matches(r.desc, desc),
            r.threads == default_threads,
            r.spec_values@.len() == 0,
            !r.specialized,
    {
        KernelBuilder { desc, threads: default_threads, spec_values: Vec::new(), specialized: false }
    }

    /// Sets the threads per group.
    pub fn with_threads(self, threads: u32) -> (r: KernelBuilder)
        requires
            threads > 0,
        ensures
            desc_matches(r.desc, self.desc),
            r.threads == threads,
            r.spec_values@ == self.spec_values@,
            r.specialized == self.specialized,
    {
        KernelBuilder { threads, ..self }
    }

    /// Fixes the specialization-constant values. The values must match the
    /// declared constants in number and element type; this step must come
    /// before `build` is reachable.
    pub fn specialize(self, values: Vec<ScalarValue>) -> (r: KernelBuilder)
        requires
            values@.len() == self.desc.spec_descs@.len(),
            forall|i: int|
                0 <= i < values@.len() ==> (#[trigger] values@[i]).scalar_type
                    == self.desc.spec_descs@[i].scalar_type,
        ensures
            desc_matches(r.desc, self.desc),
            r.threads == self.threads,
            r.spec_values@ == values@,
            r.specialized,
    {
        KernelBuilder { spec_values: values, specialized: true, ..self }
    }

    /// Builds the kernel for a device: succeeds exactly when the device's
    /// features contain the descriptor's required features, and fails with
    /// the capability error naming both sets otherwise.
    pub fn build(self, device: Device) -> (r: Result<Kernel, DeviceCapabilityError>)
        requires
            spec_ready(self),
            self.threads > 0,
        ensures
            match r {
                Ok(k) => spec_contains(device.features, self.desc.features) && desc_matches(
                    k.desc,
                    self.desc,
                ) && k.threads == self.threads && k.device == device && k.groups is None
                    && k.spec_values@ == self.spec_values@,
                Err(e) => !spec_contains(device.features, self.desc.features) && e.required
                    == self.desc.features && e.available == device.features,
            },
    {
        if !device.features.contains(self.desc.features) {
            return Err(
                DeviceCapabilityError { required: self.desc.features, available: device.features },
            );
        }
        Ok(
            Kernel {
                desc: self.desc,
                threads: self.threads,
                device,
                groups: None,
                spec_values: self.spec_values,
            },
        )
    }
}

/// A kernel built for one device, ready to dispatch once a group count is
/// known.
pub struct Kernel {
    pub desc: KernelDesc,
    pub threads: u32,
    pub device: Device,
    pub groups: Option<u32>,
    pub spec_values: Vec<ScalarValue>,
}

/// Groups needed for a global thread count, rounding up.
pub open spec fn spec_groups_for(global_threads: u32, threads: u32) -> int {
    (global_threads + threads - 1) / (threads as int)
}

/// Whether any slice descriptor is Item-kind.
pub open spec fn spec_has_item(slices: Seq<SliceDesc>) -> bool {
    exists|i: int| 0 <= i < slices.len() && (#[trigger] slices[i]).item
}

/// The largest length among the Item arguments of a dispatch.
pub open spec fn spec_max_item_len(descs: Seq<SliceDesc>, args: Seq<SliceArg>, i: int) -> int
    decreases i,
{
    if i <= 0 {
        0
    } else {
        let rest = spec_max_item_len(descs, args, i - 1);
        if descs[i - 1].item && args[i - 1].len > rest {
            args[i - 1].len as int
        } else {
            rest
        }
    }
}

/// Whether dispatch arguments match the descriptor: one buffer view per
/// slice descriptor with its exact element type and mutability, and one
/// scalar per push descriptor with its exact element type.
pub open spec fn dispatch_args_ok(
    desc: KernelDesc,
    slices: Seq<SliceArg>,
    pushes: Seq<ScalarValue>,
) -> bool {
    &&& slices.len() == desc.slice_descs@.len()
    &&& forall|i: int|
        0 <= i < slices.len() ==> (#[trigger] slices[i]).scalar_type
            == desc.slice_descs@[i].scalar_type && slices[i].mutable
            == desc.slice_descs@[i].mutable
    &&& pushes.len() == desc.push_descs@.len()
    &&& forall|i: int|
        0 <= i < pushes.len() ==> (#[trigger] pushes[i]).scalar_type
            == desc.push_descs@[i].scalar_type
}

/// The first bytes of a scalar value's little-endian bit pattern: as many
/// as its element type is wide.
pub open spec fn scalar_value_bytes(v: ScalarValue) -> Seq<u8> {
    ser_u64(v.bits).take(scalar_size(v.scalar_type) as int)
}

/// The packed push values, in descriptor order.
pub open spec fn spec_push_values_bytes(values: Seq<ScalarValue>, i: int) -> Seq<u8>
    decreases i,
{
    if i <= 0 {
        Seq::empty()
    } else {
        spec_push_values_bytes(values, i - 1) + scalar_value_bytes(values[i - 1])
    }
}

/// `n` zero padding bytes.
pub open spec fn spec_zeros(n: int) -> Seq<u8> {
    Seq::new(n as nat, |i: int| 0u8)
}

/// The packed (offset, length) pairs, one per slice in declaration order.
pub open spec fn spec_slice_pair_bytes(slices: Seq<SliceArg>, i: int) -> Seq<u8>
    decreases i,
{
    if i <= 0 {
        Seq::empty()
    } else {
        spec_slice_pair_bytes(slices, i - 1) + ser_u32(slices[i - 1].offset) + ser_u32(
            slices[i - 1].len,
        )
    }
}

/// The whole push-constant block of one dispatch: the push values in
/// sorted descriptor order, zero padding to a 4-byte boundary, then the
/// slice (offset, length) pairs.
pub open spec fn spec_push_block(values: Seq<ScalarValue>, slices: Seq<SliceArg>) -> Seq<u8> {
    let vals = spec_push_values_bytes(values, values.len() as int);
    vals + spec_zeros(pad_count(vals.len() as int)) + spec_slice_pair_bytes(
        slices,
        slices.len() as int,
    )
}

/// What dispatch hands the execution runtime: the group count and the
/// packed push-constant block.
pub struct DispatchPacket {
    pub groups: u32,
    pub push_bytes: Vec<u8>,
}

impl Kernel {
    /// Declares the global threads to dispatch; groups are the count
    /// rounded up to the next multiple of threads.
    pub fn with_global_threads(self, global_threads: u32) -> (r: Kernel)
        requires
            self.threads > 0,
        ensures
            desc_matches(r.desc, self.desc),
            r.threads == self.threads,
            r.device == self.device,
            r.groups == Some((spec_groups_for(global_threads, self.threads)) as u32),
    {
        proof {
            lemma_groups_fit(global_threads as int, self.threads as int);
        }
        let g: u64 = (global_threads as u64 + self.threads as u64 - 1) / (self.threads as u64);
        Kernel { groups: Some(g as u32), ..self }
    }

    /// Declares the groups to dispatch.
    pub fn with_groups(self, groups: u32) -> (r: Kernel)
        ensures
            desc_matches(r.desc, self.desc),
            r.threads == self.threads,
            r.device == self.device,
            r.groups == Some(groups),
    {
        Kernel { groups: Some(groups), ..self }
    }

    /// Packs one dispatch: validates the arguments against the descriptor,
    /// packs the push-constant block byte for byte, and computes the group
    /// count — for Item kernels without a declared count, from the largest
    /// Item argument length.
    pub fn dispatch(&self, slices: &Vec<SliceArg>, pushes: &Vec<ScalarValue>) -> (r: Result<
        DispatchPacket,
        DispatchLayoutError,
    >)
        requires
            self.threads > 0,
            self.groups is Some || spec_has_item(self.desc.slice_descs@),
        ensures
            match r {
                Ok(p) => {
                    &&& dispatch_args_ok(self.desc, slices@, pushes@)
                    &&& p.push_bytes@ == spec_push_block(pushes@, slices@)
                    &&& p.groups == (match self.groups {
                        Some(g) => g as int,
                        None => spec_groups_for(
                            spec_max_item_len(
                                self.desc.slice_descs@,
                                slices@,
                                slices@.len() as int,
                            ) as u32,
                            self.threads,
                        ),
                    })
                },
                Err(_) => !dispatch_args_ok(self.desc, slices@, pushes@),
            },
    {
        if slices.len() != self.desc.slice_descs.len() {
            return Err(DispatchLayoutError {});
        }
        if pushes.len() != self.desc.push_descs.len() {
            return Err(DispatchLayoutError {});
        }
        let mut i: usize = 0;
        while i < slices.len()
            invariant
                i <= slices@.len(),
                slices@.len() == self.desc.slice_descs@.len(),
                forall|j: int|
                    0 <= j < i ==> (#[trigger] slices@[j]).scalar_type
                        == self.desc.slice_descs@[j].scalar_type && slices@[j].mutable
                        == self.desc.slice_descs@[j].mutable,
            decreases slices@.len() - i,
        {
            let s = &slices[i];
            let d = &self.desc.slice_descs[i];
            if s.scalar_type.size() != d.scalar_type.size() || !scalar_type_eq(
                s.scalar_type,
                d.scalar_type,
            ) || s.mutable != d.mutable {
                return Err(DispatchLayoutError {});
            }
            i += 1;
        }
        let mut i: usize = 0;
        while i < pushes.len()
            invariant
                i <= pushes@.len(),
                pushes@.len() == self.desc.push_descs@.len(),
                forall|j: int|
                    0 <= j < i ==> (#[trigger] pushes@[j]).scalar_type
                        == self.desc.push_descs@[j].scalar_type,
            decreases pushes@.len() - i,
        {
            if !scalar_type_eq(pushes[i].scalar_type, self.desc.push_descs[i].scalar_type) {
                return Err(DispatchLayoutError {});
            }
            i += 1;
        }
        let push_bytes = pack_push_block(pushes, slices);
        let groups: u32 = match &self.groups {
            Some(g) => *g,
            None => {
                let items = max_item_len(&self.desc.slice_descs, slices);
                proof {
                    lemma_groups_fit(items as int, self.threads as int);
                }
                ((items as u64 + self.threads as u64 - 1) / (self.threads as u64)) as u32
            },
        };
        Ok(DispatchPacket { groups, push_bytes })
    }
}

/// Scalar type equality.
fn scalar_type_eq(a: ScalarType, b: ScalarType) -> (r: bool)
    ensures
        r == (a == b),
{
    a == b
}

/// The group count for a global thread count fits back into 32 bits.
proof fn lemma_groups_fit(global_threads: int, threads: int)
    requires
        0 <= global_threads <= u32::MAX,
        1 <= threads <= u32::MAX,
    ensures
        0 <= (global_threads + threads - 1) / threads <= u32::MAX,
{
    assert((global_threads + threads - 1) / threads <= u32::MAX) by (nonlinear_arith)
        requires
            0 <= global_threads <= u32::MAX && 1 <= threads <= u32::MAX,
    ;
}

/// The largest length among the Item arguments of a dispatch.
fn max_item_len(descs: &Vec<SliceDesc>, args: &Vec<SliceArg>) -> (r: u32)
    requires
        descs@.len() == args@.len(),
    ensures
        r == spec_max_item_len(descs@, args@, args@.len() as int),
{
    let mut r: u32 = 0;
    let mut i: usize = 0;
    while i < args.len()
        invariant
            i <= args@.len(),
            descs@.len() == args@.len(),
            r == spec_max_item_len(descs@, args@, i as int),
        decreases args@.len() - i,
    {
        if descs[i].item && args[i].len > r {
            r = args[i].len;
        }
        i += 1;
    }
    r
}

/// The `k`-th little-endian byte of a 64-bit word.
fn byte_of_u64(x: u64, k: usize) -> (r: u8)
    requires
        k < 8,
    ensures
        r == ser_u64(x)[k as int],
{
    match k {
        0 => (x & 0xff) as u8,
        1 => ((x >> 8) & 0xff) as u8,
        2 => ((x >> 16) & 0xff) as u8,
        3 => ((x >> 24) & 0xff) as u8,
        4 => ((x >> 32) & 0xff) as u8,
        5 => ((x >> 40) & 0xff) as u8,
        6 => ((x >> 48) & 0xff) as u8,
        _ => ((x >> 56) & 0xff) as u8,
    }
}

/// Packs the push-constant block of one dispatch.
fn pack_push_block(pushes: &Vec<ScalarValue>, slices: &Vec<SliceArg>) -> (r: Vec<u8>)
    ensures
        r@ == spec_push_block(pushes@, slices@),
{
    let mut out: Vec<u8> = Vec::new();
    let mut i: usize = 0;
    while i < pushes.len()
        invariant
            i <= pushes@.len(),
            out@ == spec_push_values_bytes(pushes@, i as int),
        decreases pushes@.len() - i,
    {
        let v = &pushes[i];
        let size = v.scalar_type.size();
        let mut k: usize = 0;
        while k < size
            invariant
                k <= size,
                size == scalar_size(pushes@[i as int].scalar_type),
                i < pushes@.len(),
                v == &pushes@[i as int],
                out@ == spec_push_values_bytes(pushes@, i as int) + scalar_value_bytes(
                    pushes@[i as int],
                ).take(k as int),
            decreases size - k,
        {
            proof {
                assert(scalar_size(pushes@[i as int].scalar_type) <= 8);
            }
            out.push(byte_of_u64(v.bits, k));
            proof {
                assert(out@ =~= spec_push_values_bytes(pushes@, i as int) + scalar_value_bytes(
                    pushes@[i as int],
                ).take(k + 1));
            }
            k += 1;
        }
        proof {
            assert(scalar_value_bytes(pushes@[i as int]).take(
                scalar_size(pushes@[i as int].scalar_type) as int,
            ) =~= scalar_value_bytes(pushes@[i as int]));
        }
        i += 1;
    }
    let pad = (4 - (out.len() % 4)) % 4;
    let ghost vals = spec_push_values_bytes(pushes@, pushes@.len() as int);
    let mut k: usize = 0;
    while k < pad
        invariant
            k <= pad,
            pad == pad_count(vals.len() as int),
            out@ == vals + spec_zeros(k as int),
        decreases pad - k,
    {
        out.push(0);
        proof {
            assert(out@ =~= vals + spec_zeros(k + 1));
        }
        k += 1;
    }
    let ghost padded = vals + spec_zeros(pad_count(vals.len() as int));
    let mut i: usize = 0;
    while i < slices.len()
        invariant
            i <= slices@.len(),
            out@ == padded + spec_slice_pair_bytes(slices@, i as int),
            padded == vals + spec_zeros(pad_count(vals.len() as int)),
            vals == spec_push_values_bytes(pushes@, pushes@.len() as int),
        decreases slices@.len() - i,
    {
        let s = &slices[i];
        out.push((s.offset & 0xff) as u8);
        out.push(((s.offset >> 8) & 0xff) as u8);
        out.push(((s.offset >> 16) & 0xff) as u8);
        out.push(((s.offset >> 24) & 0xff) as u8);
        out.push((s.len & 0xff) as u8);
        out.push(((s.len >> 8) & 0xff) as u8);
        out.push(((s.len >> 16) & 0xff) as u8);
        out.push(((s.len >> 24) & 0xff) as u8);
        proof {
            assert(out@ =~= padded + spec_slice_pair_bytes(slices@, i + 1));
        }
        i += 1;
    }
    proof {
        assert(out@ =~= spec_push_block(pushes@, slices@));
    }
    out
}

} // verus!
