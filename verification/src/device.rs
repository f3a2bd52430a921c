//! The device-side half of the dual code generator, as a pure function from
//! the analyzed kernel to a structured entry-point description: one
//! specialization constant per declared constant plus the implicit
//! threads-per-group constant, one binding per Global and Item argument,
//! one shared array per distinct Group scalar type with computed
//! sub-offsets, a barrier after zero-initialization whenever any Group
//! argument exists, and the striding item loop.

use vstd::prelude::*;
use crate::scalar::{scalar_list, scalar_size, ScalarType};
use crate::sequtil::{lemma_filter_push, lemma_map_values_push};
use crate::signature::{bindable, KernelArgMeta, KernelMeta, KernelSpecMeta, LengthExpr};

verus! {

/// One specialization-constant declaration of the device entry point: its
/// numeric id, and the bit width and numeric class of its scalar type.
pub struct SpecDecl {
    pub name: String,
    pub id: u32,
    pub bits: u32,
    pub signed: bool,
    pub float: bool,
}

/// Whether a scalar type is signed integral.
pub open spec fn scalar_signed(st: ScalarType) -> bool {
    st is I8 || st is I16 || st is I32 || st is I64
}

/// Whether a scalar type is floating point.
pub open spec fn scalar_float(st: ScalarType) -> bool {
    st is F32 || st is F64
}

/// One buffer binding declaration of the device entry point.
pub struct BindingDecl {
    pub name: String,
    pub binding: u32,
    pub scalar_type: ScalarType,
    pub mutable: bool,
}

/// One Group argument's place inside the shared array of its scalar type.
pub struct GroupArrayEntry {
    pub name: String,
    pub len: LengthExpr,
}

/// One shared array declaration: all Group arguments of one scalar type,
/// housed at computed sub-offsets.
pub struct GroupArrayDecl {
    pub scalar_type: ScalarType,
    pub entries: Vec<GroupArrayEntry>,
}

/// The entries of the shared array of one scalar type, in declaration
/// order.
pub open spec fn spec_group_entries(metas: Seq<KernelArgMeta>, st: ScalarType) -> Seq<
    GroupArrayEntry,
> {
    metas.filter(|m: KernelArgMeta| m.len is Some && m.scalar_type == st).map_values(
        |m: KernelArgMeta| GroupArrayEntry { name: m.name, len: m.len->Some_0 },
    )
}

/// Selects the Group entries of one scalar type, in declaration order.
fn group_entries(metas: &Vec<KernelArgMeta>, st: ScalarType) -> (r: Vec<GroupArrayEntry>)
    ensures
        r@ == spec_group_entries(metas@, st),
{
    let ghost pred = |m: KernelArgMeta| m.len is Some && m.scalar_type == st;
    let ghost f = |m: KernelArgMeta| GroupArrayEntry { name: m.name, len: m.len->Some_0 };
    let mut r: Vec<GroupArrayEntry> = Vec::new();
    let mut i: usize = 0;
    while i < metas.len()
        invariant
            i <= metas@.len(),
            pred == (|m: KernelArgMeta| m.len is Some && m.scalar_type == st),
            f == (|m: KernelArgMeta| GroupArrayEntry { name: m.name, len: m.len->Some_0 }),
            r@ == metas@.take(i as int).filter(pred).map_values(f),
        decreases metas@.len() - i,
    {
        proof {
            assert(metas@.take(i + 1) =~= metas@.take(i as int).push(metas@[i as int]));
            lemma_filter_push(metas@.take(i as int), pred, metas@[i as int]);
            lemma_map_values_push(
                metas@.take(i as int).filter(pred),
                f,
                metas@[i as int],
            );
        }
        let m = &metas[i];
        if m.len.is_some() && m.scalar_type.size() == st.size() && scalar_eq(m.scalar_type, st) {
            let len = match &m.len {
                Some(l) => l.clone(),
                None => {
                    proof {
                        assert(false);
                    }
                    LengthExpr::Lit(0)
                },
            };
            r.push(GroupArrayEntry { name: m.name.clone(), len });
        }
        i += 1;
    }
    proof {
        assert(metas@.take(metas@.len() as int) =~= metas@);
    }
    r
}

/// Scalar type equality.
fn scalar_eq(a: ScalarType, b: ScalarType) -> (r: bool)
    ensures
        r == (a == b),
{
    a == b
}

/// The canonical scalar list names each scalar type exactly once.
pub proof fn lemma_scalar_list_distinct()
    ensures
        forall|j1: int, j2: int|
            0 <= j1 < scalar_list().len() && 0 <= j2 < scalar_list().len() && j1 != j2
                ==> scalar_list()[j1] != scalar_list()[j2],
{
    assert(scalar_list()[0] == ScalarType::U8);
    assert(scalar_list()[1] == ScalarType::I8);
    assert(scalar_list()[2] == ScalarType::U16);
    assert(scalar_list()[3] == ScalarType::I16);
    assert(scalar_list()[4] == ScalarType::F16);
    assert(scalar_list()[5] == ScalarType::BF16);
    assert(scalar_list()[6] == ScalarType::U32);
    assert(scalar_list()[7] == ScalarType::I32);
    assert(scalar_list()[8] == ScalarType::F32);
    assert(scalar_list()[9] == ScalarType::U64);
    assert(scalar_list()[10] == ScalarType::I64);
    assert(scalar_list()[11] == ScalarType::F64);
}

/// One shared array per distinct Group scalar type, in canonical scalar
/// order: the declared array types are exactly the scalar types that have a
/// Group argument, and each array houses that type's Group arguments in
/// declaration order.
pub fn group_arrays(metas: &Vec<KernelArgMeta>) -> (r: Vec<GroupArrayDecl>)
    ensures
        r@.map_values(|g: GroupArrayDecl| g.scalar_type) == scalar_list().filter(
            |st: ScalarType| spec_group_entries(metas@, st).len() > 0,
        ),
        forall|k: int|
            0 <= k < r@.len() ==> (#[trigger] r@[k]).entries@ == spec_group_entries(
                metas@,
                r@[k].scalar_type,
            ),
{
    let ghost pred = |st: ScalarType| spec_group_entries(metas@, st).len() > 0;
    let scalars = ScalarType::iter();
    let mut r: Vec<GroupArrayDecl> = Vec::new();
    let mut i: usize = 0;
    while i < scalars.len()
        invariant
            i <= scalar_list().len(),
            scalars@ == scalar_list(),
            pred == (|st: ScalarType| spec_group_entries(metas@, st).len() > 0),
            r@.map_values(|g: GroupArrayDecl| g.scalar_type) == scalar_list().take(
                i as int,
            ).filter(pred),
            forall|k: int|
                0 <= k < r@.len() ==> (#[trigger] r@[k]).entries@ == spec_group_entries(
                    metas@,
                    r@[k].scalar_type,
                ),
        decreases scalar_list().len() - i,
    {
        let ghost t = scalar_list().take(i as int);
        let ghost st_g = scalar_list()[i as int];
        proof {
            assert(scalar_list().take(i + 1) =~= t.push(st_g));
            lemma_filter_push(t, pred, st_g);
        }
        let st = scalars[i];
        let entries = group_entries(metas, st);
        let ghost pre = r@;
        if entries.len() > 0 {
            r.push(GroupArrayDecl { scalar_type: st, entries });
            proof {
                assert(forall|k: int| 0 <= k < pre.len() ==> r@[k] == #[trigger] pre[k]);
                assert(r@.map_values(|g: GroupArrayDecl| g.scalar_type) =~= pre.map_values(
                    |g: GroupArrayDecl| g.scalar_type,
                ).push(st_g));
            }
        }
        i += 1;
    }
    proof {
        assert(scalar_list().take(scalar_list().len() as int) =~= scalar_list());
    }
    r
}

/// Evaluates a Group length expression against the specialization-constant
/// values: a literal stands for itself; a bare identifier resolves to the
/// first specialization constant of that name; an inline block is not
/// constant-evaluable here and is left to the offline compiler, which the
/// host side must catch early.
pub fn eval_length(
    len: &LengthExpr,
    spec_metas: &Vec<KernelSpecMeta>,
    values: &Vec<u64>,
) -> (r: Option<u64>)
    requires
        values@.len() == spec_metas@.len(),
    ensures
        len is Lit ==> r == Some(len->Lit_0),
        len is Block ==> r is None,
        len is Ident ==> (match r {
            Some(v) => exists|i: int|
                0 <= i < spec_metas@.len() && (#[trigger] spec_metas@[i]).name@ == (
                len->Ident_0)@ && v == values@[i] && (forall|j: int|
                    0 <= j < i ==> (#[trigger] spec_metas@[j]).name@ != (len->Ident_0)@),
            None => forall|i: int|
                0 <= i < spec_metas@.len() ==> (#[trigger] spec_metas@[i]).name@ != (
                len->Ident_0)@,
        }),
{
    match len {
        LengthExpr::Lit(v) => Some(*v),
        LengthExpr::Block(_) => None,
        LengthExpr::Ident(name) => {
            let mut i: usize = 0;
            while i < spec_metas.len()
                invariant
                    i <= spec_metas@.len(),
                    values@.len() == spec_metas@.len(),
                    len is Ident,
                    name@ == (len->Ident_0)@,
                    forall|j: int|
                        0 <= j < i ==> (#[trigger] spec_metas@[j]).name@ != name@,
                decreases spec_metas@.len() - i,
            {
                if crate::strutil::str_eq(spec_metas[i].name.as_str(), name.as_str()) {
                    proof {
                        assert((#[trigger] spec_metas@[i as int]).name@ == name@);
                    }
                    return Some(values[i]);
                }
                i += 1;
            }
            None
        },
    }
}

/// The sub-offset of each entry inside its shared array, from the
/// evaluated lengths: entry `i` starts at the sum of the lengths before it.
pub open spec fn spec_prefix_sums(lens: Seq<u64>, i: int) -> int
    decreases i,
{
    if i <= 0 {
        0
    } else {
        spec_prefix_sums(lens, i - 1) + lens[i - 1]
    }
}

/// Computes each Group entry's sub-offset inside the shared array of its
/// scalar type, given the length expressions evaluated with the live
/// specialization-constant values; also returns the array's total length.
pub fn group_offsets(lens: &Vec<u64>) -> (r: (Vec<(u64, u64)>, u64))
    requires
        spec_prefix_sums(lens@, lens@.len() as int) <= u64::MAX,
    ensures
        r.0@.len() == lens@.len(),
        forall|i: int|
            0 <= i < lens@.len() ==> (#[trigger] r.0@[i]) == (
                spec_prefix_sums(lens@, i) as u64,
                lens@[i],
            ),
        r.1 == spec_prefix_sums(lens@, lens@.len() as int),
{
    let mut r: Vec<(u64, u64)> = Vec::new();
    let mut offset: u64 = 0;
    let mut i: usize = 0;
    while i < lens.len()
        invariant
            i <= lens@.len(),
            spec_prefix_sums(lens@, lens@.len() as int) <= u64::MAX,
            offset == spec_prefix_sums(lens@, i as int),
            r@.len() == i,
            forall|j: int|
                0 <= j < i ==> (#[trigger] r@[j]) == (spec_prefix_sums(lens@, j) as u64, lens@[j]),
        decreases lens@.len() - i,
    {
        proof {
            lemma_prefix_sums_monotonic(lens@, i as int + 1, lens@.len() as int);
        }
        r.push((offset, lens[i]));
        offset = offset + lens[i];
        i += 1;
    }
    (r, offset)
}

/// Prefix sums of lengths never decrease.
pub proof fn lemma_prefix_sums_monotonic(lens: Seq<u64>, i: int, j: int)
    requires
        0 <= i <= j <= lens.len(),
    ensures
        spec_prefix_sums(lens, i) <= spec_prefix_sums(lens, j),
        0 <= spec_prefix_sums(lens, i),
    decreases j,
{
    if j > 0 {
        if i == j {
            lemma_prefix_sums_monotonic(lens, if i > 0 {
                i - 1
            } else {
                0
            }, j - 1);
        } else {
            lemma_prefix_sums_monotonic(lens, i, j - 1);
        }
    }
}

/// The whole structured device entry point.
pub struct DeviceArtifact {
    /// Specialization constants, ids 0 and up in declaration order.
    pub spec_decls: Vec<SpecDecl>,
    /// The reserved id of the implicit threads-per-group constant: one past
    /// the last declared constant, present even with no declared constants.
    pub threads_spec_id: u32,
    /// Buffer bindings in binding order.
    pub bindings: Vec<BindingDecl>,
    /// One shared array per distinct Group scalar type.
    pub group_arrays: Vec<GroupArrayDecl>,
    /// Zero-initialization and a workgroup barrier stand before the body
    /// exactly when any Group argument exists.
    pub barrier: bool,
    /// The body runs under the striding item loop.
    pub itemwise: bool,
}

/// Builds the structured device entry point of an analyzed kernel.
pub fn device_artifact(meta: &KernelMeta) -> (r: DeviceArtifact)
    requires
        meta.spec_metas@.len() < u32::MAX,
    ensures
        r.spec_decls@.len() == meta.spec_metas@.len(),
        forall|i: int|
            0 <= i < meta.spec_metas@.len() ==> {
                let d = #[trigger] r.spec_decls@[i];
                let m = meta.spec_metas@[i];
                d.name == m.name && d.id == m.id && d.bits == 8 * scalar_size(m.ty) && d.signed
                    == scalar_signed(m.ty) && d.float == scalar_float(m.ty)
            },
        r.threads_spec_id == meta.spec_metas@.len(),
        r.bindings@ == spec_bindings(meta.arg_metas@),
        r.group_arrays@.map_values(|g: GroupArrayDecl| g.scalar_type) == scalar_list().filter(
            |st: ScalarType| spec_group_entries(meta.arg_metas@, st).len() > 0,
        ),
        forall|k: int|
            0 <= k < r.group_arrays@.len() ==> (#[trigger] r.group_arrays@[k]).entries@
                == spec_group_entries(meta.arg_metas@, r.group_arrays@[k].scalar_type),
        r.barrier == (exists|i: int|
            0 <= i < meta.arg_metas@.len() && (#[trigger] meta.arg_metas@[i]).len is Some),
        r.itemwise == meta.itemwise,
{
    let mut spec_decls: Vec<SpecDecl> = Vec::new();
    let mut i: usize = 0;
    while i < meta.spec_metas.len()
        invariant
            i <= meta.spec_metas@.len(),
            spec_decls@.len() == i,
            forall|j: int|
                0 <= j < i ==> {
                    let d = #[trigger] spec_decls@[j];
                    let m = meta.spec_metas@[j];
                    d.name == m.name && d.id == m.id && d.bits == 8 * scalar_size(m.ty) && d.signed
                        == scalar_signed(m.ty) && d.float == scalar_float(m.ty)
                },
        decreases meta.spec_metas@.len() - i,
    {
        let m = &meta.spec_metas[i];
        let signed = matches!(m.ty, ScalarType::I8 | ScalarType::I16 | ScalarType::I32 | ScalarType::I64);
        let float = matches!(m.ty, ScalarType::F32 | ScalarType::F64);
        spec_decls.push(
            SpecDecl {
                name: m.name.clone(),
                id: m.id,
                bits: (m.ty.size() as u32) * 8,
                signed,
                float,
            },
        );
        i += 1;
    }
    let threads_spec_id = meta.spec_metas.len() as u32;
    let mut bindings: Vec<BindingDecl> = Vec::new();
    let ghost bpred = |m: KernelArgMeta| bindable(m.kind) && m.binding is Some;
    let ghost bmap = |m: KernelArgMeta|
        BindingDecl {
            name: m.name,
            binding: m.binding->Some_0,
            scalar_type: m.scalar_type,
            mutable: m.mutable,
        };
    let mut i: usize = 0;
    while i < meta.arg_metas.len()
        invariant
            i <= meta.arg_metas@.len(),
            bpred == (|m: KernelArgMeta| bindable(m.kind) && m.binding is Some),
            bmap == (|m: KernelArgMeta|
                BindingDecl {
                    name: m.name,
                    binding: m.binding->Some_0,
                    scalar_type: m.scalar_type,
                    mutable: m.mutable,
                }),
            bindings@ == meta.arg_metas@.take(i as int).filter(bpred).map_values(bmap),
        decreases meta.arg_metas@.len() - i,
    {
        proof {
            assert(meta.arg_metas@.take(i + 1) =~= meta.arg_metas@.take(i as int).push(
                meta.arg_metas@[i as int],
            ));
            lemma_filter_push(meta.arg_metas@.take(i as int), bpred, meta.arg_metas@[i as int]);
            lemma_map_values_push(
                meta.arg_metas@.take(i as int).filter(bpred),
                bmap,
                meta.arg_metas@[i as int],
            );
        }
        let m = &meta.arg_metas[i];
        if m.kind.is_global() || m.kind.is_item() {
            match m.binding {
                Some(b) => {
                    bindings.push(
                        BindingDecl {
                            name: m.name.clone(),
                            binding: b,
                            scalar_type: m.scalar_type,
                            mutable: m.mutable,
                        },
                    );
                },
                None => {},
            }
        }
        i += 1;
    }
    proof {
        assert(meta.arg_metas@.take(meta.arg_metas@.len() as int) =~= meta.arg_metas@);
    }
    let group_arrays = group_arrays(&meta.arg_metas);
    let mut barrier = false;
    let mut i: usize = 0;
    while i < meta.arg_metas.len()
        invariant
            i <= meta.arg_metas@.len(),
            barrier == (exists|j: int|
                0 <= j < i && (#[trigger] meta.arg_metas@[j]).len is Some),
        decreases meta.arg_metas@.len() - i,
    {
        if meta.arg_metas[i].len.is_some() {
            barrier = true;
        }
        i += 1;
    }
    DeviceArtifact {
        spec_decls,
        threads_spec_id,
        bindings,
        group_arrays,
        barrier,
        itemwise: meta.itemwise,
    }
}

/// The buffer bindings of the device entry point, in declaration order.
pub open spec fn spec_bindings(metas: Seq<KernelArgMeta>) -> Seq<BindingDecl> {
    metas.filter(|m: KernelArgMeta| bindable(m.kind) && m.binding is Some).map_values(
        |m: KernelArgMeta|
            BindingDecl {
                name: m.name,
                binding: m.binding->Some_0,
                scalar_type: m.scalar_type,
                mutable: m.mutable,
            },
    )
}

/// Whether the striding loop, run by the thread with global id `thread`,
/// visits index `idx`: the loop starts at the thread's global id and steps
/// by the total thread count while below the item count.
pub open spec fn visits(thread: u32, global_threads: u32, items: u32, idx: u32) -> bool {
    idx < items && idx % global_threads == thread
}

/// The indices one thread visits under the striding rule, in visit order.
pub fn item_indices(thread: u32, global_threads: u32, items: u32) -> (r: Vec<u32>)
    requires
        global_threads > 0,
        thread < global_threads,
    ensures
        forall|k: int| 0 <= k < r@.len() ==> visits(thread, global_threads, items, #[trigger] r@[k]),
        forall|idx: u32| visits(thread, global_threads, items, idx) ==> r@.contains(idx),
        forall|k1: int, k2: int| 0 <= k1 < k2 < r@.len() ==> r@[k1] < r@[k2],
{
    let mut r: Vec<u32> = Vec::new();
    let mut id: u64 = thread as u64;
    let t64: u64 = global_threads as u64;
    proof {
        assert(thread as u64 % t64 == thread) by (nonlinear_arith)
            requires
                t64 == global_threads && thread < global_threads,
        ;
        assert forall|idx: u32|
            visits(thread, global_threads, items, idx) && idx < id implies r@.contains(idx) by {
            assert(idx % global_threads == idx) by (nonlinear_arith)
                requires
                    idx < thread && thread < global_threads,
            ;
        }
    }
    while id < items as u64
        invariant
            global_threads > 0,
            thread < global_threads,
            t64 == global_threads,
            id % t64 == thread,
            id <= u32::MAX as u64 + t64,
            forall|k: int|
                0 <= k < r@.len() ==> visits(thread, global_threads, items, #[trigger] r@[k]),
            forall|idx: u32|
                visits(thread, global_threads, items, idx) && idx < id ==> r@.contains(idx),
            forall|k: int| 0 <= k < r@.len() ==> (#[trigger] r@[k]) < id,
            forall|k1: int, k2: int| 0 <= k1 < k2 < r@.len() ==> r@[k1] < r@[k2],
        decreases items as int + t64 as int - id as int,
    {
        let ghost pre = r@;
        r.push(id as u32);
        proof {
            assert((id as u32) % global_threads == thread) by (nonlinear_arith)
                requires
                    id % t64 == thread && t64 == global_threads && id <= u32::MAX,
            ;
            assert(forall|k: int| 0 <= k < pre.len() ==> r@[k] == #[trigger] pre[k]);
            assert(r@[r@.len() - 1] == id as u32);
            assert forall|idx: u32|
                visits(thread, global_threads, items, idx) && idx < id + t64 implies r@.contains(
                idx,
            ) by {
                if idx < id {
                    assert(pre.contains(idx));
                    let k = choose|k: int| 0 <= k < pre.len() && pre[k] == idx;
                    assert(r@[k] == idx);
                } else {
                    assert(idx == id) by (nonlinear_arith)
                        requires
                            idx % global_threads == thread && id % t64 == thread && t64
                                == global_threads && id <= idx < id + t64,
                    ;
                    assert(r@[r@.len() - 1] == idx);
                }
            }
            assert((id + t64) as u64 % t64 == thread) by (nonlinear_arith)
                requires
                    id % t64 == thread && t64 > 0 && id <= u32::MAX as u64 + t64 && t64 <= u32::MAX,
            ;
        }
        id = id + t64;
    }
    proof {
        assert forall|idx: u32| visits(thread, global_threads, items, idx) implies r@.contains(
            idx,
        ) by {
            assert(idx < items as u64 <= id);
        }
    }
    r
}

/// Item-kernel coverage: across a dispatch of `global_threads` threads, the
/// striding rule visits every index below `items` exactly once — index
/// `idx` is visited by the thread with global id `idx` modulo the thread
/// count and by no other, and within that thread exactly once, since one
/// thread's visited indices are strictly increasing.
pub proof fn lemma_item_coverage(global_threads: u32, items: u32, idx: u32)
    requires
        global_threads > 0,
        idx < items,
    ensures
        idx % global_threads < global_threads,
        visits(idx % global_threads, global_threads, items, idx),
        forall|t1: u32, t2: u32|
            visits(t1, global_threads, items, idx) && visits(t2, global_threads, items, idx)
                ==> t1 == t2,
{
}

/// Nothing outside the item range is ever visited.
pub proof fn lemma_item_coverage_bounded(thread: u32, global_threads: u32, items: u32, idx: u32)
    requires
        visits(thread, global_threads, items, idx),
    ensures
        idx < items,
{
}

} // verus!
