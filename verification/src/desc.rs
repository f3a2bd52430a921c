//! The canonical, serializable kernel descriptor: the single source of truth
//! consumed by both code generators and by the cache. Built by a pure
//! reduction from analyzed argument metadata; its push descriptors are kept
//! sorted by non-increasing scalar byte size to minimize padding in the push
//! constant block.

use vstd::prelude::*;
use vstd::seq_lib::lemma_multiset_commutative;
use crate::features::Features;
use crate::scalar::{scalar_size, ScalarType};
use crate::sequtil::{lemma_filter_push, lemma_map_values_push};
use crate::signature::{bindable, KernelArgMeta, KernelMeta, KernelSpecMeta};

verus! {

/// A specialization constant of a built descriptor.
pub struct SpecDesc {
    pub name: String,
    pub scalar_type: ScalarType,
}

impl Clone for SpecDesc {
    fn clone(&self) -> (r: Self)
        ensures
            r == *self,
    {
        SpecDesc { name: self.name.clone(), scalar_type: self.scalar_type }
    }
}

/// A buffer argument of a built descriptor, in binding order.
pub struct SliceDesc {
    pub name: String,
    pub scalar_type: ScalarType,
    pub mutable: bool,
    pub item: bool,
}

impl Clone for SliceDesc {
    fn clone(&self) -> (r: Self)
        ensures
            r == *self,
    {
        SliceDesc {
            name: self.name.clone(),
            scalar_type: self.scalar_type,
            mutable: self.mutable,
            item: self.item,
        }
    }
}

/// A push-constant argument of a built descriptor.
pub struct PushDesc {
    pub name: String,
    pub scalar_type: ScalarType,
}

impl Clone for PushDesc {
    fn clone(&self) -> (r: Self)
        ensures
            r == *self,
    {
        PushDesc { name: self.name.clone(), scalar_type: self.scalar_type }
    }
}

/// The canonical interface description of one kernel. The program bytes
/// stay empty until the offline compile pass completes the descriptor.
pub struct KernelDesc {
    pub name: String,
    pub spirv: Vec<u32>,
    pub features: Features,
    pub safe: bool,
    pub spec_descs: Vec<SpecDesc>,
    pub slice_descs: Vec<SliceDesc>,
    pub push_descs: Vec<PushDesc>,
}

/// Field-for-field agreement of two descriptors, the vector fields compared
/// by contents.
pub open spec fn desc_matches(a: KernelDesc, b: KernelDesc) -> bool {
    &&& a.name == b.name
    &&& a.spirv@ == b.spirv@
    &&& a.features == b.features
    &&& a.safe == b.safe
    &&& a.spec_descs@ == b.spec_descs@
    &&& a.slice_descs@ == b.slice_descs@
    &&& a.push_descs@ == b.push_descs@
}

impl Clone for KernelDesc {
    fn clone(&self) -> (r: Self)
        ensures
            desc_matches(r, *self),
    {
        let mut spirv: Vec<u32> = Vec::new();
        let mut i: usize = 0;
        while i < self.spirv.len()
            invariant
                i <= self.spirv@.len(),
                spirv@ == self.spirv@.take(i as int),
            decreases self.spirv@.len() - i,
        {
            spirv.push(self.spirv[i]);
            proof {
                assert(spirv@ =~= self.spirv@.take(i + 1));
            }
            i += 1;
        }
        let mut spec_descs: Vec<SpecDesc> = Vec::new();
        let mut i: usize = 0;
        while i < self.spec_descs.len()
            invariant
                i <= self.spec_descs@.len(),
                spec_descs@ == self.spec_descs@.take(i as int),
            decreases self.spec_descs@.len() - i,
        {
            spec_descs.push(self.spec_descs[i].clone());
            proof {
                assert(spec_descs@ =~= self.spec_descs@.take(i + 1));
            }
            i += 1;
        }
        let mut slice_descs: Vec<SliceDesc> = Vec::new();
        let mut i: usize = 0;
        while i < self.slice_descs.len()
            invariant
                i <= self.slice_descs@.len(),
                slice_descs@ == self.slice_descs@.take(i as int),
            decreases self.slice_descs@.len() - i,
        {
            slice_descs.push(self.slice_descs[i].clone());
            proof {
                assert(slice_descs@ =~= self.slice_descs@.take(i + 1));
            }
            i += 1;
        }
        let mut push_descs: Vec<PushDesc> = Vec::new();
        let mut i: usize = 0;
        while i < self.push_descs.len()
            invariant
                i <= self.push_descs@.len(),
                push_descs@ == self.push_descs@.take(i as int),
            decreases self.push_descs@.len() - i,
        {
            push_descs.push(self.push_descs[i].clone());
            proof {
                assert(push_descs@ =~= self.push_descs@.take(i + 1));
            }
            i += 1;
        }
        proof {
            assert(spirv@ =~= self.spirv@);
            assert(spec_descs@ =~= self.spec_descs@);
            assert(slice_descs@ =~= self.slice_descs@);
            assert(push_descs@ =~= self.push_descs@);
        }
        KernelDesc {
            name: self.name.clone(),
            spirv,
            features: self.features,
            safe: self.safe,
            spec_descs,
            slice_descs,
            push_descs,
        }
    }
}

/// The specialization descriptors of an analyzed kernel, in declaration
/// order.
pub open spec fn spec_spec_descs(metas: Seq<KernelSpecMeta>) -> Seq<SpecDesc> {
    metas.map_values(|m: KernelSpecMeta| SpecDesc { name: m.name, scalar_type: m.ty })
}

/// The slice descriptors of an analyzed kernel: the Global and Item
/// arguments in declaration order, which is also binding order.
pub open spec fn spec_slice_descs(metas: Seq<KernelArgMeta>) -> Seq<SliceDesc> {
    metas.filter(|m: KernelArgMeta| bindable(m.kind)).map_values(
        |m: KernelArgMeta|
            SliceDesc {
                name: m.name,
                scalar_type: m.scalar_type,
                mutable: m.mutable,
                item: m.kind is Item,
            },
    )
}

/// The push descriptors of an analyzed kernel in declaration order, before
/// the size sort.
pub open spec fn spec_push_descs(metas: Seq<KernelArgMeta>) -> Seq<PushDesc> {
    metas.filter(|m: KernelArgMeta| m.kind is Push).map_values(
        |m: KernelArgMeta| PushDesc { name: m.name, scalar_type: m.scalar_type },
    )
}

/// The push descriptors of one scalar byte size, keeping relative order.
pub open spec fn pushes_of_size(s: Seq<PushDesc>, n: usize) -> Seq<PushDesc> {
    s.filter(|p: PushDesc| scalar_size(p.scalar_type) == n)
}

/// The stable sort of push descriptors by non-increasing scalar byte size:
/// since every scalar size is 8, 4, 2 or 1, it is the concatenation of the
/// four size classes, each in declaration order.
pub open spec fn sorted_pushes(s: Seq<PushDesc>) -> Seq<PushDesc> {
    pushes_of_size(s, 8) + pushes_of_size(s, 4) + pushes_of_size(s, 2) + pushes_of_size(s, 1)
}

impl KernelMeta {
    /// Reduces analyzed argument metadata into the canonical descriptor:
    /// program bytes empty, required features empty until compiled, slice
    /// descriptors in binding order, push descriptors sorted by
    /// non-increasing scalar byte size.
    pub fn desc(&self) -> (r: KernelDesc)
        ensures
            r.name == self.name,
            r.safe == !self.unsafe_kernel,
            r.spirv@ == Seq::<u32>::empty(),
            r.features.bits == 0,
            r.spec_descs@ == spec_spec_descs(self.spec_metas@),
            r.slice_descs@ == spec_slice_descs(self.arg_metas@),
            r.push_descs@ == sorted_pushes(spec_push_descs(self.arg_metas@)),
    {
        let mut spec_descs: Vec<SpecDesc> = Vec::new();
        let mut i: usize = 0;
        while i < self.spec_metas.len()
            invariant
                i <= self.spec_metas@.len(),
                spec_descs@ == spec_spec_descs(self.spec_metas@.take(i as int)),
            decreases self.spec_metas@.len() - i,
        {
            let m = &self.spec_metas[i];
            spec_descs.push(SpecDesc { name: m.name.clone(), scalar_type: m.ty });
            proof {
                assert(spec_descs@ =~= spec_spec_descs(self.spec_metas@.take(i + 1)));
            }
            i += 1;
        }
        let ghost args = self.arg_metas@;
        let ghost slice_pred = |m: KernelArgMeta| bindable(m.kind);
        let ghost slice_map = |m: KernelArgMeta|
            SliceDesc {
                name: m.name,
                scalar_type: m.scalar_type,
                mutable: m.mutable,
                item: m.kind is Item,
            };
        let ghost push_pred = |m: KernelArgMeta| m.kind is Push;
        let ghost push_map = |m: KernelArgMeta|
            PushDesc { name: m.name, scalar_type: m.scalar_type };
        let mut slice_descs: Vec<SliceDesc> = Vec::new();
        let mut pushes: Vec<PushDesc> = Vec::new();
        let mut i: usize = 0;
        while i < self.arg_metas.len()
            invariant
                i <= args.len(),
                args == self.arg_metas@,
                slice_pred == (|m: KernelArgMeta| bindable(m.kind)),
                slice_map == (|m: KernelArgMeta|
                    SliceDesc {
                        name: m.name,
                        scalar_type: m.scalar_type,
                        mutable: m.mutable,
                        item: m.kind is Item,
                    }),
                push_pred == (|m: KernelArgMeta| m.kind is Push),
                push_map == (|m: KernelArgMeta|
                    PushDesc { name: m.name, scalar_type: m.scalar_type }),
                slice_descs@ == args.take(i as int).filter(slice_pred).map_values(slice_map),
                pushes@ == args.take(i as int).filter(push_pred).map_values(push_map),
            decreases args.len() - i,
        {
            let m = &self.arg_metas[i];
            proof {
                assert(args.take(i + 1) =~= args.take(i as int).push(args[i as int]));
                lemma_filter_push(args.take(i as int), slice_pred, args[i as int]);
                lemma_filter_push(args.take(i as int), push_pred, args[i as int]);
                lemma_map_values_push(
                    args.take(i as int).filter(slice_pred),
                    slice_map,
                    args[i as int],
                );
                lemma_map_values_push(
                    args.take(i as int).filter(push_pred),
                    push_map,
                    args[i as int],
                );
            }
            if m.kind.is_global() || m.kind.is_item() {
                slice_descs.push(
                    SliceDesc {
                        name: m.name.clone(),
                        scalar_type: m.scalar_type,
                        mutable: m.mutable,
                        item: m.kind.is_item(),
                    },
                );
            } else if m.kind.is_push() {
                pushes.push(PushDesc { name: m.name.clone(), scalar_type: m.scalar_type });
            }
            i += 1;
        }
        proof {
            assert(args.take(args.len() as int) =~= args);
        }
        let push_descs = sort_pushes(pushes);
        KernelDesc {
            name: self.name.clone(),
            spirv: Vec::new(),
            features: Features { bits: 0 },
            safe: !self.unsafe_kernel,
            spec_descs,
            slice_descs,
            push_descs,
        }
    }
}

/// One pass that selects the push descriptors of one scalar byte size,
/// keeping relative order.
fn pushes_with_size(s: &Vec<PushDesc>, n: usize) -> (r: Vec<PushDesc>)
    ensures
        r@ == pushes_of_size(s@, n),
{
    let ghost pred = |p: PushDesc| scalar_size(p.scalar_type) == n;
    let mut r: Vec<PushDesc> = Vec::new();
    let mut i: usize = 0;
    while i < s.len()
        invariant
            i <= s@.len(),
            pred == (|p: PushDesc| scalar_size(p.scalar_type) == n),
            r@ == s@.take(i as int).filter(pred),
        decreases s@.len() - i,
    {
        proof {
            assert(s@.take(i + 1) =~= s@.take(i as int).push(s@[i as int]));
            lemma_filter_push(s@.take(i as int), pred, s@[i as int]);
        }
        let p = &s[i];
        if p.scalar_type.size() == n {
            r.push(p.clone());
        }
        i += 1;
    }
    proof {
        assert(s@.take(s@.len() as int) =~= s@);
    }
    r
}

/// The stable sort of push descriptors by non-increasing scalar byte size.
pub fn sort_pushes(s: Vec<PushDesc>) -> (r: Vec<PushDesc>)
    ensures
        r@ == sorted_pushes(s@),
{
    let mut r = pushes_with_size(&s, 8);
    let mut r4 = pushes_with_size(&s, 4);
    let mut r2 = pushes_with_size(&s, 2);
    let mut r1 = pushes_with_size(&s, 1);
    r.append(&mut r4);
    r.append(&mut r2);
    r.append(&mut r1);
    r
}

/// The sorted push descriptors are ordered by non-increasing scalar byte
/// size.
pub proof fn lemma_sorted_pushes_sorted(s: Seq<PushDesc>)
    ensures
        forall|i: int, j: int|
            0 <= i <= j < sorted_pushes(s).len() ==> scalar_size(
                #[trigger] sorted_pushes(s)[i].scalar_type,
            ) >= scalar_size(#[trigger] sorted_pushes(s)[j].scalar_type),
{
    broadcast use vstd::seq_lib::group_filter_ensures;

    let t = sorted_pushes(s);
    let a8 = pushes_of_size(s, 8);
    let a4 = pushes_of_size(s, 4);
    let a2 = pushes_of_size(s, 2);
    let a1 = pushes_of_size(s, 1);
    assert forall|i: int| 0 <= i < t.len() implies scalar_size(#[trigger] t[i].scalar_type) == (
    if i < a8.len() {
        8usize
    } else if i < a8.len() + a4.len() {
        4usize
    } else if i < a8.len() + a4.len() + a2.len() {
        2usize
    } else {
        1usize
    }) by {
        if i < a8.len() {
            assert(t[i] == a8[i]);
        } else if i < a8.len() + a4.len() {
            assert(t[i] == a4[i - a8.len()]);
        } else if i < a8.len() + a4.len() + a2.len() {
            assert(t[i] == a2[i - a8.len() - a4.len()]);
        } else {
            assert(t[i] == a1[i - a8.len() - a4.len() - a2.len()]);
        }
    }
}

/// The multisets of two concatenations of four sequences.
proof fn lemma_concat4_multiset(a: Seq<PushDesc>, b: Seq<PushDesc>, c: Seq<PushDesc>, d: Seq<PushDesc>)
    ensures
        (a + b + c + d).to_multiset() == a.to_multiset().add(b.to_multiset()).add(
            c.to_multiset(),
        ).add(d.to_multiset()),
{
    lemma_multiset_commutative(a, b);
    lemma_multiset_commutative(a + b, c);
    lemma_multiset_commutative(a + b + c, d);
}

/// The sort is a permutation: it keeps exactly the push descriptors of the
/// input, program order aside.
pub proof fn lemma_sorted_pushes_permutation(s: Seq<PushDesc>)
    ensures
        sorted_pushes(s).to_multiset() == s.to_multiset(),
        sorted_pushes(s).len() == s.len(),
    decreases s.len(),
{
    broadcast use vstd::seq_lib::group_to_multiset_ensures;

    let p8 = |p: PushDesc| scalar_size(p.scalar_type) == 8usize;
    let p4 = |p: PushDesc| scalar_size(p.scalar_type) == 4usize;
    let p2 = |p: PushDesc| scalar_size(p.scalar_type) == 2usize;
    let p1 = |p: PushDesc| scalar_size(p.scalar_type) == 1usize;
    if s.len() == 0 {
        reveal(Seq::filter);
        assert(sorted_pushes(s) =~= Seq::<PushDesc>::empty());
        assert(sorted_pushes(s).to_multiset() =~= s.to_multiset());
    } else {
        let s0 = s.drop_last();
        let x = s.last();
        assert(s =~= s0.push(x));
        lemma_sorted_pushes_permutation(s0);
        lemma_filter_push(s0, p8, x);
        lemma_filter_push(s0, p4, x);
        lemma_filter_push(s0, p2, x);
        lemma_filter_push(s0, p1, x);
        lemma_concat4_multiset(
            pushes_of_size(s, 8),
            pushes_of_size(s, 4),
            pushes_of_size(s, 2),
            pushes_of_size(s, 1),
        );
        lemma_concat4_multiset(
            pushes_of_size(s0, 8),
            pushes_of_size(s0, 4),
            pushes_of_size(s0, 2),
            pushes_of_size(s0, 1),
        );
        assert(pushes_of_size(s, 8) == s.filter(p8));
        assert(pushes_of_size(s, 4) == s.filter(p4));
        assert(pushes_of_size(s, 2) == s.filter(p2));
        assert(pushes_of_size(s, 1) == s.filter(p1));
        assert(s.filter(p8) == s0.push(x).filter(p8));
        assert(sorted_pushes(s).to_multiset() =~= s.to_multiset());
        assert(sorted_pushes(s).len() == sorted_pushes(s).to_multiset().len());
        assert(s.len() == s.to_multiset().len());
    }
}

/// Ties keep relative order: for each byte size, the descriptors of that
/// size stand in the sorted list exactly in their declaration order.
pub proof fn lemma_sorted_pushes_stable(s: Seq<PushDesc>, n: usize)
    ensures
        pushes_of_size(sorted_pushes(s), n) == pushes_of_size(s, n),
{
    broadcast use vstd::seq_lib::group_filter_ensures;

    let pn = |p: PushDesc| scalar_size(p.scalar_type) == n;
    let a8 = pushes_of_size(s, 8);
    let a4 = pushes_of_size(s, 4);
    let a2 = pushes_of_size(s, 2);
    let a1 = pushes_of_size(s, 1);
    Seq::filter_distributes_over_add(a8, a4, pn);
    Seq::filter_distributes_over_add(a8 + a4, a2, pn);
    Seq::filter_distributes_over_add(a8 + a4 + a2, a1, pn);
    lemma_filter_same_class(s, 8, n);
    lemma_filter_same_class(s, 4, n);
    lemma_filter_same_class(s, 2, n);
    lemma_filter_same_class(s, 1, n);
    if n != 8 && n != 4 && n != 2 && n != 1 {
        lemma_filter_no_size(s, n);
        assert(pushes_of_size(sorted_pushes(s), n) =~= pushes_of_size(s, n));
    } else {
        assert(pushes_of_size(sorted_pushes(s), n) =~= pushes_of_size(s, n));
    }
}

/// Filtering one size class by another size keeps everything or nothing.
proof fn lemma_filter_same_class(s: Seq<PushDesc>, m: usize, n: usize)
    ensures
        m == n ==> pushes_of_size(pushes_of_size(s, m), n) == pushes_of_size(s, m),
        m != n ==> pushes_of_size(pushes_of_size(s, m), n) == Seq::<PushDesc>::empty(),
    decreases s.len(),
{
    let pm = |p: PushDesc| scalar_size(p.scalar_type) == m;
    let pn = |p: PushDesc| scalar_size(p.scalar_type) == n;
    if s.len() == 0 {
        reveal(Seq::filter);
        assert(s.filter(pm) =~= Seq::<PushDesc>::empty());
        assert(s.filter(pm).filter(pn) =~= Seq::<PushDesc>::empty());
    } else {
        let s0 = s.drop_last();
        let x = s.last();
        assert(s =~= s0.push(x));
        lemma_filter_same_class(s0, m, n);
        lemma_filter_push(s0, pm, x);
        if pm(x) {
            lemma_filter_push(s0.filter(pm), pn, x);
        }
        assert(s.filter(pm) == s0.push(x).filter(pm));
    }
}

/// No push descriptor has a size outside 8, 4, 2 and 1.
proof fn lemma_filter_no_size(s: Seq<PushDesc>, n: usize)
    requires
        n != 8 && n != 4 && n != 2 && n != 1,
    ensures
        pushes_of_size(s, n) == Seq::<PushDesc>::empty(),
    decreases s.len(),
{
    let pn = |p: PushDesc| scalar_size(p.scalar_type) == n;
    reveal(Seq::filter);
    if s.len() == 0 {
        assert(s.filter(pn) =~= Seq::<PushDesc>::empty());
    } else {
        lemma_filter_no_size(s.drop_last(), n);
    }
}


/// The mathematical value of a specialization descriptor.
pub struct SpecDescV {
    pub name: Seq<char>,
    pub scalar_type: ScalarType,
}

impl View for SpecDesc {
    type V = SpecDescV;

    open spec fn view(&self) -> SpecDescV {
        SpecDescV { name: self.name@, scalar_type: self.scalar_type }
    }
}

/// The mathematical value of a slice descriptor.
pub struct SliceDescV {
    pub name: Seq<char>,
    pub scalar_type: ScalarType,
    pub mutable: bool,
    pub item: bool,
}

impl View for SliceDesc {
    type V = SliceDescV;

    open spec fn view(&self) -> SliceDescV {
        SliceDescV {
            name: self.name@,
            scalar_type: self.scalar_type,
            mutable: self.mutable,
            item: self.item,
        }
    }
}

/// The mathematical value of a push descriptor.
pub struct PushDescV {
    pub name: Seq<char>,
    pub scalar_type: ScalarType,
}

impl View for PushDesc {
    type V = PushDescV;

    open spec fn view(&self) -> PushDescV {
        PushDescV { name: self.name@, scalar_type: self.scalar_type }
    }
}

/// The mathematical value of a kernel descriptor.
pub struct KernelDescV {
    pub name: Seq<char>,
    pub spirv: Seq<u32>,
    pub features: u32,
    pub safe: bool,
    pub spec_descs: Seq<SpecDescV>,
    pub slice_descs: Seq<SliceDescV>,
    pub push_descs: Seq<PushDescV>,
}

impl View for KernelDesc {
    type V = KernelDescV;

    open spec fn view(&self) -> KernelDescV {
        KernelDescV {
            name: self.name@,
            spirv: self.spirv@,
            features: self.features.bits,
            safe: self.safe,
            spec_descs: self.spec_descs@.map_values(|d: SpecDesc| d@),
            slice_descs: self.slice_descs@.map_values(|d: SliceDesc| d@),
            push_descs: self.push_descs@.map_values(|d: PushDesc| d@),
        }
    }
}

/// A collection of completed descriptors together with the version of the
/// tool that produced them. Decoded from an embedded cache blob; immutable
/// thereafter.
pub struct Cache {
    pub version: String,
    pub kernels: Vec<KernelDesc>,
}

/// The mathematical value of a cache.
pub struct CacheV {
    pub version: Seq<char>,
    pub kernels: Seq<KernelDescV>,
}

impl View for Cache {
    type V = CacheV;

    open spec fn view(&self) -> CacheV {
        CacheV { version: self.version@, kernels: self.kernels@.map_values(|d: KernelDesc| d@) }
    }
}

} // verus!
