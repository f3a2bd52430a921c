//! The signature analyzer: turns a kernel's declared argument list and
//! specialization-constant list into argument metadata. Global and Item
//! arguments receive contiguous binding numbers in declaration order; Group
//! and Push arguments never receive a binding.

use vstd::prelude::*;
use crate::scalar::ScalarType;
use crate::strutil::str_eq;

verus! {

/// The kind of one kernel argument, determined from its attribute token.
#[derive(Clone, Copy, PartialEq, Eq, Hash, Debug, Structural)]
pub enum ArgKind {
    /// A buffer view addressed by the whole invocation.
    Global,
    /// A buffer view addressed per logical item under the striding loop.
    Item,
    /// Workgroup-shared scratch memory with a compile-time length.
    Group,
    /// A per-dispatch scalar in the push-constant block.
    Push,
}

impl ArgKind {
    pub fn is_global(&self) -> (r: bool)
        ensures
            r == (*self is Global),
    {
        matches!(self, ArgKind::Global)
    }

    pub fn is_item(&self) -> (r: bool)
        ensures
            r == (*self is Item),
    {
        matches!(self, ArgKind::Item)
    }

    pub fn is_group(&self) -> (r: bool)
        ensures
            r == (*self is Group),
    {
        matches!(self, ArgKind::Group)
    }

    pub fn is_push(&self) -> (r: bool)
        ensures
            r == (*self is Push),
    {
        matches!(self, ArgKind::Push)
    }
}

/// An analysis failure; each variant carries a fixed diagnostic.
#[derive(Clone, Copy, PartialEq, Eq, Debug, Structural)]
pub enum SignatureError {
    /// The argument attribute names no recognized kind.
    UnknownArgKind,
    /// A type position does not name a scalar type.
    ExpectedScalar,
    /// The argument carries no type form at all.
    MissingType,
    /// A mutable slice was spelled with the unfenced form.
    MutableSliceSpelling,
    /// A Global argument's type is not a slice form.
    ExpectedSlice,
}

/// The diagnostic text of each analysis failure.
pub open spec fn spec_signature_message(e: SignatureError) -> Seq<char> {
    match e {
        SignatureError::UnknownArgKind => "expected `global`, `item`, or `group`"@,
        SignatureError::ExpectedScalar => "expected scalar"@,
        SignatureError::MissingType => "expected a type"@,
        SignatureError::MutableSliceSpelling => "try `UnsafeSlice`"@,
        SignatureError::ExpectedSlice => "expected `Slice` or `UnsafeSlice`"@,
    }
}

impl SignatureError {
    /// The diagnostic text shown to the kernel's author.
    pub fn message(&self) -> (r: &'static str)
        ensures
            r@ == spec_signature_message(*self),
    {
        match self {
            SignatureError::UnknownArgKind => "expected `global`, `item`, or `group`",
            SignatureError::ExpectedScalar => "expected scalar",
            SignatureError::MissingType => "expected a type",
            SignatureError::MutableSliceSpelling => "try `UnsafeSlice`",
            SignatureError::ExpectedSlice => "expected `Slice` or `UnsafeSlice`",
        }
    }
}

/// The attribute standing before one kernel argument, if any.
pub struct KernelArgAttr {
    pub ident: Option<String>,
}

/// Kind determination: no attribute means Push; otherwise the token must be
/// one of the three recognized kinds.
pub open spec fn spec_attr_kind(a: KernelArgAttr) -> Result<ArgKind, SignatureError> {
    match a.ident {
        None => Ok(ArgKind::Push),
        Some(s) => if s@ == "global"@ {
            Ok(ArgKind::Global)
        } else if s@ == "item"@ {
            Ok(ArgKind::Item)
        } else if s@ == "group"@ {
            Ok(ArgKind::Group)
        } else {
            Err(SignatureError::UnknownArgKind)
        },
    }
}

impl KernelArgAttr {
    /// Determines the argument kind from the attribute token.
    pub fn kind(&self) -> (r: Result<ArgKind, SignatureError>)
        ensures
            r == spec_attr_kind(*self),
    {
        match &self.ident {
            None => Ok(ArgKind::Push),
            Some(s) => {
                if str_eq(s.as_str(), "global") {
                    Ok(ArgKind::Global)
                } else if str_eq(s.as_str(), "item") {
                    Ok(ArgKind::Item)
                } else if str_eq(s.as_str(), "group") {
                    Ok(ArgKind::Group)
                } else {
                    Err(SignatureError::UnknownArgKind)
                }
            },
        }
    }
}

/// Parses a type identifier as a scalar type, by its lower-case source name.
pub open spec fn spec_parse_scalar(s: Seq<char>) -> Result<ScalarType, SignatureError> {
    if s == "u8"@ {
        Ok(ScalarType::U8)
    } else if s == "i8"@ {
        Ok(ScalarType::I8)
    } else if s == "u16"@ {
        Ok(ScalarType::U16)
    } else if s == "i16"@ {
        Ok(ScalarType::I16)
    } else if s == "f16"@ {
        Ok(ScalarType::F16)
    } else if s == "bf16"@ {
        Ok(ScalarType::BF16)
    } else if s == "u32"@ {
        Ok(ScalarType::U32)
    } else if s == "i32"@ {
        Ok(ScalarType::I32)
    } else if s == "f32"@ {
        Ok(ScalarType::F32)
    } else if s == "u64"@ {
        Ok(ScalarType::U64)
    } else if s == "i64"@ {
        Ok(ScalarType::I64)
    } else if s == "f64"@ {
        Ok(ScalarType::F64)
    } else {
        Err(SignatureError::ExpectedScalar)
    }
}

/// Parses a type identifier as a scalar type, by its lower-case source name.
pub fn parse_scalar_type(ident: &str) -> (r: Result<ScalarType, SignatureError>)
    ensures
        r == spec_parse_scalar(ident@),
{
    if str_eq(ident, "u8") {
        Ok(ScalarType::U8)
    } else if str_eq(ident, "i8") {
        Ok(ScalarType::I8)
    } else if str_eq(ident, "u16") {
        Ok(ScalarType::U16)
    } else if str_eq(ident, "i16") {
        Ok(ScalarType::I16)
    } else if str_eq(ident, "f16") {
        Ok(ScalarType::F16)
    } else if str_eq(ident, "bf16") {
        Ok(ScalarType::BF16)
    } else if str_eq(ident, "u32") {
        Ok(ScalarType::U32)
    } else if str_eq(ident, "i32") {
        Ok(ScalarType::I32)
    } else if str_eq(ident, "f32") {
        Ok(ScalarType::F32)
    } else if str_eq(ident, "u64") {
        Ok(ScalarType::U64)
    } else if str_eq(ident, "i64") {
        Ok(ScalarType::I64)
    } else if str_eq(ident, "f64") {
        Ok(ScalarType::F64)
    } else {
        Err(SignatureError::ExpectedScalar)
    }
}

/// A compile-time-evaluable length expression for a Group argument: a
/// literal, a bare identifier resolved against specialization constants, or
/// an inline constant expression carried as source text.
pub enum LengthExpr {
    Lit(u64),
    Ident(String),
    Block(String),
}

impl Clone for LengthExpr {
    fn clone(&self) -> (r: Self)
        ensures
            r == *self,
    {
        match self {
            LengthExpr::Lit(v) => LengthExpr::Lit(*v),
            LengthExpr::Ident(s) => LengthExpr::Ident(s.clone()),
            LengthExpr::Block(s) => LengthExpr::Block(s.clone()),
        }
    }
}

/// The slice-like type form of a Global argument, as spelled in source.
pub struct KernelTypeSlice {
    pub ty: String,
    pub scalar_type: ScalarType,
}

/// The type form of an Item argument: a scalar, optionally behind an
/// exclusive reference.
pub struct KernelTypeItem {
    pub mutable: bool,
    pub scalar_type: ScalarType,
}

/// The array-like type form of a Group argument.
pub struct KernelTypeArray {
    pub scalar_type: ScalarType,
    pub len: LengthExpr,
}

/// One declared kernel argument, with the type form that belongs to its
/// kind.
pub struct KernelArg {
    pub kind: ArgKind,
    pub name: String,
    pub slice_ty: Option<KernelTypeSlice>,
    pub item_ty: Option<KernelTypeItem>,
    pub array_ty: Option<KernelTypeArray>,
    pub push_ty: Option<ScalarType>,
}

/// The analyzed metadata of one argument.
pub struct KernelArgMeta {
    pub kind: ArgKind,
    pub name: String,
    pub scalar_type: ScalarType,
    pub mutable: bool,
    pub binding: Option<u32>,
    pub len: Option<LengthExpr>,
}

/// Mutability of a slice spelling: `Slice` is immutable, `UnsafeSlice` is
/// exclusively mutable, and the unfenced mutable spelling is rejected with a
/// pointer to the fenced form.
pub open spec fn spec_slice_mutability(ty: Seq<char>) -> Result<bool, SignatureError> {
    if ty == "Slice"@ {
        Ok(false)
    } else if ty == "UnsafeSlice"@ {
        Ok(true)
    } else if ty == "SliceMut"@ {
        Err(SignatureError::MutableSliceSpelling)
    } else {
        Err(SignatureError::ExpectedSlice)
    }
}

/// Per-argument analysis, before binding assignment: reduces the kind and
/// type form to (scalar type, mutability, optional length expression).
pub open spec fn spec_arg_meta(a: KernelArg) -> Result<KernelArgMeta, SignatureError> {
    match a.slice_ty {
        Some(s) => match spec_slice_mutability(s.ty@) {
            Ok(m) => Ok(
                KernelArgMeta {
                    kind: a.kind,
                    name: a.name,
                    scalar_type: s.scalar_type,
                    mutable: m,
                    binding: None,
                    len: None,
                },
            ),
            Err(e) => Err(e),
        },
        None => match a.array_ty {
            Some(arr) => Ok(
                KernelArgMeta {
                    kind: a.kind,
                    name: a.name,
                    scalar_type: arr.scalar_type,
                    mutable: true,
                    binding: None,
                    len: Some(arr.len),
                },
            ),
            None => match a.item_ty {
                Some(it) => Ok(
                    KernelArgMeta {
                        kind: a.kind,
                        name: a.name,
                        scalar_type: it.scalar_type,
                        mutable: it.mutable,
                        binding: None,
                        len: None,
                    },
                ),
                None => match a.push_ty {
                    Some(st) => Ok(
                        KernelArgMeta {
                            kind: a.kind,
                            name: a.name,
                            scalar_type: st,
                            mutable: false,
                            binding: None,
                            len: None,
                        },
                    ),
                    None => Err(SignatureError::MissingType),
                },
            },
        },
    }
}

impl KernelArg {
    /// Per-argument analysis, before binding assignment.
    pub fn meta(&self) -> (r: Result<KernelArgMeta, SignatureError>)
        ensures
            r == spec_arg_meta(*self),
    {
        if let Some(s) = &self.slice_ty {
            let mutable = if str_eq(s.ty.as_str(), "Slice") {
                false
            } else if str_eq(s.ty.as_str(), "UnsafeSlice") {
                true
            } else if str_eq(s.ty.as_str(), "SliceMut") {
                return Err(SignatureError::MutableSliceSpelling);
            } else {
                return Err(SignatureError::ExpectedSlice);
            };
            Ok(
                KernelArgMeta {
                    kind: self.kind,
                    name: self.name.clone(),
                    scalar_type: s.scalar_type,
                    mutable,
                    binding: None,
                    len: None,
                },
            )
        } else if let Some(arr) = &self.array_ty {
            Ok(
                KernelArgMeta {
                    kind: self.kind,
                    name: self.name.clone(),
                    scalar_type: arr.scalar_type,
                    mutable: true,
                    binding: None,
                    len: Some(arr.len.clone()),
                },
            )
        } else if let Some(it) = &self.item_ty {
            Ok(
                KernelArgMeta {
                    kind: self.kind,
                    name: self.name.clone(),
                    scalar_type: it.scalar_type,
                    mutable: it.mutable,
                    binding: None,
                    len: None,
                },
            )
        } else if let Some(st) = &self.push_ty {
            Ok(
                KernelArgMeta {
                    kind: self.kind,
                    name: self.name.clone(),
                    scalar_type: *st,
                    mutable: false,
                    binding: None,
                    len: None,
                },
            )
        } else {
            Err(SignatureError::MissingType)
        }
    }
}

/// Whether an argument kind receives a binding number.
pub open spec fn bindable(k: ArgKind) -> bool {
    k is Global || k is Item
}

/// How many of the first `j` arguments receive a binding.
pub open spec fn count_bindable(args: Seq<KernelArg>, j: int) -> int
    decreases j,
{
    if j <= 0 {
        0
    } else {
        count_bindable(args, j - 1) + if bindable(args[j - 1].kind) {
            1int
        } else {
            0int
        }
    }
}

/// The analyzed metadata of the first `n` arguments, bindings assigned
/// monotonically from 0 in declaration order to Global and Item arguments
/// only; the first failing argument's error aborts the analysis.
pub open spec fn spec_arg_metas_upto(args: Seq<KernelArg>, n: int) -> Result<
    Seq<KernelArgMeta>,
    SignatureError,
>
    decreases n,
{
    if n <= 0 {
        Ok(Seq::empty())
    } else {
        match spec_arg_metas_upto(args, n - 1) {
            Err(e) => Err(e),
            Ok(s) => match spec_arg_meta(args[n - 1]) {
                Err(e) => Err(e),
                Ok(m) => Ok(
                    s.push(
                        KernelArgMeta {
                            binding: if bindable(m.kind) {
                                Some(count_bindable(args, n - 1) as u32)
                            } else {
                                None
                            },
                            ..m
                        },
                    ),
                ),
            },
        }
    }
}

/// The analyzed metadata of the whole argument list.
pub open spec fn spec_arg_metas(args: Seq<KernelArg>) -> Result<
    Seq<KernelArgMeta>,
    SignatureError,
> {
    spec_arg_metas_upto(args, args.len() as int)
}

/// A declared specialization constant.
pub struct KernelSpec {
    pub name: String,
    pub ty: ScalarType,
}

/// A specialization constant with its assigned 0-based id.
pub struct KernelSpecMeta {
    pub name: String,
    pub ty: ScalarType,
    pub id: u32,
}

/// Specialization constants receive ids 0, 1, ... in declaration order.
pub open spec fn spec_spec_metas(specs: Seq<KernelSpec>) -> Seq<KernelSpecMeta> {
    specs.map(|i: int, s: KernelSpec| KernelSpecMeta { name: s.name, ty: s.ty, id: i as u32 })
}

/// A whole declared kernel signature, as the analyzer receives it.
pub struct KernelItem {
    pub unsafe_kernel: bool,
    pub name: String,
    pub specs: Vec<KernelSpec>,
    pub args: Vec<KernelArg>,
}

/// The analyzed kernel: metadata for every argument and specialization
/// constant, plus whether any argument is Item-kind.
pub struct KernelMeta {
    pub unsafe_kernel: bool,
    pub name: String,
    pub spec_metas: Vec<KernelSpecMeta>,
    pub arg_metas: Vec<KernelArgMeta>,
    pub itemwise: bool,
}

impl KernelItem {
    /// Analyzes the whole signature. Fails with the first failing
    /// argument's error; on success the argument metadata carries
    /// contiguous bindings for Global and Item arguments.
    pub fn meta(&self) -> (r: Result<KernelMeta, SignatureError>)
        requires
            self.args@.len() <= u32::MAX,
            self.specs@.len() <= u32::MAX,
        ensures
            match r {
                Ok(m) => spec_arg_metas(self.args@) == Ok::<_, SignatureError>(m.arg_metas@)
                    && m.spec_metas@ == spec_spec_metas(self.specs@) && m.name == self.name
                    && m.unsafe_kernel == self.unsafe_kernel && m.itemwise == (exists|j: int|
                    0 <= j < self.args@.len() && (#[trigger] self.args@[j].kind) is Item),
                Err(e) => spec_arg_metas(self.args@) == Err::<Seq<KernelArgMeta>, _>(e),
            },
    {
        let ghost args = self.args@;
        let mut spec_metas: Vec<KernelSpecMeta> = Vec::new();
        let mut i: usize = 0;
        while i < self.specs.len()
            invariant
                i <= self.specs@.len(),
                self.specs@.len() <= u32::MAX,
                spec_metas@ == spec_spec_metas(self.specs@).take(i as int),
            decreases self.specs@.len() - i,
        {
            let s = &self.specs[i];
            spec_metas.push(KernelSpecMeta { name: s.name.clone(), ty: s.ty, id: i as u32 });
            proof {
                assert(spec_metas@ =~= spec_spec_metas(self.specs@).take(i + 1));
            }
            i += 1;
        }
        proof {
            assert(spec_spec_metas(self.specs@).take(self.specs@.len() as int) =~= spec_spec_metas(
                self.specs@,
            ));
        }
        let mut arg_metas: Vec<KernelArgMeta> = Vec::new();
        let mut binding: u32 = 0;
        let mut itemwise = false;
        let mut j: usize = 0;
        while j < self.args.len()
            invariant
                j <= args.len(),
                args.len() <= u32::MAX,
                args == self.args@,
                spec_arg_metas_upto(args, j as int) == Ok::<_, SignatureError>(arg_metas@),
                binding == count_bindable(args, j as int),
                itemwise == (exists|k: int| 0 <= k < j && (#[trigger] args[k].kind) is Item),
            decreases args.len() - j,
        {
            proof {
                lemma_count_bindable_bound(args, j as int);
            }
            let mut m = match self.args[j].meta() {
                Ok(m) => m,
                Err(e) => {
                    proof {
                        lemma_arg_error_propagates(args, j as int + 1, args.len() as int, e);
                    }
                    return Err(e);
                },
            };
            if m.kind.is_global() || m.kind.is_item() {
                m.binding = Some(binding);
                binding += 1;
            }
            if m.kind.is_item() {
                itemwise = true;
            }
            arg_metas.push(m);
            j += 1;
        }
        Ok(
            KernelMeta {
                unsafe_kernel: self.unsafe_kernel,
                name: self.name.clone(),
                spec_metas,
                arg_metas,
                itemwise,
            },
        )
    }
}

/// At most `j` of the first `j` arguments receive a binding.
pub proof fn lemma_count_bindable_bound(args: Seq<KernelArg>, j: int)
    requires
        0 <= j,
    ensures
        0 <= count_bindable(args, j) <= j,
    decreases j,
{
    if j > 0 {
        lemma_count_bindable_bound(args, j - 1);
    }
}

/// A failing argument's error is the analysis result of every longer
/// prefix.
proof fn lemma_arg_error_propagates(args: Seq<KernelArg>, m: int, n: int, e: SignatureError)
    requires
        0 < m <= n,
        spec_arg_metas_upto(args, m) == Err::<Seq<KernelArgMeta>, _>(e),
    ensures
        spec_arg_metas_upto(args, n) == Err::<Seq<KernelArgMeta>, _>(e),
    decreases n - m,
{
    if m < n {
        lemma_arg_error_propagates(args, m + 1, n, e);
    }
}

/// The bindings assigned to the Global and Item arguments of an analyzed
/// signature are exactly the contiguous set 0 to k-1, in declaration order,
/// where k is the number of Global and Item arguments; Group and Push
/// arguments never receive a binding.
pub proof fn lemma_binding_assignment(args: Seq<KernelArg>, metas: Seq<KernelArgMeta>)
    requires
        spec_arg_metas(args) == Ok::<_, SignatureError>(metas),
    ensures
        metas.len() == args.len(),
        forall|j: int|
            0 <= j < args.len() && bindable(args[j].kind) ==> (#[trigger] metas[j].binding)
                == Some(count_bindable(args, j) as u32),
        forall|j: int|
            0 <= j < args.len() && !bindable(args[j].kind) ==> (#[trigger] metas[j].binding)
                is None,
{
    lemma_arg_metas_pointwise(args, args.len() as int, metas);
}

/// Every binding number below the total number of Global and Item arguments
/// is assigned to exactly one argument: together with
/// `lemma_binding_assignment` this says the assigned bindings are exactly
/// the contiguous set 0 to k-1.
pub proof fn lemma_binding_surjective(args: Seq<KernelArg>, metas: Seq<KernelArgMeta>, b: int)
    requires
        spec_arg_metas(args) == Ok::<_, SignatureError>(metas),
        0 <= b < count_bindable(args, args.len() as int),
    ensures
        exists|j: int| 0 <= j < args.len() && (#[trigger] metas[j].binding) == Some(b as u32),
{
    lemma_arg_metas_pointwise(args, args.len() as int, metas);
    let j = lemma_count_bindable_surjective(args, args.len() as int, b);
    lemma_count_bindable_bound(args, j);
    assert(metas[j].binding == Some(b as u32));
}

/// Pointwise description of the analyzed metadata of a prefix.
proof fn lemma_arg_metas_pointwise(args: Seq<KernelArg>, n: int, metas: Seq<KernelArgMeta>)
    requires
        0 <= n <= args.len(),
        spec_arg_metas_upto(args, n) == Ok::<_, SignatureError>(metas),
    ensures
        metas.len() == n,
        forall|j: int|
            0 <= j < n && bindable(args[j].kind) ==> (#[trigger] metas[j].binding) == Some(
                count_bindable(args, j) as u32,
            ),
        forall|j: int|
            0 <= j < n && !bindable(args[j].kind) ==> (#[trigger] metas[j].binding) is None,
    decreases n,
{
    if n > 0 {
        let prev = spec_arg_metas_upto(args, n - 1);
        lemma_arg_metas_pointwise(args, n - 1, prev.unwrap());
    }
}

/// Every binding number below the total is assigned at some argument.
proof fn lemma_count_bindable_surjective(args: Seq<KernelArg>, n: int, b: int) -> (j: int)
    requires
        0 <= b < count_bindable(args, n),
        n <= args.len(),
    ensures
        0 <= j < n,
        bindable(args[j].kind),
        count_bindable(args, j) == b,
    decreases n,
{
    lemma_count_bindable_bound(args, if n > 0 {
        n - 1
    } else {
        0
    });
    if count_bindable(args, n - 1) == b && bindable(args[n - 1].kind) {
        n - 1
    } else {
        lemma_count_bindable_surjective(args, n - 1, b)
    }
}

} // verus!
