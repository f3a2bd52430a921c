use krnl_macros::scalar::ScalarType;
use krnl_macros::features::{Feature, Features};
use krnl_macros::signature::{
    ArgKind, KernelArg, KernelArgAttr, KernelItem, KernelSpec, KernelTypeArray, KernelTypeItem,
    KernelTypeSlice, LengthExpr, SignatureError,
};
use krnl_macros::layout::PushFieldKind;

fn slice_arg(name: &str, ty: &str, scalar: ScalarType) -> KernelArg {
    KernelArg {
        kind: ArgKind::Global,
        name: name.to_string(),
        slice_ty: Some(KernelTypeSlice { ty: ty.to_string(), scalar_type: scalar }),
        item_ty: None,
        array_ty: None,
        push_ty: None,
    }
}

fn item_arg(name: &str, scalar: ScalarType, mutable: bool) -> KernelArg {
    KernelArg {
        kind: ArgKind::Item,
        name: name.to_string(),
        slice_ty: None,
        item_ty: Some(KernelTypeItem { mutable, scalar_type: scalar }),
        array_ty: None,
        push_ty: None,
    }
}

fn group_arg(name: &str, scalar: ScalarType, len: LengthExpr) -> KernelArg {
    KernelArg {
        kind: ArgKind::Group,
        name: name.to_string(),
        slice_ty: None,
        item_ty: None,
        array_ty: Some(KernelTypeArray { scalar_type: scalar, len }),
        push_ty: None,
    }
}

fn push_arg(name: &str, scalar: ScalarType) -> KernelArg {
    KernelArg {
        kind: ArgKind::Push,
        name: name.to_string(),
        slice_ty: None,
        item_ty: None,
        array_ty: None,
        push_ty: Some(scalar),
    }
}

#[test]
fn scalar_names_and_sizes() {
    assert_eq!(ScalarType::iter().len(), 12);
    assert_eq!(ScalarType::U8.name(), "u8");
    assert_eq!(ScalarType::BF16.as_str(), "BF16");
    assert_eq!(ScalarType::F64.size(), 8);
    assert_eq!(ScalarType::U16.size(), 2);
    assert_eq!(ScalarType::from_str("u8"), Some(ScalarType::U8));
    assert_eq!(ScalarType::from_str("U8"), Some(ScalarType::U8));
    assert_eq!(ScalarType::from_str("bf16"), Some(ScalarType::BF16));
    assert_eq!(ScalarType::from_str("usize"), None);
}

#[test]
fn features_subset() {
    let int8 = Features::from_flag(Feature::Int8);
    let f16 = Features::from_flag(Feature::Float16);
    let both = int8.union(f16);
    assert!(both.contains(int8));
    assert!(both.contains(f16));
    assert!(!int8.contains(both));
    assert!(both.contains(Features::empty()));
    assert_eq!(both.name_iter(), vec!["INT8", "FLOAT16"]);
}

#[test]
fn attribute_kinds() {
    let global = KernelArgAttr { ident: Some("global".to_string()) };
    assert_eq!(global.kind(), Ok(ArgKind::Global));
    let none = KernelArgAttr { ident: None };
    assert_eq!(none.kind(), Ok(ArgKind::Push));
    let bogus = KernelArgAttr { ident: Some("shared".to_string()) };
    assert_eq!(bogus.kind(), Err(SignatureError::UnknownArgKind));
    assert_eq!(
        SignatureError::UnknownArgKind.message(),
        "expected `global`, `item`, or `group`"
    );
}

#[test]
fn mutable_slice_spelling_is_fenced() {
    let arg = slice_arg("x", "SliceMut", ScalarType::F32);
    assert!(matches!(arg.meta(), Err(SignatureError::MutableSliceSpelling)));
    assert_eq!(SignatureError::MutableSliceSpelling.message(), "try `UnsafeSlice`");
    let arg = slice_arg("x", "Vec", ScalarType::F32);
    assert!(matches!(arg.meta(), Err(SignatureError::ExpectedSlice)));
    let ok = slice_arg("x", "UnsafeSlice", ScalarType::F32).meta().unwrap();
    assert!(ok.mutable);
    let ok = slice_arg("x", "Slice", ScalarType::F32).meta().unwrap();
    assert!(!ok.mutable);
}

#[test]
fn bindings_are_contiguous() {
    let item = KernelItem {
        unsafe_kernel: false,
        name: "saxpy".to_string(),
        specs: vec![KernelSpec { name: "N".to_string(), ty: ScalarType::U32 }],
        args: vec![
            slice_arg("x", "Slice", ScalarType::F32),
            push_arg("alpha", ScalarType::F32),
            item_arg("y", ScalarType::F32, true),
            group_arg("tmp", ScalarType::F32, LengthExpr::Lit(64)),
            push_arg("n", ScalarType::U32),
        ],
    };
    let meta = item.meta().unwrap();
    assert!(meta.itemwise);
    let bindings: Vec<Option<u32>> = meta.arg_metas.iter().map(|m| m.binding).collect();
    assert_eq!(bindings, vec![Some(0), None, Some(1), None, None]);
    assert_eq!(meta.spec_metas[0].id, 0);
}

#[test]
fn push_descriptors_sorted_by_descending_size() {
    let item = KernelItem {
        unsafe_kernel: false,
        name: "k".to_string(),
        specs: vec![],
        args: vec![
            push_arg("a", ScalarType::U8),
            push_arg("b", ScalarType::U64),
            push_arg("c", ScalarType::U16),
            push_arg("d", ScalarType::U32),
            push_arg("e", ScalarType::I32),
        ],
    };
    let desc = item.meta().unwrap().desc();
    let names: Vec<&str> = desc.push_descs.iter().map(|p| p.name.as_str()).collect();
    // ties (d before e, both 4 bytes) keep declaration order
    assert_eq!(names, vec!["b", "d", "e", "c", "a"]);
    let sizes: Vec<usize> = desc.push_descs.iter().map(|p| p.scalar_type.size()).collect();
    assert_eq!(sizes, vec![8, 4, 4, 2, 1]);
}

#[test]
fn push_constant_block_is_aligned() {
    let item = KernelItem {
        unsafe_kernel: true,
        name: "k".to_string(),
        specs: vec![],
        args: vec![
            push_arg("a", ScalarType::U8),
            push_arg("b", ScalarType::U16),
            slice_arg("x", "Slice", ScalarType::F32),
        ],
    };
    let desc = item.meta().unwrap().desc();
    assert!(!desc.safe);
    let (fields, total) = desc.push_const_layout();
    assert_eq!(total % 4, 0);
    assert_eq!(total, 12);
    // sorted pushes: b (2 bytes at 0), a (1 byte at 2), one pad, then x's pair
    assert_eq!(fields[0].name, "b");
    assert_eq!(fields[0].offset, 0);
    assert_eq!(fields[1].name, "a");
    assert_eq!(fields[1].offset, 2);
    assert_eq!(fields[2].kind, PushFieldKind::Pad);
    assert_eq!(fields[2].offset, 3);
    assert_eq!(fields[3].name, "__krnl_offset_x");
    assert_eq!(fields[3].offset, 4);
    assert_eq!(fields[4].name, "__krnl_len_x");
    assert_eq!(fields[4].offset, 8);
}

#[test]
fn kernel_data_identifier() {
    let item = KernelItem {
        unsafe_kernel: false,
        name: "foo".to_string(),
        specs: vec![],
        args: vec![],
    };
    let desc = item.meta().unwrap().desc();
    // 8-byte length 3, "foo", safety byte 1, three empty lists (8 zero bytes each)
    let expected_bytes = "0300000000000000666f6f01000000000000000000000000000000000000000000000000";
    assert_eq!(desc.encode(), format!("__krnl_kernel_data_{expected_bytes}"));
}
