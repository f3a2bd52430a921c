use krnl_macros::desc::{Cache, KernelDesc, PushDesc, SliceDesc};
use krnl_macros::device::{device_artifact, eval_length, group_offsets, item_indices};
use krnl_macros::features::{Feature, Features};
use krnl_macros::host::{Device, KernelBuilder, ScalarValue, SliceArg};
use krnl_macros::lookup::{find_kernel, lookup_kernel};
use krnl_macros::scalar::ScalarType;
use krnl_macros::signature::{ArgKind, KernelArg, KernelItem, KernelSpec, KernelSpecMeta, KernelTypeSlice, LengthExpr};

fn plain_desc(name: &str, features: Features) -> KernelDesc {
    KernelDesc {
        name: name.to_string(),
        spirv: vec![1],
        features,
        safe: true,
        spec_descs: vec![],
        slice_descs: vec![],
        push_descs: vec![],
    }
}

#[test]
fn item_striding_covers_every_index_once() {
    assert_eq!(item_indices(0, 4, 10), vec![0, 4, 8]);
    assert_eq!(item_indices(1, 4, 10), vec![1, 5, 9]);
    assert_eq!(item_indices(2, 4, 10), vec![2, 6]);
    assert_eq!(item_indices(3, 4, 10), vec![3, 7]);
    // boundary: no items at all
    for t in 0..4 {
        assert_eq!(item_indices(t, 4, 0), Vec::<u32>::new());
    }
    // boundary: exactly one item per thread
    for t in 0..4 {
        assert_eq!(item_indices(t, 4, 4), vec![t]);
    }
    // the union over threads is exactly 0..10 with no repeats
    let mut seen = vec![0u32; 10];
    for t in 0..4 {
        for idx in item_indices(t, 4, 10) {
            seen[idx as usize] += 1;
        }
    }
    assert!(seen.iter().all(|&c| c == 1));
}

#[test]
fn build_checks_device_features() {
    let required = Features::from_flag(Feature::Float64).union(Features::from_flag(Feature::Int8));
    let desc = plain_desc("m::k", required);
    let builder = KernelBuilder::from_desc(desc, 128);
    let poor = Device { features: Features::from_flag(Feature::Float64) };
    match builder.build(poor) {
        Err(e) => {
            assert_eq!(e.required.bits, required.bits);
            assert_eq!(e.available.bits, poor.features.bits);
        }
        Ok(_) => panic!("expected a capability error"),
    }
    let rich = Device {
        features: required.union(Features::from_flag(Feature::SubgroupBasic)),
    };
    let desc = plain_desc("m::k", required);
    let builder = KernelBuilder::from_desc(desc, 128);
    assert!(builder.build(rich).is_ok());
}

#[test]
fn dispatch_packs_push_block() {
    let mut desc = plain_desc("m::k", Features::new(0));
    desc.push_descs = vec![
        PushDesc { name: "alpha".to_string(), scalar_type: ScalarType::U32 },
        PushDesc { name: "flag".to_string(), scalar_type: ScalarType::U8 },
    ];
    desc.slice_descs = vec![SliceDesc {
        name: "x".to_string(),
        scalar_type: ScalarType::F32,
        mutable: false,
        item: false,
    }];
    let kernel = KernelBuilder::from_desc(desc, 64)
        .build(Device { features: Features::new(0) })
        .unwrap()
        .with_groups(3);
    let slices = vec![SliceArg {
        scalar_type: ScalarType::F32,
        mutable: false,
        offset: 0x11223344,
        len: 0x55667788,
    }];
    let pushes = vec![
        ScalarValue { scalar_type: ScalarType::U32, bits: 0x01020304 },
        ScalarValue { scalar_type: ScalarType::U8, bits: 0xab },
    ];
    let packet = kernel.dispatch(&slices, &pushes).unwrap();
    assert_eq!(packet.groups, 3);
    assert_eq!(
        packet.push_bytes,
        vec![
            0x04, 0x03, 0x02, 0x01, // alpha, little endian
            0xab, // flag
            0, 0, 0, // padding to 4 bytes
            0x44, 0x33, 0x22, 0x11, // x offset
            0x88, 0x77, 0x66, 0x55, // x length
        ]
    );
    // a wrong argument arity is a layout error
    let kernel2 = KernelBuilder::from_desc(plain_desc("m::k", Features::new(0)), 64)
        .build(Device { features: Features::new(0) })
        .unwrap()
        .with_groups(1);
    let bad = vec![ScalarValue { scalar_type: ScalarType::U16, bits: 0 }];
    assert!(kernel2.dispatch(&vec![], &bad).is_err());
}

#[test]
fn group_offsets_are_prefix_sums() {
    let (pairs, total) = group_offsets(&vec![16, 8, 4]);
    assert_eq!(pairs, vec![(0, 16), (16, 8), (24, 4)]);
    assert_eq!(total, 28);
}

#[test]
fn device_artifact_reserves_threads_spec_id() {
    let item = KernelItem {
        unsafe_kernel: false,
        name: "k".to_string(),
        specs: vec![
            KernelSpec { name: "A".to_string(), ty: ScalarType::U32 },
            KernelSpec { name: "B".to_string(), ty: ScalarType::F32 },
        ],
        args: vec![KernelArg {
            kind: ArgKind::Global,
            name: "x".to_string(),
            slice_ty: Some(KernelTypeSlice { ty: "Slice".to_string(), scalar_type: ScalarType::U32 }),
            item_ty: None,
            array_ty: None,
            push_ty: None,
        }],
    };
    let meta = item.meta().unwrap();
    let art = device_artifact(&meta);
    assert_eq!(art.threads_spec_id, 2);
    assert_eq!(art.spec_decls[0].id, 0);
    assert_eq!(art.spec_decls[1].id, 1);
    assert!(art.spec_decls[1].float);
    assert_eq!(art.spec_decls[1].bits, 32);
    assert_eq!(art.bindings.len(), 1);
    assert_eq!(art.bindings[0].binding, 0);
    assert!(!art.barrier);
    assert!(!art.itemwise);
}

#[test]
fn lookup_matches_module_suffix() {
    let cache = Cache {
        version: "0.1.0".to_string(),
        kernels: vec![
            plain_desc("lib::deep::kernels::saxpy", Features::new(0)),
            plain_desc("lib::other::fill", Features::new(0)),
        ],
    };
    // module path matches as a subsequence even with extra enclosing segments
    assert_eq!(lookup_kernel(&cache, "kernels", "saxpy"), Some(0));
    assert_eq!(lookup_kernel(&cache, "deep::kernels", "saxpy"), Some(0));
    assert_eq!(lookup_kernel(&cache, "other", "fill"), Some(1));
    // present in source but absent from the cache: not found
    assert_eq!(lookup_kernel(&cache, "kernels", "scale"), None);
    assert_eq!(lookup_kernel(&cache, "kernels", "fill"), None);
    let found = find_kernel(&cache, "kernels", "saxpy").unwrap();
    assert_eq!(found.name, "lib::deep::kernels::saxpy");
}
#[test]
fn group_lengths_evaluate_against_spec_constants() {
    let metas = vec![
        KernelSpecMeta { name: "N".to_string(), ty: ScalarType::U32, id: 0 },
        KernelSpecMeta { name: "M".to_string(), ty: ScalarType::U32, id: 1 },
    ];
    let values = vec![64, 9];
    assert_eq!(eval_length(&LengthExpr::Lit(17), &metas, &values), Some(17));
    assert_eq!(eval_length(&LengthExpr::Ident("M".to_string()), &metas, &values), Some(9));
    assert_eq!(eval_length(&LengthExpr::Ident("K".to_string()), &metas, &values), None);
    assert_eq!(
        eval_length(&LengthExpr::Block("{ N * M }".to_string()), &metas, &values),
        None
    );
}
