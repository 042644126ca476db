use wit_bindgen_gen_tinygo::abi::{call_plan, AbiOp};
use wit_bindgen_gen_tinygo::layout::{layout_x, WordKind};
use wit_bindgen_gen_tinygo::marshal::{flag_get, flag_set, lift_value, lower_value, Value, Word};
use wit_bindgen_gen_tinygo::model::{
    Case, Direction, Docs, Field, Flags, Function, Interface, Param, Record, Type, TypeDef,
    TypeDefKind, Variant,
};
use wit_bindgen_gen_tinygo::topo::topological_types;
use wit_bindgen_gen_tinygo::{Error, TinyGo};
use wit_bindgen_gen_tinygo::sink::Files;

fn no_docs() -> Docs {
    Docs { contents: None }
}

fn iface_with(types: Vec<TypeDef>) -> Interface {
    Interface {
        name: String::from("abi-check"),
        types,
        resources: Vec::new(),
        functions: Vec::new(),
    }
}

fn small_record_iface() -> Interface {
    iface_with(vec![TypeDef {
        name: Some(String::from("pair")),
        kind: TypeDefKind::Record(Record {
            fields: vec![
                Field { name: String::from("a"), ty: Type::U8 },
                Field { name: String::from("b"), ty: Type::U32 },
            ],
        }),
        docs: no_docs(),
    }])
}

fn wide_record_iface(n: usize) -> Interface {
    iface_with(vec![TypeDef {
        name: Some(String::from("wide")),
        kind: TypeDefKind::Record(Record {
            fields: (0..n)
                .map(|i| Field { name: format!("f{}", i), ty: Type::U32 })
                .collect(),
        }),
        docs: no_docs(),
    }])
}

#[test]
fn layout_is_deterministic() {
    let iface = small_record_iface();
    let fuel = iface.types.len();
    let a = layout_x(&iface, &Type::Id(0), fuel).unwrap();
    let b = layout_x(&iface, &Type::Id(0), fuel).unwrap();
    assert_eq!(a.size, b.size);
    assert_eq!(a.align, b.align);
    assert_eq!(a.flat_count, b.flat_count);
    assert_eq!(a.flat, b.flat);
}

#[test]
fn record_layout_is_c_like() {
    let iface = small_record_iface();
    let l = layout_x(&iface, &Type::Id(0), iface.types.len()).unwrap();
    assert_eq!(l.size, 8);
    assert_eq!(l.align, 4);
    assert_eq!(l.flat_count, 2);
    assert_eq!(l.flat, Some(vec![WordKind::I32, WordKind::I32]));
}

#[test]
fn nine_flags_need_two_eight_bit_words() {
    let iface = iface_with(vec![TypeDef {
        name: Some(String::from("bits")),
        kind: TypeDefKind::Flags(Flags {
            flags: (0..9).map(|i| format!("b{}", i)).collect(),
        }),
        docs: no_docs(),
    }]);
    let l = layout_x(&iface, &Type::Id(0), iface.types.len()).unwrap();
    assert_eq!(l.size, 2);
    assert_eq!(l.align, 2);
    assert_eq!(l.flat_count, 1);
}

#[test]
fn setting_bit_eight_reads_back() {
    let bits = flag_set(0, 8);
    for j in 0..64 {
        assert_eq!(flag_get(bits, j), j == 8);
    }
}

#[test]
fn two_small_fields_flatten_to_two_words() {
    let iface = small_record_iface();
    let fuel = iface.types.len();
    let v = Value::Record(vec![Value::U8(5), Value::U32(7)]);
    let ws = lower_value(&iface, &Type::Id(0), &v, fuel).unwrap();
    assert_eq!(ws, vec![Word::I32(5), Word::I32(7)]);
    let f = Function {
        name: String::from("take-pair"),
        params: vec![Param { name: String::from("p"), ty: Type::Id(0) }],
        result: Type::Unit,
        dir: Direction::Import,
        is_async: false,
    };
    let plan = call_plan(&iface, &f).unwrap();
    assert_eq!(plan[0], AbiOp::ReadArg(0));
    assert!(!matches!(plan.last().unwrap(), AbiOp::DeallocateScratch));
}

#[test]
fn twenty_words_spill_to_memory() {
    let iface = wide_record_iface(20);
    let l = layout_x(&iface, &Type::Id(0), iface.types.len()).unwrap();
    assert_eq!(l.flat_count, 20);
    assert_eq!(l.flat, None);
    let f = Function {
        name: String::from("take-wide"),
        params: vec![Param { name: String::from("w"), ty: Type::Id(0) }],
        result: Type::Unit,
        dir: Direction::Import,
        is_async: false,
    };
    let plan = call_plan(&iface, &f).unwrap();
    assert_eq!(plan[0], AbiOp::AllocateScratch { size: 80, align: 4 });
    assert_eq!(*plan.last().unwrap(), AbiOp::DeallocateScratch);
}

#[test]
fn sixteen_words_sit_on_the_flat_side() {
    let iface = wide_record_iface(16);
    let fuel = iface.types.len();
    let l = layout_x(&iface, &Type::Id(0), fuel).unwrap();
    assert_eq!(l.flat_count, 16);
    let v = Value::Record((0..16u32).map(Value::U32).collect());
    let ws = lower_value(&iface, &Type::Id(0), &v, fuel).unwrap();
    assert_eq!(ws.len(), 16);
    let back = lift_value(&iface, &Type::Id(0), &ws, fuel).unwrap();
    assert_eq!(back, v);
    let f = Function {
        name: String::from("sixteen"),
        params: vec![Param { name: String::from("w"), ty: Type::Id(0) }],
        result: Type::Unit,
        dir: Direction::Import,
        is_async: false,
    };
    let plan = call_plan(&iface, &f).unwrap();
    assert_eq!(plan[0], AbiOp::ReadArg(0));
}

#[test]
fn seventeen_words_cross_the_threshold() {
    let iface = wide_record_iface(17);
    let f = Function {
        name: String::from("seventeen"),
        params: vec![Param { name: String::from("w"), ty: Type::Id(0) }],
        result: Type::Unit,
        dir: Direction::Import,
        is_async: false,
    };
    let plan = call_plan(&iface, &f).unwrap();
    assert!(matches!(plan[0], AbiOp::AllocateScratch { .. }));
    assert_eq!(*plan.last().unwrap(), AbiOp::DeallocateScratch);
}

#[test]
fn round_trip_scalars_and_composites() {
    let iface = iface_with(vec![
        TypeDef {
            name: Some(String::from("shade")),
            kind: TypeDefKind::Variant(Variant {
                cases: vec![
                    Case { name: String::from("none"), payload: Type::Unit },
                    Case { name: String::from("level"), payload: Type::U16 },
                ],
            }),
            docs: no_docs(),
        },
        TypeDef {
            name: Some(String::from("mix")),
            kind: TypeDefKind::Record(Record {
                fields: vec![
                    Field { name: String::from("ok"), ty: Type::Bool },
                    Field { name: String::from("ch"), ty: Type::Char },
                    Field { name: String::from("tiny"), ty: Type::S8 },
                    Field { name: String::from("big"), ty: Type::U64 },
                    Field { name: String::from("real"), ty: Type::Float32 },
                    Field { name: String::from("pick"), ty: Type::Id(0) },
                ],
            }),
            docs: no_docs(),
        },
    ]);
    let fuel = iface.types.len();
    let v = Value::Record(vec![
        Value::Bool(true),
        Value::Char(0x1F600),
        Value::S8(-7),
        Value::U64(0xDEAD_BEEF_0000_0001),
        Value::F32Bits(0x3FC0_0000),
        Value::Case(1, Box::new(Value::U16(513))),
    ]);
    let ws = lower_value(&iface, &Type::Id(1), &v, fuel).unwrap();
    let back = lift_value(&iface, &Type::Id(1), &ws, fuel).unwrap();
    assert_eq!(back, v);
}

#[test]
fn round_trip_flags_and_options() {
    let iface = iface_with(vec![
        TypeDef {
            name: Some(String::from("caps")),
            kind: TypeDefKind::Flags(Flags {
                flags: (0..40).map(|i| format!("c{}", i)).collect(),
            }),
            docs: no_docs(),
        },
        TypeDef {
            name: Some(String::from("maybe-caps")),
            kind: TypeDefKind::OptionOf(Type::Id(0)),
            docs: no_docs(),
        },
    ]);
    let fuel = iface.types.len();
    let v = Value::Case(1, Box::new(Value::FlagsV((1u64 << 39) | 0b101)));
    let ws = lower_value(&iface, &Type::Id(1), &v, fuel).unwrap();
    let back = lift_value(&iface, &Type::Id(1), &ws, fuel).unwrap();
    assert_eq!(back, v);
    let none = Value::Case(0, Box::new(Value::Unit));
    let ws2 = lower_value(&iface, &Type::Id(1), &none, fuel).unwrap();
    assert_eq!(lift_value(&iface, &Type::Id(1), &ws2, fuel).unwrap(), none);
}

#[test]
fn variant_slot_merge_bitcasts_either_case() {
    let iface = iface_with(vec![TypeDef {
        name: Some(String::from("num")),
        kind: TypeDefKind::Variant(Variant {
            cases: vec![
                Case { name: String::from("real"), payload: Type::Float32 },
                Case { name: String::from("whole"), payload: Type::S32 },
            ],
        }),
        docs: no_docs(),
    }]);
    let fuel = iface.types.len();
    let l = layout_x(&iface, &Type::Id(0), fuel).unwrap();
    assert_eq!(l.flat, Some(vec![WordKind::I32, WordKind::I32]));
    let real = Value::Case(0, Box::new(Value::F32Bits(0x3FC0_0000)));
    let ws = lower_value(&iface, &Type::Id(0), &real, fuel).unwrap();
    assert_eq!(ws, vec![Word::I32(0), Word::I32(0x3FC0_0000)]);
    assert_eq!(lift_value(&iface, &Type::Id(0), &ws, fuel).unwrap(), real);
    let whole = Value::Case(1, Box::new(Value::S32(-2)));
    let ws2 = lower_value(&iface, &Type::Id(0), &whole, fuel).unwrap();
    assert_eq!(ws2, vec![Word::I32(1), Word::I32(0xFFFF_FFFE)]);
    assert_eq!(lift_value(&iface, &Type::Id(0), &ws2, fuel).unwrap(), whole);
}

#[test]
fn lifting_validates_scalar_values() {
    let iface = iface_with(Vec::new());
    let bad_char = vec![Word::I32(0xD800)];
    assert!(lift_value(&iface, &Type::Char, &bad_char, 0).is_err());
    let bad_byte = vec![Word::I32(0x100)];
    assert!(lift_value(&iface, &Type::U8, &bad_byte, 0).is_err());
    let good = vec![Word::I32(0x10FFFF)];
    assert_eq!(lift_value(&iface, &Type::Char, &good, 0).unwrap(), Value::Char(0x10FFFF));
}

#[test]
fn topological_order_puts_dependencies_first() {
    let iface = iface_with(vec![
        TypeDef {
            name: Some(String::from("holder")),
            kind: TypeDefKind::Record(Record {
                fields: vec![Field { name: String::from("xs"), ty: Type::Id(1) }],
            }),
            docs: no_docs(),
        },
        TypeDef {
            name: Some(String::from("xs")),
            kind: TypeDefKind::List(Type::Id(2)),
            docs: no_docs(),
        },
        TypeDef {
            name: Some(String::from("color")),
            kind: TypeDefKind::Enum(wit_bindgen_gen_tinygo::model::Enum {
                cases: vec![String::from("red"), String::from("green")],
            }),
            docs: no_docs(),
        },
    ]);
    let order = topological_types(&iface).unwrap();
    let pos = |id: usize| order.iter().position(|x| *x == id).unwrap();
    assert!(pos(2) < pos(1));
    assert!(pos(1) < pos(0));
}

#[test]
fn cyclic_types_are_rejected() {
    let iface = iface_with(vec![
        TypeDef {
            name: Some(String::from("a")),
            kind: TypeDefKind::Alias(Type::Id(1)),
            docs: no_docs(),
        },
        TypeDef {
            name: Some(String::from("b")),
            kind: TypeDefKind::Alias(Type::Id(0)),
            docs: no_docs(),
        },
    ]);
    assert_eq!(topological_types(&iface), Err(Error::CyclicTypes));
    assert!(matches!(layout_x(&iface, &Type::Id(0), iface.types.len()), Err(Error::CyclicTypes)));
}

#[test]
fn emission_follows_the_topological_order() {
    // the record is declared first but depends, through a list, on the flags
    // type declared after it: the flags declaration must still come first
    let record = Record {
        fields: vec![Field { name: String::from("bits"), ty: Type::Id(1) }],
    };
    let flags = Flags { flags: vec![String::from("on")] };
    let iface = iface_with(vec![
        TypeDef {
            name: Some(String::from("holder")),
            kind: TypeDefKind::Record(record.clone()),
            docs: no_docs(),
        },
        TypeDef {
            name: Some(String::from("mode")),
            kind: TypeDefKind::Flags(flags.clone()),
            docs: no_docs(),
        },
    ]);
    let mut g = TinyGo::new();
    g.preprocess_one(&iface, Direction::Import);
    g.type_record(&iface, 0, "holder", &record, &no_docs()).unwrap();
    g.type_flags(&iface, 1, "mode", &flags, &no_docs()).unwrap();
    let mut files = Files::new();
    g.finish_one(&iface, &mut files).unwrap();
    let contents = files.get(0).1.clone();
    let flags_at = contents.find("type modeType").unwrap();
    let record_at = contents.find("type Holder").unwrap();
    assert!(flags_at < record_at);
}

#[test]
fn async_function_has_no_plan() {
    let iface = iface_with(Vec::new());
    let f = Function {
        name: String::from("later"),
        params: Vec::new(),
        result: Type::Unit,
        dir: Direction::Export,
        is_async: true,
    };
    assert_eq!(call_plan(&iface, &f), Err(Error::AsyncFunction));
}

#[test]
fn export_plan_invokes_the_implementation() {
    let iface = iface_with(Vec::new());
    let f = Function {
        name: String::from("run"),
        params: vec![Param { name: String::from("x"), ty: Type::U32 }],
        result: Type::U64,
        dir: Direction::Export,
        is_async: false,
    };
    let plan = call_plan(&iface, &f).unwrap();
    assert_eq!(
        plan,
        vec![
            AbiOp::LiftComposite(Type::U32),
            AbiOp::CallImplementation,
            AbiOp::LowerComposite(Type::U64),
            AbiOp::WriteResult,
        ]
    );
}
