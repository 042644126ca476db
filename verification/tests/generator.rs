use wit_bindgen_gen_tinygo::model::{
    Docs, Field, Flags, Function, Direction, Interface, Param, Record, Type, TypeDef, TypeDefKind,
};
use wit_bindgen_gen_tinygo::sink::Files;
use wit_bindgen_gen_tinygo::ns::Ns;
use wit_bindgen_gen_tinygo::model::Int;
use wit_bindgen_gen_tinygo::{flags_repr, int_repr, Error, Opts, TinyGo};

fn no_docs() -> Docs {
    Docs { contents: None }
}

fn iface_with(types: Vec<TypeDef>) -> Interface {
    Interface {
        name: String::from("my-iface"),
        types,
        resources: Vec::new(),
        functions: Vec::new(),
    }
}

#[test]
fn record_declaration_text() {
    let record = Record {
        fields: vec![
            Field { name: String::from("a"), ty: Type::U8 },
            Field { name: String::from("b"), ty: Type::U32 },
        ],
    };
    let iface = iface_with(vec![TypeDef {
        name: Some(String::from("my-record")),
        kind: TypeDefKind::Record(Record { fields: Vec::new() }),
        docs: no_docs(),
    }]);
    let mut g = TinyGo::new();
    g.preprocess_one(&iface, Direction::Import);
    g.type_record(&iface, 0, "my-record", &record, &no_docs()).unwrap();
    let mut files = Files::new();
    g.finish_one(&iface, &mut files).unwrap();
    assert_eq!(files.len(), 1);
    let (name, contents) = {
        let u = files.get(0);
        (u.0.clone(), u.1.clone())
    };
    assert_eq!(name, "my_iface/my_iface.go");
    assert_eq!(
        contents,
        "package my_iface\n\ntype MyRecord struct {\n\tA byte\n\tB uint32\n}\n\n"
    );
}

#[test]
fn flags_declaration_text() {
    let flags = Flags {
        flags: vec![
            String::from("read"),
            String::from("write"),
            String::from("exec"),
        ],
    };
    let iface = iface_with(vec![TypeDef {
        name: Some(String::from("perm")),
        kind: TypeDefKind::Flags(Flags { flags: Vec::new() }),
        docs: no_docs(),
    }]);
    let mut g = TinyGo::new();
    g.preprocess_one(&iface, Direction::Import);
    g.type_flags(&iface, 0, "perm", &flags, &no_docs()).unwrap();
    let mut files = Files::new();
    g.finish_one(&iface, &mut files).unwrap();
    let contents = files.get(0).1.clone();
    assert_eq!(
        contents,
        "package my_iface\n\ntype permType uint8\n\nconst (\npermRead permType = 1 << iota\npermWrite\npermExec\n)\n\n"
    );
}

#[test]
fn flags_repr_widths() {
    let f = |n: usize| Flags {
        flags: (0..n).map(|i| format!("f{}", i)).collect(),
    };
    assert_eq!(flags_repr(&f(8)), Int::U8);
    assert_eq!(flags_repr(&f(9)), Int::U16);
    assert_eq!(flags_repr(&f(16)), Int::U16);
    assert_eq!(flags_repr(&f(17)), Int::U32);
    assert_eq!(flags_repr(&f(33)), Int::U64);
    assert_eq!(flags_repr(&f(64)), Int::U64);
}

#[test]
fn int_repr_text() {
    assert_eq!(int_repr(Int::U8), "uint8");
    assert_eq!(int_repr(Int::U16), "uint16");
    assert_eq!(int_repr(Int::U32), "uint32");
    assert_eq!(int_repr(Int::U64), "uint64");
}

#[test]
fn docs_are_trimmed_and_prefixed() {
    let iface = iface_with(Vec::new());
    let mut g = TinyGo::new();
    g.preprocess_one(&iface, Direction::Import);
    g.docs(&Docs { contents: Some(String::from("  first line\nsecond line  \n")) });
    let f = Function {
        name: String::from("x"),
        params: Vec::new(),
        result: Type::Unit,
        dir: Direction::Export,
        is_async: false,
    };
    g.export(&iface, &f).unwrap();
    let mut files = Files::new();
    g.finish_one(&iface, &mut files).unwrap();
    assert_eq!(
        files.get(0).1,
        "package my_iface\n\n// first line\n// second line\n//export x\n"
    );
}

#[test]
fn char_list_prints_as_go_string() {
    let iface = iface_with(vec![TypeDef {
        name: Some(String::from("text")),
        kind: TypeDefKind::List(Type::Char),
        docs: no_docs(),
    }]);
    let mut g = TinyGo::new();
    g.preprocess_one(&iface, Direction::Import);
    g.type_list(&iface, 0, "text", &Type::Char, &no_docs()).unwrap();
    let mut files = Files::new();
    g.finish_one(&iface, &mut files).unwrap();
    assert_eq!(files.get(0).1, "package my_iface\n\ntype Textstring\n");
}

#[test]
fn list_of_named_type() {
    let iface = iface_with(vec![
        TypeDef {
            name: Some(String::from("item")),
            kind: TypeDefKind::Record(Record { fields: Vec::new() }),
            docs: no_docs(),
        },
        TypeDef {
            name: Some(String::from("items")),
            kind: TypeDefKind::List(Type::Id(0)),
            docs: no_docs(),
        },
    ]);
    let mut g = TinyGo::new();
    g.preprocess_one(&iface, Direction::Import);
    g.type_list(&iface, 1, "items", &Type::Id(0), &no_docs()).unwrap();
    let mut files = Files::new();
    g.finish_one(&iface, &mut files).unwrap();
    assert_eq!(files.get(0).1, "package my_iface\n\ntype Items []Item\n");
}

#[test]
fn name_collision_is_reported() {
    let record = Record { fields: Vec::new() };
    let iface = iface_with(vec![
        TypeDef {
            name: Some(String::from("thing")),
            kind: TypeDefKind::Record(Record { fields: Vec::new() }),
            docs: no_docs(),
        },
        TypeDef {
            name: Some(String::from("thing")),
            kind: TypeDefKind::Record(Record { fields: Vec::new() }),
            docs: no_docs(),
        },
    ]);
    let mut g = TinyGo::new();
    g.preprocess_one(&iface, Direction::Import);
    g.type_record(&iface, 0, "thing", &record, &no_docs()).unwrap();
    assert_eq!(
        g.type_record(&iface, 1, "thing", &record, &no_docs()),
        Err(Error::Collision)
    );
}

#[test]
fn ns_insert_detects_duplicates() {
    let mut ns = Ns::new();
    assert!(ns.insert(&String::from("A")).is_ok());
    assert!(ns.insert(&String::from("B")).is_ok());
    assert_eq!(ns.insert(&String::from("A")), Err(Error::Collision));
}

#[test]
fn async_functions_are_rejected() {
    let iface = iface_with(Vec::new());
    let mut g = TinyGo::new();
    let f = Function {
        name: String::from("f"),
        params: Vec::new(),
        result: Type::Unit,
        dir: Direction::Import,
        is_async: true,
    };
    assert_eq!(g.import(&iface, &f), Err(Error::AsyncFunction));
    assert_eq!(g.export(&iface, &f), Err(Error::AsyncFunction));
}

#[test]
fn import_line_format() {
    let iface = iface_with(Vec::new());
    let mut g = TinyGo::new();
    let f = Function {
        name: String::from("go"),
        params: vec![Param { name: String::from("x"), ty: Type::U32 }],
        result: Type::Unit,
        dir: Direction::Import,
        is_async: false,
    };
    assert_eq!(g.import(&iface, &f).unwrap(), "(import) iface:my-iface, func:go");
}

#[test]
fn unsupported_kind_callbacks_fail_loudly() {
    let iface = iface_with(Vec::new());
    let mut g = TinyGo::new();
    assert_eq!(
        g.type_alias(&iface, 0, "a", &Type::U8, &no_docs()),
        Err(Error::Unsupported)
    );
    assert_eq!(g.print_anonymous_type(&iface, 0), Err(Error::Unsupported));
}

#[test]
fn empty_record_is_empty_type() {
    let iface = iface_with(vec![
        TypeDef {
            name: Some(String::from("unitish")),
            kind: TypeDefKind::Record(Record { fields: Vec::new() }),
            docs: no_docs(),
        },
        TypeDef {
            name: Some(String::from("alias")),
            kind: TypeDefKind::Alias(Type::Id(0)),
            docs: no_docs(),
        },
    ]);
    let g = TinyGo::new();
    assert!(g.is_empty_type(&iface, &Type::Id(0)));
    assert!(g.is_empty_type(&iface, &Type::Id(1)));
    assert!(!g.is_empty_type(&iface, &Type::U8));
}

#[test]
fn opts_build_keeps_gofmt_choice() {
    let opts = Opts { gofmt: true };
    let _g: TinyGo = opts.build();
    let d = Opts::default();
    assert!(!d.gofmt);
}

#[test]
fn heck_conversion_is_applied() {
    assert_eq!(heck::CamelCase::to_camel_case("my-record"), "MyRecord");
    assert_eq!(heck::SnakeCase::to_snake_case("my-iface"), "my_iface");
}
