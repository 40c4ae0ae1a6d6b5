use wasi_replay::greeting::Component;
use wasi_replay::wit::{
    ListError, WitFunction, WitImport, WitType, WitTypeDef, WitTypeDefKind, WitWorld, function_line,
    import_lines, list_imports, wit_type_name, world_is_wf,
};

fn unnamed(kind: WitTypeDefKind) -> WitTypeDef {
    WitTypeDef { name: None, kind }
}

fn table() -> Vec<WitTypeDef> {
    vec![
        unnamed(WitTypeDefKind::List(WitType::U8)),                            // 0: list<u8>
        unnamed(WitTypeDefKind::Option(WitType::Id(0))),                       // 1: option<list<u8>>
        unnamed(WitTypeDefKind::Tuple(vec![WitType::U32, WitType::String])),   // 2
        unnamed(WitTypeDefKind::Tuple(vec![])),                                // 3
        WitTypeDef {
            name: Some("datetime".to_string()),
            kind: WitTypeDefKind::Other("Record(..)".to_string()),
        },                                                                     // 4
        unnamed(WitTypeDefKind::Other("Resource".to_string())),                // 5
        unnamed(WitTypeDefKind::List(WitType::Id(4))),                         // 6: list<datetime>
    ]
}

#[test]
fn greeting_holds_the_number() {
    assert_eq!(Component::hello_world(42), "Hello, World! 42");
    assert_eq!(Component::hello_world(0), "Hello, World! 0");
}

#[test]
fn primitive_type_names() {
    let t = table();
    assert_eq!(wit_type_name(&t, &WitType::Bool), "bool");
    assert_eq!(wit_type_name(&t, &WitType::U64), "u64");
    assert_eq!(wit_type_name(&t, &WitType::S8), "s8");
    assert_eq!(wit_type_name(&t, &WitType::F64), "f64");
    assert_eq!(wit_type_name(&t, &WitType::String), "string");
    assert_eq!(wit_type_name(&t, &WitType::ErrorContext), "error-context");
}

#[test]
fn defined_type_names() {
    let t = table();
    assert_eq!(wit_type_name(&t, &WitType::Id(0)), "list<u8>");
    assert_eq!(wit_type_name(&t, &WitType::Id(1)), "option<list<u8>>");
    assert_eq!(wit_type_name(&t, &WitType::Id(2)), "tuple<u32, string>");
    assert_eq!(wit_type_name(&t, &WitType::Id(3)), "tuple<>");
    assert_eq!(wit_type_name(&t, &WitType::Id(4)), "datetime");
    assert_eq!(wit_type_name(&t, &WitType::Id(5)), "Resource");
    assert_eq!(wit_type_name(&t, &WitType::Id(6)), "list<datetime>");
}

#[test]
fn function_lines() {
    let t = table();
    let f = WitFunction { name: "get-random-u64".to_string(), params: vec![], result: Some(WitType::U64) };
    assert_eq!(function_line(&t, &f), "    get-random-u64() -> u64");
    let f = WitFunction {
        name: "get-random-bytes".to_string(),
        params: vec![("len".to_string(), WitType::U64)],
        result: Some(WitType::Id(0)),
    };
    assert_eq!(function_line(&t, &f), "    get-random-bytes(len: u64) -> list<u8>");
    let f = WitFunction {
        name: "f".to_string(),
        params: vec![("a".to_string(), WitType::Bool), ("b".to_string(), WitType::S32)],
        result: None,
    };
    assert_eq!(function_line(&t, &f), "    f(a: bool, b: s32)");
}

#[test]
fn world_listing() {
    let world = WitWorld {
        types: table(),
        imports: vec![
            WitImport::Interface {
                name: "wasi:random/random@0.2.12".to_string(),
                functions: vec![WitFunction {
                    name: "get-random-bytes".to_string(),
                    params: vec![("len".to_string(), WitType::U64)],
                    result: Some(WitType::Id(0)),
                }],
            },
            WitImport::Function { name: "f".to_string(), params_debug: "[]".to_string() },
            WitImport::Type { name: "t".to_string() },
            WitImport::Interface { name: "empty".to_string(), functions: vec![] },
        ],
    };
    assert!(world_is_wf(&world));
    assert_eq!(
        import_lines(&world),
        vec![
            "interface wasi:random/random@0.2.12",
            "    get-random-bytes(len: u64) -> list<u8>",
            "function f : []",
            "type t",
            "interface empty",
        ]
    );
}

#[test]
fn forward_references_are_malformed() {
    let world = WitWorld {
        types: vec![unnamed(WitTypeDefKind::List(WitType::Id(0)))],
        imports: vec![],
    };
    assert!(!world_is_wf(&world));
    let world = WitWorld {
        types: vec![],
        imports: vec![WitImport::Interface {
            name: "i".to_string(),
            functions: vec![WitFunction { name: "g".to_string(), params: vec![], result: Some(WitType::Id(3)) }],
        }],
    };
    assert!(!world_is_wf(&world));
}

#[test]
fn garbage_is_not_a_component() {
    match list_imports(b"not wasm") {
        Err(ListError::Invalid(message)) => assert!(!message.is_empty()),
        other => panic!("unexpected {:?}", other),
    }
}

#[test]
fn empty_component_imports_nothing() {
    // the header of a component binary with no sections
    let bytes = [0x00, 0x61, 0x73, 0x6d, 0x0d, 0x00, 0x01, 0x00];
    assert_eq!(list_imports(&bytes).unwrap(), Vec::<String>::new());
}
