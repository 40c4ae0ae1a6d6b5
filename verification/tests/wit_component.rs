use wasi_replay::wit::{ListError, list_imports};

#[test]
fn component_imports_are_listed() {
    let text = r#"
        (component
            (import "host:demo/rng@0.1.0" (instance
                (type $bytes (list u8))
                (type $pair (tuple u32 string))
                (type $maybe (option $bytes))
                (export "get-u64" (func (result u64)))
                (export "get-bytes" (func (param "len" u64) (result $bytes)))
                (export "pick" (func (param "a" bool) (param "b" $pair) (result $maybe)))
                (export "reset" (func))
            ))
            (import "log" (func (param "msg" string)))
        )
    "#;
    let bytes = wat::parse_str(text).unwrap();
    let lines = list_imports(&bytes).unwrap();
    assert_eq!(lines[0], "interface host:demo/rng@0.1.0");
    assert_eq!(lines[1], "    get-u64() -> u64");
    assert_eq!(lines[2], "    get-bytes(len: u64) -> list<u8>");
    assert_eq!(lines[3], "    pick(a: bool, b: tuple<u32, string>) -> option<list<u8>>");
    assert_eq!(lines[4], "    reset()");
    assert!(lines[5].starts_with("function log : "));
    assert_eq!(lines.len(), 6);
}

#[test]
fn core_module_lists_nothing() {
    let bytes = wat::parse_str("(module)").unwrap();
    assert_eq!(list_imports(&bytes).unwrap(), Vec::<String>::new());
}

#[test]
fn truncated_component_is_invalid() {
    let text = r#"(component (import "log" (func (param "msg" string))))"#;
    let bytes = wat::parse_str(text).unwrap();
    match list_imports(&bytes[..bytes.len() - 1]) {
        Err(ListError::Invalid(message)) => assert!(!message.is_empty()),
        other => panic!("unexpected {:?}", other),
    }
}
