use moon_component::wit::{
    collect_retptr_imports, interface_name_of, uses_retptr, ImportedInterface, InterfaceKey,
    TypeDefKind, WitFunction, WitType,
};

fn func(name: &str, result: Option<WitType>) -> WitFunction {
    WitFunction { name: name.as_bytes().to_vec(), result }
}

#[test]
fn out_pointer_types() {
    let types = vec![
        TypeDefKind::List,
        TypeDefKind::Alias(WitType::Id(0)),
        TypeDefKind::Other,
        TypeDefKind::Alias(WitType::Id(2)),
        TypeDefKind::Alias(WitType::String),
        TypeDefKind::Result,
    ];
    assert!(uses_retptr(&types, &WitType::String));
    assert!(uses_retptr(&types, &WitType::Id(0)));
    assert!(uses_retptr(&types, &WitType::Id(1)));
    assert!(!uses_retptr(&types, &WitType::Id(2)));
    assert!(!uses_retptr(&types, &WitType::Id(3)));
    assert!(uses_retptr(&types, &WitType::Id(4)));
    assert!(uses_retptr(&types, &WitType::Id(5)));
    assert!(!uses_retptr(&types, &WitType::Other));
}

#[test]
fn interface_names() {
    let k = InterfaceKey::Interface {
        package: Some((b"wasi".to_vec(), b"cli".to_vec())),
        name: Some(b"stdout".to_vec()),
    };
    assert_eq!(interface_name_of(&k), b"wasi:cli/stdout".to_vec());
    let plain = InterfaceKey::Name(b"host".to_vec());
    assert_eq!(interface_name_of(&plain), b"host".to_vec());
    let bare = InterfaceKey::Interface { package: None, name: None };
    assert_eq!(interface_name_of(&bare), Vec::<u8>::new());
}

#[test]
fn classified_imports() {
    let types = vec![TypeDefKind::Record];
    let imports = vec![
        ImportedInterface {
            key: InterfaceKey::Name(b"host".to_vec()),
            functions: vec![
                func("log", None),
                func("name", Some(WitType::String)),
                func("count", Some(WitType::Other)),
            ],
        },
        ImportedInterface {
            key: InterfaceKey::Interface {
                package: Some((b"my".to_vec(), b"pkg".to_vec())),
                name: Some(b"api".to_vec()),
            },
            functions: vec![func("point", Some(WitType::Id(0)))],
        },
    ];
    let keys = collect_retptr_imports(&types, &imports);
    let pairs: Vec<(String, String)> = keys
        .iter()
        .map(|k| {
            (
                String::from_utf8(k.interface.clone()).unwrap(),
                String::from_utf8(k.function.clone()).unwrap(),
            )
        })
        .collect();
    assert_eq!(
        pairs,
        vec![
            ("host".to_string(), "log".to_string()),
            ("host".to_string(), "name".to_string()),
            ("my:pkg/api".to_string(), "point".to_string()),
        ]
    );
}
