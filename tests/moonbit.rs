use moon_component::moonbit::{
    parse_enum_case, parse_trait_method, validate_trait_method, validate_wit_type,
};

fn s(b: Vec<u8>) -> String {
    String::from_utf8(b).unwrap()
}

fn defined(names: &[&str]) -> Vec<Vec<u8>> {
    names.iter().map(|n| n.as_bytes().to_vec()).collect()
}

#[test]
fn enum_cases() {
    assert_eq!(s(parse_enum_case(b"Red")), "red");
    assert_eq!(s(parse_enum_case(b"Circle(Double)")), "circle(f64)");
    assert_eq!(s(parse_enum_case(b"Point(Int, Int)")), "point(tuple<s32, s32>)");
    assert_eq!(s(parse_enum_case(b"Empty()")), "empty");
    assert_eq!(s(parse_enum_case(b"NamedItem(Array[String])")), "named-item(list<string>)");
}

#[test]
fn trait_methods() {
    let m = |l: &str| parse_trait_method(l.as_bytes()).map(s);
    assert_eq!(
        m("  get_name(Self, Int) -> String "),
        Some("get-name: func(p1: s32) -> string".to_string())
    );
    assert_eq!(m("reset(Self)"), Some("reset: func()".to_string()));
    assert_eq!(m("log(Self, String) -> Unit"), Some("log: func(p1: string)".to_string()));
    assert_eq!(m("free(Int)"), None);
    assert_eq!(m(""), None);
    assert_eq!(m("open(Self"), None);
}

#[test]
fn wit_type_checks() {
    let d = defined(&["Point"]);
    let v = |t: &str| validate_wit_type(t.as_bytes(), &d).map(s);
    assert_eq!(v("Int"), None);
    assert_eq!(v("Point"), None);
    assert_eq!(v("Custom"), None);
    assert_eq!(v("Array[Option[Int]]"), None);
    assert_eq!(
        v("(Int) -> Int"),
        Some("Function types are not supported in WIT: (Int) -> Int".to_string())
    );
    assert_eq!(
        v("&Point"),
        Some("Reference types are not supported in WIT: &Point".to_string())
    );
    assert_eq!(
        v("Map[String, Int]"),
        Some(
            "Map types are not directly supported in WIT. Use list<tuple<K, V>> instead: Map[String, Int]"
                .to_string()
        )
    );
    assert_eq!(v("Result[Int]"), Some("Invalid Result type: Result[Int]".to_string()));
    assert_eq!(
        v("Result[Int, Ref[Int]]"),
        Some("Reference types are not supported in WIT: Ref[Int]".to_string())
    );
    assert_eq!(v("Array[Int"), None);
}

#[test]
fn trait_method_checks() {
    let d = defined(&[]);
    let v = |l: &str| validate_trait_method(l.as_bytes(), &d).map(s);
    assert_eq!(v("size(Self) -> Int"), None);
    assert_eq!(v("apply(Self, (Int) -> Int)"), None);
    assert_eq!(
        v("size(Int) -> Int"),
        Some("Method must have Self as first parameter".to_string())
    );
    assert_eq!(
        v("apply(Self, FnOnce)"),
        Some("Invalid parameter type: Function types are not supported in WIT: FnOnce".to_string())
    );
    assert_eq!(
        v("lookup(Self, String) -> Map[String, Int]"),
        Some(
            "Invalid return type: Map types are not directly supported in WIT. Use list<tuple<K, V>> instead: Map[String, Int]"
                .to_string()
        )
    );
}
