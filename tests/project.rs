use moon_component::moonbit::moonbit_type_to_wit;
use moon_component::project::{
    _generate_wac, default_output, default_target, find_wasm_file, to_kebab_case, FindWasmError,
};

fn paths(ps: &[&str]) -> Vec<Vec<u8>> {
    ps.iter().map(|p| p.as_bytes().to_vec()).collect()
}

#[test]
fn defaults() {
    assert_eq!(default_target(), b"wasm".to_vec());
    assert_eq!(default_output(), b"dist/composed.wasm".to_vec());
}

#[test]
fn kebab_case() {
    assert_eq!(to_kebab_case(b"HelloWorld"), b"hello-world".to_vec());
    assert_eq!(to_kebab_case(b"get_name"), b"get-name".to_vec());
    assert_eq!(to_kebab_case(b"my_Type"), b"my-type".to_vec());
    assert_eq!(to_kebab_case(b"ABC"), b"a-b-c".to_vec());
    assert_eq!(to_kebab_case(b""), Vec::<u8>::new());
}

#[test]
fn wac_script() {
    let wac = _generate_wac(b"my/app", &paths(&["math:lib/ops", "util"]));
    let expected = [
        "package my:app:composed;\n\n",
        "let math-lib-ops = new math:lib/ops {};\n",
        "let util = new util {};\n",
        "\n",
        "let entry = new entry:component {\n",
        "  math-lib-ops...,\n",
        "  util...,\n",
        "};\n\n",
        "export entry...;\n",
    ]
    .concat();
    assert_eq!(String::from_utf8(wac).unwrap(), expected);
}

#[test]
fn preferred_module_wins() {
    let files = paths(&["b/x.wasm", "b/src/src.wasm", "b/impl/impl.wasm"]);
    assert_eq!(find_wasm_file(b"b", &files).unwrap(), b"b/impl/impl.wasm".to_vec());
    let files = paths(&["b/x.wasm", "b/src/src.wasm"]);
    assert_eq!(find_wasm_file(b"b", &files).unwrap(), b"b/src/src.wasm".to_vec());
}

#[test]
fn single_candidate_is_chosen() {
    let files = paths(&["b/a/app.wasm", "b/a/app.component.wasm", "b/a/notes.txt", "b/.wasm"]);
    assert_eq!(find_wasm_file(b"b", &files).unwrap(), b"b/a/app.wasm".to_vec());
}

#[test]
fn no_or_many_candidates() {
    let none = find_wasm_file(b"b", &paths(&["b/readme.md"]));
    assert!(matches!(none, Err(FindWasmError::NotFound)));
    let many = find_wasm_file(b"b", &paths(&["b/a.wasm", "b/c/d.wasm"]));
    match many {
        Err(FindWasmError::Ambiguous(list)) => assert_eq!(list, paths(&["b/a.wasm", "b/c/d.wasm"])),
        other => panic!("unexpected {other:?}"),
    }
}

#[test]
fn moonbit_types_in_wit() {
    let wit = |t: &str| String::from_utf8(moonbit_type_to_wit(t.as_bytes())).unwrap();
    assert_eq!(wit("Int"), "s32");
    assert_eq!(wit(" Bool "), "bool");
    assert_eq!(wit("Unit"), "");
    assert_eq!(wit("Int?"), "option<s32>");
    assert_eq!(wit("Array[String]"), "list<string>");
    assert_eq!(wit("Option[MyType]"), "option<my-type>");
    assert_eq!(wit("Result[Int, String]"), "result<s32, string>");
    assert_eq!(wit("Result[Array[UInt64], Err]?"), "option<result<list<u64>, err>>");
    assert_eq!(wit("Result[A]"), "result[-a]");
    assert_eq!(wit("Double"), "f64");
}
