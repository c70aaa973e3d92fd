use moon_component::abi::{fix_import_abi, fix_import_abi_text, AbiError, ImportKey};

fn key(m: &str, n: &str) -> ImportKey {
    ImportKey { interface: m.as_bytes().to_vec(), function: n.as_bytes().to_vec() }
}

fn fix(text: &str, keys: &[ImportKey]) -> Option<String> {
    fix_import_abi_text(text.as_bytes(), &keys.iter().map(|k| key(
        std::str::from_utf8(&k.interface).unwrap(),
        std::str::from_utf8(&k.function).unwrap(),
    )).collect())
    .map(|b| String::from_utf8(b).unwrap())
}

const STRING_RETURN: &str = "(module
  (type (;0;) (func (param i32 i32) (result i32)))
  (type (;1;) (func))
  (import \"env\" \"get-name\" (func (;0;) (type 0)))
  (func (;1;) (type 1)
    i32.const 0
    i32.const 0
    call 0
    drop
  )
)";

#[test]
fn string_return_import_loses_its_result() {
    let out = fix(STRING_RETURN, &[key("env", "get-name")]).expect("corrected");
    let expected = "(module
  (type (;0;) (func (param i32 i32) (result i32)))
  (type (;1;) (func))
  (type (;2;) (func (param i32 i32)))
  (import \"env\" \"get-name\" (func (;0;) (type 2)))
  (func (;1;) (type 1)
    i32.const 0
    i32.const 0
    call 0
  )
)";
    assert_eq!(out, expected);
}

#[test]
fn unrelated_drop_stays() {
    let text = "(module
  (type (;0;) (func (param i32) (result i32)))
  (import \"env\" \"a\" (func (;0;) (type 0)))
  (import \"env\" \"b\" (func (;1;) (type 0)))
  (func (;2;) (type 0) (param i32) (result i32)
    call 1
    drop
    call 0
    drop
    i32.const 0
  )
)";
    let out = fix(text, &[key("env", "a")]).expect("corrected");
    let expected = "(module
  (type (;0;) (func (param i32) (result i32)))
  (type (;1;) (func (param i32)))
  (import \"env\" \"a\" (func (;0;) (type 1)))
  (import \"env\" \"b\" (func (;1;) (type 0)))
  (func (;2;) (type 0) (param i32) (result i32)
    call 1
    drop
    call 0
    i32.const 0
  )
)";
    assert_eq!(out, expected);
}

#[test]
fn same_parameters_share_one_new_type() {
    let text = "(module
  (type (;0;) (func (param i32 i32) (result i32)))
  (type (;1;) (func (param i32 i32) (result i32)))
  (import \"env\" \"a\" (func (;0;) (type 0)))
  (import \"env\" \"b\" (func (;1;) (type 1)))
)";
    let out = fix(text, &[key("env", "a"), key("env", "b")]).expect("corrected");
    assert_eq!(out.matches("(type (;2;)").count(), 1);
    assert!(!out.contains("(type (;3;)"));
    assert!(out.contains("(import \"env\" \"a\" (func (;0;) (type 2)))"));
    assert!(out.contains("(import \"env\" \"b\" (func (;1;) (type 2)))"));
}

#[test]
fn existing_result_free_type_is_reused() {
    let text = "(module
  (type (;0;) (func (param i32) (result i32)))
  (type (;1;) (func (param i32)))
  (import \"env\" \"a\" (func (;0;) (type 0)))
)";
    let out = fix(text, &[key("env", "a")]).expect("corrected");
    assert_eq!(
        out,
        "(module
  (type (;0;) (func (param i32) (result i32)))
  (type (;1;) (func (param i32)))
  (import \"env\" \"a\" (func (;0;) (type 1)))
)"
    );
}

#[test]
fn no_imports_no_change() {
    let text = "(module\n  (type (;0;) (func))\n)";
    assert_eq!(fix(text, &[key("env", "a")]), None);
}

#[test]
fn unlisted_or_matching_imports_no_change() {
    assert_eq!(fix(STRING_RETURN, &[key("env", "other")]), None);
    let text = "(module
  (type (;0;) (func (param i32 i32)))
  (import \"env\" \"get-name\" (func (;0;) (type 0)))
)";
    assert_eq!(fix(text, &[key("env", "get-name")]), None);
    let multi = "(module
  (type (;0;) (func (param i32) (result i64)))
  (import \"env\" \"get-name\" (func (;0;) (type 0)))
)";
    assert_eq!(fix(multi, &[key("env", "get-name")]), None);
}

#[test]
fn module_without_imports_is_returned_unchanged() {
    let wasm = wat::parse_str("(module (func (result i32) i32.const 1))").unwrap();
    let out = fix_import_abi(&wasm, &vec![key("env", "a")]).unwrap();
    assert_eq!(out, wasm);
}

#[test]
fn binary_module_is_corrected() {
    let wasm = wat::parse_str(
        "(module
           (import \"env\" \"get-name\" (func (param i32 i32) (result i32)))
           (func (drop (call 0 (i32.const 0) (i32.const 0)))))",
    )
    .unwrap();
    let out = fix_import_abi(&wasm, &vec![key("env", "get-name")]).unwrap();
    assert_ne!(out, wasm);
    let text = wasmprinter::print_bytes(&out).unwrap();
    assert!(
        text.contains("(import \"env\" \"get-name\" (func (;0;) (type 2) (param i32 i32)))"),
        "{text}"
    );
    assert!(text.contains("(type (;2;) (func (param i32 i32)))"), "{text}");
    assert!(!text.contains("drop"), "{text}");
}

#[test]
fn bad_module_fails_to_disassemble() {
    assert_eq!(fix_import_abi(&[1, 2, 3], &Vec::new()), Err(AbiError::Disassemble));
}

#[test]
fn inline_signature_follows_the_new_type() {
    let text = "(module
  (type (;0;) (func (param i32 i32) (result i32)))
  (import \"env\" \"get-name\" (func (;0;) (type 0) (param i32 i32) (result i32)))
  (import \"env\" \"other\" (func (;1;) (type 0) (param i32 i32) (result i32)))
)";
    let out = fix(text, &[key("env", "get-name")]).expect("corrected");
    let expected = "(module
  (type (;0;) (func (param i32 i32) (result i32)))
  (type (;1;) (func (param i32 i32)))
  (import \"env\" \"get-name\" (func (;0;) (type 1) (param i32 i32)))
  (import \"env\" \"other\" (func (;1;) (type 0) (param i32 i32) (result i32)))
)";
    assert_eq!(out, expected);
}

#[test]
fn drop_after_uncorrected_import_stays() {
    let text = "(module
  (type (;0;) (func (param i32) (result i32)))
  (type (;1;) (func (param i32) (result i64)))
  (import \"env\" \"f\" (func (;0;) (type 0)))
  (import \"env\" \"g\" (func (;1;) (type 1)))
  (func (;2;) (type 0) (param i32) (result i32)
    call 1
    drop
    call 0
    drop
    i32.const 0
  )
)";
    let out = fix(text, &[key("env", "f"), key("env", "g")]).expect("corrected");
    let expected = "(module
  (type (;0;) (func (param i32) (result i32)))
  (type (;1;) (func (param i32) (result i64)))
  (type (;2;) (func (param i32)))
  (import \"env\" \"f\" (func (;0;) (type 2)))
  (import \"env\" \"g\" (func (;1;) (type 1)))
  (func (;2;) (type 0) (param i32) (result i32)
    call 1
    drop
    call 0
    i32.const 0
  )
)";
    assert_eq!(out, expected);
}
