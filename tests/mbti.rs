use moon_component::mbti::{parse_mbti_and_generate_wit, Diagnostic};
use moon_component::moonbit::is_wit_convertible;

fn pairs(ds: &[Diagnostic]) -> Vec<(String, String)> {
    ds.iter()
        .map(|d| {
            (
                String::from_utf8(d.location.clone()).unwrap(),
                String::from_utf8(d.message.clone()).unwrap(),
            )
        })
        .collect()
}

const LISTING: &str = "package \"me/app\"

// Types
pub(all) struct Point {
  x : Int
  y : Double
}
pub(all) enum Color {
  Red
  Rgb(Int, Int, Int)
}
pub struct Hidden {
}
pub(open) trait Exports {
  get_point(Self, Int) -> Point
  paint(Self, Color) -> Unit
}
";

#[test]
fn listing_becomes_wit() {
    let r = parse_mbti_and_generate_wit(LISTING.as_bytes(), b"x.mbti", b"ns", None, None, b"api");
    let expected = [
        "package ns:component;\n\n",
        "interface api {\n",
        "  record point {\n    x: s32,\n    y: f64,\n  }\n\n",
        "  enum color {\n    red,\n  }\n\n",
        "  get-point: func(p1: s32) -> point;\n",
        "  paint: func(p1: color);\n",
        "}\n\n",
        "world component {\n  export api;\n}\n",
    ]
    .concat();
    assert_eq!(String::from_utf8(r.wit).unwrap(), expected);
    assert_eq!(r.type_count, 2);
    assert_eq!(r.method_count, 2);
    assert_eq!(
        pairs(&r.errors),
        vec![(
            "x.mbti:11".to_string(),
            "Enum `Color` has cases with payload. WIT enum must be const-only (no payload). Cases with payload: rgb(tuple<s32, s32, s32>)".to_string()
        )]
    );
    assert_eq!(
        pairs(&r.warnings),
        vec![(
            "x.mbti:12".to_string(),
            "Struct `Hidden` is not `pub(all)`. Use `pub(all) struct Hidden` to export it to WIT.".to_string()
        )]
    );
}

#[test]
fn names_and_problems() {
    let listing = "pub(all) struct Job {\n  run : (Int) -> Int\n}\npub(open) trait Exports {\n  start(Self, &Job) -> Job\n}\n";
    let r = parse_mbti_and_generate_wit(listing.as_bytes(), b"p", b"ns", Some(b"jobs"), Some(b"host"), b"api");
    let wit = String::from_utf8(r.wit).unwrap();
    assert!(wit.starts_with("package ns:jobs;\n\n"));
    assert!(wit.ends_with("world host {\n  export api;\n}\n"));
    assert_eq!(
        pairs(&r.errors),
        vec![
            (
                "p:3 (struct Job.run)".to_string(),
                "Function types are not supported in WIT: (Int) -> Int".to_string()
            ),
            (
                "p:5".to_string(),
                "Invalid parameter type: Reference types are not supported in WIT: &Job".to_string()
            ),
        ]
    );
}

#[test]
fn missing_or_empty_exports() {
    let r = parse_mbti_and_generate_wit(b"", b"p", b"ns", None, None, b"api");
    assert_eq!(
        pairs(&r.errors),
        vec![(
            "p".to_string(),
            "Missing `pub(open) trait Exports { ... }`. Define an Exports trait to specify the component interface.".to_string()
        )]
    );
    let r = parse_mbti_and_generate_wit(b"pub(open) trait Exports {\n}\n", b"p", b"ns", None, None, b"api");
    assert!(r.errors.is_empty());
    assert_eq!(
        pairs(&r.warnings),
        vec![(
            "p".to_string(),
            "Exports trait has no methods. Add methods to define the component interface.".to_string()
        )]
    );
}

#[test]
fn convertibility() {
    assert!(is_wit_convertible(b"Result[Array[Int], String]?"));
    assert!(!is_wit_convertible(b"Array[Int"));
    assert!(!is_wit_convertible(b"Option[Result[Int, Array[Int]]"));
    assert!(is_wit_convertible(b"Custom"));
}

fn readable(listing: &str) -> bool {
    moon_component::mbti::is_mbti_readable(listing.as_bytes(), b"p")
}

#[test]
fn readability() {
    assert!(readable(LISTING));
    assert!(!readable("pub(all) struct X{\n}\n"));
    assert!(!readable("pub(all) enum E {\n  Bad(Array[Int)\n}\n"));
    assert!(!readable("pub(all) struct P {\n  x : Option[Int\n  y : Int\n}\n"));
    assert!(!readable("pub(open) trait Exports {\n  f(Self, Array[Int) -> Int\n}\n"));
    assert!(!readable("pub(open) trait Exports {\n  g)(Self\n}\n"));
    assert!(readable("f(Self, Array[Int) -> Int\n"));
}
