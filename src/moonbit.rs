//! Mapping of MoonBit type names to WIT type names.

use vstd::prelude::*;
use crate::project::{kebab, to_kebab_case};
use crate::text::{
    append_bytes, decimal_bytes, begins_with, bytes_equal, copy_range, find_bytes, find_bytes_from, find_first, find_from,
    contains_bytes, split_bytes_on, split_on, lemma_find_from_found, lemma_trimmed_len, matches_at, occurs_in, trim_bytes, trimmed, views,
};

verus! {

/// The text `Result[`.
pub open spec fn result_open() -> Seq<u8> {
    seq![82u8, 101, 115, 117, 108, 116, 91]
}

fn result_open_bytes() -> (r: Vec<u8>)
    ensures
        r@ == result_open(),
{
    let r: Vec<u8> = vec![82u8, 101, 115, 117, 108, 116, 91];
    assert(r@ =~= result_open());
    r
}

/// The text `Array[`.
pub open spec fn array_open() -> Seq<u8> {
    seq![65u8, 114, 114, 97, 121, 91]
}

fn array_open_bytes() -> (r: Vec<u8>)
    ensures
        r@ == array_open(),
{
    let r: Vec<u8> = vec![65u8, 114, 114, 97, 121, 91];
    assert(r@ =~= array_open());
    r
}

/// The text `Option[`.
pub open spec fn option_open() -> Seq<u8> {
    seq![79u8, 112, 116, 105, 111, 110, 91]
}

fn option_open_bytes() -> (r: Vec<u8>)
    ensures
        r@ == option_open(),
{
    let r: Vec<u8> = vec![79u8, 112, 116, 105, 111, 110, 91];
    assert(r@ =~= option_open());
    r
}

/// The text `, `.
pub open spec fn comma_space() -> Seq<u8> {
    seq![44u8, 32]
}

pub(crate) fn comma_space_bytes() -> (r: Vec<u8>)
    ensures
        r@ == comma_space(),
{
    let r: Vec<u8> = vec![44u8, 32];
    assert(r@ =~= comma_space());
    r
}

/// The text `option<`.
pub open spec fn wit_option() -> Seq<u8> {
    seq![111u8, 112, 116, 105, 111, 110, 60]
}

fn wit_option_bytes() -> (r: Vec<u8>)
    ensures
        r@ == wit_option(),
{
    let r: Vec<u8> = vec![111u8, 112, 116, 105, 111, 110, 60];
    assert(r@ =~= wit_option());
    r
}

/// The text `result<`.
pub open spec fn wit_result() -> Seq<u8> {
    seq![114u8, 101, 115, 117, 108, 116, 60]
}

fn wit_result_bytes() -> (r: Vec<u8>)
    ensures
        r@ == wit_result(),
{
    let r: Vec<u8> = vec![114u8, 101, 115, 117, 108, 116, 60];
    assert(r@ =~= wit_result());
    r
}

/// The text `list<`.
pub open spec fn wit_list() -> Seq<u8> {
    seq![108u8, 105, 115, 116, 60]
}

fn wit_list_bytes() -> (r: Vec<u8>)
    ensures
        r@ == wit_list(),
{
    let r: Vec<u8> = vec![108u8, 105, 115, 116, 60];
    assert(r@ =~= wit_list());
    r
}

/// The text `>`.
pub open spec fn angle_close() -> Seq<u8> {
    seq![62u8]
}

fn angle_close_bytes() -> (r: Vec<u8>)
    ensures
        r@ == angle_close(),
{
    let r: Vec<u8> = vec![62u8];
    assert(r@ =~= angle_close());
    r
}

/// The text `Int`.
pub open spec fn mb_int() -> Seq<u8> {
    seq![73u8, 110, 116]
}

fn mb_int_bytes() -> (r: Vec<u8>)
    ensures
        r@ == mb_int(),
{
    let r: Vec<u8> = vec![73u8, 110, 116];
    assert(r@ =~= mb_int());
    r
}

/// The text `s32`.
pub open spec fn wit_int() -> Seq<u8> {
    seq![115u8, 51, 50]
}

fn wit_int_bytes() -> (r: Vec<u8>)
    ensures
        r@ == wit_int(),
{
    let r: Vec<u8> = vec![115u8, 51, 50];
    assert(r@ =~= wit_int());
    r
}

/// The text `Int64`.
pub open spec fn mb_int64() -> Seq<u8> {
    seq![73u8, 110, 116, 54, 52]
}

fn mb_int64_bytes() -> (r: Vec<u8>)
    ensures
        r@ == mb_int64(),
{
    let r: Vec<u8> = vec![73u8, 110, 116, 54, 52];
    assert(r@ =~= mb_int64());
    r
}

/// The text `s64`.
pub open spec fn wit_int64() -> Seq<u8> {
    seq![115u8, 54, 52]
}

fn wit_int64_bytes() -> (r: Vec<u8>)
    ensures
        r@ == wit_int64(),
{
    let r: Vec<u8> = vec![115u8, 54, 52];
    assert(r@ =~= wit_int64());
    r
}

/// The text `UInt`.
pub open spec fn mb_uint() -> Seq<u8> {
    seq![85u8, 73, 110, 116]
}

fn mb_uint_bytes() -> (r: Vec<u8>)
    ensures
        r@ == mb_uint(),
{
    let r: Vec<u8> = vec![85u8, 73, 110, 116];
    assert(r@ =~= mb_uint());
    r
}

/// The text `u32`.
pub open spec fn wit_uint() -> Seq<u8> {
    seq![117u8, 51, 50]
}

fn wit_uint_bytes() -> (r: Vec<u8>)
    ensures
        r@ == wit_uint(),
{
    let r: Vec<u8> = vec![117u8, 51, 50];
    assert(r@ =~= wit_uint());
    r
}

/// The text `UInt64`.
pub open spec fn mb_uint64() -> Seq<u8> {
    seq![85u8, 73, 110, 116, 54, 52]
}

fn mb_uint64_bytes() -> (r: Vec<u8>)
    ensures
        r@ == mb_uint64(),
{
    let r: Vec<u8> = vec![85u8, 73, 110, 116, 54, 52];
    assert(r@ =~= mb_uint64());
    r
}

/// The text `u64`.
pub open spec fn wit_uint64() -> Seq<u8> {
    seq![117u8, 54, 52]
}

fn wit_uint64_bytes() -> (r: Vec<u8>)
    ensures
        r@ == wit_uint64(),
{
    let r: Vec<u8> = vec![117u8, 54, 52];
    assert(r@ =~= wit_uint64());
    r
}

/// The text `Float`.
pub open spec fn mb_float() -> Seq<u8> {
    seq![70u8, 108, 111, 97, 116]
}

fn mb_float_bytes() -> (r: Vec<u8>)
    ensures
        r@ == mb_float(),
{
    let r: Vec<u8> = vec![70u8, 108, 111, 97, 116];
    assert(r@ =~= mb_float());
    r
}

/// The text `f32`.
pub open spec fn wit_float() -> Seq<u8> {
    seq![102u8, 51, 50]
}

fn wit_float_bytes() -> (r: Vec<u8>)
    ensures
        r@ == wit_float(),
{
    let r: Vec<u8> = vec![102u8, 51, 50];
    assert(r@ =~= wit_float());
    r
}

/// The text `Double`.
pub open spec fn mb_double() -> Seq<u8> {
    seq![68u8, 111, 117, 98, 108, 101]
}

fn mb_double_bytes() -> (r: Vec<u8>)
    ensures
        r@ == mb_double(),
{
    let r: Vec<u8> = vec![68u8, 111, 117, 98, 108, 101];
    assert(r@ =~= mb_double());
    r
}

/// The text `f64`.
pub open spec fn wit_double() -> Seq<u8> {
    seq![102u8, 54, 52]
}

fn wit_double_bytes() -> (r: Vec<u8>)
    ensures
        r@ == wit_double(),
{
    let r: Vec<u8> = vec![102u8, 54, 52];
    assert(r@ =~= wit_double());
    r
}

/// The text `Bool`.
pub open spec fn mb_bool() -> Seq<u8> {
    seq![66u8, 111, 111, 108]
}

fn mb_bool_bytes() -> (r: Vec<u8>)
    ensures
        r@ == mb_bool(),
{
    let r: Vec<u8> = vec![66u8, 111, 111, 108];
    assert(r@ =~= mb_bool());
    r
}

/// The text `bool`.
pub open spec fn wit_bool() -> Seq<u8> {
    seq![98u8, 111, 111, 108]
}

fn wit_bool_bytes() -> (r: Vec<u8>)
    ensures
        r@ == wit_bool(),
{
    let r: Vec<u8> = vec![98u8, 111, 111, 108];
    assert(r@ =~= wit_bool());
    r
}

/// The text `Char`.
pub open spec fn mb_char() -> Seq<u8> {
    seq![67u8, 104, 97, 114]
}

fn mb_char_bytes() -> (r: Vec<u8>)
    ensures
        r@ == mb_char(),
{
    let r: Vec<u8> = vec![67u8, 104, 97, 114];
    assert(r@ =~= mb_char());
    r
}

/// The text `char`.
pub open spec fn wit_char() -> Seq<u8> {
    seq![99u8, 104, 97, 114]
}

fn wit_char_bytes() -> (r: Vec<u8>)
    ensures
        r@ == wit_char(),
{
    let r: Vec<u8> = vec![99u8, 104, 97, 114];
    assert(r@ =~= wit_char());
    r
}

/// The text `String`.
pub open spec fn mb_string() -> Seq<u8> {
    seq![83u8, 116, 114, 105, 110, 103]
}

fn mb_string_bytes() -> (r: Vec<u8>)
    ensures
        r@ == mb_string(),
{
    let r: Vec<u8> = vec![83u8, 116, 114, 105, 110, 103];
    assert(r@ =~= mb_string());
    r
}

/// The text `string`.
pub open spec fn wit_string() -> Seq<u8> {
    seq![115u8, 116, 114, 105, 110, 103]
}

fn wit_string_bytes() -> (r: Vec<u8>)
    ensures
        r@ == wit_string(),
{
    let r: Vec<u8> = vec![115u8, 116, 114, 105, 110, 103];
    assert(r@ =~= wit_string());
    r
}

/// The text `Unit`.
pub open spec fn mb_unit() -> Seq<u8> {
    seq![85u8, 110, 105, 116]
}

fn mb_unit_bytes() -> (r: Vec<u8>)
    ensures
        r@ == mb_unit(),
{
    let r: Vec<u8> = vec![85u8, 110, 105, 116];
    assert(r@ =~= mb_unit());
    r
}

/// The empty text.
pub open spec fn wit_unit() -> Seq<u8> {
    Seq::empty()
}

fn wit_unit_bytes() -> (r: Vec<u8>)
    ensures
        r@ == wit_unit(),
{
    let r: Vec<u8> = Vec::new();
    assert(r@ =~= wit_unit());
    r
}

/// The WIT name of a primitive MoonBit type, or the kebab-case form of a
/// custom type name.
pub open spec fn primitive_wit(t: Seq<u8>) -> Seq<u8> {
    if t == mb_int() {
        wit_int()
    } else if t == mb_int64() {
        wit_int64()
    } else if t == mb_uint() {
        wit_uint()
    } else if t == mb_uint64() {
        wit_uint64()
    } else if t == mb_float() {
        wit_float()
    } else if t == mb_double() {
        wit_double()
    } else if t == mb_bool() {
        wit_bool()
    } else if t == mb_char() {
        wit_char()
    } else if t == mb_string() {
        wit_string()
    } else if t == mb_unit() {
        wit_unit()
    } else {
        kebab(t)
    }
}

fn primitive_wit_exec(t: &[u8]) -> (r: Vec<u8>)
    ensures
        r@ == primitive_wit(t@),
{
    if bytes_equal(t, mb_int_bytes().as_slice()) {
        wit_int_bytes()
    } else if bytes_equal(t, mb_int64_bytes().as_slice()) {
        wit_int64_bytes()
    } else if bytes_equal(t, mb_uint_bytes().as_slice()) {
        wit_uint_bytes()
    } else if bytes_equal(t, mb_uint64_bytes().as_slice()) {
        wit_uint64_bytes()
    } else if bytes_equal(t, mb_float_bytes().as_slice()) {
        wit_float_bytes()
    } else if bytes_equal(t, mb_double_bytes().as_slice()) {
        wit_double_bytes()
    } else if bytes_equal(t, mb_bool_bytes().as_slice()) {
        wit_bool_bytes()
    } else if bytes_equal(t, mb_char_bytes().as_slice()) {
        wit_char_bytes()
    } else if bytes_equal(t, mb_string_bytes().as_slice()) {
        wit_string_bytes()
    } else if bytes_equal(t, mb_unit_bytes().as_slice()) {
        wit_unit_bytes()
    } else {
        to_kebab_case(t)
    }
}

/// `t` opens with `open` and closes with `]` after it.
pub open spec fn bracketed(t: Seq<u8>, open: Seq<u8>) -> bool {
    begins_with(t, open) && t.len() > open.len() && t.last() == 93
}

/// What stands between `open` and the closing `]`.
pub open spec fn bracket_inner(t: Seq<u8>, open: Seq<u8>) -> Seq<u8> {
    t.subrange(open.len() as int, t.len() - 1)
}

/// Where `s` holds `, ` exactly once: the position of it.
pub open spec fn single_comma(s: Seq<u8>) -> Option<int> {
    match find_first(s, comma_space()) {
        Some(p) => if find_from(s, comma_space(), p + 2) is None {
            Some(p)
        } else {
            None
        },
        None => None,
    }
}

/// The WIT type of a MoonBit type, following at most `fuel` nested types.
pub open spec fn wit_fuel(ty: Seq<u8>, fuel: nat) -> Seq<u8>
    decreases fuel,
{
    let t = trimmed(ty);
    if fuel == 0 {
        primitive_wit(t)
    } else if t.len() > 0 && t.last() == 63 {
        wit_option() + wit_fuel(t.drop_last(), (fuel - 1) as nat) + angle_close()
    } else if begins_with(t, result_open()) && bracketed(t, result_open()) && single_comma(
        bracket_inner(t, result_open()),
    ) is Some {
        let inner = bracket_inner(t, result_open());
        let p = single_comma(inner)->0;
        wit_result() + wit_fuel(inner.take(p), (fuel - 1) as nat) + comma_space() + wit_fuel(
            inner.skip(p + 2),
            (fuel - 1) as nat,
        ) + angle_close()
    } else if !begins_with(t, result_open()) && begins_with(t, array_open()) {
        wit_list() + wit_fuel(bracket_inner(t, array_open()), (fuel - 1) as nat) + angle_close()
    } else if !begins_with(t, result_open()) && !begins_with(t, array_open()) && begins_with(t, option_open()) {
        wit_option() + wit_fuel(bracket_inner(t, option_open()), (fuel - 1) as nat) + angle_close()
    } else {
        primitive_wit(t)
    }
}

/// Every `Result[`, `Array[` and `Option[`, at any depth, is closed by a
/// `]` (following at most `fuel` nested types).
pub open spec fn closed_fuel(ty: Seq<u8>, fuel: nat) -> bool
    decreases fuel,
{
    let t = trimmed(ty);
    if fuel == 0 {
        true
    } else if t.len() > 0 && t.last() == 63 {
        closed_fuel(t.drop_last(), (fuel - 1) as nat)
    } else if begins_with(t, result_open()) {
        bracketed(t, result_open()) && (single_comma(bracket_inner(t, result_open())) matches Some(p) ==> (
        closed_fuel(bracket_inner(t, result_open()).take(p), (fuel - 1) as nat) && closed_fuel(
            bracket_inner(t, result_open()).skip(p + 2),
            (fuel - 1) as nat,
        )))
    } else if begins_with(t, array_open()) {
        bracketed(t, array_open()) && closed_fuel(bracket_inner(t, array_open()), (fuel - 1) as nat)
    } else if begins_with(t, option_open()) {
        bracketed(t, option_open()) && closed_fuel(bracket_inner(t, option_open()), (fuel - 1) as nat)
    } else {
        true
    }
}

/// The WIT type of a MoonBit type. Each nested type is shorter than the
/// one around it, so as much fuel as the text has bytes is enough.
pub open spec fn wit_of(ty: Seq<u8>) -> Seq<u8> {
    wit_fuel(ty, ty.len())
}

/// A MoonBit type whose brackets are all closed.
pub open spec fn wit_convertible(ty: Seq<u8>) -> bool {
    closed_fuel(ty, ty.len())
}

fn single_comma_exec(s: &[u8]) -> (r: Option<usize>)
    ensures
        r matches Some(p) ==> single_comma(s@) == Some(p as int) && p + 2 <= s.len(),
        r is None ==> single_comma(s@) is None,
{
    let sep = comma_space_bytes();
    match find_bytes(s, sep.as_slice()) {
        Some(p) => {
            proof {
                lemma_find_from_found(s@, comma_space(), 0);
                assert(p + 2 <= s@.len() == s.len());
            }
            match find_bytes_from(s, sep.as_slice(), p + 2) {
                Some(_) => None,
                None => Some(p),
            }
        },
        None => None,
    }
}

fn wrap(head: Vec<u8>, mid: Vec<u8>, tail: Vec<u8>) -> (r: Vec<u8>)
    ensures
        r@ == head@ + mid@ + tail@,
{
    let mut out = head;
    append_bytes(&mut out, mid.as_slice());
    append_bytes(&mut out, tail.as_slice());
    out
}

fn wit_fuel_exec(ty: &[u8], fuel: usize) -> (r: Vec<u8>)
    requires
        closed_fuel(ty@, fuel as nat),
        ty.len() <= fuel,
    ensures
        r@ == wit_fuel(ty@, fuel as nat),
    decreases fuel,
{
    let t = trim_bytes(ty);
    proof {
        lemma_trimmed_len(ty@);
    }
    let ts = t.as_slice();
    if fuel == 0 {
        return primitive_wit_exec(ts);
    }
    if t.len() > 0 && t[t.len() - 1] == 63 {
        let inner = copy_range(ts, 0, t.len() - 1);
        assert(inner@ =~= t@.drop_last());
        return wrap(wit_option_bytes(), wit_fuel_exec(inner.as_slice(), fuel - 1), angle_close_bytes());
    }
    let is_result = matches_at(ts, result_open_bytes().as_slice(), 0);
    if is_result {
        let inner = copy_range(ts, 7, t.len() - 1);
        assert(inner@ =~= bracket_inner(t@, result_open()));
        match single_comma_exec(inner.as_slice()) {
            Some(p) => {
                let first = copy_range(inner.as_slice(), 0, p);
                let second = copy_range(inner.as_slice(), p + 2, inner.len());
                assert(first@ =~= inner@.take(p as int));
                assert(second@ =~= inner@.skip(p + 2));
                let a = wit_fuel_exec(first.as_slice(), fuel - 1);
                let b = wit_fuel_exec(second.as_slice(), fuel - 1);
                let left = wrap(wit_result_bytes(), a, comma_space_bytes());
                return wrap(left, b, angle_close_bytes());
            },
            None => {},
        }
    } else if matches_at(ts, array_open_bytes().as_slice(), 0) {
        let inner = copy_range(ts, 6, t.len() - 1);
        assert(inner@ =~= bracket_inner(t@, array_open()));
        return wrap(wit_list_bytes(), wit_fuel_exec(inner.as_slice(), fuel - 1), angle_close_bytes());
    } else if matches_at(ts, option_open_bytes().as_slice(), 0) {
        let inner = copy_range(ts, 7, t.len() - 1);
        assert(inner@ =~= bracket_inner(t@, option_open()));
        return wrap(wit_option_bytes(), wit_fuel_exec(inner.as_slice(), fuel - 1), angle_close_bytes());
    }
    primitive_wit_exec(ts)
}

/// Writes the WIT type for a MoonBit type: `T?` and `Option[T]` become
/// `option<..>`, `Result[T, E]` becomes `result<.., ..>`, `Array[T]`
/// becomes `list<..>`, primitives get their WIT names, `Unit` becomes
/// nothing, and any other name is written in kebab case.
pub fn moonbit_type_to_wit(ty: &[u8]) -> (r: Vec<u8>)
    requires
        wit_convertible(ty@),
    ensures
        r@ == wit_of(ty@),
{
    wit_fuel_exec(ty, ty.len())
}

/// The text `Invalid Result type: `.
pub open spec fn invalid_result_msg() -> Seq<u8> {
    seq![73u8, 110, 118, 97, 108, 105, 100, 32, 82, 101, 115, 117, 108, 116, 32, 116, 121, 112, 101, 58, 32]
}

fn invalid_result_msg_bytes() -> (r: Vec<u8>)
    ensures
        r@ == invalid_result_msg(),
{
    let r: Vec<u8> = vec![73u8, 110, 118, 97, 108, 105, 100, 32, 82, 101, 115, 117, 108, 116, 32, 116, 121, 112, 101, 58, 32];
    assert(r@ =~= invalid_result_msg());
    r
}

/// The text `Function types are not supported in WIT: `.
pub open spec fn function_msg() -> Seq<u8> {
    seq![70u8, 117, 110, 99, 116, 105, 111, 110, 32, 116, 121, 112, 101, 115, 32, 97, 114, 101, 32, 110, 111, 116, 32, 115, 117, 112, 112, 111, 114, 116, 101, 100, 32, 105, 110, 32, 87, 73, 84, 58, 32]
}

fn function_msg_bytes() -> (r: Vec<u8>)
    ensures
        r@ == function_msg(),
{
    let r: Vec<u8> = vec![70u8, 117, 110, 99, 116, 105, 111, 110, 32, 116, 121, 112, 101, 115, 32, 97, 114, 101, 32, 110, 111, 116, 32, 115, 117, 112, 112, 111, 114, 116, 101, 100, 32, 105, 110, 32, 87, 73, 84, 58, 32];
    assert(r@ =~= function_msg());
    r
}

/// The text `Reference types are not supported in WIT: `.
pub open spec fn reference_msg() -> Seq<u8> {
    seq![82u8, 101, 102, 101, 114, 101, 110, 99, 101, 32, 116, 121, 112, 101, 115, 32, 97, 114, 101, 32, 110, 111, 116, 32, 115, 117, 112, 112, 111, 114, 116, 101, 100, 32, 105, 110, 32, 87, 73, 84, 58, 32]
}

fn reference_msg_bytes() -> (r: Vec<u8>)
    ensures
        r@ == reference_msg(),
{
    let r: Vec<u8> = vec![82u8, 101, 102, 101, 114, 101, 110, 99, 101, 32, 116, 121, 112, 101, 115, 32, 97, 114, 101, 32, 110, 111, 116, 32, 115, 117, 112, 112, 111, 114, 116, 101, 100, 32, 105, 110, 32, 87, 73, 84, 58, 32];
    assert(r@ =~= reference_msg());
    r
}

/// The text `Map types are not directly supported in WIT. Use list<tuple<K, V>> instead: `.
pub open spec fn map_msg() -> Seq<u8> {
    seq![77u8, 97, 112, 32, 116, 121, 112, 101, 115, 32, 97, 114, 101, 32, 110, 111, 116, 32, 100, 105, 114, 101, 99, 116, 108, 121, 32, 115, 117, 112, 112, 111, 114, 116, 101, 100, 32, 105, 110, 32, 87, 73, 84, 46, 32, 85, 115, 101, 32, 108, 105, 115, 116, 60, 116, 117, 112, 108, 101, 60, 75, 44, 32, 86, 62, 62, 32, 105, 110, 115, 116, 101, 97, 100, 58, 32]
}

fn map_msg_bytes() -> (r: Vec<u8>)
    ensures
        r@ == map_msg(),
{
    let r: Vec<u8> = vec![77u8, 97, 112, 32, 116, 121, 112, 101, 115, 32, 97, 114, 101, 32, 110, 111, 116, 32, 100, 105, 114, 101, 99, 116, 108, 121, 32, 115, 117, 112, 112, 111, 114, 116, 101, 100, 32, 105, 110, 32, 87, 73, 84, 46, 32, 85, 115, 101, 32, 108, 105, 115, 116, 60, 116, 117, 112, 108, 101, 60, 75, 44, 32, 86, 62, 62, 32, 105, 110, 115, 116, 101, 97, 100, 58, 32];
    assert(r@ =~= map_msg());
    r
}

/// The text `->`.
pub open spec fn arrow() -> Seq<u8> {
    seq![45u8, 62]
}

fn arrow_bytes() -> (r: Vec<u8>)
    ensures
        r@ == arrow(),
{
    let r: Vec<u8> = vec![45u8, 62];
    assert(r@ =~= arrow());
    r
}

/// The text `Fn`.
pub open spec fn fn_upper() -> Seq<u8> {
    seq![70u8, 110]
}

fn fn_upper_bytes() -> (r: Vec<u8>)
    ensures
        r@ == fn_upper(),
{
    let r: Vec<u8> = vec![70u8, 110];
    assert(r@ =~= fn_upper());
    r
}

/// The text `fn`.
pub open spec fn fn_lower() -> Seq<u8> {
    seq![102u8, 110]
}

fn fn_lower_bytes() -> (r: Vec<u8>)
    ensures
        r@ == fn_lower(),
{
    let r: Vec<u8> = vec![102u8, 110];
    assert(r@ =~= fn_lower());
    r
}

/// The text `&`.
pub open spec fn ampersand() -> Seq<u8> {
    seq![38u8]
}

fn ampersand_bytes() -> (r: Vec<u8>)
    ensures
        r@ == ampersand(),
{
    let r: Vec<u8> = vec![38u8];
    assert(r@ =~= ampersand());
    r
}

/// The text `Ref[`.
pub open spec fn ref_open() -> Seq<u8> {
    seq![82u8, 101, 102, 91]
}

fn ref_open_bytes() -> (r: Vec<u8>)
    ensures
        r@ == ref_open(),
{
    let r: Vec<u8> = vec![82u8, 101, 102, 91];
    assert(r@ =~= ref_open());
    r
}

/// The text `Map[`.
pub open spec fn map_open() -> Seq<u8> {
    seq![77u8, 97, 112, 91]
}

fn map_open_bytes() -> (r: Vec<u8>)
    ensures
        r@ == map_open(),
{
    let r: Vec<u8> = vec![77u8, 97, 112, 91];
    assert(r@ =~= map_open());
    r
}

/// The text `HashMap[`.
pub open spec fn hashmap_open() -> Seq<u8> {
    seq![72u8, 97, 115, 104, 77, 97, 112, 91]
}

fn hashmap_open_bytes() -> (r: Vec<u8>)
    ensures
        r@ == hashmap_open(),
{
    let r: Vec<u8> = vec![72u8, 97, 115, 104, 77, 97, 112, 91];
    assert(r@ =~= hashmap_open());
    r
}

/// A primitive MoonBit type name.
pub open spec fn is_primitive(t: Seq<u8>) -> bool {
    t == mb_int() || t == mb_int64() || t == mb_uint() || t == mb_uint64() || t == mb_float() || t == mb_double() || t == mb_bool() || t == mb_char() || t == mb_string() || t == mb_unit()
}

fn is_primitive_exec(t: &[u8]) -> (r: bool)
    ensures
        r == is_primitive(t@),
{
    bytes_equal(t, mb_int_bytes().as_slice()) || bytes_equal(t, mb_int64_bytes().as_slice()) || bytes_equal(t, mb_uint_bytes().as_slice()) || bytes_equal(t, mb_uint64_bytes().as_slice()) || bytes_equal(t, mb_float_bytes().as_slice()) || bytes_equal(t, mb_double_bytes().as_slice()) || bytes_equal(t, mb_bool_bytes().as_slice()) || bytes_equal(t, mb_char_bytes().as_slice()) || bytes_equal(t, mb_string_bytes().as_slice()) || bytes_equal(t, mb_unit_bytes().as_slice())
}

/// `defined` names the type `t`.
pub open spec fn is_defined(defined: Seq<Seq<u8>>, t: Seq<u8>) -> bool {
    exists|k: int| 0 <= k < defined.len() && #[trigger] defined[k] == t
}

fn is_defined_exec(defined: &Vec<Vec<u8>>, t: &[u8]) -> (r: bool)
    ensures
        r == is_defined(views(defined@), t@),
{
    let mut k: usize = 0;
    while k < defined.len()
        invariant
            k <= defined.len(),
            forall|j: int| 0 <= j < k ==> defined@[j]@ != t@,
        decreases defined.len() - k,
    {
        if bytes_equal(defined[k].as_slice(), t) {
            assert(views(defined@)[k as int] == t@);
            return true;
        }
        k = k + 1;
    }
    assert forall|j: int| 0 <= j < defined.len() implies #[trigger] views(defined@)[j] != t@ by {
        assert(views(defined@)[j] == defined@[j]@);
    }
    false
}

/// The complaint about a named type that WIT cannot express, if any.
pub open spec fn name_problem(defined: Seq<Seq<u8>>, t: Seq<u8>) -> Option<Seq<u8>> {
    if is_primitive(t) || is_defined(defined, t) {
        None
    } else if occurs_in(t, arrow()) || occurs_in(t, fn_upper()) || occurs_in(t, fn_lower()) {
        Some(function_msg() + t)
    } else if begins_with(t, ampersand()) || begins_with(t, ref_open()) {
        Some(reference_msg() + t)
    } else if occurs_in(t, map_open()) || occurs_in(t, hashmap_open()) {
        Some(map_msg() + t)
    } else {
        None
    }
}

/// The first complaint about a MoonBit type that WIT cannot express,
/// following at most `fuel` nested types.
pub open spec fn problem_fuel(ty: Seq<u8>, defined: Seq<Seq<u8>>, fuel: nat) -> Option<Seq<u8>>
    decreases fuel,
{
    let t = trimmed(ty);
    if fuel == 0 {
        name_problem(defined, t)
    } else if t.len() > 0 && t.last() == 63 {
        problem_fuel(t.drop_last(), defined, (fuel - 1) as nat)
    } else if begins_with(t, result_open()) {
        if !bracketed(t, result_open()) {
            None
        } else {
            let inner = bracket_inner(t, result_open());
            match single_comma(inner) {
                Some(p) => match problem_fuel(inner.take(p), defined, (fuel - 1) as nat) {
                    Some(e) => Some(e),
                    None => problem_fuel(inner.skip(p + 2), defined, (fuel - 1) as nat),
                },
                None => Some(invalid_result_msg() + t),
            }
        }
    } else if begins_with(t, array_open()) {
        if bracketed(t, array_open()) {
            problem_fuel(bracket_inner(t, array_open()), defined, (fuel - 1) as nat)
        } else {
            None
        }
    } else if begins_with(t, option_open()) {
        if bracketed(t, option_open()) {
            problem_fuel(bracket_inner(t, option_open()), defined, (fuel - 1) as nat)
        } else {
            None
        }
    } else {
        name_problem(defined, t)
    }
}

/// The first complaint about a MoonBit type that WIT cannot express.
pub open spec fn wit_problem(ty: Seq<u8>, defined: Seq<Seq<u8>>) -> Option<Seq<u8>> {
    problem_fuel(ty, defined, ty.len())
}

fn with_type(msg: Vec<u8>, t: &[u8]) -> (r: Option<Vec<u8>>)
    ensures
        r matches Some(m) && m@ == msg@ + t@,
{
    let mut out = msg;
    append_bytes(&mut out, t);
    Some(out)
}

fn name_problem_exec(defined: &Vec<Vec<u8>>, t: &[u8]) -> (r: Option<Vec<u8>>)
    ensures
        r matches Some(m) ==> name_problem(views(defined@), t@) == Some(m@),
        r is None ==> name_problem(views(defined@), t@) is None,
{
    if is_primitive_exec(t) || is_defined_exec(defined, t) {
        None
    } else if contains_bytes(t, arrow_bytes().as_slice()) || contains_bytes(t, fn_upper_bytes().as_slice())
        || contains_bytes(t, fn_lower_bytes().as_slice()) {
        with_type(function_msg_bytes(), t)
    } else if matches_at(t, ampersand_bytes().as_slice(), 0) || matches_at(t, ref_open_bytes().as_slice(), 0) {
        with_type(reference_msg_bytes(), t)
    } else if contains_bytes(t, map_open_bytes().as_slice()) || contains_bytes(t, hashmap_open_bytes().as_slice()) {
        with_type(map_msg_bytes(), t)
    } else {
        None
    }
}

fn problem_fuel_exec(ty: &[u8], defined: &Vec<Vec<u8>>, fuel: usize) -> (r: Option<Vec<u8>>)
    requires
        ty.len() <= fuel,
    ensures
        r matches Some(m) ==> problem_fuel(ty@, views(defined@), fuel as nat) == Some(m@),
        r is None ==> problem_fuel(ty@, views(defined@), fuel as nat) is None,
    decreases fuel,
{
    let t = trim_bytes(ty);
    proof {
        lemma_trimmed_len(ty@);
    }
    let ts = t.as_slice();
    if fuel == 0 {
        return name_problem_exec(defined, ts);
    }
    if t.len() > 0 && t[t.len() - 1] == 63 {
        let inner = copy_range(ts, 0, t.len() - 1);
        assert(inner@ =~= t@.drop_last());
        return problem_fuel_exec(inner.as_slice(), defined, fuel - 1);
    }
    if matches_at(ts, result_open_bytes().as_slice(), 0) {
        if !(t.len() > 7 && t[t.len() - 1] == 93) {
            return None;
        }
        let inner = copy_range(ts, 7, t.len() - 1);
        assert(inner@ =~= bracket_inner(t@, result_open()));
        return match single_comma_exec(inner.as_slice()) {
            Some(p) => {
                let first = copy_range(inner.as_slice(), 0, p);
                let second = copy_range(inner.as_slice(), p + 2, inner.len());
                assert(first@ =~= inner@.take(p as int));
                assert(second@ =~= inner@.skip(p + 2));
                match problem_fuel_exec(first.as_slice(), defined, fuel - 1) {
                    Some(e) => Some(e),
                    None => problem_fuel_exec(second.as_slice(), defined, fuel - 1),
                }
            },
            None => with_type(invalid_result_msg_bytes(), ts),
        };
    }
    if matches_at(ts, array_open_bytes().as_slice(), 0) {
        if !(t.len() > 6 && t[t.len() - 1] == 93) {
            return None;
        }
        let inner = copy_range(ts, 6, t.len() - 1);
        assert(inner@ =~= bracket_inner(t@, array_open()));
        return problem_fuel_exec(inner.as_slice(), defined, fuel - 1);
    }
    if matches_at(ts, option_open_bytes().as_slice(), 0) {
        if !(t.len() > 7 && t[t.len() - 1] == 93) {
            return None;
        }
        let inner = copy_range(ts, 7, t.len() - 1);
        assert(inner@ =~= bracket_inner(t@, option_open()));
        return problem_fuel_exec(inner.as_slice(), defined, fuel - 1);
    }
    name_problem_exec(defined, ts)
}

/// Checks that WIT can express a MoonBit type: gives the first complaint
/// about a function, reference or map type, or about a `Result` that does
/// not hold two types, and `None` where there is none. A primitive or a
/// name among `defined_types` is always accepted.
pub fn validate_wit_type(ty: &[u8], defined_types: &Vec<Vec<u8>>) -> (r: Option<Vec<u8>>)
    ensures
        r matches Some(m) ==> wit_problem(ty@, views(defined_types@)) == Some(m@),
        r is None ==> wit_problem(ty@, views(defined_types@)) is None,
{
    problem_fuel_exec(ty, defined_types, ty.len())
}

/// The text `(`.
pub open spec fn open_paren() -> Seq<u8> {
    seq![40u8]
}

pub(crate) fn open_paren_bytes() -> (r: Vec<u8>)
    ensures
        r@ == open_paren(),
{
    let r: Vec<u8> = vec![40u8];
    assert(r@ =~= open_paren());
    r
}

/// The text `)`.
pub open spec fn close_paren_text() -> Seq<u8> {
    seq![41u8]
}

fn close_paren_text_bytes() -> (r: Vec<u8>)
    ensures
        r@ == close_paren_text(),
{
    let r: Vec<u8> = vec![41u8];
    assert(r@ =~= close_paren_text());
    r
}

/// The text `(tuple<`.
pub open spec fn tuple_open() -> Seq<u8> {
    seq![40u8, 116, 117, 112, 108, 101, 60]
}

fn tuple_open_bytes() -> (r: Vec<u8>)
    ensures
        r@ == tuple_open(),
{
    let r: Vec<u8> = vec![40u8, 116, 117, 112, 108, 101, 60];
    assert(r@ =~= tuple_open());
    r
}

/// The text `>)`.
pub open spec fn tuple_close() -> Seq<u8> {
    seq![62u8, 41]
}

fn tuple_close_bytes() -> (r: Vec<u8>)
    ensures
        r@ == tuple_close(),
{
    let r: Vec<u8> = vec![62u8, 41];
    assert(r@ =~= tuple_close());
    r
}

/// `s` without its trailing `)`s.
pub open spec fn strip_close_parens(s: Seq<u8>) -> Seq<u8>
    decreases s.len(),
{
    if s.len() > 0 && s.last() == 41 {
        strip_close_parens(s.drop_last())
    } else {
        s
    }
}

pub(crate) fn strip_close_parens_exec(s: &[u8]) -> (r: Vec<u8>)
    ensures
        r@ == strip_close_parens(s@),
{
    let mut n: usize = s.len();
    assert(s@.take(n as int) =~= s@);
    while n > 0 && s[n - 1] == 41
        invariant
            n <= s.len(),
            strip_close_parens(s@) == strip_close_parens(s@.take(n as int)),
        decreases n,
    {
        assert(s@.take(n as int).drop_last() =~= s@.take(n - 1));
        n = n - 1;
    }
    copy_range(s, 0, n)
}

/// The WIT types of `types`, joined with `, `.
pub open spec fn wits_joined(types: Seq<Seq<u8>>) -> Seq<u8>
    decreases types.len(),
{
    if types.len() == 0 {
        Seq::empty()
    } else if types.len() == 1 {
        wit_of(types[0])
    } else {
        wits_joined(types.drop_last()) + comma_space() + wit_of(types.last())
    }
}

/// Every one of `types` is a MoonBit type whose brackets are closed.
pub open spec fn all_convertible(types: Seq<Seq<u8>>) -> bool {
    forall|k: int| 0 <= k < types.len() ==> wit_convertible(#[trigger] types[k])
}

fn wits_joined_exec(types: &Vec<Vec<u8>>) -> (r: Vec<u8>)
    requires
        all_convertible(views(types@)),
    ensures
        r@ == wits_joined(views(types@)),
{
    let ghost ts = views(types@);
    let mut out: Vec<u8> = Vec::new();
    let mut k: usize = 0;
    while k < types.len()
        invariant
            k <= types.len(),
            ts == views(types@),
            all_convertible(ts),
            out@ == wits_joined(ts.take(k as int)),
        decreases types.len() - k,
    {
        assert(ts.take(k + 1).drop_last() =~= ts.take(k as int));
        assert(wit_convertible(ts[k as int]));
        if k > 0 {
            append_bytes(&mut out, comma_space_bytes().as_slice());
        }
        append_bytes(&mut out, moonbit_type_to_wit(types[k].as_slice()).as_slice());
        if k == 0 {
            assert(out@ =~= wits_joined(ts.take(1)));
        }
        k = k + 1;
    }
    assert(ts.take(k as int) =~= ts);
    out
}

/// The payload types of an enum case written `Name(T1, T2)`.
pub open spec fn case_types(case: Seq<u8>, p: int) -> Seq<Seq<u8>> {
    split_on(strip_close_parens(case.skip(p + 1)), comma_space())
}

/// The WIT form of an enum case: `Name` becomes `name`, `Name(T)` becomes
/// `name(t)`, and `Name(T1, T2)` becomes `name(tuple<t1, t2>)`.
pub open spec fn enum_case_wit(case: Seq<u8>) -> Seq<u8> {
    match find_first(case, open_paren()) {
        Some(p) => {
            let name = kebab(case.take(p));
            let types = case_types(case, p);
            if types.len() == 1 && types[0].len() > 0 {
                name + open_paren() + wit_of(types[0]) + close_paren_text()
            } else if types.len() > 1 {
                name + tuple_open() + wits_joined(types) + tuple_close()
            } else {
                name
            }
        },
        None => kebab(case),
    }
}

/// The payload types of an enum case all have closed brackets.
pub open spec fn enum_case_convertible(case: Seq<u8>) -> bool {
    match find_first(case, open_paren()) {
        Some(p) => all_convertible(case_types(case, p)),
        None => true,
    }
}

/// Writes an enum case of a MoonBit interface listing in WIT.
pub fn parse_enum_case(case: &[u8]) -> (r: Vec<u8>)
    requires
        enum_case_convertible(case@),
    ensures
        r@ == enum_case_wit(case@),
{
    match find_bytes(case, open_paren_bytes().as_slice()) {
        Some(p) => {
            proof {
                lemma_find_from_found(case@, open_paren(), 0);
                assert(p + 1 <= case@.len() == case.len());
            }
            let head = copy_range(case, 0, p);
            assert(head@ =~= case@.take(p as int));
            let mut out = to_kebab_case(head.as_slice());
            let after = copy_range(case, p + 1, case.len());
            assert(after@ =~= case@.skip(p + 1));
            let stripped = strip_close_parens_exec(after.as_slice());
            let types = split_bytes_on(stripped.as_slice(), comma_space_bytes().as_slice());
            proof {
                assert(views(types@)[0] == types@[0]@);
            }
            if types.len() == 1 && types[0].len() > 0 {
                assert(wit_convertible(views(types@)[0]));
                append_bytes(&mut out, open_paren_bytes().as_slice());
                append_bytes(&mut out, moonbit_type_to_wit(types[0].as_slice()).as_slice());
                append_bytes(&mut out, close_paren_text_bytes().as_slice());
            } else if types.len() > 1 {
                append_bytes(&mut out, tuple_open_bytes().as_slice());
                append_bytes(&mut out, wits_joined_exec(&types).as_slice());
                append_bytes(&mut out, tuple_close_bytes().as_slice());
            }
            out
        },
        None => to_kebab_case(case),
    }
}

/// The text `(Self`.
pub open spec fn self_open() -> Seq<u8> {
    seq![40u8, 83, 101, 108, 102]
}

pub(crate) fn self_open_bytes() -> (r: Vec<u8>)
    ensures
        r@ == self_open(),
{
    let r: Vec<u8> = vec![40u8, 83, 101, 108, 102];
    assert(r@ =~= self_open());
    r
}

/// The text ` -> `.
pub open spec fn arrow_spaced() -> Seq<u8> {
    seq![32u8, 45, 62, 32]
}

fn arrow_spaced_bytes() -> (r: Vec<u8>)
    ensures
        r@ == arrow_spaced(),
{
    let r: Vec<u8> = vec![32u8, 45, 62, 32];
    assert(r@ =~= arrow_spaced());
    r
}

/// The text `Self`.
pub open spec fn self_word() -> Seq<u8> {
    seq![83u8, 101, 108, 102]
}

fn self_word_bytes() -> (r: Vec<u8>)
    ensures
        r@ == self_word(),
{
    let r: Vec<u8> = vec![83u8, 101, 108, 102];
    assert(r@ =~= self_word());
    r
}

/// The text `p`.
pub open spec fn p_letter() -> Seq<u8> {
    seq![112u8]
}

fn p_letter_bytes() -> (r: Vec<u8>)
    ensures
        r@ == p_letter(),
{
    let r: Vec<u8> = vec![112u8];
    assert(r@ =~= p_letter());
    r
}

/// The text `: `.
pub open spec fn colon_space() -> Seq<u8> {
    seq![58u8, 32]
}

fn colon_space_bytes() -> (r: Vec<u8>)
    ensures
        r@ == colon_space(),
{
    let r: Vec<u8> = vec![58u8, 32];
    assert(r@ =~= colon_space());
    r
}

/// The text `: func(`.
pub open spec fn func_open() -> Seq<u8> {
    seq![58u8, 32, 102, 117, 110, 99, 40]
}

fn func_open_bytes() -> (r: Vec<u8>)
    ensures
        r@ == func_open(),
{
    let r: Vec<u8> = vec![58u8, 32, 102, 117, 110, 99, 40];
    assert(r@ =~= func_open());
    r
}

/// The text `Method must have Self as first parameter`.
pub open spec fn self_missing_msg() -> Seq<u8> {
    seq![77u8, 101, 116, 104, 111, 100, 32, 109, 117, 115, 116, 32, 104, 97, 118, 101, 32, 83, 101, 108, 102, 32, 97, 115, 32, 102, 105, 114, 115, 116, 32, 112, 97, 114, 97, 109, 101, 116, 101, 114]
}

fn self_missing_msg_bytes() -> (r: Vec<u8>)
    ensures
        r@ == self_missing_msg(),
{
    let r: Vec<u8> = vec![77u8, 101, 116, 104, 111, 100, 32, 109, 117, 115, 116, 32, 104, 97, 118, 101, 32, 83, 101, 108, 102, 32, 97, 115, 32, 102, 105, 114, 115, 116, 32, 112, 97, 114, 97, 109, 101, 116, 101, 114];
    assert(r@ =~= self_missing_msg());
    r
}

/// The text `Invalid parameter type: `.
pub open spec fn param_msg() -> Seq<u8> {
    seq![73u8, 110, 118, 97, 108, 105, 100, 32, 112, 97, 114, 97, 109, 101, 116, 101, 114, 32, 116, 121, 112, 101, 58, 32]
}

fn param_msg_bytes() -> (r: Vec<u8>)
    ensures
        r@ == param_msg(),
{
    let r: Vec<u8> = vec![73u8, 110, 118, 97, 108, 105, 100, 32, 112, 97, 114, 97, 109, 101, 116, 101, 114, 32, 116, 121, 112, 101, 58, 32];
    assert(r@ =~= param_msg());
    r
}

/// The text `Invalid return type: `.
pub open spec fn return_msg() -> Seq<u8> {
    seq![73u8, 110, 118, 97, 108, 105, 100, 32, 114, 101, 116, 117, 114, 110, 32, 116, 121, 112, 101, 58, 32]
}

fn return_msg_bytes() -> (r: Vec<u8>)
    ensures
        r@ == return_msg(),
{
    let r: Vec<u8> = vec![73u8, 110, 118, 97, 108, 105, 100, 32, 114, 101, 116, 117, 114, 110, 32, 116, 121, 112, 101, 58, 32];
    assert(r@ =~= return_msg());
    r
}

/// The parts of a trait method line `name(Self, T1, ..) -> R`, trimmed:
/// the line, the position of the first `(` and of the first `)`.
pub open spec fn method_parts(line: Seq<u8>) -> Option<(Seq<u8>, int, int)> {
    let t = trimmed(line);
    match find_first(t, open_paren()) {
        Some(p) => match find_first(t, close_paren_text()) {
            Some(c) => Some((t, p, c)),
            None => None,
        },
        None => None,
    }
}

/// The first `)` of a trait method line does not come before its first
/// `(`.
pub open spec fn parens_ordered(line: Seq<u8>) -> bool {
    method_parts(line) matches Some((t, p, c)) ==> p < c
}

/// The parameters of a trait method line.
pub open spec fn method_params(t: Seq<u8>, p: int, c: int) -> Seq<Seq<u8>> {
    split_on(t.subrange(p + 1, c), comma_space())
}

/// The return type text of a trait method line, where it has exactly one
/// ` -> `.
pub open spec fn method_return(t: Seq<u8>) -> Option<Seq<u8>> {
    if occurs_in(t, arrow_spaced()) && split_on(t, arrow_spaced()).len() == 2 {
        Some(split_on(t, arrow_spaced())[1])
    } else {
        None
    }
}

/// `parts` joined with `sep` between each two.
pub open spec fn joined(parts: Seq<Seq<u8>>, sep: Seq<u8>) -> Seq<u8>
    decreases parts.len(),
{
    if parts.len() == 0 {
        Seq::empty()
    } else if parts.len() == 1 {
        parts[0]
    } else {
        joined(parts.drop_last(), sep) + sep + parts.last()
    }
}

/// The WIT parameters for the first `n` parameters: `p<i>: <type>` for
/// each but `Self`, numbered by position.
pub open spec fn wit_params(params: Seq<Seq<u8>>, n: int) -> Seq<Seq<u8>>
    decreases n,
{
    if n <= 0 || n > params.len() {
        Seq::empty()
    } else if params[n - 1] == self_word() {
        wit_params(params, n - 1)
    } else {
        wit_params(params, n - 1).push(p_letter() + crate::text::decimal((n - 1) as nat) + colon_space() + wit_of(params[n - 1]))
    }
}

/// The WIT declaration of a trait method: `name: func(p1: t1, ..)`, with
/// ` -> r` where the return type is not empty; none where the line has no
/// `(Self` or no `)`.
pub open spec fn trait_method_wit(line: Seq<u8>) -> Option<Seq<u8>> {
    let t = trimmed(line);
    if t.len() == 0 || !occurs_in(t, self_open()) {
        None
    } else {
        match method_parts(line) {
            Some((t, p, c)) => {
                let params = method_params(t, p, c);
                let ret = match method_return(t) {
                    Some(r) => wit_of(r),
                    None => Seq::empty(),
                };
                let head = kebab(t.take(p)) + func_open() + joined(wit_params(params, params.len() as int), comma_space()) + close_paren_text();
                Some(if ret.len() == 0 { head } else { head + arrow_spaced() + ret })
            },
            None => None,
        }
    }
}

/// The parameter and return types of a trait method line all have closed
/// brackets.
pub open spec fn trait_method_convertible(line: Seq<u8>) -> bool {
    match method_parts(line) {
        Some((t, p, c)) => p < c && all_convertible(method_params(t, p, c)) && (method_return(t) matches Some(r) ==> wit_convertible(r)),
        None => true,
    }
}

pub(crate) fn joined_exec(parts: &Vec<Vec<u8>>, sep: &[u8]) -> (r: Vec<u8>)
    ensures
        r@ == joined(views(parts@), sep@),
{
    let ghost ps = views(parts@);
    let mut out: Vec<u8> = Vec::new();
    let mut k: usize = 0;
    while k < parts.len()
        invariant
            k <= parts.len(),
            ps == views(parts@),
            out@ == joined(ps.take(k as int), sep@),
        decreases parts.len() - k,
    {
        assert(ps.take(k + 1).drop_last() =~= ps.take(k as int));
        if k > 0 {
            append_bytes(&mut out, sep);
        }
        append_bytes(&mut out, parts[k].as_slice());
        if k == 0 {
            assert(out@ =~= joined(ps.take(1), sep@));
        }
        k = k + 1;
    }
    assert(ps.take(k as int) =~= ps);
    out
}

pub(crate) fn method_parts_exec(line: &[u8]) -> (r: Option<(Vec<u8>, usize, usize)>)
    ensures
        r matches Some((t, p, c)) ==> method_parts(line@) == Some((t@, p as int, c as int)) && p < t.len() && c < t.len(),
        r is None ==> method_parts(line@) is None,
{
    let t = trim_bytes(line);
    let p = match find_bytes(t.as_slice(), open_paren_bytes().as_slice()) {
        Some(p) => p,
        None => return None,
    };
    let c = match find_bytes(t.as_slice(), close_paren_text_bytes().as_slice()) {
        Some(c) => c,
        None => return None,
    };
    proof {
        lemma_find_from_found(t@, open_paren(), 0);
        lemma_find_from_found(t@, close_paren_text(), 0);
    }
    Some((t, p, c))
}

pub(crate) fn method_return_exec(t: &[u8]) -> (r: Option<Vec<u8>>)
    ensures
        r matches Some(x) ==> method_return(t@) == Some(x@),
        r is None ==> method_return(t@) is None,
{
    if !contains_bytes(t, arrow_spaced_bytes().as_slice()) {
        return None;
    }
    let parts = split_bytes_on(t, arrow_spaced_bytes().as_slice());
    if parts.len() == 2 {
        assert(views(parts@)[1] == parts@[1]@);
        Some(copy_range(parts[1].as_slice(), 0, parts[1].len()))
    } else {
        None
    }
}

/// Writes a trait method of a MoonBit interface listing as a WIT function.
pub fn parse_trait_method(line: &[u8]) -> (r: Option<Vec<u8>>)
    requires
        trait_method_convertible(line@),
    ensures
        r matches Some(x) ==> trait_method_wit(line@) == Some(x@),
        r is None ==> trait_method_wit(line@) is None,
{
    let t0 = trim_bytes(line);
    if t0.len() == 0 || !contains_bytes(t0.as_slice(), self_open_bytes().as_slice()) {
        return None;
    }
    let (t, p, c) = match method_parts_exec(line) {
        Some(x) => x,
        None => return None,
    };
    let inner = copy_range(t.as_slice(), p + 1, c);
    let params = split_bytes_on(inner.as_slice(), comma_space_bytes().as_slice());
    let ghost ps = views(params@);
    assert(ps == method_params(t@, p as int, c as int));
    let mut entries: Vec<Vec<u8>> = Vec::new();
    let mut i: usize = 0;
    assert(views(entries@) =~= wit_params(ps, 0));
    while i < params.len()
        invariant
            i <= params.len(),
            ps == views(params@),
            all_convertible(ps),
            views(entries@) == wit_params(ps, i as int),
        decreases params.len() - i,
    {
        assert(ps[i as int] == params@[i as int]@);
        if !bytes_equal(params[i].as_slice(), self_word_bytes().as_slice()) {
            assert(wit_convertible(ps[i as int]));
            let mut e = p_letter_bytes();
            append_bytes(&mut e, decimal_bytes(i).as_slice());
            append_bytes(&mut e, colon_space_bytes().as_slice());
            append_bytes(&mut e, moonbit_type_to_wit(params[i].as_slice()).as_slice());
            let ghost before = views(entries@);
            entries.push(e);
            assert(views(entries@) =~= before.push(e@));
        }
        i = i + 1;
    }
    let ret = match method_return_exec(t.as_slice()) {
        Some(r) => moonbit_type_to_wit(r.as_slice()),
        None => Vec::new(),
    };
    assert(ret@ =~= match method_return(t@) {
        Some(r) => wit_of(r),
        None => Seq::<u8>::empty(),
    });
    let head0 = copy_range(t.as_slice(), 0, p);
    assert(head0@ =~= t@.take(p as int));
    let mut out = to_kebab_case(head0.as_slice());
    append_bytes(&mut out, func_open_bytes().as_slice());
    append_bytes(&mut out, joined_exec(&entries, comma_space_bytes().as_slice()).as_slice());
    append_bytes(&mut out, close_paren_text_bytes().as_slice());
    if ret.len() > 0 {
        append_bytes(&mut out, arrow_spaced_bytes().as_slice());
        append_bytes(&mut out, ret.as_slice());
    }
    Some(out)
}


/// The first complaint about the parameters from `i` on, `Self` aside.
pub open spec fn param_problem_from(params: Seq<Seq<u8>>, defined: Seq<Seq<u8>>, i: int) -> Option<Seq<u8>>
    decreases params.len() - i,
{
    if i < 0 || i >= params.len() {
        None
    } else if params[i] == self_word() {
        param_problem_from(params, defined, i + 1)
    } else {
        match wit_problem(trimmed(params[i]), defined) {
            Some(e) => Some(param_msg() + e),
            None => param_problem_from(params, defined, i + 1),
        }
    }
}

/// The first complaint about a trait method line: no `Self` parameter, a
/// parameter type or the return type that WIT cannot express.
pub open spec fn trait_method_problem(line: Seq<u8>, defined: Seq<Seq<u8>>) -> Option<Seq<u8>> {
    let t = trimmed(line);
    if !occurs_in(t, self_open()) {
        Some(self_missing_msg())
    } else {
        match method_parts(line) {
            Some((t, p, c)) => match param_problem_from(method_params(t, p, c), defined, 0) {
                Some(e) => Some(e),
                None => match method_return(t) {
                    Some(r) => match wit_problem(trimmed(r), defined) {
                        Some(e) => Some(return_msg() + e),
                        None => None,
                    },
                    None => None,
                },
            },
            None => None,
        }
    }
}

/// Checks a trait method line of a MoonBit interface listing: gives the
/// first complaint, or `None` where WIT can express it.
pub fn validate_trait_method(line: &[u8], defined_types: &Vec<Vec<u8>>) -> (r: Option<Vec<u8>>)
    requires
        parens_ordered(line@),
    ensures
        r matches Some(m) ==> trait_method_problem(line@, views(defined_types@)) == Some(m@),
        r is None ==> trait_method_problem(line@, views(defined_types@)) is None,
{
    let ghost ds = views(defined_types@);
    let t0 = trim_bytes(line);
    if !contains_bytes(t0.as_slice(), self_open_bytes().as_slice()) {
        return Some(self_missing_msg_bytes());
    }
    let (t, p, c) = match method_parts_exec(line) {
        Some(x) => x,
        None => return None,
    };
    let inner = copy_range(t.as_slice(), p + 1, c);
    let params = split_bytes_on(inner.as_slice(), comma_space_bytes().as_slice());
    let ghost ps = views(params@);
    assert(ps == method_params(t@, p as int, c as int));
    let mut i: usize = 0;
    while i < params.len()
        invariant
            i <= params.len(),
            ps == views(params@),
            ds == views(defined_types@),
            ps == method_params(t@, p as int, c as int),
            method_parts(line@) == Some((t@, p as int, c as int)),
            occurs_in(trimmed(line@), self_open()),
            param_problem_from(ps, ds, 0) == param_problem_from(ps, ds, i as int),
        decreases params.len() - i,
    {
        assert(ps[i as int] == params@[i as int]@);
        if !bytes_equal(params[i].as_slice(), self_word_bytes().as_slice()) {
            let q = trim_bytes(params[i].as_slice());
            match validate_wit_type(q.as_slice(), defined_types) {
                Some(e) => {
                    let mut m = param_msg_bytes();
                    append_bytes(&mut m, e.as_slice());
                    assert(ps[i as int] != self_word());
                    assert(wit_problem(trimmed(ps[i as int]), ds) == Some(e@));
                    assert(param_problem_from(ps, ds, i as int) == Some(param_msg() + e@));
                    return Some(m);
                },
                None => {},
            }
        }
        i = i + 1;
    }
    match method_return_exec(t.as_slice()) {
        Some(r) => {
            let q = trim_bytes(r.as_slice());
            match validate_wit_type(q.as_slice(), defined_types) {
                Some(e) => {
                    let mut m = return_msg_bytes();
                    append_bytes(&mut m, e.as_slice());
                    Some(m)
                },
                None => None,
            }
        },
        None => None,
    }
}


fn closed_fuel_exec(ty: &[u8], fuel: usize) -> (r: bool)
    ensures
        r == closed_fuel(ty@, fuel as nat),
    decreases fuel,
{
    if fuel == 0 {
        return true;
    }
    let t = trim_bytes(ty);
    let ts = t.as_slice();
    if t.len() > 0 && t[t.len() - 1] == 63 {
        let inner = copy_range(ts, 0, t.len() - 1);
        assert(inner@ =~= t@.drop_last());
        return closed_fuel_exec(inner.as_slice(), fuel - 1);
    }
    if matches_at(ts, result_open_bytes().as_slice(), 0) {
        if !(t.len() > 7 && t[t.len() - 1] == 93) {
            return false;
        }
        let inner = copy_range(ts, 7, t.len() - 1);
        assert(inner@ =~= bracket_inner(t@, result_open()));
        return match single_comma_exec(inner.as_slice()) {
            Some(p) => {
                let first = copy_range(inner.as_slice(), 0, p);
                let second = copy_range(inner.as_slice(), p + 2, inner.len());
                assert(first@ =~= inner@.take(p as int));
                assert(second@ =~= inner@.skip(p + 2));
                closed_fuel_exec(first.as_slice(), fuel - 1) && closed_fuel_exec(second.as_slice(), fuel - 1)
            },
            None => true,
        };
    }
    if matches_at(ts, array_open_bytes().as_slice(), 0) {
        if !(t.len() > 6 && t[t.len() - 1] == 93) {
            return false;
        }
        let inner = copy_range(ts, 6, t.len() - 1);
        assert(inner@ =~= bracket_inner(t@, array_open()));
        return closed_fuel_exec(inner.as_slice(), fuel - 1);
    }
    if matches_at(ts, option_open_bytes().as_slice(), 0) {
        if !(t.len() > 7 && t[t.len() - 1] == 93) {
            return false;
        }
        let inner = copy_range(ts, 7, t.len() - 1);
        assert(inner@ =~= bracket_inner(t@, option_open()));
        return closed_fuel_exec(inner.as_slice(), fuel - 1);
    }
    true
}

/// Whether every `Result[`, `Array[` and `Option[` of a MoonBit type is
/// closed, as `moonbit_type_to_wit` needs.
pub fn is_wit_convertible(ty: &[u8]) -> (r: bool)
    ensures
        r == wit_convertible(ty@),
{
    closed_fuel_exec(ty, ty.len())
}


fn all_convertible_exec(types: &Vec<Vec<u8>>) -> (r: bool)
    ensures
        r == all_convertible(views(types@)),
{
    let mut k: usize = 0;
    while k < types.len()
        invariant
            k <= types.len(),
            forall|j: int| 0 <= j < k ==> wit_convertible(#[trigger] views(types@)[j]),
        decreases types.len() - k,
    {
        assert(views(types@)[k as int] == types@[k as int]@);
        if !is_wit_convertible(types[k].as_slice()) {
            return false;
        }
        k = k + 1;
    }
    true
}

/// Whether the payload types of an enum case all have closed brackets, as
/// `parse_enum_case` needs.
pub fn is_enum_case_convertible(case: &[u8]) -> (r: bool)
    ensures
        r == enum_case_convertible(case@),
{
    match find_bytes(case, open_paren_bytes().as_slice()) {
        Some(p) => {
            proof {
                lemma_find_from_found(case@, open_paren(), 0);
                assert(p + 1 <= case@.len() == case.len());
            }
            let after = copy_range(case, p + 1, case.len());
            assert(after@ =~= case@.skip(p + 1));
            let stripped = strip_close_parens_exec(after.as_slice());
            let types = split_bytes_on(stripped.as_slice(), comma_space_bytes().as_slice());
            all_convertible_exec(&types)
        },
        None => true,
    }
}

/// Whether a trait method line has its `(` before its `)` and all its types
/// closed, as `parse_trait_method` needs.
pub fn is_trait_method_convertible(line: &[u8]) -> (r: bool)
    ensures
        r == trait_method_convertible(line@),
{
    let (t, p, c) = match method_parts_exec(line) {
        Some(x) => x,
        None => return true,
    };
    if p >= c {
        return false;
    }
    let inner = copy_range(t.as_slice(), p + 1, c);
    let params = split_bytes_on(inner.as_slice(), comma_space_bytes().as_slice());
    if !all_convertible_exec(&params) {
        return false;
    }
    match method_return_exec(t.as_slice()) {
        Some(r) => is_wit_convertible(r.as_slice()),
        None => true,
    }
}

} // verus!
