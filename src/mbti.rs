//! Generation of a WIT interface from a MoonBit interface listing
//! (`pkg.generated.mbti`), with the problems that keep it from being
//! expressed in WIT.
//!
//! The listing is read line by line, twice: first for `pub(all)` structs and
//! enums, which become records and enums, then for the methods of the
//! `Exports` trait, which become the interface's functions.

use vstd::prelude::*;
use crate::moonbit::{
    comma_space, comma_space_bytes, enum_case_convertible, enum_case_wit, joined, joined_exec,
    moonbit_type_to_wit, open_paren, open_paren_bytes, parse_enum_case, parse_trait_method, self_open,
    self_open_bytes, strip_close_parens, strip_close_parens_exec, trait_method_convertible,
    trait_method_problem, trait_method_wit, validate_trait_method, validate_wit_type, wit_convertible,
    wit_of, wit_problem, is_wit_convertible, is_enum_case_convertible, is_trait_method_convertible,
};
use crate::project::{kebab, to_kebab_case};
use crate::text::{
    append_bytes, begins_with, bytes_equal, contains_bytes, copy_range, decimal, decimal_bytes,
    find_bytes, find_first, lemma_find_from_found, matches_at, occurs_in, split_bytes_on,
    split_on, split_bytes, split_parts, trim_bytes, trimmed, views,
};

verus! {

/// The text `pub(all) struct `.
pub open spec fn all_struct() -> Seq<u8> {
    seq![112u8, 117, 98, 40, 97, 108, 108, 41, 32, 115, 116, 114, 117, 99, 116, 32]
}

fn all_struct_bytes() -> (r: Vec<u8>)
    ensures
        r@ == all_struct(),
{
    let r: Vec<u8> = vec![112u8, 117, 98, 40, 97, 108, 108, 41, 32, 115, 116, 114, 117, 99, 116, 32];
    assert(r@ =~= all_struct());
    r
}

/// The text `pub struct `.
pub open spec fn pub_struct() -> Seq<u8> {
    seq![112u8, 117, 98, 32, 115, 116, 114, 117, 99, 116, 32]
}

fn pub_struct_bytes() -> (r: Vec<u8>)
    ensures
        r@ == pub_struct(),
{
    let r: Vec<u8> = vec![112u8, 117, 98, 32, 115, 116, 114, 117, 99, 116, 32];
    assert(r@ =~= pub_struct());
    r
}

/// The text `priv struct `.
pub open spec fn priv_struct() -> Seq<u8> {
    seq![112u8, 114, 105, 118, 32, 115, 116, 114, 117, 99, 116, 32]
}

fn priv_struct_bytes() -> (r: Vec<u8>)
    ensures
        r@ == priv_struct(),
{
    let r: Vec<u8> = vec![112u8, 114, 105, 118, 32, 115, 116, 114, 117, 99, 116, 32];
    assert(r@ =~= priv_struct());
    r
}

/// The text `struct `.
pub open spec fn bare_struct() -> Seq<u8> {
    seq![115u8, 116, 114, 117, 99, 116, 32]
}

fn bare_struct_bytes() -> (r: Vec<u8>)
    ensures
        r@ == bare_struct(),
{
    let r: Vec<u8> = vec![115u8, 116, 114, 117, 99, 116, 32];
    assert(r@ =~= bare_struct());
    r
}

/// The text `pub(all) enum `.
pub open spec fn all_enum() -> Seq<u8> {
    seq![112u8, 117, 98, 40, 97, 108, 108, 41, 32, 101, 110, 117, 109, 32]
}

fn all_enum_bytes() -> (r: Vec<u8>)
    ensures
        r@ == all_enum(),
{
    let r: Vec<u8> = vec![112u8, 117, 98, 40, 97, 108, 108, 41, 32, 101, 110, 117, 109, 32];
    assert(r@ =~= all_enum());
    r
}

/// The text `pub enum `.
pub open spec fn pub_enum() -> Seq<u8> {
    seq![112u8, 117, 98, 32, 101, 110, 117, 109, 32]
}

fn pub_enum_bytes() -> (r: Vec<u8>)
    ensures
        r@ == pub_enum(),
{
    let r: Vec<u8> = vec![112u8, 117, 98, 32, 101, 110, 117, 109, 32];
    assert(r@ =~= pub_enum());
    r
}

/// The text `priv enum `.
pub open spec fn priv_enum() -> Seq<u8> {
    seq![112u8, 114, 105, 118, 32, 101, 110, 117, 109, 32]
}

fn priv_enum_bytes() -> (r: Vec<u8>)
    ensures
        r@ == priv_enum(),
{
    let r: Vec<u8> = vec![112u8, 114, 105, 118, 32, 101, 110, 117, 109, 32];
    assert(r@ =~= priv_enum());
    r
}

/// The text `enum `.
pub open spec fn bare_enum() -> Seq<u8> {
    seq![101u8, 110, 117, 109, 32]
}

fn bare_enum_bytes() -> (r: Vec<u8>)
    ensures
        r@ == bare_enum(),
{
    let r: Vec<u8> = vec![101u8, 110, 117, 109, 32];
    assert(r@ =~= bare_enum());
    r
}

/// The text `{`.
pub open spec fn open_brace() -> Seq<u8> {
    seq![123u8]
}

fn open_brace_bytes() -> (r: Vec<u8>)
    ensures
        r@ == open_brace(),
{
    let r: Vec<u8> = vec![123u8];
    assert(r@ =~= open_brace());
    r
}

/// The text ` {`.
pub open spec fn spaced_brace() -> Seq<u8> {
    seq![32u8, 123]
}

fn spaced_brace_bytes() -> (r: Vec<u8>)
    ensures
        r@ == spaced_brace(),
{
    let r: Vec<u8> = vec![32u8, 123];
    assert(r@ =~= spaced_brace());
    r
}

/// The text `}`.
pub open spec fn close_brace() -> Seq<u8> {
    seq![125u8]
}

fn close_brace_bytes() -> (r: Vec<u8>)
    ensures
        r@ == close_brace(),
{
    let r: Vec<u8> = vec![125u8];
    assert(r@ =~= close_brace());
    r
}

/// The text ` : `.
pub open spec fn field_sep() -> Seq<u8> {
    seq![32u8, 58, 32]
}

fn field_sep_bytes() -> (r: Vec<u8>)
    ensures
        r@ == field_sep(),
{
    let r: Vec<u8> = vec![32u8, 58, 32];
    assert(r@ =~= field_sep());
    r
}

/// The text `Struct '`.
pub open spec fn struct_warn_a() -> Seq<u8> {
    seq![83u8, 116, 114, 117, 99, 116, 32, 96]
}

fn struct_warn_a_bytes() -> (r: Vec<u8>)
    ensures
        r@ == struct_warn_a(),
{
    let r: Vec<u8> = vec![83u8, 116, 114, 117, 99, 116, 32, 96];
    assert(r@ =~= struct_warn_a());
    r
}

/// The text `' is not 'pub(all)'. Use 'pub(all) struct `.
pub open spec fn struct_warn_b() -> Seq<u8> {
    seq![96u8, 32, 105, 115, 32, 110, 111, 116, 32, 96, 112, 117, 98, 40, 97, 108, 108, 41, 96, 46, 32, 85, 115, 101, 32, 96, 112, 117, 98, 40, 97, 108, 108, 41, 32, 115, 116, 114, 117, 99, 116, 32]
}

fn struct_warn_b_bytes() -> (r: Vec<u8>)
    ensures
        r@ == struct_warn_b(),
{
    let r: Vec<u8> = vec![96u8, 32, 105, 115, 32, 110, 111, 116, 32, 96, 112, 117, 98, 40, 97, 108, 108, 41, 96, 46, 32, 85, 115, 101, 32, 96, 112, 117, 98, 40, 97, 108, 108, 41, 32, 115, 116, 114, 117, 99, 116, 32];
    assert(r@ =~= struct_warn_b());
    r
}

/// The text `' to export it to WIT.`.
pub open spec fn export_warn_tail() -> Seq<u8> {
    seq![96u8, 32, 116, 111, 32, 101, 120, 112, 111, 114, 116, 32, 105, 116, 32, 116, 111, 32, 87, 73, 84, 46]
}

fn export_warn_tail_bytes() -> (r: Vec<u8>)
    ensures
        r@ == export_warn_tail(),
{
    let r: Vec<u8> = vec![96u8, 32, 116, 111, 32, 101, 120, 112, 111, 114, 116, 32, 105, 116, 32, 116, 111, 32, 87, 73, 84, 46];
    assert(r@ =~= export_warn_tail());
    r
}

/// The text `Enum '`.
pub open spec fn enum_warn_a() -> Seq<u8> {
    seq![69u8, 110, 117, 109, 32, 96]
}

fn enum_warn_a_bytes() -> (r: Vec<u8>)
    ensures
        r@ == enum_warn_a(),
{
    let r: Vec<u8> = vec![69u8, 110, 117, 109, 32, 96];
    assert(r@ =~= enum_warn_a());
    r
}

/// The text `' is not 'pub(all)'. Use 'pub(all) enum `.
pub open spec fn enum_warn_b() -> Seq<u8> {
    seq![96u8, 32, 105, 115, 32, 110, 111, 116, 32, 96, 112, 117, 98, 40, 97, 108, 108, 41, 96, 46, 32, 85, 115, 101, 32, 96, 112, 117, 98, 40, 97, 108, 108, 41, 32, 101, 110, 117, 109, 32]
}

fn enum_warn_b_bytes() -> (r: Vec<u8>)
    ensures
        r@ == enum_warn_b(),
{
    let r: Vec<u8> = vec![96u8, 32, 105, 115, 32, 110, 111, 116, 32, 96, 112, 117, 98, 40, 97, 108, 108, 41, 96, 46, 32, 85, 115, 101, 32, 96, 112, 117, 98, 40, 97, 108, 108, 41, 32, 101, 110, 117, 109, 32];
    assert(r@ =~= enum_warn_b());
    r
}

/// The text ` (struct `.
pub open spec fn loc_struct() -> Seq<u8> {
    seq![32u8, 40, 115, 116, 114, 117, 99, 116, 32]
}

fn loc_struct_bytes() -> (r: Vec<u8>)
    ensures
        r@ == loc_struct(),
{
    let r: Vec<u8> = vec![32u8, 40, 115, 116, 114, 117, 99, 116, 32];
    assert(r@ =~= loc_struct());
    r
}

/// The text ` (enum `.
pub open spec fn loc_enum() -> Seq<u8> {
    seq![32u8, 40, 101, 110, 117, 109, 32]
}

fn loc_enum_bytes() -> (r: Vec<u8>)
    ensures
        r@ == loc_enum(),
{
    let r: Vec<u8> = vec![32u8, 40, 101, 110, 117, 109, 32];
    assert(r@ =~= loc_enum());
    r
}

/// The text `.`.
pub open spec fn dot() -> Seq<u8> {
    seq![46u8]
}

fn dot_bytes() -> (r: Vec<u8>)
    ensures
        r@ == dot(),
{
    let r: Vec<u8> = vec![46u8];
    assert(r@ =~= dot());
    r
}

/// The text `)`.
pub open spec fn close_paren_loc() -> Seq<u8> {
    seq![41u8]
}

fn close_paren_loc_bytes() -> (r: Vec<u8>)
    ensures
        r@ == close_paren_loc(),
{
    let r: Vec<u8> = vec![41u8];
    assert(r@ =~= close_paren_loc());
    r
}

/// The text `:`.
pub open spec fn colon_loc() -> Seq<u8> {
    seq![58u8]
}

fn colon_loc_bytes() -> (r: Vec<u8>)
    ensures
        r@ == colon_loc(),
{
    let r: Vec<u8> = vec![58u8];
    assert(r@ =~= colon_loc());
    r
}

/// The text `  record `.
pub open spec fn record_head() -> Seq<u8> {
    seq![32u8, 32, 114, 101, 99, 111, 114, 100, 32]
}

fn record_head_bytes() -> (r: Vec<u8>)
    ensures
        r@ == record_head(),
{
    let r: Vec<u8> = vec![32u8, 32, 114, 101, 99, 111, 114, 100, 32];
    assert(r@ =~= record_head());
    r
}

/// The text ` {\n`.
pub open spec fn brace_line() -> Seq<u8> {
    seq![32u8, 123, 10]
}

fn brace_line_bytes() -> (r: Vec<u8>)
    ensures
        r@ == brace_line(),
{
    let r: Vec<u8> = vec![32u8, 123, 10];
    assert(r@ =~= brace_line());
    r
}

/// The text `    `.
pub open spec fn field_indent() -> Seq<u8> {
    seq![32u8, 32, 32, 32]
}

fn field_indent_bytes() -> (r: Vec<u8>)
    ensures
        r@ == field_indent(),
{
    let r: Vec<u8> = vec![32u8, 32, 32, 32];
    assert(r@ =~= field_indent());
    r
}

/// The text `: `.
pub open spec fn colon_sep() -> Seq<u8> {
    seq![58u8, 32]
}

fn colon_sep_bytes() -> (r: Vec<u8>)
    ensures
        r@ == colon_sep(),
{
    let r: Vec<u8> = vec![58u8, 32];
    assert(r@ =~= colon_sep());
    r
}

/// The text `,\n`.
pub open spec fn comma_line() -> Seq<u8> {
    seq![44u8, 10]
}

fn comma_line_bytes() -> (r: Vec<u8>)
    ensures
        r@ == comma_line(),
{
    let r: Vec<u8> = vec![44u8, 10];
    assert(r@ =~= comma_line());
    r
}

/// The text `  }\n\n`.
pub open spec fn block_end() -> Seq<u8> {
    seq![32u8, 32, 125, 10, 10]
}

fn block_end_bytes() -> (r: Vec<u8>)
    ensures
        r@ == block_end(),
{
    let r: Vec<u8> = vec![32u8, 32, 125, 10, 10];
    assert(r@ =~= block_end());
    r
}

/// The text `  enum `.
pub open spec fn enum_head() -> Seq<u8> {
    seq![32u8, 32, 101, 110, 117, 109, 32]
}

fn enum_head_bytes() -> (r: Vec<u8>)
    ensures
        r@ == enum_head(),
{
    let r: Vec<u8> = vec![32u8, 32, 101, 110, 117, 109, 32];
    assert(r@ =~= enum_head());
    r
}

/// The text `' has cases with payload. WIT enum must be const-only (no payload). Cases with payload: `.
pub open spec fn payload_msg_a() -> Seq<u8> {
    seq![96u8, 32, 104, 97, 115, 32, 99, 97, 115, 101, 115, 32, 119, 105, 116, 104, 32, 112, 97, 121, 108, 111, 97, 100, 46, 32, 87, 73, 84, 32, 101, 110, 117, 109, 32, 109, 117, 115, 116, 32, 98, 101, 32, 99, 111, 110, 115, 116, 45, 111, 110, 108, 121, 32, 40, 110, 111, 32, 112, 97, 121, 108, 111, 97, 100, 41, 46, 32, 67, 97, 115, 101, 115, 32, 119, 105, 116, 104, 32, 112, 97, 121, 108, 111, 97, 100, 58, 32]
}

fn payload_msg_a_bytes() -> (r: Vec<u8>)
    ensures
        r@ == payload_msg_a(),
{
    let r: Vec<u8> = vec![96u8, 32, 104, 97, 115, 32, 99, 97, 115, 101, 115, 32, 119, 105, 116, 104, 32, 112, 97, 121, 108, 111, 97, 100, 46, 32, 87, 73, 84, 32, 101, 110, 117, 109, 32, 109, 117, 115, 116, 32, 98, 101, 32, 99, 111, 110, 115, 116, 45, 111, 110, 108, 121, 32, 40, 110, 111, 32, 112, 97, 121, 108, 111, 97, 100, 41, 46, 32, 67, 97, 115, 101, 115, 32, 119, 105, 116, 104, 32, 112, 97, 121, 108, 111, 97, 100, 58, 32];
    assert(r@ =~= payload_msg_a());
    r
}

/// The text `pub(open) trait Exports {`.
pub open spec fn exports_open() -> Seq<u8> {
    seq![112u8, 117, 98, 40, 111, 112, 101, 110, 41, 32, 116, 114, 97, 105, 116, 32, 69, 120, 112, 111, 114, 116, 115, 32, 123]
}

fn exports_open_bytes() -> (r: Vec<u8>)
    ensures
        r@ == exports_open(),
{
    let r: Vec<u8> = vec![112u8, 117, 98, 40, 111, 112, 101, 110, 41, 32, 116, 114, 97, 105, 116, 32, 69, 120, 112, 111, 114, 116, 115, 32, 123];
    assert(r@ =~= exports_open());
    r
}

/// The text `Missing 'pub(open) trait Exports { ... }'. Define an Exports trait to specify the component interface.`.
pub open spec fn missing_exports_msg() -> Seq<u8> {
    seq![77u8, 105, 115, 115, 105, 110, 103, 32, 96, 112, 117, 98, 40, 111, 112, 101, 110, 41, 32, 116, 114, 97, 105, 116, 32, 69, 120, 112, 111, 114, 116, 115, 32, 123, 32, 46, 46, 46, 32, 125, 96, 46, 32, 68, 101, 102, 105, 110, 101, 32, 97, 110, 32, 69, 120, 112, 111, 114, 116, 115, 32, 116, 114, 97, 105, 116, 32, 116, 111, 32, 115, 112, 101, 99, 105, 102, 121, 32, 116, 104, 101, 32, 99, 111, 109, 112, 111, 110, 101, 110, 116, 32, 105, 110, 116, 101, 114, 102, 97, 99, 101, 46]
}

fn missing_exports_msg_bytes() -> (r: Vec<u8>)
    ensures
        r@ == missing_exports_msg(),
{
    let r: Vec<u8> = vec![77u8, 105, 115, 115, 105, 110, 103, 32, 96, 112, 117, 98, 40, 111, 112, 101, 110, 41, 32, 116, 114, 97, 105, 116, 32, 69, 120, 112, 111, 114, 116, 115, 32, 123, 32, 46, 46, 46, 32, 125, 96, 46, 32, 68, 101, 102, 105, 110, 101, 32, 97, 110, 32, 69, 120, 112, 111, 114, 116, 115, 32, 116, 114, 97, 105, 116, 32, 116, 111, 32, 115, 112, 101, 99, 105, 102, 121, 32, 116, 104, 101, 32, 99, 111, 109, 112, 111, 110, 101, 110, 116, 32, 105, 110, 116, 101, 114, 102, 97, 99, 101, 46];
    assert(r@ =~= missing_exports_msg());
    r
}

/// The text `Exports trait has no methods. Add methods to define the component interface.`.
pub open spec fn no_methods_msg() -> Seq<u8> {
    seq![69u8, 120, 112, 111, 114, 116, 115, 32, 116, 114, 97, 105, 116, 32, 104, 97, 115, 32, 110, 111, 32, 109, 101, 116, 104, 111, 100, 115, 46, 32, 65, 100, 100, 32, 109, 101, 116, 104, 111, 100, 115, 32, 116, 111, 32, 100, 101, 102, 105, 110, 101, 32, 116, 104, 101, 32, 99, 111, 109, 112, 111, 110, 101, 110, 116, 32, 105, 110, 116, 101, 114, 102, 97, 99, 101, 46]
}

fn no_methods_msg_bytes() -> (r: Vec<u8>)
    ensures
        r@ == no_methods_msg(),
{
    let r: Vec<u8> = vec![69u8, 120, 112, 111, 114, 116, 115, 32, 116, 114, 97, 105, 116, 32, 104, 97, 115, 32, 110, 111, 32, 109, 101, 116, 104, 111, 100, 115, 46, 32, 65, 100, 100, 32, 109, 101, 116, 104, 111, 100, 115, 32, 116, 111, 32, 100, 101, 102, 105, 110, 101, 32, 116, 104, 101, 32, 99, 111, 109, 112, 111, 110, 101, 110, 116, 32, 105, 110, 116, 101, 114, 102, 97, 99, 101, 46];
    assert(r@ =~= no_methods_msg());
    r
}

/// The text `  `.
pub open spec fn method_indent() -> Seq<u8> {
    seq![32u8, 32]
}

fn method_indent_bytes() -> (r: Vec<u8>)
    ensures
        r@ == method_indent(),
{
    let r: Vec<u8> = vec![32u8, 32];
    assert(r@ =~= method_indent());
    r
}

/// The text `;\n`.
pub open spec fn method_end() -> Seq<u8> {
    seq![59u8, 10]
}

fn method_end_bytes() -> (r: Vec<u8>)
    ensures
        r@ == method_end(),
{
    let r: Vec<u8> = vec![59u8, 10];
    assert(r@ =~= method_end());
    r
}

/// The text `package `.
pub open spec fn package_head() -> Seq<u8> {
    seq![112u8, 97, 99, 107, 97, 103, 101, 32]
}

fn package_head_bytes() -> (r: Vec<u8>)
    ensures
        r@ == package_head(),
{
    let r: Vec<u8> = vec![112u8, 97, 99, 107, 97, 103, 101, 32];
    assert(r@ =~= package_head());
    r
}

/// The text `;\n\n`.
pub open spec fn package_tail() -> Seq<u8> {
    seq![59u8, 10, 10]
}

fn package_tail_bytes() -> (r: Vec<u8>)
    ensures
        r@ == package_tail(),
{
    let r: Vec<u8> = vec![59u8, 10, 10];
    assert(r@ =~= package_tail());
    r
}

/// The text `interface `.
pub open spec fn interface_head() -> Seq<u8> {
    seq![105u8, 110, 116, 101, 114, 102, 97, 99, 101, 32]
}

fn interface_head_bytes() -> (r: Vec<u8>)
    ensures
        r@ == interface_head(),
{
    let r: Vec<u8> = vec![105u8, 110, 116, 101, 114, 102, 97, 99, 101, 32];
    assert(r@ =~= interface_head());
    r
}

/// The text `}\n\n`.
pub open spec fn interface_end() -> Seq<u8> {
    seq![125u8, 10, 10]
}

fn interface_end_bytes() -> (r: Vec<u8>)
    ensures
        r@ == interface_end(),
{
    let r: Vec<u8> = vec![125u8, 10, 10];
    assert(r@ =~= interface_end());
    r
}

/// The text `world `.
pub open spec fn world_head() -> Seq<u8> {
    seq![119u8, 111, 114, 108, 100, 32]
}

fn world_head_bytes() -> (r: Vec<u8>)
    ensures
        r@ == world_head(),
{
    let r: Vec<u8> = vec![119u8, 111, 114, 108, 100, 32];
    assert(r@ =~= world_head());
    r
}

/// The text `  export `.
pub open spec fn export_head() -> Seq<u8> {
    seq![32u8, 32, 101, 120, 112, 111, 114, 116, 32]
}

fn export_head_bytes() -> (r: Vec<u8>)
    ensures
        r@ == export_head(),
{
    let r: Vec<u8> = vec![32u8, 32, 101, 120, 112, 111, 114, 116, 32];
    assert(r@ =~= export_head());
    r
}

/// The text `}\n`.
pub open spec fn world_end() -> Seq<u8> {
    seq![125u8, 10]
}

fn world_end_bytes() -> (r: Vec<u8>)
    ensures
        r@ == world_end(),
{
    let r: Vec<u8> = vec![125u8, 10];
    assert(r@ =~= world_end());
    r
}

/// The text `component`.
pub open spec fn default_pkg() -> Seq<u8> {
    seq![99u8, 111, 109, 112, 111, 110, 101, 110, 116]
}

fn default_pkg_bytes() -> (r: Vec<u8>)
    ensures
        r@ == default_pkg(),
{
    let r: Vec<u8> = vec![99u8, 111, 109, 112, 111, 110, 101, 110, 116];
    assert(r@ =~= default_pkg());
    r
}

/// A problem found in a listing: where, and what.
pub struct Diagnostic {
    pub location: Vec<u8>,
    pub message: Vec<u8>,
}

/// The views of a list of diagnostics.
pub open spec fn diag_views(v: Seq<Diagnostic>) -> Seq<(Seq<u8>, Seq<u8>)> {
    v.map_values(|d: Diagnostic| (d.location@, d.message@))
}

/// The views of a list of struct fields.
pub open spec fn field_views(v: Seq<(Vec<u8>, Vec<u8>)>) -> Seq<(Seq<u8>, Seq<u8>)> {
    v.map_values(|f: (Vec<u8>, Vec<u8>)| (f.0@, f.1@))
}

/// `t` ends with `suffix`.
pub open spec fn ends_with(t: Seq<u8>, suffix: Seq<u8>) -> bool {
    t.len() >= suffix.len() && t.skip(t.len() - suffix.len()) == suffix
}

fn ends_with_exec(t: &[u8], suffix: &[u8]) -> (r: bool)
    ensures
        r == ends_with(t@, suffix@),
{
    if t.len() < suffix.len() {
        return false;
    }
    let tail = copy_range(t, t.len() - suffix.len(), t.len());
    assert(tail@ =~= t@.skip(t@.len() - suffix@.len()));
    bytes_equal(tail.as_slice(), suffix)
}

/// The location of a line: `path:n`.
pub open spec fn line_loc(path: Seq<u8>, n: nat) -> Seq<u8> {
    path + colon_loc() + decimal(n)
}

fn line_loc_exec(path: &[u8], n: usize) -> (r: Vec<u8>)
    ensures
        r@ == line_loc(path@, n as nat),
{
    let mut out = copy_range(path, 0, path.len());
    append_bytes(&mut out, colon_loc_bytes().as_slice());
    append_bytes(&mut out, decimal_bytes(n).as_slice());
    assert(path@.subrange(0, path@.len() as int) =~= path@);
    out
}

/// What the first pass has gathered: whether it is inside a struct or an
/// enum, the type being read, its fields or cases, the names of the types
/// defined so far, the WIT written so far, the problems found, and whether
/// the listing holds a line that cannot be read (a header without ` {`, or
/// a type with an unclosed bracket where WIT is written for it).
pub struct TypeScan {
    pub in_struct: bool,
    pub in_enum: bool,
    pub current: Seq<u8>,
    pub fields: Seq<(Seq<u8>, Seq<u8>)>,
    pub cases: Seq<Seq<u8>>,
    pub defined: Seq<Seq<u8>>,
    pub types_wit: Seq<u8>,
    pub errors: Seq<(Seq<u8>, Seq<u8>)>,
    pub warnings: Seq<(Seq<u8>, Seq<u8>)>,
    pub stuck: bool,
}

/// The errors about struct fields whose types WIT cannot express.
pub open spec fn field_errors(
    fields: Seq<(Seq<u8>, Seq<u8>)>,
    defined: Seq<Seq<u8>>,
    loc: Seq<u8>,
) -> Seq<(Seq<u8>, Seq<u8>)>
    decreases fields.len(),
{
    if fields.len() == 0 {
        Seq::empty()
    } else {
        let prev = field_errors(fields.drop_last(), defined, loc);
        match wit_problem(fields.last().1, defined) {
            Some(e) => prev.push((loc + fields.last().0 + close_paren_loc(), e)),
            None => prev,
        }
    }
}

/// The field lines of a record.
pub open spec fn record_fields(fields: Seq<(Seq<u8>, Seq<u8>)>) -> Seq<u8>
    decreases fields.len(),
{
    if fields.len() == 0 {
        Seq::empty()
    } else {
        record_fields(fields.drop_last()) + field_indent() + kebab(fields.last().0) + colon_sep() + wit_of(
            fields.last().1,
        ) + comma_line()
    }
}

/// Every field's type has closed brackets.
pub open spec fn fields_convertible(fields: Seq<(Seq<u8>, Seq<u8>)>) -> bool {
    forall|k: int| 0 <= k < fields.len() ==> wit_convertible(#[trigger] fields[k].1)
}

/// The cases of an enum that carry a payload.
pub open spec fn payload_cases(cases: Seq<Seq<u8>>) -> Seq<Seq<u8>>
    decreases cases.len(),
{
    if cases.len() == 0 {
        Seq::empty()
    } else if occurs_in(cases.last(), open_paren()) {
        payload_cases(cases.drop_last()).push(cases.last())
    } else {
        payload_cases(cases.drop_last())
    }
}

/// The case lines of a WIT enum: the cases without payload.
pub open spec fn enum_lines(cases: Seq<Seq<u8>>) -> Seq<u8>
    decreases cases.len(),
{
    if cases.len() == 0 {
        Seq::empty()
    } else if occurs_in(cases.last(), open_paren()) {
        enum_lines(cases.drop_last())
    } else {
        enum_lines(cases.drop_last()) + field_indent() + cases.last() + comma_line()
    }
}

/// The errors about the payload types of an enum case.
pub open spec fn payload_errors(types: Seq<Seq<u8>>, defined: Seq<Seq<u8>>, loc: Seq<u8>) -> Seq<
    (Seq<u8>, Seq<u8>),
>
    decreases types.len(),
{
    if types.len() == 0 {
        Seq::empty()
    } else {
        let prev = payload_errors(types.drop_last(), defined, loc);
        match wit_problem(trimmed(types.last()), defined) {
            Some(e) => prev.push((loc, e)),
            None => prev,
        }
    }
}

/// The name in a header that is not `pub(all)`: the text after its
/// keyword, without a final ` {`.
pub open spec fn loose_name(t: Seq<u8>, a: Seq<u8>, b: Seq<u8>, c: Seq<u8>) -> Seq<u8> {
    let rest = if begins_with(t, a) {
        t.skip(a.len() as int)
    } else if begins_with(t, b) {
        t.skip(b.len() as int)
    } else if begins_with(t, c) {
        t.skip(c.len() as int)
    } else {
        t
    };
    if ends_with(rest, spaced_brace()) {
        rest.take(rest.len() - 2)
    } else {
        rest
    }
}

/// A struct or enum header that is not `pub(all)`.
pub open spec fn loose_header(t: Seq<u8>, all: Seq<u8>, a: Seq<u8>, b: Seq<u8>, c: Seq<u8>) -> bool {
    (begins_with(t, a) || begins_with(t, b) || (begins_with(t, c) && !begins_with(t, all))) && ends_with(
        t,
        open_brace(),
    )
}

/// The warning about a struct that is not `pub(all)`, if `t` is its header.
pub open spec fn struct_warnings(w: Seq<(Seq<u8>, Seq<u8>)>, t: Seq<u8>, loc: Seq<u8>) -> Seq<(Seq<u8>, Seq<u8>)> {
    if loose_header(t, all_struct(), pub_struct(), priv_struct(), bare_struct()) {
        let np = loose_name(t, pub_struct(), priv_struct(), bare_struct());
        w.push((loc, struct_warn_a() + np + struct_warn_b() + np + export_warn_tail()))
    } else {
        w
    }
}

/// The warning about an enum that is not `pub(all)`, if `t` is its header.
pub open spec fn enum_warnings(w: Seq<(Seq<u8>, Seq<u8>)>, t: Seq<u8>, loc: Seq<u8>) -> Seq<(Seq<u8>, Seq<u8>)> {
    if loose_header(t, all_enum(), pub_enum(), priv_enum(), bare_enum()) {
        let np = loose_name(t, pub_enum(), priv_enum(), bare_enum());
        w.push((loc, enum_warn_a() + np + enum_warn_b() + np + export_warn_tail()))
    } else {
        w
    }
}

/// A `pub(all)` header: `keyword Name {`.
pub open spec fn all_header(t: Seq<u8>, kw: Seq<u8>) -> bool {
    begins_with(t, kw) && ends_with(t, open_brace())
}

/// The name in a `pub(all)` header, where it ends in ` {`.
pub open spec fn header_name(t: Seq<u8>, kw: Seq<u8>) -> Option<Seq<u8>> {
    if ends_with(t.skip(kw.len() as int), spaced_brace()) {
        Some(t.subrange(kw.len() as int, t.len() - 2))
    } else {
        None
    }
}

/// The first pass over line `n` (counted from 1) of a listing at `path`.
pub open spec fn type_step(st: TypeScan, line: Seq<u8>, n: nat, path: Seq<u8>) -> TypeScan {
    let t = trimmed(line);
    let loc = line_loc(path, n);
    if st.stuck {
        st
    } else if all_header(t, all_struct()) {
        match header_name(t, all_struct()) {
            Some(name) => TypeScan {
                current: name,
                defined: st.defined.push(name),
                in_struct: true,
                fields: Seq::empty(),
                ..st
            },
            None => TypeScan { stuck: true, ..st },
        }
    } else {
        let st = TypeScan { warnings: struct_warnings(st.warnings, t, loc), ..st };
        if st.in_struct {
            if t == close_brace() {
                if !fields_convertible(st.fields) {
                    TypeScan { stuck: true, ..st }
                } else {
                    let floc = loc + loc_struct() + st.current + dot();
                    TypeScan {
                        errors: st.errors + field_errors(st.fields, st.defined, floc),
                        types_wit: st.types_wit + record_head() + kebab(st.current) + brace_line()
                            + record_fields(st.fields) + block_end(),
                        in_struct: false,
                        ..st
                    }
                }
            } else if occurs_in(t, field_sep()) && split_on(t, field_sep()).len() == 2 {
                let parts = split_on(t, field_sep());
                TypeScan { fields: st.fields.push((trimmed(parts[0]), trimmed(parts[1]))), ..st }
            } else {
                st
            }
        } else if all_header(t, all_enum()) {
            match header_name(t, all_enum()) {
                Some(name) => TypeScan {
                    current: name,
                    defined: st.defined.push(name),
                    in_enum: true,
                    cases: Seq::empty(),
                    ..st
                },
                None => TypeScan { stuck: true, ..st },
            }
        } else {
            let st = TypeScan { warnings: enum_warnings(st.warnings, t, loc), ..st };
            if st.in_enum {
                if t == close_brace() {
                    let pc = payload_cases(st.cases);
                    let errors = if pc.len() > 0 {
                        st.errors.push(
                            (loc, enum_warn_a() + st.current + payload_msg_a() + joined(pc, comma_space())),
                        )
                    } else {
                        st.errors
                    };
                    TypeScan {
                        errors,
                        types_wit: st.types_wit + enum_head() + kebab(st.current) + brace_line()
                            + enum_lines(st.cases) + block_end(),
                        in_enum: false,
                        ..st
                    }
                } else if t.len() > 0 {
                    if !enum_case_convertible(t) {
                        TypeScan { stuck: true, ..st }
                    } else {
                        let errors = match find_first(t, open_paren()) {
                            Some(p) => st.errors + payload_errors(
                                split_on(strip_close_parens(t.skip(p + 1)), comma_space()),
                                st.defined,
                                loc + loc_enum() + st.current + dot() + t + close_paren_loc(),
                            ),
                            None => st.errors,
                        };
                        TypeScan { errors, cases: st.cases.push(enum_case_wit(t)), ..st }
                    }
                } else {
                    st
                }
            } else {
                st
            }
        }
    }
}

/// The first pass over the first `k` lines.
pub open spec fn type_scan(lines: Seq<Seq<u8>>, path: Seq<u8>, k: int) -> TypeScan
    decreases k,
{
    if k <= 0 || k > lines.len() {
        TypeScan {
            in_struct: false,
            in_enum: false,
            current: Seq::empty(),
            fields: Seq::empty(),
            cases: Seq::empty(),
            defined: Seq::empty(),
            types_wit: Seq::empty(),
            errors: Seq::empty(),
            warnings: Seq::empty(),
            stuck: false,
        }
    } else {
        type_step(type_scan(lines, path, k - 1), lines[k - 1], k as nat, path)
    }
}

/// What the second pass has gathered: whether it is inside the `Exports`
/// trait or past it, the number of methods, their WIT, the problems found,
/// and whether a method line cannot be read (a `)` before the `(`, or a type
/// with an unclosed bracket).
pub struct TraitScan {
    pub in_trait: bool,
    pub done: bool,
    pub count: nat,
    pub methods_wit: Seq<u8>,
    pub errors: Seq<(Seq<u8>, Seq<u8>)>,
    pub stuck: bool,
}

/// The second pass over line `n` (counted from 1).
pub open spec fn trait_step(st: TraitScan, line: Seq<u8>, n: nat, path: Seq<u8>, defined: Seq<Seq<u8>>) -> TraitScan {
    let t = trimmed(line);
    if st.stuck || st.done {
        st
    } else if begins_with(t, exports_open()) {
        TraitScan { in_trait: true, ..st }
    } else if st.in_trait {
        if t == close_brace() {
            TraitScan { done: true, ..st }
        } else if t.len() > 0 && occurs_in(t, self_open()) {
            if !trait_method_convertible(t) {
                TraitScan { stuck: true, ..st }
            } else {
                TraitScan {
                    count: st.count + 1,
                    errors: match trait_method_problem(t, defined) {
                        Some(e) => st.errors.push((line_loc(path, n), e)),
                        None => st.errors,
                    },
                    methods_wit: match trait_method_wit(t) {
                        Some(m) => st.methods_wit + method_indent() + m + method_end(),
                        None => st.methods_wit,
                    },
                    ..st
                }
            }
        } else {
            st
        }
    } else {
        st
    }
}

/// The second pass over the first `k` lines.
pub open spec fn trait_scan(lines: Seq<Seq<u8>>, path: Seq<u8>, defined: Seq<Seq<u8>>, k: int) -> TraitScan
    decreases k,
{
    if k <= 0 || k > lines.len() {
        TraitScan {
            in_trait: false,
            done: false,
            count: 0,
            methods_wit: Seq::empty(),
            errors: Seq::empty(),
            stuck: false,
        }
    } else {
        trait_step(trait_scan(lines, path, defined, k - 1), lines[k - 1], k as nat, path, defined)
    }
}

/// The lines of a listing.
pub open spec fn listing_lines(content: Seq<u8>) -> Seq<Seq<u8>> {
    split_parts(content, 10)
}

/// The first pass over a whole listing.
pub open spec fn types_of(content: Seq<u8>, path: Seq<u8>) -> TypeScan {
    type_scan(listing_lines(content), path, listing_lines(content).len() as int)
}

/// The second pass over a whole listing.
pub open spec fn traits_of(content: Seq<u8>, path: Seq<u8>) -> TraitScan {
    let lines = listing_lines(content);
    trait_scan(lines, path, types_of(content, path).defined, lines.len() as int)
}

/// A listing that both passes can read.
pub open spec fn mbti_readable(content: Seq<u8>, path: Seq<u8>) -> bool {
    !types_of(content, path).stuck && !traits_of(content, path).stuck
}

/// The errors of a listing: a missing `Exports` trait, then those of the
/// types, then those of the methods.
pub open spec fn mbti_errors(content: Seq<u8>, path: Seq<u8>) -> Seq<(Seq<u8>, Seq<u8>)> {
    let missing: Seq<(Seq<u8>, Seq<u8>)> = if occurs_in(content, exports_open()) {
        Seq::empty()
    } else {
        seq![(path, missing_exports_msg())]
    };
    missing + types_of(content, path).errors + traits_of(content, path).errors
}

/// The warnings of a listing: those of the types, then an `Exports` trait
/// without methods.
pub open spec fn mbti_warnings(content: Seq<u8>, path: Seq<u8>) -> Seq<(Seq<u8>, Seq<u8>)> {
    let w = types_of(content, path).warnings;
    if occurs_in(content, exports_open()) && traits_of(content, path).count == 0 {
        w.push((path, no_methods_msg()))
    } else {
        w
    }
}

/// The WIT document of a listing: a package, an interface with the types
/// and methods, and a world that exports it.
pub open spec fn mbti_wit(
    content: Seq<u8>,
    path: Seq<u8>,
    namespace: Seq<u8>,
    pkg: Seq<u8>,
    world: Seq<u8>,
    interface: Seq<u8>,
) -> Seq<u8> {
    package_head() + namespace + colon_loc() + pkg + package_tail() + interface_head() + interface + brace_line()
        + types_of(content, path).types_wit + traits_of(content, path).methods_wit + interface_end() + world_head()
        + world + brace_line() + export_head() + interface + method_end() + world_end()
}

/// What reading a listing gives: its problems, the number of types and
/// methods found, and the WIT document.
pub struct MbtiReport {
    pub errors: Vec<Diagnostic>,
    pub warnings: Vec<Diagnostic>,
    pub type_count: usize,
    pub method_count: usize,
    pub wit: Vec<u8>,
}

struct TypeScanner {
    in_struct: bool,
    in_enum: bool,
    current: Vec<u8>,
    fields: Vec<(Vec<u8>, Vec<u8>)>,
    cases: Vec<Vec<u8>>,
    defined: Vec<Vec<u8>>,
    types_wit: Vec<u8>,
    errors: Vec<Diagnostic>,
    warnings: Vec<Diagnostic>,
}

impl TypeScanner {
    spec fn view(&self) -> TypeScan {
        TypeScan {
            in_struct: self.in_struct,
            in_enum: self.in_enum,
            current: self.current@,
            fields: field_views(self.fields@),
            cases: views(self.cases@),
            defined: views(self.defined@),
            types_wit: self.types_wit@,
            errors: diag_views(self.errors@),
            warnings: diag_views(self.warnings@),
            stuck: false,
        }
    }
}

fn copy_vec(v: &[u8]) -> (r: Vec<u8>)
    ensures
        r@ == v@,
{
    let r = copy_range(v, 0, v.len());
    assert(r@ =~= v@);
    r
}

fn push_diag(list: &mut Vec<Diagnostic>, location: Vec<u8>, message: Vec<u8>)
    ensures
        diag_views(final(list)@) == diag_views(old(list)@).push((location@, message@)),
{
    let ghost before = diag_views(list@);
    let ghost l = location@;
    let ghost m = message@;
    list.push(Diagnostic { location, message });
    assert(diag_views(list@) =~= before.push((l, m)));
}

fn loose_name_exec(t: &[u8], a: &[u8], b: &[u8], c: &[u8]) -> (r: Vec<u8>)
    ensures
        r@ == loose_name(t@, a@, b@, c@),
{
    let rest = if matches_at(t, a, 0) {
        copy_range(t, a.len(), t.len())
    } else if matches_at(t, b, 0) {
        copy_range(t, b.len(), t.len())
    } else if matches_at(t, c, 0) {
        copy_range(t, c.len(), t.len())
    } else {
        copy_vec(t)
    };
    assert(begins_with(t@, a@) ==> rest@ =~= t@.skip(a@.len() as int));
    assert(!begins_with(t@, a@) && begins_with(t@, b@) ==> rest@ =~= t@.skip(b@.len() as int));
    assert(!begins_with(t@, a@) && !begins_with(t@, b@) && begins_with(t@, c@) ==> rest@ =~= t@.skip(c@.len() as int));
    if ends_with_exec(rest.as_slice(), spaced_brace_bytes().as_slice()) {
        let r = copy_range(rest.as_slice(), 0, rest.len() - 2);
        assert(r@ =~= rest@.take(rest@.len() - 2));
        r
    } else {
        rest
    }
}

fn record_fields_exec(fields: &Vec<(Vec<u8>, Vec<u8>)>) -> (r: Vec<u8>)
    requires
        fields_convertible(field_views(fields@)),
    ensures
        r@ == record_fields(field_views(fields@)),
{
    let ghost fs = field_views(fields@);
    let mut out: Vec<u8> = Vec::new();
    let mut k: usize = 0;
    while k < fields.len()
        invariant
            k <= fields.len(),
            fs == field_views(fields@),
            fields_convertible(fs),
            out@ == record_fields(fs.take(k as int)),
        decreases fields.len() - k,
    {
        assert(fs.take(k + 1).drop_last() =~= fs.take(k as int));
        assert(wit_convertible(fs[k as int].1));
        append_bytes(&mut out, field_indent_bytes().as_slice());
        append_bytes(&mut out, to_kebab_case(fields[k].0.as_slice()).as_slice());
        append_bytes(&mut out, colon_sep_bytes().as_slice());
        append_bytes(&mut out, moonbit_type_to_wit(fields[k].1.as_slice()).as_slice());
        append_bytes(&mut out, comma_line_bytes().as_slice());
        k = k + 1;
    }
    assert(fs.take(k as int) =~= fs);
    out
}

fn field_errors_exec(
    errors: &mut Vec<Diagnostic>,
    fields: &Vec<(Vec<u8>, Vec<u8>)>,
    defined: &Vec<Vec<u8>>,
    loc: &[u8],
)
    ensures
        diag_views(final(errors)@) == diag_views(old(errors)@) + field_errors(field_views(fields@), views(defined@), loc@),
{
    let ghost fs = field_views(fields@);
    let ghost base = diag_views(errors@);
    let mut k: usize = 0;
    assert(fs.take(0) =~= Seq::<(Seq<u8>, Seq<u8>)>::empty());
    assert(diag_views(errors@) =~= base + field_errors(fs.take(0), views(defined@), loc@));
    while k < fields.len()
        invariant
            k <= fields.len(),
            fs == field_views(fields@),
            diag_views(errors@) == base + field_errors(fs.take(k as int), views(defined@), loc@),
        decreases fields.len() - k,
    {
        assert(fs.take(k + 1).drop_last() =~= fs.take(k as int));
        match validate_wit_type(fields[k].1.as_slice(), defined) {
            Some(e) => {
                let mut l = copy_vec(loc);
                append_bytes(&mut l, fields[k].0.as_slice());
                append_bytes(&mut l, close_paren_loc_bytes().as_slice());
                let ghost prev = field_errors(fs.take(k as int), views(defined@), loc@);
                push_diag(errors, l, e);
                assert(base + prev.push((loc@ + fs[k as int].0 + close_paren_loc(), e@)) =~= diag_views(errors@));
            },
            None => {},
        }
        k = k + 1;
    }
    assert(fs.take(k as int) =~= fs);
}

fn payload_cases_exec(cases: &Vec<Vec<u8>>) -> (r: Vec<Vec<u8>>)
    ensures
        views(r@) == payload_cases(views(cases@)),
{
    let ghost cs = views(cases@);
    let mut out: Vec<Vec<u8>> = Vec::new();
    let mut k: usize = 0;
    while k < cases.len()
        invariant
            k <= cases.len(),
            cs == views(cases@),
            views(out@) == payload_cases(cs.take(k as int)),
        decreases cases.len() - k,
    {
        assert(cs.take(k + 1).drop_last() =~= cs.take(k as int));
        if contains_bytes(cases[k].as_slice(), open_paren_bytes().as_slice()) {
            let ghost before = views(out@);
            out.push(copy_vec(cases[k].as_slice()));
            assert(views(out@) =~= before.push(cs[k as int]));
        }
        k = k + 1;
    }
    assert(cs.take(k as int) =~= cs);
    out
}

fn enum_lines_exec(cases: &Vec<Vec<u8>>) -> (r: Vec<u8>)
    ensures
        r@ == enum_lines(views(cases@)),
{
    let ghost cs = views(cases@);
    let mut out: Vec<u8> = Vec::new();
    let mut k: usize = 0;
    while k < cases.len()
        invariant
            k <= cases.len(),
            cs == views(cases@),
            out@ == enum_lines(cs.take(k as int)),
        decreases cases.len() - k,
    {
        assert(cs.take(k + 1).drop_last() =~= cs.take(k as int));
        if !contains_bytes(cases[k].as_slice(), open_paren_bytes().as_slice()) {
            append_bytes(&mut out, field_indent_bytes().as_slice());
            append_bytes(&mut out, cases[k].as_slice());
            append_bytes(&mut out, comma_line_bytes().as_slice());
        }
        k = k + 1;
    }
    assert(cs.take(k as int) =~= cs);
    out
}

fn payload_errors_exec(errors: &mut Vec<Diagnostic>, types: &Vec<Vec<u8>>, defined: &Vec<Vec<u8>>, loc: &[u8])
    ensures
        diag_views(final(errors)@) == diag_views(old(errors)@) + payload_errors(views(types@), views(defined@), loc@),
{
    let ghost ts = views(types@);
    let ghost base = diag_views(errors@);
    let mut k: usize = 0;
    assert(ts.take(0) =~= Seq::<Seq<u8>>::empty());
    assert(diag_views(errors@) =~= base + payload_errors(ts.take(0), views(defined@), loc@));
    while k < types.len()
        invariant
            k <= types.len(),
            ts == views(types@),
            diag_views(errors@) == base + payload_errors(ts.take(k as int), views(defined@), loc@),
        decreases types.len() - k,
    {
        assert(ts.take(k + 1).drop_last() =~= ts.take(k as int));
        let q = trim_bytes(types[k].as_slice());
        match validate_wit_type(q.as_slice(), defined) {
            Some(e) => {
                let ghost prev = payload_errors(ts.take(k as int), views(defined@), loc@);
                push_diag(errors, copy_vec(loc), e);
                assert(base + prev.push((loc@, e@)) =~= diag_views(errors@));
            },
            None => {},
        }
        k = k + 1;
    }
    assert(ts.take(k as int) =~= ts);
}

impl TypeScanner {
    fn new() -> (r: Self)
        ensures
            r.view() == type_scan(Seq::empty(), Seq::empty(), 0),
    {
        let r = TypeScanner {
            in_struct: false,
            in_enum: false,
            current: Vec::new(),
            fields: Vec::new(),
            cases: Vec::new(),
            defined: Vec::new(),
            types_wit: Vec::new(),
            errors: Vec::new(),
            warnings: Vec::new(),
        };
        assert(r.view().fields =~= Seq::<(Seq<u8>, Seq<u8>)>::empty());
        assert(r.view().cases =~= Seq::<Seq<u8>>::empty());
        assert(r.view().defined =~= Seq::<Seq<u8>>::empty());
        assert(r.view().errors =~= Seq::<(Seq<u8>, Seq<u8>)>::empty());
        assert(r.view().warnings =~= Seq::<(Seq<u8>, Seq<u8>)>::empty());
        assert(r.view().current =~= Seq::<u8>::empty());
        assert(r.view().types_wit =~= Seq::<u8>::empty());
        r
    }

    /// Starts a `pub(all)` type whose header is `t`, with keyword `kw`.
    fn start_type(&mut self, t: &[u8], kw_len: usize)
        requires
            kw_len + 2 <= t.len(),
        ensures
            final(self).current@ == t@.subrange(kw_len as int, t@.len() - 2),
            views(final(self).defined@) == views(old(self).defined@).push(t@.subrange(kw_len as int, t@.len() - 2)),
            final(self).in_struct == old(self).in_struct,
            final(self).in_enum == old(self).in_enum,
            final(self).fields == old(self).fields,
            final(self).cases == old(self).cases,
            final(self).types_wit == old(self).types_wit,
            final(self).errors == old(self).errors,
            final(self).warnings == old(self).warnings,
    {
        let name = copy_range(t, kw_len, t.len() - 2);
        let ghost before = views(self.defined@);
        self.current = copy_vec(name.as_slice());
        self.defined.push(name);
        assert(views(self.defined@) =~= before.push(t@.subrange(kw_len as int, t@.len() - 2)));
    }

    /// Reads line `n` in the first pass.
    fn type_line(&mut self, line: &[u8], n: usize, path: &[u8])
        requires
            !type_step(old(self).view(), line@, n as nat, path@).stuck,
        ensures
            final(self).view() == type_step(old(self).view(), line@, n as nat, path@),
    {
        let ghost st0 = self.view();
        let t = trim_bytes(line);
        let ts = t.as_slice();
        let loc = line_loc_exec(path, n);
        if matches_at(ts, all_struct_bytes().as_slice(), 0) && ends_with_exec(ts, open_brace_bytes().as_slice()) {
            assert(t@.skip(16) =~= t@.skip(all_struct().len() as int));
            assert(ends_with(t@.skip(16), spaced_brace()));
            self.start_type(ts, 16);
            self.in_struct = true;
            self.fields = Vec::new();
            assert(field_views(self.fields@) =~= Seq::<(Seq<u8>, Seq<u8>)>::empty());
            assert(self.view() =~= type_step(st0, line@, n as nat, path@));
            return;
        }
        if loose_header_exec(ts, all_struct_bytes().as_slice(), pub_struct_bytes().as_slice(), priv_struct_bytes().as_slice(), bare_struct_bytes().as_slice()) {
            let np = loose_name_exec(ts, pub_struct_bytes().as_slice(), priv_struct_bytes().as_slice(), bare_struct_bytes().as_slice());
            let mut m = struct_warn_a_bytes();
            append_bytes(&mut m, np.as_slice());
            append_bytes(&mut m, struct_warn_b_bytes().as_slice());
            append_bytes(&mut m, np.as_slice());
            append_bytes(&mut m, export_warn_tail_bytes().as_slice());
            push_diag(&mut self.warnings, copy_vec(loc.as_slice()), m);
        }
        let ghost st1 = TypeScan { warnings: struct_warnings(st0.warnings, t@, loc@), ..st0 };
        assert(self.view() == st1);
        if self.in_struct {
            if bytes_equal(ts, close_brace_bytes().as_slice()) {
                let mut floc = copy_vec(loc.as_slice());
                append_bytes(&mut floc, loc_struct_bytes().as_slice());
                append_bytes(&mut floc, self.current.as_slice());
                append_bytes(&mut floc, dot_bytes().as_slice());
                field_errors_exec(&mut self.errors, &self.fields, &self.defined, floc.as_slice());
                let body = record_fields_exec(&self.fields);
                append_bytes(&mut self.types_wit, record_head_bytes().as_slice());
                append_bytes(&mut self.types_wit, to_kebab_case(self.current.as_slice()).as_slice());
                append_bytes(&mut self.types_wit, brace_line_bytes().as_slice());
                append_bytes(&mut self.types_wit, body.as_slice());
                append_bytes(&mut self.types_wit, block_end_bytes().as_slice());
                self.in_struct = false;
                assert(self.view() =~= type_step(st0, line@, n as nat, path@));
            } else if contains_bytes(ts, field_sep_bytes().as_slice()) {
                let parts = split_bytes_on(ts, field_sep_bytes().as_slice());
                if parts.len() == 2 {
                    assert(views(parts@)[0] == parts@[0]@);
                    assert(views(parts@)[1] == parts@[1]@);
                    let a = trim_bytes(parts[0].as_slice());
                    let b = trim_bytes(parts[1].as_slice());
                    let ghost before = field_views(self.fields@);
                    let ghost entry = (a@, b@);
                    self.fields.push((a, b));
                    assert(field_views(self.fields@) =~= before.push(entry));
                }
                assert(self.view() =~= type_step(st0, line@, n as nat, path@));
            }
            return;
        }
        if matches_at(ts, all_enum_bytes().as_slice(), 0) && ends_with_exec(ts, open_brace_bytes().as_slice()) {
            assert(t@.skip(14) =~= t@.skip(all_enum().len() as int));
            assert(ends_with(t@.skip(14), spaced_brace()));
            self.start_type(ts, 14);
            self.in_enum = true;
            self.cases = Vec::new();
            assert(views(self.cases@) =~= Seq::<Seq<u8>>::empty());
            assert(self.view() =~= type_step(st0, line@, n as nat, path@));
            return;
        }
        if loose_header_exec(ts, all_enum_bytes().as_slice(), pub_enum_bytes().as_slice(), priv_enum_bytes().as_slice(), bare_enum_bytes().as_slice()) {
            let np = loose_name_exec(ts, pub_enum_bytes().as_slice(), priv_enum_bytes().as_slice(), bare_enum_bytes().as_slice());
            let mut m = enum_warn_a_bytes();
            append_bytes(&mut m, np.as_slice());
            append_bytes(&mut m, enum_warn_b_bytes().as_slice());
            append_bytes(&mut m, np.as_slice());
            append_bytes(&mut m, export_warn_tail_bytes().as_slice());
            push_diag(&mut self.warnings, copy_vec(loc.as_slice()), m);
        }
        let ghost st2 = TypeScan { warnings: enum_warnings(st1.warnings, t@, loc@), ..st1 };
        assert(self.view() == st2);
        if self.in_enum {
            if bytes_equal(ts, close_brace_bytes().as_slice()) {
                let pc = payload_cases_exec(&self.cases);
                if pc.len() > 0 {
                    let mut m = enum_warn_a_bytes();
                    append_bytes(&mut m, self.current.as_slice());
                    append_bytes(&mut m, payload_msg_a_bytes().as_slice());
                    append_bytes(&mut m, joined_exec(&pc, comma_space_bytes().as_slice()).as_slice());
                    push_diag(&mut self.errors, copy_vec(loc.as_slice()), m);
                }
                let body = enum_lines_exec(&self.cases);
                append_bytes(&mut self.types_wit, enum_head_bytes().as_slice());
                append_bytes(&mut self.types_wit, to_kebab_case(self.current.as_slice()).as_slice());
                append_bytes(&mut self.types_wit, brace_line_bytes().as_slice());
                append_bytes(&mut self.types_wit, body.as_slice());
                append_bytes(&mut self.types_wit, block_end_bytes().as_slice());
                self.in_enum = false;
                assert(self.view() =~= type_step(st0, line@, n as nat, path@));
            } else if t.len() > 0 {
                match find_bytes(ts, open_paren_bytes().as_slice()) {
                    Some(p) => {
                        proof {
                            lemma_find_from_found(t@, open_paren(), 0);
                            assert(p + 1 <= t@.len() == t.len());
                        }
                        let after = copy_range(ts, p + 1, t.len());
                        assert(after@ =~= t@.skip(p + 1));
                        let stripped = strip_close_parens_exec(after.as_slice());
                        let types = split_bytes_on(stripped.as_slice(), comma_space_bytes().as_slice());
                        let mut l = copy_vec(loc.as_slice());
                        append_bytes(&mut l, loc_enum_bytes().as_slice());
                        append_bytes(&mut l, self.current.as_slice());
                        append_bytes(&mut l, dot_bytes().as_slice());
                        append_bytes(&mut l, ts);
                        append_bytes(&mut l, close_paren_loc_bytes().as_slice());
                        payload_errors_exec(&mut self.errors, &types, &self.defined, l.as_slice());
                    },
                    None => {},
                }
                let c = parse_enum_case(ts);
                let ghost before = views(self.cases@);
                let ghost cv = c@;
                self.cases.push(c);
                assert(views(self.cases@) =~= before.push(cv));
                assert(self.view() =~= type_step(st0, line@, n as nat, path@));
            }
        }
    }
}

fn loose_header_exec(t: &[u8], all: &[u8], a: &[u8], b: &[u8], c: &[u8]) -> (r: bool)
    ensures
        r == loose_header(t@, all@, a@, b@, c@),
{
    (matches_at(t, a, 0) || matches_at(t, b, 0) || (matches_at(t, c, 0) && !matches_at(t, all, 0))) && ends_with_exec(
        t,
        open_brace_bytes().as_slice(),
    )
}

struct TraitScanner {
    in_trait: bool,
    done: bool,
    count: usize,
    methods_wit: Vec<u8>,
    errors: Vec<Diagnostic>,
}

impl TraitScanner {
    spec fn view(&self) -> TraitScan {
        TraitScan {
            in_trait: self.in_trait,
            done: self.done,
            count: self.count as nat,
            methods_wit: self.methods_wit@,
            errors: diag_views(self.errors@),
            stuck: false,
        }
    }

    /// Reads line `n` in the second pass.
    fn trait_line(&mut self, line: &[u8], n: usize, path: &[u8], defined: &Vec<Vec<u8>>)
        requires
            !trait_step(old(self).view(), line@, n as nat, path@, views(defined@)).stuck,
            old(self).count < n,
        ensures
            final(self).view() == trait_step(old(self).view(), line@, n as nat, path@, views(defined@)),
            final(self).count <= old(self).count + 1,
    {
        let ghost st0 = self.view();
        if self.done {
            return;
        }
        let t = trim_bytes(line);
        let ts = t.as_slice();
        if matches_at(ts, exports_open_bytes().as_slice(), 0) {
            self.in_trait = true;
            assert(self.view() =~= trait_step(st0, line@, n as nat, path@, views(defined@)));
            return;
        }
        if !self.in_trait {
            return;
        }
        if bytes_equal(ts, close_brace_bytes().as_slice()) {
            self.done = true;
            assert(self.view() =~= trait_step(st0, line@, n as nat, path@, views(defined@)));
            return;
        }
        if t.len() > 0 && contains_bytes(ts, self_open_bytes().as_slice()) {
            self.count = self.count + 1;
            match validate_trait_method(ts, defined) {
                Some(e) => push_diag(&mut self.errors, line_loc_exec(path, n), e),
                None => {},
            }
            match parse_trait_method(ts) {
                Some(m) => {
                    append_bytes(&mut self.methods_wit, method_indent_bytes().as_slice());
                    append_bytes(&mut self.methods_wit, m.as_slice());
                    append_bytes(&mut self.methods_wit, method_end_bytes().as_slice());
                },
                None => {},
            }
            assert(self.view() =~= trait_step(st0, line@, n as nat, path@, views(defined@)));
        }
    }
}

proof fn lemma_type_stuck_persists(lines: Seq<Seq<u8>>, path: Seq<u8>, i: int, k: int)
    requires
        0 <= i <= k <= lines.len(),
        type_scan(lines, path, i).stuck,
    ensures
        type_scan(lines, path, k).stuck,
    decreases k - i,
{
    if i < k {
        lemma_type_stuck_persists(lines, path, i, k - 1);
    }
}

proof fn lemma_trait_stuck_persists(lines: Seq<Seq<u8>>, path: Seq<u8>, defined: Seq<Seq<u8>>, i: int, k: int)
    requires
        0 <= i <= k <= lines.len(),
        trait_scan(lines, path, defined, i).stuck,
    ensures
        trait_scan(lines, path, defined, k).stuck,
    decreases k - i,
{
    if i < k {
        lemma_trait_stuck_persists(lines, path, defined, i, k - 1);
    }
}

fn move_diags(dst: &mut Vec<Diagnostic>, src: Vec<Diagnostic>)
    ensures
        diag_views(final(dst)@) == diag_views(old(dst)@) + diag_views(src@),
{
    let ghost a = old(dst)@;
    let mut src = src;
    let ghost b = src@;
    dst.append(&mut src);
    assert(diag_views(dst@) =~= diag_views(a) + diag_views(b));
}

/// Reads a MoonBit interface listing `content` found at `path` and writes
/// its WIT document: package `namespace:name` (`component` by default),
/// an interface `interface` with a record for each `pub(all)` struct, an
/// enum for each `pub(all)` enum (payload cases left out), and a function
/// for each method of the `Exports` trait, and a world (named like the
/// package by default) that exports it. Also reports what WIT cannot
/// express: a missing `Exports` trait, function, reference or map types, an
/// ill-formed `Result`, enum payloads, and, as warnings, structs and enums
/// that are not `pub(all)` and an `Exports` trait without methods.
pub fn parse_mbti_and_generate_wit(
    content: &[u8],
    path: &[u8],
    namespace: &[u8],
    name: Option<&[u8]>,
    world: Option<&[u8]>,
    interface: &[u8],
) -> (r: MbtiReport)
    requires
        mbti_readable(content@, path@),
    ensures
        diag_views(r.errors@) == mbti_errors(content@, path@),
        diag_views(r.warnings@) == mbti_warnings(content@, path@),
        r.type_count == types_of(content@, path@).defined.len(),
        r.method_count == traits_of(content@, path@).count,
        ({
            let pkg = match name {
                Some(n) => n@,
                None => default_pkg(),
            };
            let w = match world {
                Some(w) => w@,
                None => pkg,
            };
            r.wit@ == mbti_wit(content@, path@, namespace@, pkg, w, interface@)
        }),
{
    let lines = split_bytes(content, 10);
    let ghost ls = views(lines@);
    assert(ls == listing_lines(content@));
    let mut types = TypeScanner::new();
    let mut i: usize = 0;
    while i < lines.len()
        invariant
            i <= lines.len(),
            ls == views(lines@),
            ls == listing_lines(content@),
            mbti_readable(content@, path@),
            types.view() == type_scan(ls, path@, i as int),
        decreases lines.len() - i,
    {
        proof {
            if type_scan(ls, path@, i + 1).stuck {
                lemma_type_stuck_persists(ls, path@, i + 1, ls.len() as int);
            }
            assert(ls[i as int] == lines@[i as int]@);
        }
        types.type_line(lines[i].as_slice(), i + 1, path);
        i = i + 1;
    }
    let ghost defined = types.view().defined;
    assert(types.view() == types_of(content@, path@));
    let mut traits = TraitScanner { in_trait: false, done: false, count: 0, methods_wit: Vec::new(), errors: Vec::new() };
    assert(traits.view().errors =~= Seq::<(Seq<u8>, Seq<u8>)>::empty());
    assert(traits.view().methods_wit =~= Seq::<u8>::empty());
    assert(traits.view() == trait_scan(ls, path@, defined, 0));
    let mut i: usize = 0;
    while i < lines.len()
        invariant
            i <= lines.len(),
            ls == views(lines@),
            ls == listing_lines(content@),
            mbti_readable(content@, path@),
            defined == views(types.defined@),
            defined == types_of(content@, path@).defined,
            traits.view() == trait_scan(ls, path@, defined, i as int),
            traits.count <= i,
        decreases lines.len() - i,
    {
        proof {
            if trait_scan(ls, path@, defined, i + 1).stuck {
                lemma_trait_stuck_persists(ls, path@, defined, i + 1, ls.len() as int);
            }
            assert(ls[i as int] == lines@[i as int]@);
        }
        traits.trait_line(lines[i].as_slice(), i + 1, path, &types.defined);
        i = i + 1;
    }
    assert(traits.view() == traits_of(content@, path@));
    let has_exports = contains_bytes(content, exports_open_bytes().as_slice());
    let mut errors: Vec<Diagnostic> = Vec::new();
    if !has_exports {
        push_diag(&mut errors, copy_vec(path), missing_exports_msg_bytes());
    }
    assert(diag_views(errors@) =~= if has_exports {
        Seq::<(Seq<u8>, Seq<u8>)>::empty()
    } else {
        seq![(path@, missing_exports_msg())]
    });
    move_diags(&mut errors, types.errors);
    move_diags(&mut errors, traits.errors);
    let mut warnings = types.warnings;
    if has_exports && traits.count == 0 {
        push_diag(&mut warnings, copy_vec(path), no_methods_msg_bytes());
    }
    let pkg = match name {
        Some(n) => copy_vec(n),
        None => default_pkg_bytes(),
    };
    let world_name = match world {
        Some(w) => copy_vec(w),
        None => copy_vec(pkg.as_slice()),
    };
    let mut wit = package_head_bytes();
    append_bytes(&mut wit, namespace);
    append_bytes(&mut wit, colon_loc_bytes().as_slice());
    append_bytes(&mut wit, pkg.as_slice());
    append_bytes(&mut wit, package_tail_bytes().as_slice());
    append_bytes(&mut wit, interface_head_bytes().as_slice());
    append_bytes(&mut wit, interface);
    append_bytes(&mut wit, brace_line_bytes().as_slice());
    append_bytes(&mut wit, types.types_wit.as_slice());
    append_bytes(&mut wit, traits.methods_wit.as_slice());
    append_bytes(&mut wit, interface_end_bytes().as_slice());
    append_bytes(&mut wit, world_head_bytes().as_slice());
    append_bytes(&mut wit, world_name.as_slice());
    append_bytes(&mut wit, brace_line_bytes().as_slice());
    append_bytes(&mut wit, export_head_bytes().as_slice());
    append_bytes(&mut wit, interface);
    append_bytes(&mut wit, method_end_bytes().as_slice());
    append_bytes(&mut wit, world_end_bytes().as_slice());
    MbtiReport { errors, warnings, type_count: types.defined.len(), method_count: traits.count, wit }
}

fn fields_convertible_exec(fields: &Vec<(Vec<u8>, Vec<u8>)>) -> (r: bool)
    ensures
        r == fields_convertible(field_views(fields@)),
{
    let mut k: usize = 0;
    while k < fields.len()
        invariant
            k <= fields.len(),
            forall|j: int| 0 <= j < k ==> wit_convertible(#[trigger] field_views(fields@)[j].1),
        decreases fields.len() - k,
    {
        assert(field_views(fields@)[k as int].1 == fields@[k as int].1@);
        if !is_wit_convertible(fields[k].1.as_slice()) {
            return false;
        }
        k = k + 1;
    }
    true
}

impl TypeScanner {
    /// Whether line `n` cannot be read in the first pass.
    fn blocks(&self, line: &[u8], n: usize, path: &[u8]) -> (r: bool)
        ensures
            r == type_step(self.view(), line@, n as nat, path@).stuck,
    {
        let t = trim_bytes(line);
        let ts = t.as_slice();
        if matches_at(ts, all_struct_bytes().as_slice(), 0) && ends_with_exec(ts, open_brace_bytes().as_slice()) {
            let rest = copy_range(ts, 16, t.len());
            assert(rest@ =~= t@.skip(all_struct().len() as int));
            return !ends_with_exec(rest.as_slice(), spaced_brace_bytes().as_slice());
        }
        if self.in_struct {
            return bytes_equal(ts, close_brace_bytes().as_slice()) && !fields_convertible_exec(&self.fields);
        }
        if matches_at(ts, all_enum_bytes().as_slice(), 0) && ends_with_exec(ts, open_brace_bytes().as_slice()) {
            let rest = copy_range(ts, 14, t.len());
            assert(rest@ =~= t@.skip(all_enum().len() as int));
            return !ends_with_exec(rest.as_slice(), spaced_brace_bytes().as_slice());
        }
        self.in_enum && !bytes_equal(ts, close_brace_bytes().as_slice()) && t.len() > 0
            && !is_enum_case_convertible(ts)
    }
}

impl TraitScanner {
    /// Whether line `n` cannot be read in the second pass.
    fn blocks(&self, line: &[u8], n: usize, path: &[u8], defined: &Vec<Vec<u8>>) -> (r: bool)
        ensures
            r == trait_step(self.view(), line@, n as nat, path@, views(defined@)).stuck,
    {
        let t = trim_bytes(line);
        let ts = t.as_slice();
        !self.done && !matches_at(ts, exports_open_bytes().as_slice(), 0) && self.in_trait && !bytes_equal(
            ts,
            close_brace_bytes().as_slice(),
        ) && t.len() > 0 && contains_bytes(ts, self_open_bytes().as_slice()) && !is_trait_method_convertible(ts)
    }
}

/// Whether both passes can read a listing, as
/// `parse_mbti_and_generate_wit` needs: every `pub(all)` header ends in
/// ` {`, and every type that WIT is written for has closed brackets.
pub fn is_mbti_readable(content: &[u8], path: &[u8]) -> (r: bool)
    ensures
        r == mbti_readable(content@, path@),
{
    let lines = split_bytes(content, 10);
    let ghost ls = views(lines@);
    assert(ls == listing_lines(content@));
    let mut types = TypeScanner::new();
    let mut i: usize = 0;
    while i < lines.len()
        invariant
            i <= lines.len(),
            ls == views(lines@),
            ls == listing_lines(content@),
            types.view() == type_scan(ls, path@, i as int),
        decreases lines.len() - i,
    {
        assert(ls[i as int] == lines@[i as int]@);
        if types.blocks(lines[i].as_slice(), i + 1, path) {
            proof {
                lemma_type_stuck_persists(ls, path@, i + 1, ls.len() as int);
            }
            return false;
        }
        types.type_line(lines[i].as_slice(), i + 1, path);
        i = i + 1;
    }
    let ghost defined = types.view().defined;
    let mut traits = TraitScanner { in_trait: false, done: false, count: 0, methods_wit: Vec::new(), errors: Vec::new() };
    assert(traits.view().errors =~= Seq::<(Seq<u8>, Seq<u8>)>::empty());
    assert(traits.view().methods_wit =~= Seq::<u8>::empty());
    assert(traits.view() == trait_scan(ls, path@, defined, 0));
    let mut i: usize = 0;
    while i < lines.len()
        invariant
            i <= lines.len(),
            ls == views(lines@),
            ls == listing_lines(content@),
            !types_of(content@, path@).stuck,
            defined == views(types.defined@),
            defined == types_of(content@, path@).defined,
            traits.view() == trait_scan(ls, path@, defined, i as int),
            traits.count <= i,
        decreases lines.len() - i,
    {
        assert(ls[i as int] == lines@[i as int]@);
        if traits.blocks(lines[i].as_slice(), i + 1, path, &types.defined) {
            proof {
                lemma_trait_stuck_persists(ls, path@, defined, i + 1, ls.len() as int);
            }
            return false;
        }
        traits.trait_line(lines[i].as_slice(), i + 1, path, &types.defined);
        i = i + 1;
    }
    true
}

} // verus!
