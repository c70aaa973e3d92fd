//! Tokens of the WebAssembly text format that the ABI rewriter looks for.

use vstd::prelude::*;

verus! {

/// The text `(import `.
pub open spec fn import_tag() -> Seq<u8> {
    seq![40u8, 105, 109, 112, 111, 114, 116, 32]
}

/// The text `(import `.
pub fn import_tag_bytes() -> (r: Vec<u8>)
    ensures
        r@ == import_tag(),
{
    let r: Vec<u8> = vec![40u8, 105, 109, 112, 111, 114, 116, 32];
    assert(r@ =~= import_tag());
    r
}

/// The text `(func (;`.
pub open spec fn func_slot_tag() -> Seq<u8> {
    seq![40u8, 102, 117, 110, 99, 32, 40, 59]
}

/// The text `(func (;`.
pub fn func_slot_tag_bytes() -> (r: Vec<u8>)
    ensures
        r@ == func_slot_tag(),
{
    let r: Vec<u8> = vec![40u8, 102, 117, 110, 99, 32, 40, 59];
    assert(r@ =~= func_slot_tag());
    r
}

/// The text `;)`.
pub open spec fn slot_end() -> Seq<u8> {
    seq![59u8, 41]
}

/// The text `;)`.
pub fn slot_end_bytes() -> (r: Vec<u8>)
    ensures
        r@ == slot_end(),
{
    let r: Vec<u8> = vec![59u8, 41];
    assert(r@ =~= slot_end());
    r
}

/// The text `(type `.
pub open spec fn type_ref_tag() -> Seq<u8> {
    seq![40u8, 116, 121, 112, 101, 32]
}

/// The text `(type `.
pub fn type_ref_tag_bytes() -> (r: Vec<u8>)
    ensures
        r@ == type_ref_tag(),
{
    let r: Vec<u8> = vec![40u8, 116, 121, 112, 101, 32];
    assert(r@ =~= type_ref_tag());
    r
}

/// The text `)`.
pub open spec fn close_paren() -> Seq<u8> {
    seq![41u8]
}

/// The text `)`.
pub fn close_paren_bytes() -> (r: Vec<u8>)
    ensures
        r@ == close_paren(),
{
    let r: Vec<u8> = vec![41u8];
    assert(r@ =~= close_paren());
    r
}

/// The text `(type (;`.
pub open spec fn type_slot_tag() -> Seq<u8> {
    seq![40u8, 116, 121, 112, 101, 32, 40, 59]
}

/// The text `(type (;`.
pub fn type_slot_tag_bytes() -> (r: Vec<u8>)
    ensures
        r@ == type_slot_tag(),
{
    let r: Vec<u8> = vec![40u8, 116, 121, 112, 101, 32, 40, 59];
    assert(r@ =~= type_slot_tag());
    r
}

/// The text `(func`.
pub open spec fn func_tag() -> Seq<u8> {
    seq![40u8, 102, 117, 110, 99]
}

/// The text `(func`.
pub fn func_tag_bytes() -> (r: Vec<u8>)
    ensures
        r@ == func_tag(),
{
    let r: Vec<u8> = vec![40u8, 102, 117, 110, 99];
    assert(r@ =~= func_tag());
    r
}

/// The text `(result`.
pub open spec fn result_tag() -> Seq<u8> {
    seq![40u8, 114, 101, 115, 117, 108, 116]
}

/// The text `(result`.
pub fn result_tag_bytes() -> (r: Vec<u8>)
    ensures
        r@ == result_tag(),
{
    let r: Vec<u8> = vec![40u8, 114, 101, 115, 117, 108, 116];
    assert(r@ =~= result_tag());
    r
}

/// The text `(result i32)`.
pub open spec fn result_i32() -> Seq<u8> {
    seq![40u8, 114, 101, 115, 117, 108, 116, 32, 105, 51, 50, 41]
}

/// The text `(result i32)`.
pub fn result_i32_bytes() -> (r: Vec<u8>)
    ensures
        r@ == result_i32(),
{
    let r: Vec<u8> = vec![40u8, 114, 101, 115, 117, 108, 116, 32, 105, 51, 50, 41];
    assert(r@ =~= result_i32());
    r
}

/// The text ` (result i32)`.
pub open spec fn spaced_result_i32() -> Seq<u8> {
    seq![32u8, 40, 114, 101, 115, 117, 108, 116, 32, 105, 51, 50, 41]
}

/// The text ` (result i32)`.
pub fn spaced_result_i32_bytes() -> (r: Vec<u8>)
    ensures
        r@ == spaced_result_i32(),
{
    let r: Vec<u8> = vec![32u8, 40, 114, 101, 115, 117, 108, 116, 32, 105, 51, 50, 41];
    assert(r@ =~= spaced_result_i32());
    r
}

/// The text `))`.
pub open spec fn double_close() -> Seq<u8> {
    seq![41u8, 41]
}

/// The text `))`.
pub fn double_close_bytes() -> (r: Vec<u8>)
    ensures
        r@ == double_close(),
{
    let r: Vec<u8> = vec![41u8, 41];
    assert(r@ =~= double_close());
    r
}

/// The text `call `.
pub open spec fn call_tag() -> Seq<u8> {
    seq![99u8, 97, 108, 108, 32]
}

/// The text `call `.
pub fn call_tag_bytes() -> (r: Vec<u8>)
    ensures
        r@ == call_tag(),
{
    let r: Vec<u8> = vec![99u8, 97, 108, 108, 32];
    assert(r@ =~= call_tag());
    r
}

/// The text `drop`.
pub open spec fn drop_word() -> Seq<u8> {
    seq![100u8, 114, 111, 112]
}

/// The text `drop`.
pub fn drop_word_bytes() -> (r: Vec<u8>)
    ensures
        r@ == drop_word(),
{
    let r: Vec<u8> = vec![100u8, 114, 111, 112];
    assert(r@ =~= drop_word());
    r
}

/// The text `"`.
pub open spec fn quote() -> Seq<u8> {
    seq![34u8]
}

/// The text `"`.
pub fn quote_bytes() -> (r: Vec<u8>)
    ensures
        r@ == quote(),
{
    let r: Vec<u8> = vec![34u8];
    assert(r@ =~= quote());
    r
}

/// The text `  (type (;`.
pub open spec fn new_type_head() -> Seq<u8> {
    seq![32u8, 32, 40, 116, 121, 112, 101, 32, 40, 59]
}

/// The text `  (type (;`.
pub fn new_type_head_bytes() -> (r: Vec<u8>)
    ensures
        r@ == new_type_head(),
{
    let r: Vec<u8> = vec![32u8, 32, 40, 116, 121, 112, 101, 32, 40, 59];
    assert(r@ =~= new_type_head());
    r
}

/// The text `;) `.
pub open spec fn slot_end_space() -> Seq<u8> {
    seq![59u8, 41, 32]
}

/// The text `;) `.
pub fn slot_end_space_bytes() -> (r: Vec<u8>)
    ensures
        r@ == slot_end_space(),
{
    let r: Vec<u8> = vec![59u8, 41, 32];
    assert(r@ =~= slot_end_space());
    r
}

/// The text `(module`, with which the text of a core module begins.
pub open spec fn module_open() -> Seq<u8> {
    seq![40u8, 109, 111, 100, 117, 108, 101]
}

} // verus!
