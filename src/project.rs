//! Project conventions: default build target and output, the WAC
//! composition script for a bundle, and the choice of the built module.

use vstd::prelude::*;
use crate::text::{append_bytes, bytes_equal, contains_bytes, copy_range, find_last, occurs_in, replace_all, replace_bytes, rfind_bytes, lemma_find_last_found};

verus! {

/// The text `wasm`.
pub open spec fn target_wasm() -> Seq<u8> {
    seq![119u8, 97, 115, 109]
}

fn target_wasm_bytes() -> (r: Vec<u8>)
    ensures
        r@ == target_wasm(),
{
    let r: Vec<u8> = vec![119u8, 97, 115, 109];
    assert(r@ =~= target_wasm());
    r
}

/// The text `dist/composed.wasm`.
pub open spec fn composed_output() -> Seq<u8> {
    seq![100u8, 105, 115, 116, 47, 99, 111, 109, 112, 111, 115, 101, 100, 46, 119, 97, 115, 109]
}

fn composed_output_bytes() -> (r: Vec<u8>)
    ensures
        r@ == composed_output(),
{
    let r: Vec<u8> = vec![100u8, 105, 115, 116, 47, 99, 111, 109, 112, 111, 115, 101, 100, 46, 119, 97, 115, 109];
    assert(r@ =~= composed_output());
    r
}

/// The text `package `.
pub open spec fn package_word() -> Seq<u8> {
    seq![112u8, 97, 99, 107, 97, 103, 101, 32]
}

fn package_word_bytes() -> (r: Vec<u8>)
    ensures
        r@ == package_word(),
{
    let r: Vec<u8> = vec![112u8, 97, 99, 107, 97, 103, 101, 32];
    assert(r@ =~= package_word());
    r
}

/// The text `:composed;\n\n`.
pub open spec fn composed_suffix() -> Seq<u8> {
    seq![58u8, 99, 111, 109, 112, 111, 115, 101, 100, 59, 10, 10]
}

fn composed_suffix_bytes() -> (r: Vec<u8>)
    ensures
        r@ == composed_suffix(),
{
    let r: Vec<u8> = vec![58u8, 99, 111, 109, 112, 111, 115, 101, 100, 59, 10, 10];
    assert(r@ =~= composed_suffix());
    r
}

/// The text `let `.
pub open spec fn let_word() -> Seq<u8> {
    seq![108u8, 101, 116, 32]
}

fn let_word_bytes() -> (r: Vec<u8>)
    ensures
        r@ == let_word(),
{
    let r: Vec<u8> = vec![108u8, 101, 116, 32];
    assert(r@ =~= let_word());
    r
}

/// The text ` = new `.
pub open spec fn new_word() -> Seq<u8> {
    seq![32u8, 61, 32, 110, 101, 119, 32]
}

fn new_word_bytes() -> (r: Vec<u8>)
    ensures
        r@ == new_word(),
{
    let r: Vec<u8> = vec![32u8, 61, 32, 110, 101, 119, 32];
    assert(r@ =~= new_word());
    r
}

/// The text ` {};\n`.
pub open spec fn empty_body() -> Seq<u8> {
    seq![32u8, 123, 125, 59, 10]
}

fn empty_body_bytes() -> (r: Vec<u8>)
    ensures
        r@ == empty_body(),
{
    let r: Vec<u8> = vec![32u8, 123, 125, 59, 10];
    assert(r@ =~= empty_body());
    r
}

/// The text `let entry = new entry:component {\n`.
pub open spec fn entry_head() -> Seq<u8> {
    seq![108u8, 101, 116, 32, 101, 110, 116, 114, 121, 32, 61, 32, 110, 101, 119, 32, 101, 110, 116, 114, 121, 58, 99, 111, 109, 112, 111, 110, 101, 110, 116, 32, 123, 10]
}

fn entry_head_bytes() -> (r: Vec<u8>)
    ensures
        r@ == entry_head(),
{
    let r: Vec<u8> = vec![108u8, 101, 116, 32, 101, 110, 116, 114, 121, 32, 61, 32, 110, 101, 119, 32, 101, 110, 116, 114, 121, 58, 99, 111, 109, 112, 111, 110, 101, 110, 116, 32, 123, 10];
    assert(r@ =~= entry_head());
    r
}

/// The text `  `.
pub open spec fn spread_indent() -> Seq<u8> {
    seq![32u8, 32]
}

fn spread_indent_bytes() -> (r: Vec<u8>)
    ensures
        r@ == spread_indent(),
{
    let r: Vec<u8> = vec![32u8, 32];
    assert(r@ =~= spread_indent());
    r
}

/// The text `...,\n`.
pub open spec fn spread_tail() -> Seq<u8> {
    seq![46u8, 46, 46, 44, 10]
}

fn spread_tail_bytes() -> (r: Vec<u8>)
    ensures
        r@ == spread_tail(),
{
    let r: Vec<u8> = vec![46u8, 46, 46, 44, 10];
    assert(r@ =~= spread_tail());
    r
}

/// The text `};\n\n`.
pub open spec fn entry_tail() -> Seq<u8> {
    seq![125u8, 59, 10, 10]
}

fn entry_tail_bytes() -> (r: Vec<u8>)
    ensures
        r@ == entry_tail(),
{
    let r: Vec<u8> = vec![125u8, 59, 10, 10];
    assert(r@ =~= entry_tail());
    r
}

/// The text `export entry...;\n`.
pub open spec fn export_line() -> Seq<u8> {
    seq![101u8, 120, 112, 111, 114, 116, 32, 101, 110, 116, 114, 121, 46, 46, 46, 59, 10]
}

fn export_line_bytes() -> (r: Vec<u8>)
    ensures
        r@ == export_line(),
{
    let r: Vec<u8> = vec![101u8, 120, 112, 111, 114, 116, 32, 101, 110, 116, 114, 121, 46, 46, 46, 59, 10];
    assert(r@ =~= export_line());
    r
}

/// The text `:`.
pub open spec fn colon() -> Seq<u8> {
    seq![58u8]
}

fn colon_bytes() -> (r: Vec<u8>)
    ensures
        r@ == colon(),
{
    let r: Vec<u8> = vec![58u8];
    assert(r@ =~= colon());
    r
}

/// The text `/`.
pub open spec fn slash() -> Seq<u8> {
    seq![47u8]
}

fn slash_bytes() -> (r: Vec<u8>)
    ensures
        r@ == slash(),
{
    let r: Vec<u8> = vec![47u8];
    assert(r@ =~= slash());
    r
}

/// The text `-`.
pub open spec fn dash() -> Seq<u8> {
    seq![45u8]
}

fn dash_bytes() -> (r: Vec<u8>)
    ensures
        r@ == dash(),
{
    let r: Vec<u8> = vec![45u8];
    assert(r@ =~= dash());
    r
}

/// The text `\n`.
pub open spec fn newline() -> Seq<u8> {
    seq![10u8]
}

fn newline_bytes() -> (r: Vec<u8>)
    ensures
        r@ == newline(),
{
    let r: Vec<u8> = vec![10u8];
    assert(r@ =~= newline());
    r
}

/// The text `/impl/impl.wasm`.
pub open spec fn impl_wasm() -> Seq<u8> {
    seq![47u8, 105, 109, 112, 108, 47, 105, 109, 112, 108, 46, 119, 97, 115, 109]
}

fn impl_wasm_bytes() -> (r: Vec<u8>)
    ensures
        r@ == impl_wasm(),
{
    let r: Vec<u8> = vec![47u8, 105, 109, 112, 108, 47, 105, 109, 112, 108, 46, 119, 97, 115, 109];
    assert(r@ =~= impl_wasm());
    r
}

/// The text `/src/src.wasm`.
pub open spec fn src_wasm() -> Seq<u8> {
    seq![47u8, 115, 114, 99, 47, 115, 114, 99, 46, 119, 97, 115, 109]
}

fn src_wasm_bytes() -> (r: Vec<u8>)
    ensures
        r@ == src_wasm(),
{
    let r: Vec<u8> = vec![47u8, 115, 114, 99, 47, 115, 114, 99, 46, 119, 97, 115, 109];
    assert(r@ =~= src_wasm());
    r
}

/// The text `.wasm`.
pub open spec fn wasm_ext() -> Seq<u8> {
    seq![46u8, 119, 97, 115, 109]
}

fn wasm_ext_bytes() -> (r: Vec<u8>)
    ensures
        r@ == wasm_ext(),
{
    let r: Vec<u8> = vec![46u8, 119, 97, 115, 109];
    assert(r@ =~= wasm_ext());
    r
}

/// The text `component`.
pub open spec fn component_word() -> Seq<u8> {
    seq![99u8, 111, 109, 112, 111, 110, 101, 110, 116]
}

fn component_word_bytes() -> (r: Vec<u8>)
    ensures
        r@ == component_word(),
{
    let r: Vec<u8> = vec![99u8, 111, 109, 112, 111, 110, 101, 110, 116];
    assert(r@ =~= component_word());
    r
}

/// The build target used when none is configured: `wasm`.
pub fn default_target() -> (r: Vec<u8>)
    ensures
        r@ == target_wasm(),
{
    target_wasm_bytes()
}

/// The output path of a bundle when none is configured:
/// `dist/composed.wasm`.
pub fn default_output() -> (r: Vec<u8>)
    ensures
        r@ == composed_output(),
{
    composed_output_bytes()
}

/// The WAC variable name of a dependency: `:` and `/` become `-`.
pub open spec fn wac_var(d: Seq<u8>) -> Seq<u8> {
    replace_all(replace_all(d, colon(), dash()), slash(), dash())
}

/// The `let` line that instantiates a dependency.
pub open spec fn let_line(d: Seq<u8>) -> Seq<u8> {
    let_word() + wac_var(d) + new_word() + d + empty_body()
}

/// The line that spreads a dependency's exports into the entry.
pub open spec fn spread_line(d: Seq<u8>) -> Seq<u8> {
    spread_indent() + wac_var(d) + spread_tail()
}

/// The `let` lines of all dependencies, in order.
pub open spec fn let_lines(deps: Seq<Seq<u8>>) -> Seq<u8>
    decreases deps.len(),
{
    if deps.len() == 0 {
        Seq::empty()
    } else {
        let_lines(deps.drop_last()) + let_line(deps.last())
    }
}

/// The spread lines of all dependencies, in order.
pub open spec fn spread_lines(deps: Seq<Seq<u8>>) -> Seq<u8>
    decreases deps.len(),
{
    if deps.len() == 0 {
        Seq::empty()
    } else {
        spread_lines(deps.drop_last()) + spread_line(deps.last())
    }
}

/// The WAC script of a bundle: its package, an instance of each
/// dependency, the entry component instantiated with all of them, and the
/// entry's exports.
pub open spec fn wac_script(name: Seq<u8>, deps: Seq<Seq<u8>>) -> Seq<u8> {
    package_word() + replace_all(name, slash(), colon()) + composed_suffix() + let_lines(deps) + newline()
        + entry_head() + spread_lines(deps) + entry_tail() + export_line()
}

fn wac_var_exec(d: &[u8]) -> (r: Vec<u8>)
    ensures
        r@ == wac_var(d@),
{
    let once = replace_bytes(d, colon_bytes().as_slice(), dash_bytes().as_slice());
    replace_bytes(once.as_slice(), slash_bytes().as_slice(), dash_bytes().as_slice())
}

/// Writes the WAC script of a bundle named `name` whose dependencies are
/// `deps`, in the order given.
pub fn _generate_wac(name: &[u8], deps: &Vec<Vec<u8>>) -> (r: Vec<u8>)
    ensures
        r@ == wac_script(name@, crate::text::views(deps@)),
{
    let ghost ds = crate::text::views(deps@);
    let mut out = package_word_bytes();
    append_bytes(&mut out, replace_bytes(name, slash_bytes().as_slice(), colon_bytes().as_slice()).as_slice());
    append_bytes(&mut out, composed_suffix_bytes().as_slice());
    let ghost head = out@;
    let mut i: usize = 0;
    assert(ds.take(0) =~= Seq::<Seq<u8>>::empty());
    assert(out@ =~= head + let_lines(ds.take(0)));
    while i < deps.len()
        invariant
            i <= deps.len(),
            ds == crate::text::views(deps@),
            out@ == head + let_lines(ds.take(i as int)),
        decreases deps.len() - i,
    {
        assert(ds.take(i + 1).drop_last() =~= ds.take(i as int));
        let d = deps[i].as_slice();
        let ghost before = out@;
        append_bytes(&mut out, let_word_bytes().as_slice());
        append_bytes(&mut out, wac_var_exec(d).as_slice());
        append_bytes(&mut out, new_word_bytes().as_slice());
        append_bytes(&mut out, d);
        append_bytes(&mut out, empty_body_bytes().as_slice());
        assert(out@ =~= before + let_line(ds[i as int]));
        assert(out@ =~= head + let_lines(ds.take(i + 1)));
        i = i + 1;
    }
    assert(ds.take(i as int) =~= ds);
    append_bytes(&mut out, newline_bytes().as_slice());
    append_bytes(&mut out, entry_head_bytes().as_slice());
    let ghost mid = out@;
    let mut i: usize = 0;
    assert(out@ =~= mid + spread_lines(ds.take(0)));
    while i < deps.len()
        invariant
            i <= deps.len(),
            ds == crate::text::views(deps@),
            out@ == mid + spread_lines(ds.take(i as int)),
        decreases deps.len() - i,
    {
        assert(ds.take(i + 1).drop_last() =~= ds.take(i as int));
        let d = deps[i].as_slice();
        let ghost before = out@;
        append_bytes(&mut out, spread_indent_bytes().as_slice());
        append_bytes(&mut out, wac_var_exec(d).as_slice());
        append_bytes(&mut out, spread_tail_bytes().as_slice());
        assert(out@ =~= before + spread_line(ds[i as int]));
        assert(out@ =~= mid + spread_lines(ds.take(i + 1)));
        i = i + 1;
    }
    assert(ds.take(i as int) =~= ds);
    append_bytes(&mut out, entry_tail_bytes().as_slice());
    append_bytes(&mut out, export_line_bytes().as_slice());
    assert(out@ =~= wac_script(name@, ds));
    out
}

/// The last component of a path.
pub open spec fn file_name(p: Seq<u8>) -> Seq<u8> {
    match find_last(p, slash()) {
        Some(i) => p.skip(i + 1),
        None => p,
    }
}

/// A path whose extension is `wasm`: its file name ends in `.wasm` after at
/// least one other byte.
pub open spec fn has_wasm_extension(p: Seq<u8>) -> bool {
    let n = file_name(p);
    n.len() > 5 && n.skip(n.len() - 5) == wasm_ext()
}

/// A built module, not a component: a `.wasm` file whose name does not
/// mention `component`.
pub open spec fn is_candidate(p: Seq<u8>) -> bool {
    has_wasm_extension(p) && !occurs_in(file_name(p), component_word())
}

/// The candidates among `files`, in order.
pub open spec fn candidates(files: Seq<Seq<u8>>) -> Seq<Seq<u8>>
    decreases files.len(),
{
    if files.len() == 0 {
        Seq::empty()
    } else if is_candidate(files.last()) {
        candidates(files.drop_last()).push(files.last())
    } else {
        candidates(files.drop_last())
    }
}

/// Why no module could be chosen.
#[derive(Debug)]
pub enum FindWasmError {
    /// No `.wasm` file in the build output.
    NotFound,
    /// Several candidates; they are listed.
    Ambiguous(Vec<Vec<u8>>),
}

fn file_name_exec(p: &[u8]) -> (r: Vec<u8>)
    ensures
        r@ == file_name(p@),
{
    match rfind_bytes(p, slash_bytes().as_slice()) {
        Some(i) => {
            proof {
                lemma_find_last_found(p@, slash(), p@.len() + 1int);
                assert(i + 1 <= p@.len() == p.len());
            }
            let r = copy_range(p, i + 1, p.len());
            assert(r@ =~= p@.skip(i + 1));
            r
        },
        None => copy_range(p, 0, p.len()),
    }
}

fn is_candidate_exec(p: &[u8]) -> (r: bool)
    ensures
        r == is_candidate(p@),
{
    let n = file_name_exec(p);
    if n.len() <= 5 {
        return false;
    }
    let tail = copy_range(n.as_slice(), n.len() - 5, n.len());
    assert(tail@ =~= n@.skip(n@.len() - 5));
    bytes_equal(tail.as_slice(), wasm_ext_bytes().as_slice()) && !contains_bytes(
        n.as_slice(),
        component_word_bytes().as_slice(),
    )
}

/// Where `files` lists `p`.
pub open spec fn lists(files: Seq<Seq<u8>>, p: Seq<u8>) -> bool {
    exists|k: int| 0 <= k < files.len() && #[trigger] files[k] == p
}

fn lists_exec(files: &Vec<Vec<u8>>, p: &[u8]) -> (r: bool)
    ensures
        r == lists(crate::text::views(files@), p@),
{
    let mut k: usize = 0;
    while k < files.len()
        invariant
            k <= files.len(),
            forall|j: int| 0 <= j < k ==> files@[j]@ != p@,
        decreases files.len() - k,
    {
        if bytes_equal(files[k].as_slice(), p) {
            assert(crate::text::views(files@)[k as int] == p@);
            return true;
        }
        k = k + 1;
    }
    assert forall|j: int| 0 <= j < files.len() implies #[trigger] crate::text::views(files@)[j] != p@ by {
        assert(crate::text::views(files@)[j] == files@[j]@);
    }
    false
}

/// Chooses the built module among the files of the build directory
/// `build_dir`: `impl/impl.wasm`, then `src/src.wasm`, where listed;
/// otherwise the one candidate, if there is exactly one.
pub fn find_wasm_file(build_dir: &[u8], files: &Vec<Vec<u8>>) -> (r: Result<Vec<u8>, FindWasmError>)
    ensures
        ({
            let fs = crate::text::views(files@);
            let p1 = build_dir@ + impl_wasm();
            let p2 = build_dir@ + src_wasm();
            let cs = candidates(fs);
            if lists(fs, p1) {
                r matches Ok(p) && p@ == p1
            } else if lists(fs, p2) {
                r matches Ok(p) && p@ == p2
            } else if cs.len() == 0 {
                r matches Err(FindWasmError::NotFound)
            } else if cs.len() == 1 {
                r matches Ok(p) && p@ == cs[0]
            } else {
                r matches Err(FindWasmError::Ambiguous(list)) && crate::text::views(list@) == cs
            }
        }),
{
    let ghost fs = crate::text::views(files@);
    let mut p1 = copy_range(build_dir, 0, build_dir.len());
    append_bytes(&mut p1, impl_wasm_bytes().as_slice());
    assert(p1@ =~= build_dir@ + impl_wasm());
    if lists_exec(files, p1.as_slice()) {
        return Ok(p1);
    }
    let mut p2 = copy_range(build_dir, 0, build_dir.len());
    append_bytes(&mut p2, src_wasm_bytes().as_slice());
    assert(p2@ =~= build_dir@ + src_wasm());
    if lists_exec(files, p2.as_slice()) {
        return Ok(p2);
    }
    let mut found: Vec<Vec<u8>> = Vec::new();
    let mut i: usize = 0;
    while i < files.len()
        invariant
            i <= files.len(),
            fs == crate::text::views(files@),
            crate::text::views(found@) == candidates(fs.take(i as int)),
        decreases files.len() - i,
    {
        assert(fs.take(i + 1).drop_last() =~= fs.take(i as int));
        if is_candidate_exec(files[i].as_slice()) {
            let ghost before = crate::text::views(found@);
            found.push(copy_range(files[i].as_slice(), 0, files[i].len()));
            assert(files@[i as int]@.subrange(0, files@[i as int]@.len() as int) =~= files@[i as int]@);
            assert(crate::text::views(found@) =~= before.push(fs[i as int]));
        }
        i = i + 1;
    }
    assert(fs.take(i as int) =~= fs);
    if found.len() == 0 {
        Err(FindWasmError::NotFound)
    } else if found.len() == 1 {
        let only = copy_range(found[0].as_slice(), 0, found[0].len());
        assert(only@ =~= found@[0]@);
        Ok(only)
    } else {
        Err(FindWasmError::Ambiguous(found))
    }
}

/// An ASCII capital letter.
pub open spec fn is_upper(b: u8) -> bool {
    65 <= b && b <= 90
}

/// The kebab-case form of the first `n` bytes of `s`.
pub open spec fn kebab_prefix(s: Seq<u8>, n: int) -> Seq<u8>
    decreases n,
{
    if n <= 0 || n > s.len() {
        Seq::empty()
    } else {
        let prev = kebab_prefix(s, n - 1);
        let c = s[n - 1];
        if c == 95 {
            prev.push(45)
        } else if is_upper(c) {
            let sep = if n - 1 > 0 && !(prev.len() > 0 && prev.last() == 45) {
                prev.push(45)
            } else {
                prev
            };
            sep.push((c + 32) as u8)
        } else {
            prev.push(c)
        }
    }
}

/// The kebab-case form of an identifier.
pub open spec fn kebab(s: Seq<u8>) -> Seq<u8> {
    kebab_prefix(s, s.len() as int)
}

/// Writes an ASCII identifier in kebab case: `_` becomes `-`, and each
/// capital letter becomes lower case, after a `-` unless it comes first or
/// right after one.
pub fn to_kebab_case(s: &[u8]) -> (r: Vec<u8>)
    ensures
        r@ == kebab(s@),
{
    let mut out: Vec<u8> = Vec::new();
    let mut i: usize = 0;
    while i < s.len()
        invariant
            i <= s.len(),
            out@ == kebab_prefix(s@, i as int),
        decreases s.len() - i,
    {
        let c = s[i];
        if c == 95 {
            out.push(45);
        } else if 65 <= c && c <= 90 {
            if i > 0 && !(out.len() > 0 && out[out.len() - 1] == 45) {
                out.push(45);
            }
            out.push(c + 32);
        } else {
            out.push(c);
        }
        i = i + 1;
    }
    out
}

} // verus!
