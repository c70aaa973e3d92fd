//! Repair of the import ABI of a module in the WebAssembly text format.
//!
//! A guest compiler declares `(result i32)` on imports that, under the
//! canonical ABI, return through an out-pointer or return nothing. The
//! rewriter gives each affected import a function type without that
//! result and drops the `drop` that followed each call to it.

use vstd::prelude::*;
use crate::text::{
    append_bytes, begins_with, bytes_equal, contains_bytes, copy_range, decimal, decimal_bytes, find_bytes,
    find_bytes_from, find_first, find_from, find_last, is_space, lemma_find_from_found, lemma_find_last_found,
    matches_at, occurs_in, parse_usize, parsed_usize, replace_all, replace_bytes, rfind_bytes, trim_bytes,
    join_bytes, join_with, split_bytes, split_parts, trimmed, views,
};
use crate::tokens::{
    close_paren, close_paren_bytes, double_close, double_close_bytes, func_slot_tag, func_slot_tag_bytes,
    func_tag, func_tag_bytes, import_tag, import_tag_bytes, quote, quote_bytes, slot_end, slot_end_bytes,
    type_ref_tag, type_ref_tag_bytes, type_slot_tag, type_slot_tag_bytes, result_tag, result_tag_bytes,
    result_i32, result_i32_bytes, spaced_result_i32, spaced_result_i32_bytes, new_type_head,
    new_type_head_bytes, module_open, slot_end_space, slot_end_space_bytes, call_tag, call_tag_bytes, drop_word,
    drop_word_bytes,
};

verus! {

/// An imported function that must declare no result: the name of its
/// interface and of the function.
pub struct ImportKey {
    pub interface: Vec<u8>,
    pub function: Vec<u8>,
}

/// Some key names the interface `m` and the function `n`.
pub open spec fn listed(keys: Seq<ImportKey>, m: Seq<u8>, n: Seq<u8>) -> bool {
    exists|k: int| 0 <= k < keys.len() && #[trigger] keys[k].interface@ == m && keys[k].function@ == n
}

/// Whether some key names the interface `m` and the function `n`.
pub fn is_listed(keys: &Vec<ImportKey>, m: &[u8], n: &[u8]) -> (r: bool)
    ensures
        r == listed(keys@, m@, n@),
{
    let mut k: usize = 0;
    while k < keys.len()
        invariant
            k <= keys.len(),
            forall|j: int| 0 <= j < k ==> !(#[trigger] keys@[j].interface@ == m@ && keys@[j].function@ == n@),
        decreases keys.len() - k,
    {
        if bytes_equal(keys[k].interface.as_slice(), m) && bytes_equal(keys[k].function.as_slice(), n) {
            return true;
        }
        k = k + 1;
    }
    false
}

/// The first and second quoted strings of an import line, as splitting at
/// `"` gives them: the text between the first two quotes, and the text after
/// the third quote up to the fourth, or to the end.
pub open spec fn quoted_names(line: Seq<u8>) -> Option<(Seq<u8>, Seq<u8>)> {
    let q = quote();
    match find_first(line, q) {
        Some(a) => match find_from(line, q, a + 1) {
            Some(b) => match find_from(line, q, b + 1) {
                Some(c) => {
                    let e = match find_from(line, q, c + 1) {
                        Some(d) => d,
                        None => line.len() as int,
                    };
                    Some((line.subrange(a + 1, b), line.subrange(c + 1, e)))
                },
                None => None,
            },
            None => None,
        },
        None => None,
    }
}

/// The module and field names of an import line.
pub fn quoted_names_of(line: &[u8]) -> (r: Option<(Vec<u8>, Vec<u8>)>)
    ensures
        r matches Some((m, n)) ==> quoted_names(line@) == Some((m@, n@)),
        r is None ==> quoted_names(line@) is None,
{
    let q = quote_bytes();
    let a = match find_bytes(line, q.as_slice()) {
        Some(a) => a,
        None => return None,
    };
    proof {
        lemma_find_from_found(line@, q@, 0);
        assert(q@.len() == 1);
        assert(a + 1 <= line@.len() == line.len());
    }
    let b = match find_bytes_from(line, q.as_slice(), a + 1) {
        Some(b) => b,
        None => return None,
    };
    proof {
        lemma_find_from_found(line@, q@, a + 1);
        assert(b + 1 <= line@.len() == line.len());
    }
    let c = match find_bytes_from(line, q.as_slice(), b + 1) {
        Some(c) => c,
        None => return None,
    };
    proof {
        lemma_find_from_found(line@, q@, b + 1);
    }
    let e = match find_bytes_from(line, q.as_slice(), c + 1) {
        Some(d) => {
            proof {
                lemma_find_from_found(line@, q@, c + 1);
            }
            d
        },
        None => line.len(),
    };
    Some((copy_range(line, a + 1, b), copy_range(line, c + 1, e)))
}

/// The number that follows the first `tag` in `line`, up to the next
/// `term`.
pub open spec fn number_after(line: Seq<u8>, tag: Seq<u8>, term: Seq<u8>) -> Option<usize> {
    match find_first(line, tag) {
        Some(p) => match find_from(line, term, p + tag.len()) {
            Some(e) => parsed_usize(line.subrange(p + tag.len(), e)),
            None => None,
        },
        None => None,
    }
}

/// Reads the number that follows the first `tag` in `line`, up to the next
/// `term`.
pub fn number_after_bytes(line: &[u8], tag: &[u8], term: &[u8]) -> (r: Option<usize>)
    ensures
        r == number_after(line@, tag@, term@),
{
    let p = match find_bytes(line, tag) {
        Some(p) => p,
        None => return None,
    };
    proof {
        lemma_find_from_found(line@, tag@, 0);
        assert(p + tag@.len() <= line@.len() == line.len());
    }
    let e = match find_bytes_from(line, term, p + tag.len()) {
        Some(e) => e,
        None => return None,
    };
    proof {
        lemma_find_from_found(line@, term@, p + tag.len());
    }
    let digits = copy_range(line, p + tag.len(), e);
    parse_usize(digits.as_slice())
}

/// An import line whose two names some key lists.
pub open spec fn import_listed(line: Seq<u8>, keys: Seq<ImportKey>) -> bool {
    match quoted_names(line) {
        Some((m, n)) => listed(keys, m, n),
        None => false,
    }
}

/// Whether `line` is an import line whose two names some key lists.
pub fn import_listed_of(line: &[u8], keys: &Vec<ImportKey>) -> (r: bool)
    ensures
        r == import_listed(line@, keys@),
{
    match quoted_names_of(line) {
        Some((m, n)) => is_listed(keys, m.as_slice(), n.as_slice()),
        None => false,
    }
}

/// For a function import line that some key lists: its function index and
/// the index of its function type.
pub open spec fn import_target(line: Seq<u8>, keys: Seq<ImportKey>) -> Option<(usize, usize)> {
    if occurs_in(line, import_tag()) && occurs_in(line, func_slot_tag()) && import_listed(line, keys) {
        match number_after(line, func_slot_tag(), slot_end()) {
            Some(f) => match number_after(line, type_ref_tag(), close_paren()) {
                Some(t) => Some((f, t)),
                None => None,
            },
            None => None,
        }
    } else {
        None
    }
}

/// Reads the function index and type index of a listed function import.
pub fn import_target_of(line: &[u8], keys: &Vec<ImportKey>) -> (r: Option<(usize, usize)>)
    ensures
        r == import_target(line@, keys@),
{
    let import = import_tag_bytes();
    let slot = func_slot_tag_bytes();
    if !(contains_bytes(line, import.as_slice()) && contains_bytes(line, slot.as_slice()) && import_listed_of(
        line,
        keys,
    )) {
        return None;
    }
    let f = match number_after_bytes(line, slot.as_slice(), slot_end_bytes().as_slice()) {
        Some(f) => f,
        None => return None,
    };
    match number_after_bytes(line, type_ref_tag_bytes().as_slice(), close_paren_bytes().as_slice()) {
        Some(t) => Some((f, t)),
        None => None,
    }
}

/// The index that a function type declaration line declares.
pub open spec fn decl_index(line: Seq<u8>) -> Option<usize> {
    if occurs_in(line, type_slot_tag()) && occurs_in(line, func_tag()) {
        number_after(line, type_slot_tag(), slot_end())
    } else {
        None
    }
}

/// Reads the index that a function type declaration line declares.
pub fn decl_index_of(line: &[u8]) -> (r: Option<usize>)
    ensures
        r == decl_index(line@),
{
    let slot = type_slot_tag_bytes();
    if contains_bytes(line, slot.as_slice()) && contains_bytes(line, func_tag_bytes().as_slice()) {
        number_after_bytes(line, slot.as_slice(), slot_end_bytes().as_slice())
    } else {
        None
    }
}

/// The signature text of a function type declaration: from `(func` up to
/// the last `))`, or to the end where there is none.
pub open spec fn params_text(line: Seq<u8>) -> Option<Seq<u8>> {
    match find_first(line, func_tag()) {
        Some(f) => {
            let part = line.skip(f);
            match find_last(part, double_close()) {
                Some(e) => Some(part.take(e)),
                None => Some(part),
            }
        },
        None => None,
    }
}

/// Cuts the signature text out of a function type declaration.
pub fn params_text_of(line: &[u8]) -> (r: Option<Vec<u8>>)
    ensures
        r matches Some(p) ==> params_text(line@) == Some(p@),
        r is None ==> params_text(line@) is None,
{
    let f = match find_bytes(line, func_tag_bytes().as_slice()) {
        Some(f) => f,
        None => return None,
    };
    proof {
        lemma_find_from_found(line@, func_tag(), 0);
    }
    let part = copy_range(line, f, line.len());
    assert(part@ =~= line@.skip(f as int));
    match rfind_bytes(part.as_slice(), double_close_bytes().as_slice()) {
        Some(e) => {
            proof {
                lemma_find_last_found(part@, double_close(), part@.len() + 1int);
            }
            let p = copy_range(part.as_slice(), 0, e);
            assert(p@ =~= part@.take(e as int));
            Some(p)
        },
        None => Some(part),
    }
}

/// The targets of the listed function imports among `lines`, in order.
pub open spec fn targets_of(lines: Seq<Seq<u8>>, keys: Seq<ImportKey>) -> Seq<(usize, usize)>
    decreases lines.len(),
{
    if lines.len() == 0 {
        Seq::empty()
    } else {
        let prev = targets_of(lines.drop_last(), keys);
        match import_target(lines.last(), keys) {
            Some(t) => prev.push(t),
            None => prev,
        }
    }
}

/// Collects the function index and type index of every listed function
/// import.
pub fn collect_targets(lines: &Vec<Vec<u8>>, keys: &Vec<ImportKey>) -> (r: Vec<(usize, usize)>)
    ensures
        r@ == targets_of(views(lines@), keys@),
{
    let mut out: Vec<(usize, usize)> = Vec::new();
    let mut i: usize = 0;
    while i < lines.len()
        invariant
            i <= lines.len(),
            out@ == targets_of(views(lines@).take(i as int), keys@),
        decreases lines.len() - i,
    {
        assert(views(lines@).take(i + 1).drop_last() =~= views(lines@).take(i as int));
        assert(views(lines@).take(i + 1).last() == lines@[i as int]@);
        match import_target_of(lines[i].as_slice(), keys) {
            Some(t) => out.push(t),
            None => {},
        }
        i = i + 1;
    }
    assert(views(lines@).take(i as int) =~= views(lines@));
    out
}

/// The views of a list of declarations.
pub open spec fn decl_views(v: Seq<(usize, Vec<u8>)>) -> Seq<(usize, Seq<u8>)> {
    v.map_values(|d: (usize, Vec<u8>)| (d.0, d.1@))
}

/// The function type declarations among `lines`, with their indices, in
/// order.
pub open spec fn decls_of(lines: Seq<Seq<u8>>) -> Seq<(usize, Seq<u8>)>
    decreases lines.len(),
{
    if lines.len() == 0 {
        Seq::empty()
    } else {
        let prev = decls_of(lines.drop_last());
        match decl_index(lines.last()) {
            Some(t) => prev.push((t, lines.last())),
            None => prev,
        }
    }
}

/// Collects every function type declaration with its index.
pub fn collect_decls(lines: &Vec<Vec<u8>>) -> (r: Vec<(usize, Vec<u8>)>)
    ensures
        decl_views(r@) == decls_of(views(lines@)),
{
    let mut out: Vec<(usize, Vec<u8>)> = Vec::new();
    let mut i: usize = 0;
    while i < lines.len()
        invariant
            i <= lines.len(),
            decl_views(out@) == decls_of(views(lines@).take(i as int)),
        decreases lines.len() - i,
    {
        assert(views(lines@).take(i + 1).drop_last() =~= views(lines@).take(i as int));
        assert(views(lines@).take(i + 1).last() == lines@[i as int]@);
        match decl_index_of(lines[i].as_slice()) {
            Some(t) => {
                let ghost before = out@;
                out.push((t, copy_range(lines[i].as_slice(), 0, lines[i].len())));
                assert(lines@[i as int]@.subrange(0, lines@[i as int]@.len() as int) =~= lines@[i as int]@);
                assert(decl_views(out@) =~= decl_views(before).push((t, lines@[i as int]@)));
            },
            None => {},
        }
        i = i + 1;
    }
    assert(views(lines@).take(i as int) =~= views(lines@));
    out
}

/// The declaration line of type `t`: the last one that declares it.
pub open spec fn decl_of(decls: Seq<(usize, Seq<u8>)>, t: usize) -> Option<Seq<u8>>
    decreases decls.len(),
{
    if decls.len() == 0 {
        None
    } else if decls.last().0 == t {
        Some(decls.last().1)
    } else {
        decl_of(decls.drop_last(), t)
    }
}

/// Finds the declaration line of type `t`.
pub fn decl_of_exec(decls: &Vec<(usize, Vec<u8>)>, t: usize) -> (r: Option<Vec<u8>>)
    ensures
        r matches Some(d) ==> decl_of(decl_views(decls@), t) == Some(d@),
        r is None ==> decl_of(decl_views(decls@), t) is None,
{
    let mut k: usize = decls.len();
    assert(decl_views(decls@).take(k as int) =~= decl_views(decls@));
    while k > 0
        invariant
            k <= decls.len(),
            decl_of(decl_views(decls@), t) == decl_of(decl_views(decls@).take(k as int), t),
        decreases k,
    {
        assert(decl_views(decls@).take(k as int).drop_last() =~= decl_views(decls@).take(k - 1));
        if decls[k - 1].0 == t {
            let d = &decls[k - 1].1;
            return Some(copy_range(d.as_slice(), 0, d.len()));
        }
        k = k - 1;
    }
    None
}

/// The views of a list of signature entries.
pub open spec fn entry_views(v: Seq<(Vec<u8>, usize)>) -> Seq<(Seq<u8>, usize)> {
    v.map_values(|e: (Vec<u8>, usize)| (e.0@, e.1))
}

/// The result-free function types among the declarations, by signature
/// text, in order.
pub open spec fn result_free_of(decls: Seq<(usize, Seq<u8>)>) -> Seq<(Seq<u8>, usize)>
    decreases decls.len(),
{
    if decls.len() == 0 {
        Seq::empty()
    } else {
        let prev = result_free_of(decls.drop_last());
        let line = decls.last().1;
        if !occurs_in(line, result_tag()) {
            match params_text(line) {
                Some(p) => prev.push((p, decls.last().0)),
                None => prev,
            }
        } else {
            prev
        }
    }
}

/// Lists the result-free function types by signature text.
pub fn result_free_entries(decls: &Vec<(usize, Vec<u8>)>) -> (r: Vec<(Vec<u8>, usize)>)
    ensures
        entry_views(r@) == result_free_of(decl_views(decls@)),
{
    let mut out: Vec<(Vec<u8>, usize)> = Vec::new();
    let mut i: usize = 0;
    while i < decls.len()
        invariant
            i <= decls.len(),
            entry_views(out@) == result_free_of(decl_views(decls@).take(i as int)),
        decreases decls.len() - i,
    {
        assert(decl_views(decls@).take(i + 1).drop_last() =~= decl_views(decls@).take(i as int));
        let line = &decls[i].1;
        if !contains_bytes(line.as_slice(), result_tag_bytes().as_slice()) {
            match params_text_of(line.as_slice()) {
                Some(p) => {
                    let ghost before = out@;
                    out.push((p, decls[i].0));
                    assert(entry_views(out@) =~= entry_views(before).push((p@, decls@[i as int].0)));
                },
                None => {},
            }
        }
        i = i + 1;
    }
    assert(decl_views(decls@).take(i as int) =~= decl_views(decls@));
    out
}

/// The type that a signature text names: the last entry with that text.
pub open spec fn type_for(entries: Seq<(Seq<u8>, usize)>, p: Seq<u8>) -> Option<usize>
    decreases entries.len(),
{
    if entries.len() == 0 {
        None
    } else if entries.last().0 == p {
        Some(entries.last().1)
    } else {
        type_for(entries.drop_last(), p)
    }
}

/// Looks up the type that a signature text names.
pub fn type_for_exec(entries: &Vec<(Vec<u8>, usize)>, p: &[u8]) -> (r: Option<usize>)
    ensures
        r == type_for(entry_views(entries@), p@),
{
    let mut k: usize = entries.len();
    assert(entry_views(entries@).take(k as int) =~= entry_views(entries@));
    while k > 0
        invariant
            k <= entries.len(),
            type_for(entry_views(entries@), p@) == type_for(entry_views(entries@).take(k as int), p@),
        decreases k,
    {
        assert(entry_views(entries@).take(k as int).drop_last() =~= entry_views(entries@).take(k - 1));
        if bytes_equal(entries[k - 1].0.as_slice(), p) {
            return Some(entries[k - 1].1);
        }
        k = k - 1;
    }
    None
}

/// The largest declared type index, 0 where there is none.
pub open spec fn max_index(decls: Seq<(usize, Seq<u8>)>) -> usize
    decreases decls.len(),
{
    if decls.len() == 0 {
        0
    } else {
        let m = max_index(decls.drop_last());
        if decls.last().0 > m {
            decls.last().0
        } else {
            m
        }
    }
}

/// The index that the first new type takes: one past the largest declared
/// index (1 where none is declared); `usize::MAX` where that does not fit,
/// and then no type is added.
pub open spec fn first_free_index(decls: Seq<(usize, Seq<u8>)>) -> usize {
    if max_index(decls) < usize::MAX {
        (max_index(decls) + 1) as usize
    } else {
        usize::MAX
    }
}

/// Computes the index that the first new type takes.
pub fn first_free_index_exec(decls: &Vec<(usize, Vec<u8>)>) -> (r: usize)
    ensures
        r == first_free_index(decl_views(decls@)),
{
    let mut m: usize = 0;
    let mut i: usize = 0;
    while i < decls.len()
        invariant
            i <= decls.len(),
            m == max_index(decl_views(decls@).take(i as int)),
        decreases decls.len() - i,
    {
        assert(decl_views(decls@).take(i + 1).drop_last() =~= decl_views(decls@).take(i as int));
        if decls[i].0 > m {
            m = decls[i].0;
        }
        i = i + 1;
    }
    assert(decl_views(decls@).take(i as int) =~= decl_views(decls@));
    if m < usize::MAX {
        m + 1
    } else {
        usize::MAX
    }
}

/// A declaration with its `(result i32)` taken out.
pub open spec fn stripped(d: Seq<u8>) -> Seq<u8> {
    replace_all(replace_all(d, spaced_result_i32(), Seq::empty()), result_i32(), Seq::empty())
}

/// The signature text that type `t` has once its single `i32` result is
/// taken out; none where it is not declared or has no such result.
pub open spec fn corrected_sig(decls: Seq<(usize, Seq<u8>)>, t: usize) -> Option<Seq<u8>> {
    match decl_of(decls, t) {
        Some(d) => if occurs_in(d, result_i32()) {
            params_text(stripped(d))
        } else {
            None
        },
        None => None,
    }
}

/// Computes the corrected signature text of type `t`.
pub fn corrected_sig_exec(decls: &Vec<(usize, Vec<u8>)>, t: usize) -> (r: Option<Vec<u8>>)
    ensures
        r matches Some(p) ==> corrected_sig(decl_views(decls@), t) == Some(p@),
        r is None ==> corrected_sig(decl_views(decls@), t) is None,
{
    let d = match decl_of_exec(decls, t) {
        Some(d) => d,
        None => return None,
    };
    if !contains_bytes(d.as_slice(), result_i32_bytes().as_slice()) {
        return None;
    }
    let empty: Vec<u8> = Vec::new();
    assert(empty@ =~= Seq::<u8>::empty());
    let once = replace_bytes(d.as_slice(), spaced_result_i32_bytes().as_slice(), empty.as_slice());
    let twice = replace_bytes(once.as_slice(), result_i32_bytes().as_slice(), empty.as_slice());
    params_text_of(twice.as_slice())
}

/// The declaration line of a new result-free type.
pub open spec fn new_type_line(n: usize, p: Seq<u8>) -> Seq<u8> {
    new_type_head() + decimal(n as nat) + slot_end_space() + p + double_close()
}

/// Writes the declaration line of a new result-free type.
pub fn new_type_line_exec(n: usize, p: &[u8]) -> (r: Vec<u8>)
    ensures
        r@ == new_type_line(n, p@),
{
    let mut out = new_type_head_bytes();
    append_bytes(&mut out, decimal_bytes(n).as_slice());
    append_bytes(&mut out, slot_end_space_bytes().as_slice());
    append_bytes(&mut out, p);
    append_bytes(&mut out, double_close_bytes().as_slice());
    out
}

/// The retyping decided so far: each affected type with its result-free
/// replacement, the new declarations, the result-free types by signature
/// text, and the index that the next new type takes.
pub struct Retyping {
    pub retyped: Seq<(usize, usize)>,
    pub new_types: Seq<Seq<u8>>,
    pub free: Seq<(Seq<u8>, usize)>,
    pub next: usize,
}

/// Retypes `t`: reuse the result-free type with the same signature text,
/// or add one with the next free index.
pub open spec fn retype_one(decls: Seq<(usize, Seq<u8>)>, st: Retyping, t: usize) -> Retyping {
    match corrected_sig(decls, t) {
        Some(p) => match type_for(st.free, p) {
            Some(n) => Retyping { retyped: st.retyped.push((t, n)), ..st },
            None => if st.next < usize::MAX {
                Retyping {
                    retyped: st.retyped.push((t, st.next)),
                    new_types: st.new_types.push(new_type_line(st.next, p)),
                    free: st.free.push((p, st.next)),
                    next: (st.next + 1) as usize,
                }
            } else {
                st
            },
        },
        None => st,
    }
}

/// Retypes each of `types` in turn.
pub open spec fn retype_all(decls: Seq<(usize, Seq<u8>)>, types: Seq<usize>, init: Retyping) -> Retyping
    decreases types.len(),
{
    if types.len() == 0 {
        init
    } else {
        retype_one(decls, retype_all(decls, types.drop_last(), init), types.last())
    }
}

/// The state before any type is retyped.
pub open spec fn initial_retyping(decls: Seq<(usize, Seq<u8>)>) -> Retyping {
    Retyping {
        retyped: Seq::empty(),
        new_types: Seq::empty(),
        free: result_free_of(decls),
        next: first_free_index(decls),
    }
}

/// The type indices of the targets, each once, in order of first use.
pub open spec fn distinct_types(targets: Seq<(usize, usize)>) -> Seq<usize>
    decreases targets.len(),
{
    if targets.len() == 0 {
        Seq::empty()
    } else {
        let prev = distinct_types(targets.drop_last());
        if prev.contains(targets.last().1) {
            prev
        } else {
            prev.push(targets.last().1)
        }
    }
}

/// Lists the type indices of the targets, each once.
pub fn distinct_types_exec(targets: &Vec<(usize, usize)>) -> (r: Vec<usize>)
    ensures
        r@ == distinct_types(targets@),
{
    let mut out: Vec<usize> = Vec::new();
    let mut i: usize = 0;
    while i < targets.len()
        invariant
            i <= targets.len(),
            out@ == distinct_types(targets@.take(i as int)),
        decreases targets.len() - i,
    {
        assert(targets@.take(i + 1).drop_last() =~= targets@.take(i as int));
        let t = targets[i].1;
        let mut k: usize = 0;
        let mut seen = false;
        while k < out.len()
            invariant
                k <= out.len(),
                seen == exists|j: int| 0 <= j < k && out@[j] == t,
            decreases out.len() - k,
        {
            if out[k] == t {
                seen = true;
            }
            k = k + 1;
        }
        if !seen {
            out.push(t);
        }
        i = i + 1;
    }
    assert(targets@.take(i as int) =~= targets@);
    out
}

/// The retyping of the affected types: each affected type with its
/// result-free replacement, and the declarations of the new types.
pub fn plan_retypes(decls: &Vec<(usize, Vec<u8>)>, types: &Vec<usize>) -> (r: (Vec<(usize, usize)>, Vec<Vec<u8>>))
    ensures
        r.0@ == retype_all(decl_views(decls@), types@, initial_retyping(decl_views(decls@))).retyped,
        views(r.1@) == retype_all(decl_views(decls@), types@, initial_retyping(decl_views(decls@))).new_types,
{
    let ghost dv = decl_views(decls@);
    let ghost init = initial_retyping(dv);
    let mut retyped: Vec<(usize, usize)> = Vec::new();
    let mut new_types: Vec<Vec<u8>> = Vec::new();
    let mut free = result_free_entries(decls);
    let mut next = first_free_index_exec(decls);
    let mut i: usize = 0;
    assert(views(new_types@) =~= Seq::<Seq<u8>>::empty());
    assert(types@.take(0) =~= Seq::<usize>::empty());
    while i < types.len()
        invariant
            i <= types.len(),
            dv == decl_views(decls@),
            init == initial_retyping(dv),
            retyped@ == retype_all(dv, types@.take(i as int), init).retyped,
            views(new_types@) == retype_all(dv, types@.take(i as int), init).new_types,
            entry_views(free@) == retype_all(dv, types@.take(i as int), init).free,
            next == retype_all(dv, types@.take(i as int), init).next,
        decreases types.len() - i,
    {
        assert(types@.take(i + 1).drop_last() =~= types@.take(i as int));
        let t = types[i];
        match corrected_sig_exec(decls, t) {
            Some(p) => match type_for_exec(&free, p.as_slice()) {
                Some(n) => {
                    retyped.push((t, n));
                },
                None => {
                    if next < usize::MAX {
                        retyped.push((t, next));
                        let ghost nt = new_types@;
                        new_types.push(new_type_line_exec(next, p.as_slice()));
                        assert(views(new_types@) =~= views(nt).push(new_type_line(next, p@)));
                        let ghost fr = free@;
                        free.push((p, next));
                        assert(entry_views(free@) =~= entry_views(fr).push((p@, next)));
                        next = next + 1;
                    }
                },
            },
            None => {},
        }
        i = i + 1;
    }
    assert(types@.take(i as int) =~= types@);
    (retyped, new_types)
}

/// A reference to type `n`: `(type n)`.
pub open spec fn type_ref(n: usize) -> Seq<u8> {
    type_ref_tag() + decimal(n as nat) + close_paren()
}

/// Writes a reference to type `n`.
pub fn type_ref_exec(n: usize) -> (r: Vec<u8>)
    ensures
        r@ == type_ref(n),
        r@.len() > 0,
{
    let mut out = type_ref_tag_bytes();
    append_bytes(&mut out, decimal_bytes(n).as_slice());
    append_bytes(&mut out, close_paren_bytes().as_slice());
    out
}

/// `line` with each reference to a retyped type pointed at its
/// replacement, one retyping after the other.
pub open spec fn apply_retypes(line: Seq<u8>, rs: Seq<(usize, usize)>) -> Seq<u8>
    decreases rs.len(),
{
    if rs.len() == 0 {
        line
    } else {
        replace_all(apply_retypes(line, rs.drop_last()), type_ref(rs.last().0), type_ref(rs.last().1))
    }
}

/// The line refers to one of the retyped types.
pub open spec fn mentions_retyped(line: Seq<u8>, rs: Seq<(usize, usize)>) -> bool {
    exists|k: int| 0 <= k < rs.len() && occurs_in(line, type_ref(#[trigger] rs[k].0))
}

/// A line after retyping: a listed import line that refers to a retyped
/// type has its type references repointed and its inline `(result i32)`
/// taken out, so that its inline signature agrees with the new type; any
/// other line stays.
pub open spec fn rewrite_line(line: Seq<u8>, keys: Seq<ImportKey>, rs: Seq<(usize, usize)>) -> Seq<u8> {
    if occurs_in(line, import_tag()) && import_listed(line, keys) && mentions_retyped(line, rs) {
        replace_all(apply_retypes(line, rs), spaced_result_i32(), Seq::empty())
    } else {
        line
    }
}

/// Whether the line refers to one of the retyped types.
fn mentions_retyped_exec(line: &[u8], rs: &Vec<(usize, usize)>) -> (r: bool)
    ensures
        r == mentions_retyped(line@, rs@),
{
    let mut k: usize = 0;
    while k < rs.len()
        invariant
            k <= rs.len(),
            forall|j: int| 0 <= j < k ==> !occurs_in(line@, type_ref(#[trigger] rs@[j].0)),
        decreases rs.len() - k,
    {
        if contains_bytes(line, type_ref_exec(rs[k].0).as_slice()) {
            return true;
        }
        k = k + 1;
    }
    false
}

/// Rewrites one line.
pub fn rewrite_line_exec(line: &Vec<u8>, keys: &Vec<ImportKey>, rs: &Vec<(usize, usize)>) -> (r: Vec<u8>)
    ensures
        r@ == rewrite_line(line@, keys@, rs@),
{
    let mut out = copy_range(line.as_slice(), 0, line.len());
    assert(out@ =~= line@);
    if !(contains_bytes(line.as_slice(), import_tag_bytes().as_slice()) && import_listed_of(line.as_slice(), keys)
        && mentions_retyped_exec(line.as_slice(), rs)) {
        return out;
    }
    let mut k: usize = 0;
    assert(rs@.take(0) =~= Seq::<(usize, usize)>::empty());
    while k < rs.len()
        invariant
            k <= rs.len(),
            out@ == apply_retypes(line@, rs@.take(k as int)),
        decreases rs.len() - k,
    {
        assert(rs@.take(k + 1).drop_last() =~= rs@.take(k as int));
        let from = type_ref_exec(rs[k].0);
        let to = type_ref_exec(rs[k].1);
        out = replace_bytes(out.as_slice(), from.as_slice(), to.as_slice());
        k = k + 1;
    }
    assert(rs@.take(k as int) =~= rs@);
    let empty: Vec<u8> = Vec::new();
    assert(empty@ =~= Seq::<u8>::empty());
    replace_bytes(out.as_slice(), spaced_result_i32_bytes().as_slice(), empty.as_slice())
}

/// The first line at or after `i` that holds an import.
pub open spec fn first_import_from(lines: Seq<Seq<u8>>, i: int) -> Option<int>
    decreases lines.len() - i,
{
    if i < 0 || i >= lines.len() {
        None
    } else if occurs_in(lines[i], import_tag()) {
        Some(i)
    } else {
        first_import_from(lines, i + 1)
    }
}

/// The lines after retyping, with the new type declarations placed just
/// before the first import.
pub open spec fn rewritten_lines(
    lines: Seq<Seq<u8>>,
    keys: Seq<ImportKey>,
    rs: Seq<(usize, usize)>,
    new_types: Seq<Seq<u8>>,
) -> Seq<Seq<u8>> {
    let body = lines.map_values(|l: Seq<u8>| rewrite_line(l, keys, rs));
    match first_import_from(lines, 0) {
        Some(k) => if new_types.len() > 0 {
            body.take(k) + new_types + body.skip(k)
        } else {
            body
        },
        None => body,
    }
}

/// Finds the first line that holds an import.
pub fn first_import_exec(lines: &Vec<Vec<u8>>) -> (r: Option<usize>)
    ensures
        r matches Some(k) ==> first_import_from(views(lines@), 0) == Some(k as int) && k < lines.len(),
        r is None ==> first_import_from(views(lines@), 0) is None,
{
    let tag = import_tag_bytes();
    let mut i: usize = 0;
    while i < lines.len()
        invariant
            i <= lines.len(),
            tag@ == import_tag(),
            first_import_from(views(lines@), 0) == first_import_from(views(lines@), i as int),
        decreases lines.len() - i,
    {
        if contains_bytes(lines[i].as_slice(), tag.as_slice()) {
            return Some(i);
        }
        i = i + 1;
    }
    None
}

/// Rewrites every line and places the new type declarations.
pub fn rewrite_lines(
    lines: &Vec<Vec<u8>>,
    keys: &Vec<ImportKey>,
    rs: &Vec<(usize, usize)>,
    new_types: &Vec<Vec<u8>>,
) -> (r: Vec<Vec<u8>>)
    ensures
        views(r@) == rewritten_lines(views(lines@), keys@, rs@, views(new_types@)),
{
    let ghost body = views(lines@).map_values(|l: Seq<u8>| rewrite_line(l, keys@, rs@));
    let cut: usize = match first_import_exec(lines) {
        Some(k) => if new_types.len() > 0 {
            k
        } else {
            lines.len()
        },
        None => lines.len(),
    };
    let mut out: Vec<Vec<u8>> = Vec::new();
    let mut i: usize = 0;
    while i < lines.len()
        invariant
            i <= lines.len(),
            cut <= lines.len(),
            body == views(lines@).map_values(|l: Seq<u8>| rewrite_line(l, keys@, rs@)),
            i <= cut ==> views(out@) == body.take(i as int),
            i > cut ==> views(out@) == body.take(cut as int) + views(new_types@) + body.subrange(cut as int, i as int),
        decreases lines.len() - i,
    {
        if i == cut {
            let mut j: usize = 0;
            while j < new_types.len()
                invariant
                    j <= new_types.len(),
                    i == cut,
                    views(out@) == body.take(i as int) + views(new_types@).take(j as int),
                decreases new_types.len() - j,
            {
                let ghost before = views(out@);
                out.push(copy_range(new_types[j].as_slice(), 0, new_types[j].len()));
                assert(new_types@[j as int]@.subrange(0, new_types@[j as int]@.len() as int) =~= new_types@[j as int]@);
                assert(views(out@) =~= before.push(new_types@[j as int]@));
                assert(views(new_types@).take(j + 1) =~= views(new_types@).take(j as int).push(new_types@[j as int]@));
                j = j + 1;
            }
            assert(views(new_types@).take(j as int) =~= views(new_types@));
        }
        let ghost before = views(out@);
        out.push(rewrite_line_exec(&lines[i], keys, rs));
        assert(views(out@) =~= before.push(body[i as int]));
        if i < cut {
            assert(body.take(i + 1) =~= body.take(i as int).push(body[i as int]));
        } else {
            assert(body.subrange(cut as int, i + 1) =~= body.subrange(cut as int, i as int).push(body[i as int]));
            if i == cut {
                assert(body.subrange(cut as int, i as int) =~= Seq::<Seq<u8>>::empty());
                assert(body.take(cut as int) + views(new_types@) =~= body.take(cut as int) + views(new_types@)
                    + body.subrange(cut as int, i as int));
            }
            assert(views(out@) =~= body.take(cut as int) + views(new_types@) + body.subrange(cut as int, i + 1));
        }
        i = i + 1;
    }
    if cut == lines.len() {
        assert(body.take(i as int) =~= body);
    } else {
        assert(body.subrange(cut as int, i as int) =~= body.skip(cut as int));
    }
    out
}

/// The first space at or after `i`, or the end.
pub open spec fn word_end(s: Seq<u8>, i: int) -> int
    decreases s.len() - i,
{
    if i < 0 || i >= s.len() {
        s.len() as int
    } else if is_space(s[i]) {
        i
    } else {
        word_end(s, i + 1)
    }
}

/// The first byte at or after `i` that is no space, or the end.
pub open spec fn skip_spaces(s: Seq<u8>, i: int) -> int
    decreases s.len() - i,
{
    if 0 <= i < s.len() && is_space(s[i]) {
        skip_spaces(s, i + 1)
    } else {
        i
    }
}

/// The function index that a `call` instruction line names: the second
/// word of the line, read as a number.
pub open spec fn called_index(line: Seq<u8>) -> Option<usize> {
    let t = trimmed(line);
    if begins_with(t, call_tag()) {
        let a = skip_spaces(t, 4);
        let b = word_end(t, a);
        if a < b {
            parsed_usize(t.subrange(a, b))
        } else {
            None
        }
    } else {
        None
    }
}

/// Reads the function index that a `call` instruction line names.
pub fn called_index_of(line: &[u8]) -> (r: Option<usize>)
    ensures
        r == called_index(line@),
{
    let t = trim_bytes(line);
    if !matches_at(t.as_slice(), call_tag_bytes().as_slice(), 0) {
        return None;
    }
    let mut a: usize = 4;
    while a < t.len() && (t[a] == 32 || (9 <= t[a] && t[a] <= 13))
        invariant
            4 <= a <= t.len(),
            skip_spaces(t@, 4) == skip_spaces(t@, a as int),
        decreases t.len() - a,
    {
        a = a + 1;
    }
    let mut b: usize = a;
    while b < t.len() && !(t[b] == 32 || (9 <= t[b] && t[b] <= 13))
        invariant
            a <= b <= t.len(),
            word_end(t@, a as int) == word_end(t@, b as int),
        decreases t.len() - b,
    {
        b = b + 1;
    }
    if a < b {
        let w = copy_range(t.as_slice(), a, b);
        parse_usize(w.as_slice())
    } else {
        None
    }
}

/// A call to one of `funcs`.
pub open spec fn calls_one_of(line: Seq<u8>, funcs: Seq<usize>) -> bool {
    match called_index(line) {
        Some(f) => funcs.contains(f),
        None => false,
    }
}

/// The lines from `i` on, with the `drop` line that directly follows a call
/// to one of `funcs` taken out.
pub open spec fn drops_removed_from(lines: Seq<Seq<u8>>, funcs: Seq<usize>, i: int) -> Seq<Seq<u8>>
    decreases lines.len() - i,
{
    if i < 0 || i >= lines.len() {
        Seq::empty()
    } else if calls_one_of(lines[i], funcs) && i + 1 < lines.len() && trimmed(lines[i + 1]) == drop_word() {
        seq![lines[i]] + drops_removed_from(lines, funcs, i + 2)
    } else {
        seq![lines[i]] + drops_removed_from(lines, funcs, i + 1)
    }
}

/// Whether `funcs` holds `f`.
fn holds_index(funcs: &Vec<usize>, f: usize) -> (r: bool)
    ensures
        r == funcs@.contains(f),
{
    let mut k: usize = 0;
    while k < funcs.len()
        invariant
            k <= funcs.len(),
            forall|j: int| 0 <= j < k ==> funcs@[j] != f,
        decreases funcs.len() - k,
    {
        if funcs[k] == f {
            assert(funcs@[k as int] == f);
            return true;
        }
        k = k + 1;
    }
    false
}

/// Takes out each `drop` line that directly follows a call to one of
/// `funcs`.
pub fn remove_drops(lines: &Vec<Vec<u8>>, funcs: &Vec<usize>) -> (r: Vec<Vec<u8>>)
    ensures
        views(r@) == drops_removed_from(views(lines@), funcs@, 0),
{
    let ghost ls = views(lines@);
    let drop = drop_word_bytes();
    let mut out: Vec<Vec<u8>> = Vec::new();
    let mut i: usize = 0;
    while i < lines.len()
        invariant
            i <= lines.len() + 1,
            ls == views(lines@),
            drop@ == drop_word(),
            views(out@) + drops_removed_from(ls, funcs@, i as int) == drops_removed_from(ls, funcs@, 0),
        decreases lines.len() + 1 - i,
    {
        let ghost before = views(out@);
        let line = &lines[i];
        out.push(copy_range(line.as_slice(), 0, line.len()));
        assert(line@.subrange(0, line@.len() as int) =~= line@);
        assert(views(out@) =~= before.push(ls[i as int]));
        let is_call = match called_index_of(line.as_slice()) {
            Some(f) => holds_index(funcs, f),
            None => false,
        };
        if is_call && i + 1 < lines.len() && bytes_equal(trim_bytes(lines[i + 1].as_slice()).as_slice(), drop.as_slice()) {
            assert(before + (seq![ls[i as int]] + drops_removed_from(ls, funcs@, i + 2)) =~= views(out@)
                + drops_removed_from(ls, funcs@, i + 2));
            i = i + 2;
        } else {
            assert(before + (seq![ls[i as int]] + drops_removed_from(ls, funcs@, i + 1)) =~= views(out@)
                + drops_removed_from(ls, funcs@, i + 1));
            i = i + 1;
        }
    }
    assert(views(out@) =~= views(out@) + drops_removed_from(ls, funcs@, i as int));
    out
}

/// `t` is one of the retyped types.
pub open spec fn is_retyped(rs: Seq<(usize, usize)>, t: usize) -> bool {
    exists|k: int| 0 <= k < rs.len() && #[trigger] rs[k].0 == t
}

/// The function indices of the targets whose type was retyped, in order:
/// the imports that no longer return a value.
pub open spec fn corrected_funcs(targets: Seq<(usize, usize)>, rs: Seq<(usize, usize)>) -> Seq<usize>
    decreases targets.len(),
{
    if targets.len() == 0 {
        Seq::empty()
    } else {
        let prev = corrected_funcs(targets.drop_last(), rs);
        if is_retyped(rs, targets.last().1) {
            prev.push(targets.last().0)
        } else {
            prev
        }
    }
}

fn is_retyped_exec(rs: &Vec<(usize, usize)>, t: usize) -> (r: bool)
    ensures
        r == is_retyped(rs@, t),
{
    let mut k: usize = 0;
    while k < rs.len()
        invariant
            k <= rs.len(),
            forall|j: int| 0 <= j < k ==> rs@[j].0 != t,
        decreases rs.len() - k,
    {
        if rs[k].0 == t {
            assert(rs@[k as int].0 == t);
            return true;
        }
        k = k + 1;
    }
    false
}

/// The retyping that the listed imports among `lines` call for.
pub open spec fn retyping_of(lines: Seq<Seq<u8>>, keys: Seq<ImportKey>) -> Retyping {
    let decls = decls_of(lines);
    retype_all(decls, distinct_types(targets_of(lines, keys)), initial_retyping(decls))
}

/// The corrected lines, or none where no import needs correcting.
pub open spec fn corrected_lines(lines: Seq<Seq<u8>>, keys: Seq<ImportKey>) -> Option<Seq<Seq<u8>>> {
    let targets = targets_of(lines, keys);
    let st = retyping_of(lines, keys);
    if targets.len() == 0 || st.retyped.len() == 0 {
        None
    } else {
        Some(
            drops_removed_from(
                rewritten_lines(lines, keys, st.retyped, st.new_types),
                corrected_funcs(targets, st.retyped),
                0,
            ),
        )
    }
}

/// The corrected text of a module, or none where it needs no correction.
pub open spec fn corrected_text(text: Seq<u8>, keys: Seq<ImportKey>) -> Option<Seq<u8>> {
    if !occurs_in(text, import_tag()) {
        None
    } else {
        match corrected_lines(split_parts(text, 10), keys) {
            Some(ls) => Some(join_with(ls, 10)),
            None => None,
        }
    }
}

/// Corrects the import ABI of a module in the text format: listed function
/// imports whose type has a single `i32` result are pointed at a type
/// without it (an existing one with the same parameters, or a new one
/// declared before the first import), and the `drop` right after a call to
/// an import so corrected goes. Gives `None` where nothing needs correcting.
pub fn fix_import_abi_text(text: &[u8], keys: &Vec<ImportKey>) -> (r: Option<Vec<u8>>)
    ensures
        r matches Some(t) ==> corrected_text(text@, keys@) == Some(t@),
        r is None ==> corrected_text(text@, keys@) is None,
{
    if !contains_bytes(text, import_tag_bytes().as_slice()) {
        return None;
    }
    let lines = split_bytes(text, 10);
    let targets = collect_targets(&lines, keys);
    if targets.len() == 0 {
        return None;
    }
    let decls = collect_decls(&lines);
    let types = distinct_types_exec(&targets);
    let (retyped, new_types) = plan_retypes(&decls, &types);
    if retyped.len() == 0 {
        return None;
    }
    let rewritten = rewrite_lines(&lines, keys, &retyped, &new_types);
    let mut funcs: Vec<usize> = Vec::new();
    let mut i: usize = 0;
    while i < targets.len()
        invariant
            i <= targets.len(),
            funcs@ == corrected_funcs(targets@.take(i as int), retyped@),
        decreases targets.len() - i,
    {
        assert(targets@.take(i + 1).drop_last() =~= targets@.take(i as int));
        if is_retyped_exec(&retyped, targets[i].1) {
            funcs.push(targets[i].0);
        }
        i = i + 1;
    }
    assert(targets@.take(i as int) =~= targets@);
    let fixed = remove_drops(&rewritten, &funcs);
    Some(join_bytes(&fixed, 10))
}

#[verifier::external_type_specification]
#[verifier::external_body]
pub struct ExAnyhowError(anyhow::Error);

#[verifier::external_type_specification]
#[verifier::external_body]
pub struct ExWatError(wat::Error);

/// The text form that the printer gives for a module's bytes, or none
/// where it cannot print them.
pub uninterp spec fn printed(wasm: Seq<u8>) -> Option<Seq<u8>>;

/// The binary module that the assembler gives for the text of a core
/// module, or none where it cannot assemble it.
pub uninterp spec fn assembled(text: Seq<u8>) -> Option<Seq<u8>>;

/// Relies on `wasmprinter::print_bytes`: it disassembles a module into its
/// text form; whether it succeeds, and what it prints, depend on the
/// module's bytes alone.
#[verifier::external_body]
fn print_module(wasm: &[u8]) -> (r: Result<Vec<u8>, anyhow::Error>)
    ensures
        (r is Ok) == (printed(wasm@) is Some),
        r matches Ok(t) ==> printed(wasm@) == Some(t@),
{
    wasmprinter::print_bytes(wasm).map(|s| s.into_bytes())
}

/// Relies on `wat::parse_bytes`: it assembles a text into a binary module.
/// For the text of a core module (beginning with `(module`), whether it
/// succeeds, and what it gives, depend on the text alone; component texts
/// also depend on the process environment, so nothing is claimed of them.
#[verifier::external_body]
fn assemble_text(text: &[u8]) -> (r: Result<Vec<u8>, wat::Error>)
    ensures
        begins_with(text@, module_open()) ==> (r is Ok) == (assembled(text@) is Some),
        begins_with(text@, module_open()) ==> (r matches Ok(b) ==> assembled(text@) == Some(b@)),
{
    wat::parse_bytes(text).map(|b| b.into_owned())
}

/// Why an ABI correction failed.
#[derive(Clone, Copy, Debug, PartialEq, Eq, Structural)]
pub enum AbiError {
    /// The module could not be disassembled.
    Disassemble,
    /// The corrected text could not be assembled again.
    Reassemble,
}

/// Corrects the import ABI of a binary module: disassembles it, corrects
/// the text, and assembles it again. A module that needs no correction
/// comes back unchanged, byte for byte. What assembling gives is stated for
/// core-module texts, which is what the printer gives for a module.
pub fn fix_import_abi(wasm: &[u8], keys: &Vec<ImportKey>) -> (r: Result<Vec<u8>, AbiError>)
    ensures
        (r == Err::<Vec<u8>, AbiError>(AbiError::Disassemble)) == (printed(wasm@) is None),
        printed(wasm@) matches Some(t) ==> match corrected_text(t, keys@) {
            None => r matches Ok(o) && o@ == wasm@,
            Some(c) => if begins_with(c, module_open()) {
                match assembled(c) {
                    Some(b) => r matches Ok(o) && o@ == b,
                    None => r == Err::<Vec<u8>, AbiError>(AbiError::Reassemble),
                }
            } else {
                r is Ok || r == Err::<Vec<u8>, AbiError>(AbiError::Reassemble)
            },
        },
{
    let text = match print_module(wasm) {
        Ok(t) => t,
        Err(_) => return Err(AbiError::Disassemble),
    };
    match fix_import_abi_text(text.as_slice(), keys) {
        None => {
            let same = copy_range(wasm, 0, wasm.len());
            assert(same@ =~= wasm@);
            Ok(same)
        },
        Some(fixed) => match assemble_text(fixed.as_slice()) {
            Ok(b) => Ok(b),
            Err(_) => Err(AbiError::Reassemble),
        },
    }
}

proof fn lemma_type_for_push(free: Seq<(Seq<u8>, usize)>, p: Seq<u8>, n: usize, q: Seq<u8>)
    ensures
        type_for(free.push((p, n)), q) == if q == p {
            Some(n)
        } else {
            type_for(free, q)
        },
{
    assert(free.push((p, n)).drop_last() =~= free);
}

/// Each retyped type has a corrected signature text, and the free types
/// name its replacement under that text.
pub open spec fn retyping_consistent(decls: Seq<(usize, Seq<u8>)>, st: Retyping) -> bool {
    forall|a: int|
        0 <= a < st.retyped.len() ==> corrected_sig(decls, #[trigger] st.retyped[a].0) is Some && type_for(
            st.free,
            corrected_sig(decls, st.retyped[a].0)->0,
        ) == Some(st.retyped[a].1)
}

proof fn lemma_retype_consistent(decls: Seq<(usize, Seq<u8>)>, types: Seq<usize>, init: Retyping)
    requires
        retyping_consistent(decls, init),
    ensures
        retyping_consistent(decls, retype_all(decls, types, init)),
    decreases types.len(),
{
    if types.len() > 0 {
        lemma_retype_consistent(decls, types.drop_last(), init);
        let st = retype_all(decls, types.drop_last(), init);
        let t = types.last();
        match corrected_sig(decls, t) {
            Some(p) => match type_for(st.free, p) {
                Some(n) => {},
                None => if st.next < usize::MAX {
                    let st2 = retype_one(decls, st, t);
                    assert forall|a: int| 0 <= a < st2.retyped.len() implies corrected_sig(
                        decls,
                        #[trigger] st2.retyped[a].0,
                    ) is Some && type_for(st2.free, corrected_sig(decls, st2.retyped[a].0)->0) == Some(
                        st2.retyped[a].1,
                    ) by {
                        let q = corrected_sig(decls, st2.retyped[a].0)->0;
                        lemma_type_for_push(st.free, p, st.next, q);
                    }
                },
            },
            None => {},
        }
    }
}

/// Type reuse: two retyped types whose signature texts agree once the
/// result is taken out get the same result-free type, so imports that share
/// a parameter list share one corrected type.
pub proof fn lemma_type_reuse(lines: Seq<Seq<u8>>, keys: Seq<ImportKey>, a: int, b: int)
    requires
        0 <= a < retyping_of(lines, keys).retyped.len(),
        0 <= b < retyping_of(lines, keys).retyped.len(),
        corrected_sig(decls_of(lines), retyping_of(lines, keys).retyped[a].0) == corrected_sig(
            decls_of(lines),
            retyping_of(lines, keys).retyped[b].0,
        ),
    ensures
        retyping_of(lines, keys).retyped[a].1 == retyping_of(lines, keys).retyped[b].1,
{
    let decls = decls_of(lines);
    let init = initial_retyping(decls);
    lemma_retype_consistent(decls, distinct_types(targets_of(lines, keys)), init);
    let st = retyping_of(lines, keys);
    assert(corrected_sig(decls, st.retyped[a].0) is Some);
    assert(corrected_sig(decls, st.retyped[b].0) is Some);
}

proof fn lemma_distinct_from_targets(targets: Seq<(usize, usize)>, j: int)
    requires
        0 <= j < distinct_types(targets).len(),
    ensures
        exists|k: int| 0 <= k < targets.len() && #[trigger] targets[k].1 == distinct_types(targets)[j],
    decreases targets.len(),
{
    let prev = distinct_types(targets.drop_last());
    if j < prev.len() {
        lemma_distinct_from_targets(targets.drop_last(), j);
        let k = choose|k: int| 0 <= k < targets.drop_last().len() && #[trigger] targets.drop_last()[k].1 == prev[j];
        assert(targets[k].1 == distinct_types(targets)[j]);
    } else {
        assert(targets[targets.len() - 1].1 == distinct_types(targets)[j]);
    }
}

proof fn lemma_retype_none(decls: Seq<(usize, Seq<u8>)>, types: Seq<usize>, init: Retyping)
    requires
        forall|j: int| 0 <= j < types.len() ==> corrected_sig(decls, #[trigger] types[j]) is None,
    ensures
        retype_all(decls, types, init) == init,
    decreases types.len(),
{
    if types.len() > 0 {
        lemma_retype_none(decls, types.drop_last(), init);
        assert(corrected_sig(decls, types[types.len() - 1]) is None);
    }
}

/// No-op guarantee: a module text without imports, or whose listed imports
/// all have types without a single `i32` result, needs no correction, so
/// `fix_import_abi` hands the module back byte for byte.
pub proof fn lemma_abi_no_op(text: Seq<u8>, keys: Seq<ImportKey>)
    requires
        !occurs_in(text, import_tag()) || forall|k: int|
            0 <= k < targets_of(split_parts(text, 10), keys).len() ==> corrected_sig(
                decls_of(split_parts(text, 10)),
                #[trigger] targets_of(split_parts(text, 10), keys)[k].1,
            ) is None,
    ensures
        corrected_text(text, keys) is None,
{
    if occurs_in(text, import_tag()) {
        let lines = split_parts(text, 10);
        let targets = targets_of(lines, keys);
        let types = distinct_types(targets);
        assert forall|j: int| 0 <= j < types.len() implies corrected_sig(decls_of(lines), #[trigger] types[j]) is None by {
            lemma_distinct_from_targets(targets, j);
        }
        lemma_retype_none(decls_of(lines), types, initial_retyping(decls_of(lines)));
    }
}

} // verus!
