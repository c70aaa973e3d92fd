//! Byte-level text operations on ASCII-oriented text, each specified exactly.

use vstd::prelude::*;

verus! {

/// `n` occurs in `h` at position `i`.
pub open spec fn occurs_at(h: Seq<u8>, n: Seq<u8>, i: int) -> bool {
    0 <= i && i + n.len() <= h.len() && h.subrange(i, i + n.len()) == n
}

/// The first position at or after `i` where `n` occurs in `h`.
pub open spec fn find_from(h: Seq<u8>, n: Seq<u8>, i: int) -> Option<int>
    decreases h.len() + 1 - i,
{
    if i < 0 || i + n.len() > h.len() {
        None
    } else if occurs_at(h, n, i) {
        Some(i)
    } else {
        find_from(h, n, i + 1)
    }
}

/// The first position where `n` occurs in `h`.
pub open spec fn find_first(h: Seq<u8>, n: Seq<u8>) -> Option<int> {
    find_from(h, n, 0)
}

/// `n` occurs somewhere in `h`.
pub open spec fn occurs_in(h: Seq<u8>, n: Seq<u8>) -> bool {
    find_first(h, n) is Some
}

/// The last position below `k` where `n` occurs in `h`.
pub open spec fn find_last_below(h: Seq<u8>, n: Seq<u8>, k: int) -> Option<int>
    decreases k,
{
    if k <= 0 {
        None
    } else if occurs_at(h, n, k - 1) {
        Some(k - 1)
    } else {
        find_last_below(h, n, k - 1)
    }
}

/// The last position where `n` occurs in `h`.
pub open spec fn find_last(h: Seq<u8>, n: Seq<u8>) -> Option<int> {
    find_last_below(h, n, h.len() + 1int)
}

/// Whether `n` occurs in `h` at position `i`.
pub fn matches_at(h: &[u8], n: &[u8], i: usize) -> (r: bool)
    ensures
        r == occurs_at(h@, n@, i as int),
{
    if i > h.len() || n.len() > h.len() - i {
        return false;
    }
    let mut j: usize = 0;
    while j < n.len()
        invariant
            j <= n.len(),
            i + n.len() <= h.len(),
            h@.subrange(i as int, i + j) == n@.subrange(0, j as int),
        decreases n.len() - j,
    {
        if h[i + j] != n[j] {
            assert(h@.subrange(i as int, i + n.len())[j as int] != n@[j as int]);
            return false;
        }
        assert(h@.subrange(i as int, i + j + 1) =~= h@.subrange(i as int, i + j).push(h@[i + j]));
        assert(n@.subrange(0, j + 1) =~= n@.subrange(0, j as int).push(n@[j as int]));
        j = j + 1;
    }
    assert(n@.subrange(0, n.len() as int) =~= n@);
    true
}

/// The first position at or after `start` where `n` occurs in `h`.
pub fn find_bytes_from(h: &[u8], n: &[u8], start: usize) -> (r: Option<usize>)
    ensures
        r matches Some(i) ==> find_from(h@, n@, start as int) == Some(i as int),
        r is None ==> find_from(h@, n@, start as int) is None,
{
    if start > h.len() {
        return None;
    }
    let mut i: usize = start;
    while i <= h.len() && n.len() <= h.len() - i
        invariant
            start <= i <= h.len() + 1,
            find_from(h@, n@, start as int) == find_from(h@, n@, i as int),
        decreases h.len() + 1 - i,
    {
        if matches_at(h, n, i) {
            return Some(i);
        }
        if i == h.len() {
            assert(find_from(h@, n@, i + 1) is None);
            return None;
        }
        i = i + 1;
    }
    None
}

/// The first position where `n` occurs in `h` (`str::find`).
pub fn find_bytes(h: &[u8], n: &[u8]) -> (r: Option<usize>)
    ensures
        r matches Some(i) ==> find_first(h@, n@) == Some(i as int),
        r is None ==> find_first(h@, n@) is None,
{
    find_bytes_from(h, n, 0)
}

/// Whether `n` occurs in `h` (`str::contains`).
pub fn contains_bytes(h: &[u8], n: &[u8]) -> (r: bool)
    ensures
        r == occurs_in(h@, n@),
{
    find_bytes(h, n).is_some()
}

/// The last position where `n` occurs in `h` (`str::rfind`).
pub fn rfind_bytes(h: &[u8], n: &[u8]) -> (r: Option<usize>)
    ensures
        r matches Some(i) ==> find_last(h@, n@) == Some(i as int),
        r is None ==> find_last(h@, n@) is None,
{
    let mut k: usize = h.len();
    loop
        invariant
            k <= h.len(),
            find_last(h@, n@) == find_last_below(h@, n@, k + 1),
        decreases k,
    {
        if matches_at(h, n, k) {
            return Some(k);
        }
        if k == 0 {
            assert(find_last_below(h@, n@, 0) is None);
            return None;
        }
        k = k - 1;
    }
}

/// Appends `b` to `out`.
pub fn append_bytes(out: &mut Vec<u8>, b: &[u8])
    ensures
        final(out)@ == old(out)@ + b@,
{
    let mut j: usize = 0;
    while j < b.len()
        invariant
            j <= b.len(),
            out@ == old(out)@ + b@.subrange(0, j as int),
        decreases b.len() - j,
    {
        out.push(b[j]);
        assert(b@.subrange(0, j + 1) =~= b@.subrange(0, j as int).push(b@[j as int]));
        j = j + 1;
    }
    assert(b@.subrange(0, b.len() as int) =~= b@);
}

/// `s` with every occurrence of `from`, scanned left to right without
/// overlap, replaced by `to` (`str::replace`).
pub open spec fn replace_all(s: Seq<u8>, from: Seq<u8>, to: Seq<u8>) -> Seq<u8>
    decreases s.len(),
{
    if from.len() == 0 || s.len() < from.len() {
        s
    } else if s.subrange(0, from.len() as int) == from {
        to + replace_all(s.skip(from.len() as int), from, to)
    } else {
        seq![s[0]] + replace_all(s.skip(1), from, to)
    }
}

/// Replaces every occurrence of `from` in `s` by `to`.
pub fn replace_bytes(s: &[u8], from: &[u8], to: &[u8]) -> (r: Vec<u8>)
    requires
        from.len() > 0,
    ensures
        r@ == replace_all(s@, from@, to@),
{
    let mut out: Vec<u8> = Vec::new();
    let mut i: usize = 0;
    assert(s@.skip(0) =~= s@);
    assert(out@ + replace_all(s@, from@, to@) =~= replace_all(s@, from@, to@));
    while i < s.len()
        invariant
            from.len() > 0,
            i <= s.len(),
            out@ + replace_all(s@.skip(i as int), from@, to@) == replace_all(s@, from@, to@),
        decreases s.len() - i,
    {
        let ghost rest = s@.skip(i as int);
        let ghost before = out@;
        if from.len() <= s.len() - i && matches_at(s, from, i) {
            assert(rest.subrange(0, from.len() as int) =~= s@.subrange(i as int, i + from.len()));
            assert(rest.skip(from.len() as int) =~= s@.skip(i + from.len()));
            append_bytes(&mut out, to);
            assert(before + (to@ + replace_all(s@.skip(i + from.len()), from@, to@)) =~= out@
                + replace_all(s@.skip(i + from.len()), from@, to@));
            i = i + from.len();
        } else {
            if from.len() <= s.len() - i {
                assert(rest.subrange(0, from.len() as int) =~= s@.subrange(i as int, i + from.len()));
            } else {
                assert(replace_all(rest.skip(1), from@, to@) == rest.skip(1));
            }
            assert(rest.skip(1) =~= s@.skip(i + 1));
            assert(rest[0] == s@[i as int]);
            out.push(s[i]);
            assert(before + (seq![s@[i as int]] + replace_all(s@.skip(i + 1), from@, to@)) =~= out@
                + replace_all(s@.skip(i + 1), from@, to@));
            i = i + 1;
        }
    }
    assert(s@.skip(i as int) =~= Seq::<u8>::empty());
    assert(out@ =~= out@ + s@.skip(i as int));
    out
}

/// The views of a sequence of byte vectors.
pub open spec fn views(v: Seq<Vec<u8>>) -> Seq<Seq<u8>> {
    v.map_values(|x: Vec<u8>| x@)
}

/// `parts` joined with the separator `c` between each two.
pub open spec fn join_with(parts: Seq<Seq<u8>>, c: u8) -> Seq<u8>
    decreases parts.len(),
{
    if parts.len() == 0 {
        Seq::empty()
    } else if parts.len() == 1 {
        parts[0]
    } else {
        join_with(parts.drop_last(), c).push(c) + parts.last()
    }
}

/// No part holds the byte `c`.
pub open spec fn free_of(parts: Seq<Seq<u8>>, c: u8) -> bool {
    forall|k: int, j: int| 0 <= k < parts.len() && 0 <= j < parts[k].len() ==> #[trigger] parts[k][j] != c
}

proof fn lemma_join_extend_last(ps: Seq<Seq<u8>>, x: Seq<u8>, b: u8, c: u8)
    ensures
        join_with(ps.push(x.push(b)), c) == join_with(ps.push(x), c).push(b),
{
    assert(ps.push(x.push(b)).drop_last() =~= ps);
    assert(ps.push(x).drop_last() =~= ps);
    if ps.len() == 0 {
    } else {
        assert(join_with(ps, c).push(c) + x.push(b) =~= (join_with(ps, c).push(c) + x).push(b));
    }
}

proof fn lemma_join_new_part(ps: Seq<Seq<u8>>, c: u8)
    requires
        ps.len() > 0,
    ensures
        join_with(ps.push(Seq::empty()), c) == join_with(ps, c).push(c),
{
    assert(ps.push(Seq::<u8>::empty()).drop_last() =~= ps);
    assert(join_with(ps, c).push(c) + Seq::<u8>::empty() =~= join_with(ps, c).push(c));
}

/// `s` cut at every byte `c`, the last cut taken first.
pub open spec fn split_parts(s: Seq<u8>, c: u8) -> Seq<Seq<u8>>
    decreases s.len(),
{
    match find_last(s, seq![c]) {
        Some(i) => if 0 <= i < s.len() {
            split_parts(s.take(i), c).push(s.skip(i + 1))
        } else {
            seq![s]
        },
        None => seq![s],
    }
}

proof fn lemma_find_last_single(s: Seq<u8>, c: u8, p: int, k: int)
    requires
        0 <= p < s.len(),
        s[p] == c,
        p < k <= s.len() + 1,
        forall|q: int| p < q < s.len() ==> s[q] != c,
    ensures
        find_last_below(s, seq![c], k) == Some(p),
    decreases k - p,
{
    if k == p + 1 {
        assert(s.subrange(p, p + 1) =~= seq![c]);
    } else {
        if k - 1 < s.len() {
            assert(s.subrange(k - 1, k)[0] != c);
        }
        lemma_find_last_single(s, c, p, k - 1);
    }
}

proof fn lemma_find_last_absent(s: Seq<u8>, c: u8, k: int)
    requires
        k <= s.len() + 1,
        forall|q: int| 0 <= q < s.len() ==> s[q] != c,
    ensures
        find_last_below(s, seq![c], k) is None,
    decreases k,
{
    if k > 0 {
        if k - 1 < s.len() {
            assert(s.subrange(k - 1, k)[0] != c);
        }
        lemma_find_last_absent(s, c, k - 1);
    }
}

/// Cutting a join of parts free of `c` at every `c` gives the parts back.
pub proof fn lemma_split_join(ps: Seq<Seq<u8>>, c: u8)
    requires
        ps.len() >= 1,
        free_of(ps, c),
    ensures
        split_parts(join_with(ps, c), c) == ps,
    decreases ps.len(),
{
    let j = join_with(ps, c);
    if ps.len() == 1 {
        assert forall|q: int| 0 <= q < j.len() implies j[q] != c by {
            assert(ps[0][q] != c);
        }
        lemma_find_last_absent(j, c, j.len() + 1int);
        assert(seq![j] =~= ps);
    } else {
        let init = ps.drop_last();
        let head = join_with(init, c);
        let p = head.len() as int;
        assert forall|q: int| p < q < j.len() implies j[q] != c by {
            assert(j[q] == ps.last()[q - p - 1]);
            assert(ps[ps.len() - 1][q - p - 1] != c);
        }
        lemma_find_last_single(j, c, p, j.len() + 1int);
        assert(j.take(p) =~= head);
        assert(j.skip(p + 1) =~= ps.last());
        assert forall|k: int, i: int| 0 <= k < init.len() && 0 <= i < init[k].len() implies #[trigger] init[k][i] != c by {
            assert(ps[k][i] != c);
        }
        lemma_split_join(init, c);
        assert(init.push(ps.last()) =~= ps);
    }
}

/// Splits `s` at every byte `c` (`str::split`): the parts, joined again with
/// `c`, give `s`, and none of them holds `c`.
pub fn split_bytes(s: &[u8], c: u8) -> (r: Vec<Vec<u8>>)
    ensures
        r@.len() >= 1,
        join_with(views(r@), c) == s@,
        free_of(views(r@), c),
        views(r@) == split_parts(s@, c),
{
    let mut parts: Vec<Vec<u8>> = Vec::new();
    let mut cur: Vec<u8> = Vec::new();
    let mut i: usize = 0;
    assert(s@.take(0) =~= join_with(views(parts@).push(cur@), c));
    while i < s.len()
        invariant
            i <= s.len(),
            join_with(views(parts@).push(cur@), c) == s@.take(i as int),
            free_of(views(parts@), c),
            forall|j: int| 0 <= j < cur@.len() ==> cur@[j] != c,
        decreases s.len() - i,
    {
        let b = s[i];
        assert(s@.take(i + 1) =~= s@.take(i as int).push(b));
        if b == c {
            let ghost ps = views(parts@).push(cur@);
            parts.push(cur);
            cur = Vec::new();
            assert(views(parts@) =~= ps);
            proof { lemma_join_new_part(ps, c); }
        } else {
            let ghost ps = views(parts@);
            let ghost x = cur@;
            cur.push(b);
            proof { lemma_join_extend_last(ps, x, b, c); }
        }
        i = i + 1;
    }
    let ghost ps = views(parts@).push(cur@);
    parts.push(cur);
    assert(views(parts@) =~= ps);
    assert(s@.take(i as int) =~= s@);
    proof {
        lemma_split_join(views(parts@), c);
    }
    parts
}

/// Joins `parts` with the byte `c` (`join`).
pub fn join_bytes(parts: &Vec<Vec<u8>>, c: u8) -> (r: Vec<u8>)
    ensures
        r@ == join_with(views(parts@), c),
{
    let mut out: Vec<u8> = Vec::new();
    let mut k: usize = 0;
    while k < parts.len()
        invariant
            k <= parts.len(),
            out@ == join_with(views(parts@).take(k as int), c),
        decreases parts.len() - k,
    {
        let ghost before = out@;
        assert(views(parts@).take(k + 1).drop_last() =~= views(parts@).take(k as int));
        if k > 0 {
            out.push(c);
        }
        append_bytes(&mut out, parts[k].as_slice());
        if k == 0 {
            assert(out@ =~= parts@[0]@);
        }
        k = k + 1;
    }
    assert(views(parts@).take(k as int) =~= views(parts@));
    out
}

/// ASCII white space, as `u8::is_ascii_whitespace` has it, with vertical tab.
pub open spec fn is_space(b: u8) -> bool {
    b == 32 || (9 <= b && b <= 13)
}

/// `s` without leading white space.
pub open spec fn trim_start(s: Seq<u8>) -> Seq<u8>
    decreases s.len(),
{
    if s.len() > 0 && is_space(s[0]) {
        trim_start(s.skip(1))
    } else {
        s
    }
}

/// `s` without trailing white space.
pub open spec fn trim_end(s: Seq<u8>) -> Seq<u8>
    decreases s.len(),
{
    if s.len() > 0 && is_space(s.last()) {
        trim_end(s.drop_last())
    } else {
        s
    }
}

/// `s` without white space at either end.
pub open spec fn trimmed(s: Seq<u8>) -> Seq<u8> {
    trim_end(trim_start(s))
}

/// Strips white space at both ends of `s` (`str::trim` on ASCII text).
pub fn trim_bytes(s: &[u8]) -> (r: Vec<u8>)
    ensures
        r@ == trimmed(s@),
{
    let mut a: usize = 0;
    assert(s@.skip(0) =~= s@);
    while a < s.len() && (s[a] == 32 || (9 <= s[a] && s[a] <= 13))
        invariant
            a <= s.len(),
            trim_start(s@) == trim_start(s@.skip(a as int)),
        decreases s.len() - a,
    {
        assert(s@.skip(a as int).skip(1) =~= s@.skip(a + 1));
        a = a + 1;
    }
    let mut b: usize = s.len();
    assert(s@.skip(a as int) =~= s@.subrange(a as int, b as int));
    while b > a && (s[b - 1] == 32 || (9 <= s[b - 1] && s[b - 1] <= 13))
        invariant
            a <= b <= s.len(),
            trim_start(s@) == s@.skip(a as int),
            trimmed(s@) == trim_end(s@.subrange(a as int, b as int)),
        decreases b - a,
    {
        assert(s@.subrange(a as int, b as int).drop_last() =~= s@.subrange(a as int, b - 1));
        b = b - 1;
    }
    let mut out: Vec<u8> = Vec::new();
    let mut k: usize = a;
    while k < b
        invariant
            a <= k <= b <= s.len(),
            out@ == s@.subrange(a as int, k as int),
        decreases b - k,
    {
        out.push(s[k]);
        assert(s@.subrange(a as int, k + 1) =~= s@.subrange(a as int, k as int).push(s@[k as int]));
        k = k + 1;
    }
    out
}

/// `s` begins with `p`.
pub open spec fn begins_with(s: Seq<u8>, p: Seq<u8>) -> bool {
    occurs_at(s, p, 0)
}

/// A decimal digit.
pub open spec fn is_digit(b: u8) -> bool {
    48 <= b && b <= 57
}

/// The value of the decimal digits `s`.
pub open spec fn digits_value(s: Seq<u8>) -> nat
    decreases s.len(),
{
    if s.len() == 0 {
        0
    } else {
        digits_value(s.drop_last()) * 10 + (s.last() - 48) as nat
    }
}

/// The digits of an unsigned number in text: one leading `+` is allowed.
pub open spec fn unsigned_body(s: Seq<u8>) -> Seq<u8> {
    if s.len() > 0 && s[0] == 43 {
        s.skip(1)
    } else {
        s
    }
}

/// What `str::parse::<usize>` gives: the value of a non-empty run of decimal
/// digits after an optional `+`, where it fits in `usize`.
pub open spec fn parsed_usize(s: Seq<u8>) -> Option<usize> {
    let d = unsigned_body(s);
    if d.len() > 0 && (forall|j: int| 0 <= j < d.len() ==> is_digit(#[trigger] d[j])) && digits_value(d)
        <= usize::MAX {
        Some(digits_value(d) as usize)
    } else {
        None
    }
}

proof fn lemma_digits_monotone(d: Seq<u8>, k: int)
    requires
        0 <= k <= d.len(),
        forall|j: int| 0 <= j < d.len() ==> is_digit(#[trigger] d[j]),
    ensures
        digits_value(d.take(k)) <= digits_value(d),
    decreases d.len() - k,
{
    if k < d.len() {
        lemma_digits_monotone(d, k + 1);
        assert(d.take(k + 1).drop_last() =~= d.take(k));
    } else {
        assert(d.take(k) =~= d);
    }
}

/// Parses an unsigned decimal number (`str::parse::<usize>`).
pub fn parse_usize(s: &[u8]) -> (r: Option<usize>)
    ensures
        r == parsed_usize(s@),
{
    let mut i: usize = 0;
    if s.len() > 0 && s[0] == 43 {
        i = 1;
    }
    let ghost d = unsigned_body(s@);
    assert(d =~= s@.skip(i as int));
    if i >= s.len() {
        return None;
    }
    let mut v: usize = 0;
    let start = i;
    assert(d.take(0) =~= Seq::<u8>::empty());
    while i < s.len()
        invariant
            start <= i <= s.len(),
            start < s.len(),
            d == s@.skip(start as int),
            d == unsigned_body(s@),
            v == digits_value(d.take(i - start)),
            forall|j: int| 0 <= j < i - start ==> is_digit(#[trigger] d[j]),
        decreases s.len() - i,
    {
        let b = s[i];
        assert(d[i - start] == b);
        if b < 48 || b > 57 {
            assert(!is_digit(d[i - start]));
            assert(!(forall|j: int| 0 <= j < d.len() ==> is_digit(#[trigger] d[j])));
            return None;
        }
        assert(d.take(i - start + 1).drop_last() =~= d.take(i - start));
        assert(d.take(i - start + 1).last() == b);
        assert(digits_value(d.take(i - start + 1)) == v * 10 + (b - 48) as nat);
        match v.checked_mul(10) {
            Some(m) => match m.checked_add((b - 48) as usize) {
                Some(n) => {
                    v = n;
                },
                None => {
                    proof {
                        if forall|j: int| 0 <= j < d.len() ==> is_digit(#[trigger] d[j]) {
                            lemma_digits_monotone(d, i - start + 1);
                        }
                    }
                    return None;
                },
            },
            None => {
                proof {
                    if forall|j: int| 0 <= j < d.len() ==> is_digit(#[trigger] d[j]) {
                        lemma_digits_monotone(d, i - start + 1);
                    }
                    assert(digits_value(d.take(i - start + 1)) >= v * 10) by (nonlinear_arith)
                        requires
                            digits_value(d.take(i - start + 1)) == v * 10 + (b - 48) as nat,
                    ;
                }
                return None;
            },
        }
        i = i + 1;
    }
    assert(d.take(i - start) =~= d);
    Some(v)
}

/// The decimal digits of `n`.
pub open spec fn decimal(n: nat) -> Seq<u8>
    decreases n,
{
    if n < 10 {
        seq![(48 + n) as u8]
    } else {
        decimal(n / 10).push((48 + n % 10) as u8)
    }
}

/// Writes `n` in decimal.
pub fn decimal_bytes(n: usize) -> (r: Vec<u8>)
    ensures
        r@ == decimal(n as nat),
    decreases n,
{
    if n < 10 {
        let mut v: Vec<u8> = Vec::new();
        v.push((48 + n) as u8);
        assert(v@ =~= decimal(n as nat));
        v
    } else {
        let mut v = decimal_bytes(n / 10);
        v.push((48 + n % 10) as u8);
        v
    }
}

/// Where `find_from` finds `n`, it occurs there, at or after `i`.
pub proof fn lemma_find_from_found(h: Seq<u8>, n: Seq<u8>, i: int)
    requires
        find_from(h, n, i) is Some,
    ensures
        i <= find_from(h, n, i)->0,
        occurs_at(h, n, find_from(h, n, i)->0),
    decreases h.len() + 1 - i,
{
    if !occurs_at(h, n, i) {
        lemma_find_from_found(h, n, i + 1);
    }
}

/// The bytes of `s` from `a` up to `b`.
pub fn copy_range(s: &[u8], a: usize, b: usize) -> (r: Vec<u8>)
    requires
        a <= b <= s.len(),
    ensures
        r@ == s@.subrange(a as int, b as int),
{
    let mut out: Vec<u8> = Vec::new();
    let mut k: usize = a;
    while k < b
        invariant
            a <= k <= b <= s.len(),
            out@ == s@.subrange(a as int, k as int),
        decreases b - k,
    {
        out.push(s[k]);
        assert(s@.subrange(a as int, k + 1) =~= s@.subrange(a as int, k as int).push(s@[k as int]));
        k = k + 1;
    }
    out
}

/// Whether `a` and `b` hold the same bytes.
pub fn bytes_equal(a: &[u8], b: &[u8]) -> (r: bool)
    ensures
        r == (a@ == b@),
{
    if a.len() != b.len() {
        return false;
    }
    let mut k: usize = 0;
    while k < a.len()
        invariant
            k <= a.len() == b.len(),
            a@.take(k as int) == b@.take(k as int),
        decreases a.len() - k,
    {
        if a[k] != b[k] {
            return false;
        }
        assert(a@.take(k + 1) =~= a@.take(k as int).push(a@[k as int]));
        assert(b@.take(k + 1) =~= b@.take(k as int).push(b@[k as int]));
        k = k + 1;
    }
    assert(a@.take(k as int) =~= a@);
    assert(b@.take(k as int) =~= b@);
    true
}

/// Where `find_last` finds `n`, it occurs there.
pub proof fn lemma_find_last_found(h: Seq<u8>, n: Seq<u8>, k: int)
    requires
        find_last_below(h, n, k) is Some,
    ensures
        occurs_at(h, n, find_last_below(h, n, k)->0),
    decreases k,
{
    if !occurs_at(h, n, k - 1) {
        lemma_find_last_found(h, n, k - 1);
    }
}

proof fn lemma_trim_start_len(s: Seq<u8>)
    ensures
        trim_start(s).len() <= s.len(),
    decreases s.len(),
{
    if s.len() > 0 && is_space(s[0]) {
        lemma_trim_start_len(s.skip(1));
    }
}

proof fn lemma_trim_end_len(s: Seq<u8>)
    ensures
        trim_end(s).len() <= s.len(),
    decreases s.len(),
{
    if s.len() > 0 && is_space(s.last()) {
        lemma_trim_end_len(s.drop_last());
    }
}

/// Trimming never lengthens a text.
pub proof fn lemma_trimmed_len(s: Seq<u8>)
    ensures
        trimmed(s).len() <= s.len(),
{
    lemma_trim_start_len(s);
    lemma_trim_end_len(trim_start(s));
}

/// `s` cut at each occurrence of `sep`, scanned left to right
/// (`str::split` with a text pattern).
pub open spec fn split_on(s: Seq<u8>, sep: Seq<u8>) -> Seq<Seq<u8>>
    decreases s.len(),
{
    match find_first(s, sep) {
        Some(p) => if sep.len() > 0 && 0 <= p && p + sep.len() <= s.len() {
            seq![s.take(p)] + split_on(s.skip(p + sep.len()), sep)
        } else {
            seq![s]
        },
        None => seq![s],
    }
}

/// Cuts `s` at each occurrence of `sep`.
pub fn split_bytes_on(s: &[u8], sep: &[u8]) -> (r: Vec<Vec<u8>>)
    requires
        sep.len() > 0,
    ensures
        views(r@) == split_on(s@, sep@),
        r@.len() >= 1,
{
    let mut parts: Vec<Vec<u8>> = Vec::new();
    let mut rest = copy_range(s, 0, s.len());
    assert(rest@ =~= s@);
    assert(views(parts@) + split_on(rest@, sep@) =~= split_on(s@, sep@));
    loop
        invariant
            sep.len() > 0,
            views(parts@) + split_on(rest@, sep@) == split_on(s@, sep@),
        decreases rest.len(),
    {
        let ghost before = views(parts@);
        match find_bytes(rest.as_slice(), sep) {
            Some(p) => {
                proof {
                    lemma_find_from_found(rest@, sep@, 0);
                    assert(p + sep@.len() <= rest@.len() == rest.len());
                }
                let head = copy_range(rest.as_slice(), 0, p);
                let tail = copy_range(rest.as_slice(), p + sep.len(), rest.len());
                assert(head@ =~= rest@.take(p as int));
                assert(tail@ =~= rest@.skip(p + sep.len()));
                parts.push(head);
                assert(views(parts@) =~= before.push(rest@.take(p as int)));
                assert(before + (seq![rest@.take(p as int)] + split_on(tail@, sep@)) =~= views(parts@)
                    + split_on(tail@, sep@));
                rest = tail;
            },
            None => {
                let ghost last = rest@;
                parts.push(rest);
                assert(views(parts@) =~= before + seq![last]);
                return parts;
            },
        }
    }
}

} // verus!
