//! The order on dotted version numbers, as a sign (`-1`, `0`, `1`).

use vstd::prelude::*;
use crate::text::{
    chars_of, find_sep, first_sep, is_digit, parse_u64, parse_uint_in, pieces, ranges_within, split,
    split_ranges,
};

verus! {

/// The ASCII digits, as a separator set.
pub open spec fn digit_set() -> Seq<char> {
    seq!['0', '1', '2', '3', '4', '5', '6', '7', '8', '9']
}

pub fn digit_set_exec() -> (v: Vec<char>)
    ensures
        v@ == digit_set(),
{
    let v = vec!['0', '1', '2', '3', '4', '5', '6', '7', '8', '9'];
    assert(v@ =~= digit_set());
    v
}

/// The separators of version components.
pub open spec fn version_seps() -> Seq<char> {
    seq!['.', '-', '_']
}

/// Length of the leading run of ASCII digits.
pub open spec fn digit_run(p: Seq<char>) -> nat
    decreases p.len(),
{
    if p.len() > 0 && is_digit(p[0]) {
        1 + digit_run(p.drop_first())
    } else {
        0
    }
}

/// The pieces before the first empty one.
pub open spec fn until_empty(ps: Seq<Seq<char>>) -> Seq<Seq<char>>
    decreases ps.len(),
{
    if ps.len() == 0 || ps[0].len() == 0 {
        seq![]
    } else {
        seq![ps[0]] + until_empty(ps.drop_first())
    }
}

/// The numbers read from the leading digits of each piece, skipping pieces
/// whose leading digits do not form a `u64`.
pub open spec fn numbers_of(ps: Seq<Seq<char>>) -> Seq<u64>
    decreases ps.len(),
{
    if ps.len() == 0 {
        seq![]
    } else {
        let init = numbers_of(ps.drop_last());
        let last = ps.last();
        match parse_u64(last.take(digit_run(last) as int)) {
            Some(n) => init.push(n),
            None => init,
        }
    }
}

/// The text after the leading non-digits.
pub open spec fn from_first_digit(v: Seq<char>) -> Seq<char> {
    match first_sep(v, digit_set(), false) {
        Some(i) => v.skip(i),
        None => seq![],
    }
}

/// Numeric components of a version string: leading non-digits are dropped,
/// the rest is split at `.`, `-` and `_` up to the first empty piece, and the
/// leading digits of each piece are read as a number.
pub open spec fn version_numbers(v: Seq<char>) -> Seq<u64> {
    numbers_of(until_empty(split(from_first_digit(v), version_seps(), false)))
}

/// Component `i`, zero past the end.
pub open spec fn part_at(a: Seq<u64>, i: int) -> u64 {
    if 0 <= i < a.len() {
        a[i]
    } else {
        0
    }
}

pub open spec fn max_len(a: Seq<u64>, b: Seq<u64>) -> int {
    if a.len() >= b.len() {
        a.len() as int
    } else {
        b.len() as int
    }
}

/// Sign of the comparison of `a` and `b` from component `i` on.
pub open spec fn order_from(a: Seq<u64>, b: Seq<u64>, i: int) -> int
    decreases max_len(a, b) - i,
{
    if i < 0 || i >= max_len(a, b) {
        0
    } else if part_at(a, i) < part_at(b, i) {
        -1
    } else if part_at(a, i) > part_at(b, i) {
        1
    } else {
        order_from(a, b, i + 1)
    }
}

/// Sign of the comparison of two version component lists, missing
/// components counting as zero.
pub open spec fn order_parts(a: Seq<u64>, b: Seq<u64>) -> int {
    order_from(a, b, 0)
}

/// Sign of the comparison of two version strings.
pub open spec fn order_versions(a: Seq<char>, b: Seq<char>) -> int {
    order_parts(version_numbers(a), version_numbers(b))
}

proof fn lemma_until_empty_take(ps: Seq<Seq<char>>, n: int)
    requires
        0 <= n <= ps.len(),
        forall|k: int| 0 <= k < n ==> (#[trigger] ps[k]).len() > 0,
        n == ps.len() || ps[n].len() == 0,
    ensures
        until_empty(ps) == ps.take(n),
    decreases n,
{
    if n == 0 {
        assert(ps.take(0) =~= Seq::<Seq<char>>::empty());
    } else {
        assert(ps[0].len() > 0);
        lemma_until_empty_take(ps.drop_first(), n - 1);
        assert(seq![ps[0]] + ps.drop_first().take(n - 1) =~= ps.take(n));
    }
}

proof fn lemma_digit_run(p: Seq<char>, k: int)
    requires
        0 <= k <= p.len(),
        forall|j: int| 0 <= j < k ==> is_digit(#[trigger] p[j]),
        k == p.len() || !is_digit(p[k]),
    ensures
        digit_run(p) == k,
    decreases k,
{
    if k > 0 {
        assert(is_digit(p[0]));
        lemma_digit_run(p.drop_first(), k - 1);
    }
}


/// One step of the comparison: the first component decides unless equal.
pub proof fn lemma_order_step(a: Seq<u64>, b: Seq<u64>, i: int)
    requires
        0 <= i,
    ensures
        order_from(a, b, i) == (if part_at(a, i) < part_at(b, i) {
            -1
        } else if part_at(a, i) > part_at(b, i) {
            1
        } else {
            order_from(a, b, i + 1)
        }),
{
}

proof fn lemma_order_from_range(a: Seq<u64>, b: Seq<u64>, i: int)
    ensures
        -1 <= order_from(a, b, i) <= 1,
    decreases max_len(a, b) - i,
{
    if 0 <= i < max_len(a, b) {
        lemma_order_from_range(a, b, i + 1);
    }
}

proof fn lemma_order_from_antisym(a: Seq<u64>, b: Seq<u64>, i: int)
    ensures
        order_from(a, b, i) == -order_from(b, a, i),
    decreases max_len(a, b) - i,
{
    if 0 <= i < max_len(a, b) {
        lemma_order_from_antisym(a, b, i + 1);
    }
}

proof fn lemma_order_from_refl(a: Seq<u64>, i: int)
    ensures
        order_from(a, a, i) == 0,
    decreases max_len(a, a) - i,
{
    if 0 <= i < max_len(a, a) {
        lemma_order_from_refl(a, i + 1);
    }
}

proof fn lemma_order_from_trans(a: Seq<u64>, b: Seq<u64>, c: Seq<u64>, i: int)
    requires
        0 <= i,
        order_from(a, b, i) <= 0,
        order_from(b, c, i) <= 0,
    ensures
        order_from(a, c, i) <= 0,
        order_from(a, b, i) < 0 || order_from(b, c, i) < 0 ==> order_from(a, c, i) < 0,
    decreases a.len() + b.len() + c.len() - i,
{
    lemma_order_step(a, b, i);
    lemma_order_step(b, c, i);
    lemma_order_step(a, c, i);
    if i >= max_len(a, b) && i >= max_len(b, c) && i >= max_len(a, c) {
    } else if part_at(a, i) == part_at(b, i) && part_at(b, i) == part_at(c, i) {
        lemma_order_from_trans(a, b, c, i + 1);
    }
}

/// The order on component lists is antisymmetric.
pub proof fn lemma_order_antisymmetric(a: Seq<u64>, b: Seq<u64>)
    ensures
        order_parts(a, b) == -order_parts(b, a),
        -1 <= order_parts(a, b) <= 1,
{
    lemma_order_from_antisym(a, b, 0);
    lemma_order_from_range(a, b, 0);
}

/// Every component list is equal to itself.
pub proof fn lemma_order_reflexive(a: Seq<u64>)
    ensures
        order_parts(a, a) == 0,
{
    lemma_order_from_refl(a, 0);
}

/// The order on component lists is transitive, strictly so where one step is strict.
pub proof fn lemma_order_transitive(a: Seq<u64>, b: Seq<u64>, c: Seq<u64>)
    requires
        order_parts(a, b) <= 0,
        order_parts(b, c) <= 0,
    ensures
        order_parts(a, c) <= 0,
        order_parts(a, b) < 0 || order_parts(b, c) < 0 ==> order_parts(a, c) < 0,
{
    lemma_order_from_trans(a, b, c, 0);
}

proof fn lemma_order_from_zero_pad(a: Seq<u64>, b: Seq<u64>, i: int)
    requires
        0 <= i,
    ensures
        order_from(a.push(0), b, i) == order_from(a, b, i),
    decreases max_len(a.push(0), b) - i,
{
    lemma_order_step(a.push(0), b, i);
    lemma_order_step(a, b, i);
    assert(part_at(a.push(0), i) == part_at(a, i));
    if i < max_len(a.push(0), b) {
        lemma_order_from_zero_pad(a, b, i + 1);
    }
}

/// Trailing zero components do not change the order: `1.2` and `1.2.0` are equal.
pub proof fn lemma_order_zero_padding(a: Seq<u64>, b: Seq<u64>)
    ensures
        order_parts(a.push(0), b) == order_parts(a, b),
{
    lemma_order_from_zero_pad(a, b, 0);
}

/// Reads the numeric components of a version string.
pub fn version_parts(v: &str) -> (r: Vec<u64>)
    ensures
        r@ == version_numbers(v@),
{
    let cs = chars_of(v);
    let digits = digit_set_exec();
    let start = match find_sep(cs.as_slice(), 0, cs.len(), digits.as_slice(), false) {
        Some(i) => i,
        None => cs.len(),
    };
    let ghost clean = cs@.subrange(start as int, cs@.len() as int);
    proof {
        assert(cs@.subrange(0, cs@.len() as int) =~= cs@);
        if start < cs@.len() {
            assert(clean =~= cs@.skip(start as int));
        } else {
            assert(clean =~= Seq::<char>::empty());
        }
        assert(clean == from_first_digit(v@));
    }
    let seps = vec!['.', '-', '_'];
    assert(seps@ =~= version_seps());
    let rs = split_ranges(cs.as_slice(), start, cs.len(), seps.as_slice(), false);
    let ghost ps = pieces(cs@, rs@);
    // pieces up to the first empty one
    let mut n: usize = 0;
    while n < rs.len() && rs[n].0 < rs[n].1
        invariant
            n <= rs@.len(),
            ps == pieces(cs@, rs@),
            ranges_within(rs@, start as int, cs@.len() as int),
            forall|k: int| 0 <= k < n ==> (#[trigger] ps[k]).len() > 0,
        decreases rs.len() - n,
    {
        proof {
            assert(ps[n as int] == cs@.subrange(rs@[n as int].0 as int, rs@[n as int].1 as int));
        }
        n += 1;
    }
    proof {
        if n < rs@.len() {
            assert(ps[n as int] == cs@.subrange(rs@[n as int].0 as int, rs@[n as int].1 as int));
            assert(ps[n as int].len() == 0);
        }
        lemma_until_empty_take(ps, n as int);
    }
    let mut out: Vec<u64> = Vec::new();
    let mut k: usize = 0;
    while k < n
        invariant
            k <= n <= rs@.len(),
            ps == pieces(cs@, rs@),
            ranges_within(rs@, start as int, cs@.len() as int),
            out@ == numbers_of(ps.take(k as int)),
        decreases n - k,
    {
        let (a, b) = rs[k];
        let mut e = a;
        while e < b && '0' <= cs[e] && cs[e] <= '9'
            invariant
                a <= e <= b <= cs@.len(),
                forall|j: int| a <= j < e ==> is_digit(#[trigger] cs@[j]),
            decreases b - e,
        {
            e += 1;
        }
        let ghost piece = cs@.subrange(a as int, b as int);
        proof {
            assert(ps[k as int] == piece);
            lemma_digit_run(piece, e - a);
            assert(piece.take(e - a) =~= cs@.subrange(a as int, e as int));
            assert(ps.take(k + 1).drop_last() =~= ps.take(k as int));
        }
        match parse_uint_in(cs.as_slice(), a, e, u64::MAX) {
            Some(x) => {
                out.push(x);
            },
            None => {},
        }
        k += 1;
    }
    out
}

/// Sign of the comparison of two component lists.
pub fn compare_sign(a: &[u64], b: &[u64]) -> (r: i8)
    ensures
        r == order_parts(a@, b@),
{
    let m = if a.len() >= b.len() {
        a.len()
    } else {
        b.len()
    };
    let mut i: usize = 0;
    while i < m
        invariant
            m == max_len(a@, b@),
            i <= m,
            order_parts(a@, b@) == order_from(a@, b@, i as int),
        decreases m - i,
    {
        let x = if i < a.len() {
            a[i]
        } else {
            0
        };
        let y = if i < b.len() {
            b[i]
        } else {
            0
        };
        if x < y {
            return -1;
        }
        if x > y {
            return 1;
        }
        i += 1;
    }
    0
}

} // verus!
