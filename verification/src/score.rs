//! Scoring primitives shared by the games.
//!
//! Accuracies are exact fractions `hits / outof`; stored scores are in
//! centipercent (hundredths of a percent, 10_000 = 100%), rounded down.
use vstd::prelude::*;

verus! {

/// Number of positions `i < n` at which `a` and `b` hold the same character.
pub open spec fn matching_prefix(a: Seq<char>, b: Seq<char>, n: int) -> int
    decreases n,
{
    if n <= 0 {
        0
    } else {
        matching_prefix(a, b, n - 1) + if a[n - 1] == b[n - 1] {
            1int
        } else {
            0int
        }
    }
}

pub open spec fn min_int(a: int, b: int) -> int {
    if a <= b {
        a
    } else {
        b
    }
}

pub open spec fn max_int(a: int, b: int) -> int {
    if a >= b {
        a
    } else {
        b
    }
}

/// Numerator of the digit-span round accuracy: positions that match between
/// the expected and the typed string. An empty expected string scores 0 of 1.
pub open spec fn accuracy_num(e: Seq<char>, u: Seq<char>) -> int {
    if e.len() == 0 {
        0
    } else {
        matching_prefix(e, u, min_int(e.len() as int, u.len() as int))
    }
}

/// Denominator of the digit-span round accuracy: the longer of the two
/// lengths, or 1 when the expected string is empty.
pub open spec fn accuracy_den(e: Seq<char>, u: Seq<char>) -> int {
    if e.len() == 0 {
        1
    } else {
        max_int(e.len() as int, u.len() as int)
    }
}

/// A fraction `num / den`, expressed in centipercent and rounded down.
pub open spec fn cp_of(num: int, den: int) -> int
    recommends
        den >= 1,
{
    num * 10_000 / den
}

pub proof fn lemma_matching_prefix_le(a: Seq<char>, b: Seq<char>, n: int)
    ensures
        matching_prefix(a, b, n) <= max_int(n, 0),
        0 <= matching_prefix(a, b, n),
    decreases n,
{
    if n > 0 {
        lemma_matching_prefix_le(a, b, n - 1);
    }
}

pub proof fn lemma_matching_prefix_all(a: Seq<char>, b: Seq<char>, n: int)
    requires
        forall|i: int| 0 <= i < n ==> a[i] == b[i],
    ensures
        matching_prefix(a, b, n) == max_int(n, 0),
    decreases n,
{
    if n > 0 {
        lemma_matching_prefix_all(a, b, n - 1);
    }
}

pub proof fn lemma_matching_prefix_none_above(a: Seq<char>, b: Seq<char>, k: int, n: int)
    requires
        forall|i: int| k <= i < n ==> a[i] != b[i],
    ensures
        matching_prefix(a, b, n) == matching_prefix(a, b, min_int(k, n)),
    decreases n,
{
    if n > 0 && k < n {
        lemma_matching_prefix_none_above(a, b, k, n - 1);
    }
}

/// An exact match scores 100%: the accuracy fraction is `len / len`.
pub proof fn lemma_accuracy_exact_match(e: Seq<char>, u: Seq<char>)
    requires
        e == u,
        e.len() > 0,
    ensures
        accuracy_num(e, u) == e.len(),
        accuracy_den(e, u) == e.len(),
        cp_of(accuracy_num(e, u), accuracy_den(e, u)) == 10_000,
{
    lemma_matching_prefix_all(e, u, e.len() as int);
    assert((e.len() as int) * 10_000 / (e.len() as int) == 10_000) by {
        vstd::arithmetic::div_mod::lemma_div_multiples_vanish(
            10_000,
            e.len() as int,
        );
    }
}

/// Two strings of equal length that differ at every position score 0%.
pub proof fn lemma_accuracy_disjoint(e: Seq<char>, u: Seq<char>)
    requires
        e.len() == u.len(),
        e.len() > 0,
        forall|i: int| 0 <= i < e.len() ==> e[i] != u[i],
    ensures
        accuracy_num(e, u) == 0,
        accuracy_den(e, u) == e.len(),
        cp_of(accuracy_num(e, u), accuracy_den(e, u)) == 0,
{
    lemma_matching_prefix_none_above(e, u, 0, e.len() as int);
    assert(0int * 10_000 == 0) by (nonlinear_arith);
    assert(0int / e.len() as int == 0) by {
        vstd::arithmetic::div_mod::lemma_small_div_converse(0, e.len() as int);
    }
}

/// A single correct character at the first position, out of equal lengths
/// `L`, scores exactly the fraction `1 / L`, i.e. `(1/L) * 100` percent.
pub proof fn lemma_accuracy_single_leading(e: Seq<char>, u: Seq<char>)
    requires
        e.len() == u.len(),
        e.len() > 0,
        e[0] == u[0],
        forall|i: int| 1 <= i < e.len() ==> e[i] != u[i],
    ensures
        accuracy_num(e, u) == 1,
        accuracy_den(e, u) == e.len(),
{
    lemma_matching_prefix_none_above(e, u, 1, e.len() as int);
    assert(matching_prefix(e, u, 1) == matching_prefix(e, u, 0) + 1);
}

/// The digit-span round accuracy as an exact fraction.
///
/// Returns `(hits, outof)` with `0 <= hits <= outof` and `outof >= 1`;
/// the round scores `hits / outof` of a perfect round.
pub fn round_accuracy(expected: &Vec<char>, user: &Vec<char>) -> (r: (usize, usize))
    ensures
        r.0 == accuracy_num(expected@, user@),
        r.1 == accuracy_den(expected@, user@),
        r.0 <= r.1,
        r.1 >= 1,
{
    if expected.len() == 0 {
        return (0, 1);
    }
    let n = if expected.len() <= user.len() {
        expected.len()
    } else {
        user.len()
    };
    let outof = if expected.len() >= user.len() {
        expected.len()
    } else {
        user.len()
    };
    let mut hits: usize = 0;
    let mut i: usize = 0;
    while i < n
        invariant
            i <= n,
            n <= expected.len(),
            n <= user.len(),
            hits == matching_prefix(expected@, user@, i as int),
            hits <= i,
        decreases n - i,
    {
        if expected[i] == user[i] {
            hits = hits + 1;
        }
        i = i + 1;
    }
    proof {
        lemma_matching_prefix_le(expected@, user@, n as int);
    }
    (hits, outof)
}

pub proof fn lemma_cp_of_bounds(num: int, den: int)
    requires
        den >= 1,
        0 <= num <= den,
    ensures
        0 <= cp_of(num, den) <= 10_000,
{
    assert(num * 10_000 <= den * 10_000) by (nonlinear_arith)
        requires
            num <= den,
    ;
    vstd::arithmetic::div_mod::lemma_div_is_ordered(num * 10_000, den * 10_000, den);
    vstd::arithmetic::div_mod::lemma_div_multiples_vanish(10_000, den);
    assert(num * 10_000 >= 0) by (nonlinear_arith)
        requires
            num >= 0,
    ;
    vstd::arithmetic::div_mod::lemma_div_pos_is_pos(num * 10_000, den);
}

/// Centipercent value of a fraction that is at most 1.
pub fn frac_to_cp(num: usize, den: usize) -> (r: u64)
    requires
        den >= 1,
        num <= den,
    ensures
        r == cp_of(num as int, den as int),
        r <= 10_000,
{
    let wide: u128 = (num as u128) * 10_000 / (den as u128);
    proof {
        assert((num as int) * 10_000 <= (den as int) * 10_000) by (nonlinear_arith)
            requires
                num <= den,
        ;
        vstd::arithmetic::div_mod::lemma_div_is_ordered(
            (num as int) * 10_000,
            (den as int) * 10_000,
            den as int,
        );
        vstd::arithmetic::div_mod::lemma_div_multiples_vanish(10_000, den as int);
        vstd::arithmetic::div_mod::lemma_div_pos_is_pos((num as int) * 10_000, den as int);
    }
    wide as u64
}

/// Centipercent value of a fraction that may exceed 1, capped at a
/// perfect score of 10_000.
pub open spec fn cp_capped(num: int, den: int) -> int
    recommends
        den >= 1,
{
    min_int(cp_of(num, den), 10_000)
}

pub fn frac_to_cp_capped(num: usize, den: usize) -> (r: u64)
    requires
        den >= 1,
    ensures
        r == cp_capped(num as int, den as int),
        r <= 10_000,
{
    let wide: u128 = (num as u128) * 10_000 / (den as u128);
    proof {
        assert((num as int) * 10_000 >= 0) by (nonlinear_arith)
            requires
                num >= 0,
        ;
        vstd::arithmetic::div_mod::lemma_div_pos_is_pos((num as int) * 10_000, den as int);
    }
    if wide > 10_000 {
        10_000
    } else {
        wide as u64
    }
}

/// Number of entries of `toks` that occur in `origs`.
pub open spec fn count_in(toks: Seq<Seq<char>>, origs: Seq<Seq<char>>) -> int
    decreases toks.len(),
{
    if toks.len() == 0 {
        0
    } else {
        count_in(toks.drop_last(), origs) + if origs.contains(toks.last()) {
            1int
        } else {
            0int
        }
    }
}

pub proof fn lemma_count_in_bounds(toks: Seq<Seq<char>>, origs: Seq<Seq<char>>)
    ensures
        0 <= count_in(toks, origs) <= toks.len(),
    decreases toks.len(),
{
    if toks.len() > 0 {
        lemma_count_in_bounds(toks.drop_last(), origs);
    }
}

/// When every token occurs in `origs`, all of them count.
pub proof fn lemma_count_in_all(toks: Seq<Seq<char>>, origs: Seq<Seq<char>>)
    requires
        forall|i: int| 0 <= i < toks.len() ==> origs.contains(#[trigger] toks[i]),
    ensures
        count_in(toks, origs) == toks.len(),
    decreases toks.len(),
{
    if toks.len() > 0 {
        assert(forall|i: int|
            0 <= i < toks.drop_last().len() ==> origs.contains(#[trigger] toks.drop_last()[i]));
        lemma_count_in_all(toks.drop_last(), origs);
    }
}

} // verus!
