//! Randomness: trusted wrappers around the rand crate, and the verified
//! stimulus generators built on them.
use vstd::prelude::*;
use crate::digits::{digit_of, digit_to_char, is_digit_char};
use rand::Rng;
use rand::seq::SliceRandom;

verus! {

/// Relies on rand's Rng::gen_range on the range `0..n` (empty ranges are
/// rejected by the precondition): returns a value inside the range.
#[verifier::external_body]
pub(crate) fn rand_below(n: u64) -> (r: u64)
    requires
        n >= 1,
    ensures
        r < n,
{
    rand::thread_rng().gen_range(0..n)
}

/// Relies on rand's SliceRandom::shuffle: permutes the elements in place,
/// so the contents and the length are preserved.
#[verifier::external_body]
pub(crate) fn shuffle_strings(v: &mut Vec<String>)
    ensures
        final(v)@.map_values(|s: String| s@).to_multiset() == old(v)@.map_values(
            |s: String| s@,
        ).to_multiset(),
        final(v)@.len() == old(v)@.len(),
{
    v.shuffle(&mut rand::thread_rng());
}

/// A random decimal string of exactly `count` digits whose first digit is
/// nonzero whenever the string is longer than one digit.
pub fn generate_digits(count: usize) -> (r: Vec<char>)
    requires
        count >= 1,
    ensures
        r@.len() == count,
        forall|i: int| 0 <= i < r@.len() ==> is_digit_char(#[trigger] r@[i]),
        count > 1 ==> r@[0] != '0',
{
    let mut v: Vec<char> = Vec::new();
    if count > 1 {
        let d = 1 + rand_below(9);
        v.push(digit_to_char(d));
        proof {
            assert(digit_of(d as int) != '0');
        }
    } else {
        v.push(digit_to_char(rand_below(10)));
    }
    while v.len() < count
        invariant
            1 <= v@.len() <= count,
            forall|i: int| 0 <= i < v@.len() ==> is_digit_char(#[trigger] v@[i]),
            count > 1 ==> v@[0] != '0',
        decreases count - v.len(),
    {
        v.push(digit_to_char(rand_below(10)));
    }
    v
}

/// A random two-digit string "00".."99", leading zero kept.
pub fn generate_two_digit() -> (r: Vec<char>)
    ensures
        r@.len() == 2,
        forall|i: int| 0 <= i < r@.len() ==> is_digit_char(#[trigger] r@[i]),
{
    let n = rand_below(100);
    let mut v: Vec<char> = Vec::new();
    v.push(digit_to_char(n / 10));
    v.push(digit_to_char(n % 10));
    v
}

} // verus!
