//! The Fibonacci sequence and the iterative way of computing one of its terms.

use crate::bignum::{big_add, big_from_u32, big_value};
use num_bigint::BigUint;
use vstd::prelude::*;

verus! {

/// The Fibonacci sequence: 0, 1, and from there on each term the sum of the
/// two before it.
pub open spec fn fibonacci_number(n: nat) -> nat
    decreases n,
{
    if n < 2 {
        n
    } else {
        fibonacci_number((n - 1) as nat) + fibonacci_number((n - 2) as nat)
    }
}

/// Returns the `n`-th Fibonacci number.
///
/// Walks up the sequence from the pair (0, 1), one addition for each step,
/// holding two numbers at any time.
pub fn efficient_fibonacci(n: u128) -> (r: BigUint)
    ensures
        big_value(r) == fibonacci_number(n as nat),
{
    let mut f0: BigUint = big_from_u32(0);
    let mut f1: BigUint = big_from_u32(1);
    let mut i: u128 = 0;
    while i < n
        invariant
            i <= n,
            big_value(f0) == fibonacci_number(i as nat),
            big_value(f1) == fibonacci_number((i + 1) as nat),
        decreases n - i,
    {
        let f2 = big_add(f0, &f1);
        f0 = f1;
        f1 = f2;
        i = i + 1;
    }
    f0
}

} // verus!
