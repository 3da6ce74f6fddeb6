//! Fibonacci numbers of arbitrary size, computed by splitting one index into a
//! binary tree of smaller indices whose leaves can be evaluated independently.

pub mod algos;
pub mod bignum;
pub mod fibonacci_struct;
