//! The decomposition tree: how one Fibonacci index is split into smaller ones.

use crate::algos::{efficient_fibonacci, fibonacci_number};
use crate::bignum::{big_add, big_value};
use num_bigint::BigUint;
use vstd::arithmetic::power::lemma_pow0;
use vstd::arithmetic::power2::{lemma_pow2_pos, lemma_pow2_strictly_increases, lemma_pow2_unfold, pow2};
use vstd::prelude::*;

verus! {

/// A plan for computing one Fibonacci number.
///
/// `Number(n)` stands for the `n`-th Fibonacci number computed in one go.
/// `Pair(left, right)` stands for the sum of what its two subtrees stand for,
/// which can be computed independently of each other.
#[derive(Debug, PartialEq, Eq)]
pub enum Fibonacci {
    Number(u128),
    Pair(Box<Fibonacci>, Box<Fibonacci>),
}

/// Why a tree could not be built.
#[derive(Debug, Clone, Copy, PartialEq, Eq)]
pub enum FibonacciError {
    /// Splitting would have needed an index below zero.
    DomainViolation,
}

/// How many times `budget` is halved, rounding down, before it is at most 1.
/// This is the depth of every leaf in a tree built under that budget.
pub open spec fn halvings(budget: nat) -> nat
    decreases budget,
{
    if budget <= 1 {
        0
    } else {
        1 + halvings(budget / 2)
    }
}

/// The budget to build the tree of `number` with when `core_count` cores
/// are to be kept busy: the core count, but never more than the number.
///
/// Under such a budget every split stays within the indices, so that
/// [`Fibonacci::new`] does not refuse it.
pub fn budget_for(number: u128, core_count: u128) -> (budget: u128)
    ensures
        budget == if core_count <= number { core_count } else { number },
        number >= 2 * halvings(budget as nat),
{
    let budget: u128 = if core_count <= number { core_count } else { number };
    proof {
        lemma_twice_halvings_within_budget(budget as nat);
    }
    budget
}

impl Clone for Fibonacci {
    /// A copy with the same shape and the same indices at the same leaves.
    fn clone(&self) -> (copy: Self)
        ensures
            copy == *self,
        decreases self,
    {
        match self {
            Fibonacci::Number(n) => Fibonacci::Number(*n),
            Fibonacci::Pair(left, right) => Fibonacci::Pair(
                Box::new((&**left).clone()),
                Box::new((&**right).clone()),
            ),
        }
    }
}

impl Fibonacci {
    /// The number of leaves, that is of `Number` nodes.
    pub open spec fn leaves(self) -> nat
        decreases self,
    {
        match self {
            Fibonacci::Number(_) => 1,
            Fibonacci::Pair(left, right) => left.leaves() + right.leaves(),
        }
    }

    /// The number that the tree stands for: the Fibonacci number of the index
    /// at a leaf, and the sum of both sides at a pair.
    pub open spec fn value(self) -> nat
        decreases self,
    {
        match self {
            Fibonacci::Number(n) => fibonacci_number(n as nat),
            Fibonacci::Pair(left, right) => left.value() + right.value(),
        }
    }

    /// Whether this tree is the decomposition of index `n` under `budget`:
    /// a single leaf `n` once the budget is at most 1, and otherwise a pair
    /// of the decompositions of `n - 1` and `n - 2`, each under half the budget.
    pub open spec fn decomposes(self, n: nat, budget: nat) -> bool
        decreases self,
    {
        match self {
            Fibonacci::Number(m) => budget <= 1 && m == n,
            Fibonacci::Pair(left, right) => {
                &&& budget > 1
                &&& n >= 2
                &&& left.decomposes((n - 1) as nat, budget / 2)
                &&& right.decomposes((n - 2) as nat, budget / 2)
            },
        }
    }

    /// Builds the decomposition of index `n` under the budget `max_tree_size`.
    ///
    /// Every split takes 1 and 2 off the index, so a budget that asks for
    /// `halvings(max_tree_size)` levels of splitting needs an index of at
    /// least twice that; a smaller index is refused with `DomainViolation`.
    pub fn new(n: u128, max_tree_size: u128) -> (r: Result<Fibonacci, FibonacciError>)
        ensures
            r is Ok <==> n >= 2 * halvings(max_tree_size as nat),
            r matches Ok(tree) ==> tree.decomposes(n as nat, max_tree_size as nat),
            r matches Ok(tree) ==> tree.leaves() == pow2(halvings(max_tree_size as nat)),
            r matches Ok(tree) ==> tree.leaves() <= u128::MAX,
            r matches Ok(tree) ==> tree.value() == fibonacci_number(n as nat),
            r matches Err(e) ==> e == FibonacciError::DomainViolation,
            max_tree_size <= 1 ==> r == Ok::<Fibonacci, FibonacciError>(Fibonacci::Number(n)),
        decreases max_tree_size,
    {
        if max_tree_size <= 1 {
            proof {
                lemma_decomposition_leaves(Fibonacci::Number(n), n as nat, max_tree_size as nat);
            }
            return Ok(Fibonacci::Number(n));
        }
        let half: u128 = max_tree_size / 2;
        let (left, right) = match (n.checked_sub(1), n.checked_sub(2)) {
            (Some(left), Some(right)) => (left, right),
            _ => { return Err(FibonacciError::DomainViolation); },
        };
        let left_tree = match Fibonacci::new(left, half) {
            Ok(tree) => tree,
            Err(e) => { return Err(e); },
        };
        let right_tree = match Fibonacci::new(right, half) {
            Ok(tree) => tree,
            Err(e) => { return Err(e); },
        };
        let tree = Fibonacci::Pair(Box::new(left_tree), Box::new(right_tree));
        proof {
            lemma_decomposition_leaves(tree, n as nat, max_tree_size as nat);
            lemma_decomposition_value(tree, n as nat, max_tree_size as nat);
        }
        Ok(tree)
    }

    /// Counts the leaves of the tree.
    pub fn tree_size(&self) -> (size: u128)
        requires
            self.leaves() <= u128::MAX,
        ensures
            size == self.leaves(),
        decreases self,
    {
        match self {
            Fibonacci::Number(_) => 1,
            Fibonacci::Pair(left, right) => left.tree_size() + right.tree_size(),
        }
    }

    /// The result of a pair from the results of its two sides: their sum.
    pub fn combine(left: BigUint, right: BigUint) -> (sum: BigUint)
        ensures
            big_value(sum) == big_value(left) + big_value(right),
    {
        big_add(left, &right)
    }

    /// Computes the number that the tree stands for, one leaf after the other
    /// on the caller's thread.
    pub fn calculate(&self) -> (r: BigUint)
        ensures
            big_value(r) == self.value(),
        decreases self,
    {
        match self {
            Fibonacci::Number(n) => efficient_fibonacci(*n),
            Fibonacci::Pair(left, right) => {
                let left_result = left.calculate();
                let right_result = right.calculate();
                Fibonacci::combine(left_result, right_result)
            },
        }
    }
}

/// A larger budget never asks for fewer levels of splitting.
pub proof fn lemma_halvings_monotone(smaller: nat, larger: nat)
    requires
        smaller <= larger,
    ensures
        halvings(smaller) <= halvings(larger),
    decreases larger,
{
    if smaller > 1 {
        lemma_halvings_monotone(smaller / 2, larger / 2);
    }
}

/// Twice the levels of splitting stays within the budget: an index that is
/// no smaller than the budget can always be split as often as it asks.
pub proof fn lemma_twice_halvings_within_budget(budget: nat)
    ensures
        2 * halvings(budget) <= budget,
    decreases budget,
{
    if budget >= 4 {
        lemma_twice_halvings_within_budget(budget / 2);
    } else {
        reveal_with_fuel(halvings, 3);
    }
}

/// Two to the power of the levels of splitting stays within the budget,
/// but for the budget 0, which like the budget 1 asks for no split at all.
pub proof fn lemma_pow2_halvings_within_budget(budget: nat)
    ensures
        pow2(halvings(budget)) >= 1,
        budget >= 1 ==> pow2(halvings(budget)) <= budget,
    decreases budget,
{
    lemma_pow2_pos(halvings(budget));
    if budget <= 1 {
        lemma_pow0(2);
    } else {
        lemma_pow2_halvings_within_budget(budget / 2);
        lemma_pow2_unfold(halvings(budget));
    }
}

/// A decomposition is a full binary tree: under a budget that asks for `k`
/// levels of splitting it has exactly 2^k leaves, whatever the index, and
/// so no more leaves than the budget says (one leaf for the budget 0).
pub proof fn lemma_decomposition_leaves(tree: Fibonacci, n: nat, budget: nat)
    requires
        tree.decomposes(n, budget),
    ensures
        tree.leaves() == pow2(halvings(budget)),
        budget <= 1 ==> tree.leaves() == 1,
        budget >= 1 ==> tree.leaves() <= budget,
    decreases tree,
{
    lemma_pow2_halvings_within_budget(budget);
    match tree {
        Fibonacci::Number(_) => {
            lemma_pow0(2);
        },
        Fibonacci::Pair(left, right) => {
            lemma_decomposition_leaves(*left, (n - 1) as nat, budget / 2);
            lemma_decomposition_leaves(*right, (n - 2) as nat, budget / 2);
            lemma_pow2_unfold(halvings(budget));
        },
    }
}

/// Splitting does not change the result: the decomposition of index `n`,
/// under any budget, stands for the `n`-th Fibonacci number.
pub proof fn lemma_decomposition_value(tree: Fibonacci, n: nat, budget: nat)
    requires
        tree.decomposes(n, budget),
    ensures
        tree.value() == fibonacci_number(n),
    decreases tree,
{
    match tree {
        Fibonacci::Number(_) => {},
        Fibonacci::Pair(left, right) => {
            lemma_decomposition_value(*left, (n - 1) as nat, budget / 2);
            lemma_decomposition_value(*right, (n - 2) as nat, budget / 2);
        },
    }
}

/// An index and a budget have one decomposition: two trees that both
/// decompose the same index under the same budget have the same shape and
/// the same indices at the same leaves.
pub proof fn lemma_decomposition_unique(first: Fibonacci, second: Fibonacci, n: nat, budget: nat)
    requires
        first.decomposes(n, budget),
        second.decomposes(n, budget),
    ensures
        first == second,
    decreases first,
{
    match (first, second) {
        (Fibonacci::Pair(left1, right1), Fibonacci::Pair(left2, right2)) => {
            lemma_decomposition_unique(*left1, *left2, (n - 1) as nat, budget / 2);
            lemma_decomposition_unique(*right1, *right2, (n - 2) as nat, budget / 2);
        },
        _ => {},
    }
}

/// For one index, a larger budget never gives a smaller tree.
pub proof fn lemma_leaves_monotone_in_budget(
    small: Fibonacci,
    large: Fibonacci,
    n: nat,
    smaller_budget: nat,
    larger_budget: nat,
)
    requires
        small.decomposes(n, smaller_budget),
        large.decomposes(n, larger_budget),
        smaller_budget <= larger_budget,
    ensures
        small.leaves() <= large.leaves(),
{
    lemma_decomposition_leaves(small, n, smaller_budget);
    lemma_decomposition_leaves(large, n, larger_budget);
    lemma_halvings_monotone(smaller_budget, larger_budget);
    if halvings(smaller_budget) < halvings(larger_budget) {
        lemma_pow2_strictly_increases(halvings(smaller_budget), halvings(larger_budget));
    }
}

} // verus!
