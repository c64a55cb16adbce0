//! Which minimal decomposition is the one to give.
//!
//! Several minimal decompositions of an amount may exist. The one singled out
//! here is found step by step: at each amount, take the denomination that
//! stands first in the given order among those that begin a minimal
//! decomposition, and go on with the rest of the amount.

use vstd::prelude::*;
use crate::decomposition::{
    descending, feasible, fewest, is_decomposition, is_minimal_decomposition,
    lemma_descending_is_unique, lemma_extend, lemma_fewest_exists, lemma_shrink, occurrences,
    valid_denominations,
};

verus! {

/// What is left of `amount` once a piece of the denomination at index `i` is
/// taken from it.
pub open spec fn remainder(coins: Seq<usize>, amount: nat, i: int) -> nat {
    (amount - coins[i]) as nat
}

/// The denomination at index `i` fits into `amount`, and the rest can be
/// reached.
pub open spec fn viable(coins: Seq<usize>, amount: nat, i: int) -> bool {
    &&& 0 <= i < coins.len()
    &&& 0 < coins[i] <= amount
    &&& feasible(coins, remainder(coins, amount, i))
}

/// A piece of the denomination at index `i` begins a minimal decomposition of
/// `amount`.
pub open spec fn leads_optimally(coins: Seq<usize>, amount: nat, i: int) -> bool {
    &&& viable(coins, amount, i)
    &&& fewest(coins, remainder(coins, amount, i)) + 1 == fewest(coins, amount)
}

/// Index `i` is the first, in the order of `coins`, whose denomination begins
/// a minimal decomposition of `amount`.
pub open spec fn is_preferred(coins: Seq<usize>, amount: nat, i: int) -> bool {
    &&& leads_optimally(coins, amount, i)
    &&& forall|j: int| 0 <= j < i ==> !leads_optimally(coins, amount, j)
}

/// The index that `is_preferred` singles out, where there is one.
pub open spec fn preferred(coins: Seq<usize>, amount: nat) -> int {
    choose|i: int| is_preferred(coins, amount, i)
}

/// How many pieces of value `d` are given for `amount` when each step takes
/// the preferred denomination.
pub open spec fn chosen(coins: Seq<usize>, amount: nat, d: usize) -> nat
    decreases amount,
{
    if exists|i: int| is_preferred(coins, amount, i) {
        let c = coins[preferred(coins, amount)];
        chosen(coins, (amount - c) as nat, d) + if c == d {
            1nat
        } else {
            0nat
        }
    } else {
        0
    }
}

/// At most one index is preferred.
pub proof fn lemma_preferred_unique(coins: Seq<usize>, amount: nat, i: int)
    requires
        is_preferred(coins, amount, i),
    ensures
        preferred(coins, amount) == i,
{
    let p = preferred(coins, amount);
    assert(is_preferred(coins, amount, p));
    if p < i {
        assert(!leads_optimally(coins, amount, p));
    }
    if i < p {
        assert(!leads_optimally(coins, amount, i));
    }
}

/// One step of `chosen`: the count for `amount` is the count for what is left
/// after the preferred piece, and one more if that piece has the value `d`.
pub proof fn lemma_chosen_step(coins: Seq<usize>, amount: nat, i: int, d: usize)
    requires
        is_preferred(coins, amount, i),
    ensures
        chosen(coins, amount, d) == chosen(coins, remainder(coins, amount, i), d) + if coins[i]
            == d {
            1nat
        } else {
            0nat
        },
{
    lemma_preferred_unique(coins, amount, i);
}

/// Taking a viable piece reaches the amount, with one piece more than the
/// rest needs at best.
pub proof fn lemma_viable_step(coins: Seq<usize>, amount: nat, i: int)
    requires
        viable(coins, amount, i),
    ensures
        feasible(coins, amount),
        fewest(coins, amount) <= fewest(coins, remainder(coins, amount, i)) + 1,
{
    let rest = remainder(coins, amount, i);
    lemma_fewest_exists(coins, rest);
    let s = choose|s: Seq<usize>|
        is_minimal_decomposition(coins, rest, s) && s.len() == fewest(coins, rest);
    assert(coins.contains(coins[i]));
    lemma_extend(coins, rest, s, coins[i]);
    assert(is_decomposition(coins, amount, s.push(coins[i])));
    lemma_fewest_exists(coins, amount);
    let m = choose|m: Seq<usize>|
        is_minimal_decomposition(coins, amount, m) && m.len() == fewest(coins, amount);
    assert(m.len() <= s.push(coins[i]).len());
}

/// The last piece of any decomposition of a positive amount is a viable step,
/// and the decomposition has at least one piece more than the rest needs.
pub proof fn lemma_last_piece(coins: Seq<usize>, amount: nat, t: Seq<usize>) -> (i: int)
    requires
        valid_denominations(coins),
        is_decomposition(coins, amount, t),
        amount > 0,
    ensures
        viable(coins, amount, i),
        fewest(coins, remainder(coins, amount, i)) + 1 <= t.len(),
{
    lemma_shrink(coins, amount, t);
    let c = t.last();
    let i = choose|i: int| 0 <= i < coins.len() && coins[i] == c;
    let rest = remainder(coins, amount, i);
    assert(is_decomposition(coins, rest, t.drop_last()));
    lemma_fewest_exists(coins, rest);
    let s = choose|s: Seq<usize>|
        is_minimal_decomposition(coins, rest, s) && s.len() == fewest(coins, rest);
    assert(s.len() <= t.drop_last().len());
    i
}

/// Among the indices up to one that begins a minimal decomposition, one is
/// the first to do so.
proof fn lemma_first_leading(coins: Seq<usize>, amount: nat, i: int) -> (p: int)
    requires
        leads_optimally(coins, amount, i),
    ensures
        is_preferred(coins, amount, p),
    decreases i,
{
    if exists|j: int| 0 <= j < i && leads_optimally(coins, amount, j) {
        let j = choose|j: int| 0 <= j < i && leads_optimally(coins, amount, j);
        lemma_first_leading(coins, amount, j)
    } else {
        i
    }
}

/// Every positive amount that can be reached has a preferred denomination, so
/// that `chosen` goes on until nothing is left.
pub proof fn lemma_preferred_exists(coins: Seq<usize>, amount: nat)
    requires
        valid_denominations(coins),
        feasible(coins, amount),
        amount > 0,
    ensures
        is_preferred(coins, amount, preferred(coins, amount)),
        feasible(coins, remainder(coins, amount, preferred(coins, amount))),
{
    lemma_fewest_exists(coins, amount);
    let m = choose|m: Seq<usize>|
        is_minimal_decomposition(coins, amount, m) && m.len() == fewest(coins, amount);
    let j = lemma_last_piece(coins, amount, m);
    lemma_viable_step(coins, amount, j);
    assert(leads_optimally(coins, amount, j));
    let p = lemma_first_leading(coins, amount, j);
    lemma_preferred_unique(coins, amount, p);
}

/// The change for an amount is one sequence and no other: two sequences that
/// both come from the largest piece to the smallest and hold each value as
/// often as `chosen` says are equal.
pub proof fn lemma_change_is_determined(
    coins: Seq<usize>,
    amount: nat,
    a: Seq<usize>,
    b: Seq<usize>,
)
    requires
        descending(a),
        descending(b),
        forall|d: usize| occurrences(a, d) == chosen(coins, amount, d),
        forall|d: usize| occurrences(b, d) == chosen(coins, amount, d),
    ensures
        a == b,
{
    assert forall|d: usize| occurrences(a, d) == occurrences(b, d) by {
        assert(occurrences(a, d) == chosen(coins, amount, d));
        assert(occurrences(b, d) == chosen(coins, amount, d));
    }
    lemma_descending_is_unique(a, b);
}

} // verus!
