//! What it means to break an amount into pieces, and to do so with the fewest
//! pieces possible.
//!
//! A set of denominations is a sequence of positive values. A decomposition of
//! an amount is any sequence of those values, repeats allowed, that adds up to
//! the amount.

use vstd::arithmetic::div_mod::lemma_mod_adds;
use vstd::prelude::*;

verus! {

/// The sum of the pieces of `s`.
pub open spec fn total(s: Seq<usize>) -> nat
    decreases s.len(),
{
    if s.len() == 0 {
        0
    } else {
        total(s.drop_last()) + s.last() as nat
    }
}

/// How many pieces of `s` have the value `d`.
pub open spec fn occurrences(s: Seq<usize>, d: usize) -> nat
    decreases s.len(),
{
    if s.len() == 0 {
        0
    } else {
        occurrences(s.drop_last(), d) + if s.last() == d {
            1nat
        } else {
            0nat
        }
    }
}

/// No piece of `s` is larger than a piece that stands before it.
pub open spec fn descending(s: Seq<usize>) -> bool {
    forall|i: int, j: int| 0 <= i <= j < s.len() ==> s[i] >= s[j]
}

/// A usable set of denominations: at least one value, and none of them zero.
pub open spec fn valid_denominations(coins: Seq<usize>) -> bool {
    &&& coins.len() > 0
    &&& forall|i: int| 0 <= i < coins.len() ==> coins[i] > 0
}

/// Every piece of `s` is one of the denominations.
pub open spec fn uses_only(coins: Seq<usize>, s: Seq<usize>) -> bool {
    forall|j: int| 0 <= j < s.len() ==> coins.contains(#[trigger] s[j])
}

/// `s` breaks `amount` into pieces drawn from `coins`.
pub open spec fn is_decomposition(coins: Seq<usize>, amount: nat, s: Seq<usize>) -> bool {
    uses_only(coins, s) && total(s) == amount
}

/// Some sequence of denominations adds up to `amount`.
pub open spec fn feasible(coins: Seq<usize>, amount: nat) -> bool {
    exists|s: Seq<usize>| is_decomposition(coins, amount, s)
}

/// `s` breaks `amount` into pieces, and no decomposition of `amount` has fewer.
pub open spec fn is_minimal_decomposition(coins: Seq<usize>, amount: nat, s: Seq<usize>) -> bool {
    &&& is_decomposition(coins, amount, s)
    &&& forall|t: Seq<usize>| is_decomposition(coins, amount, t) ==> s.len() <= t.len()
}

/// `n` is the length of a minimal decomposition of `amount`.
pub open spec fn is_fewest(coins: Seq<usize>, amount: nat, n: nat) -> bool {
    exists|s: Seq<usize>| is_minimal_decomposition(coins, amount, s) && s.len() == n
}

/// The number of pieces in a minimal decomposition of `amount`. It carries
/// meaning only where `amount` is feasible.
pub open spec fn fewest(coins: Seq<usize>, amount: nat) -> nat {
    choose|n: nat| is_fewest(coins, amount, n)
}

/// Adding a piece adds its value.
pub proof fn lemma_total_push(s: Seq<usize>, c: usize)
    ensures
        total(s.push(c)) == total(s) + c,
{
    assert(s.push(c).drop_last() =~= s);
}

/// Adding a piece adds one occurrence of its value and of no other.
pub proof fn lemma_occurrences_push(s: Seq<usize>, c: usize, d: usize)
    ensures
        occurrences(s.push(c), d) == occurrences(s, d) + if c == d {
            1nat
        } else {
            0nat
        },
{
    assert(s.push(c).drop_last() =~= s);
}

/// Each piece is worth at least one, so a decomposition has no more pieces than
/// the amount it adds up to.
pub proof fn lemma_length_at_most_total(coins: Seq<usize>, s: Seq<usize>)
    requires
        valid_denominations(coins),
        uses_only(coins, s),
    ensures
        s.len() <= total(s),
    decreases s.len(),
{
    if s.len() > 0 {
        let rest = s.drop_last();
        assert forall|j: int| 0 <= j < rest.len() implies coins.contains(#[trigger] rest[j]) by {
            assert(rest[j] == s[j]);
        }
        lemma_length_at_most_total(coins, rest);
        assert(coins.contains(s[s.len() - 1]));
    }
}

/// A decomposition followed by one more denomination is a decomposition of
/// the larger amount.
pub proof fn lemma_extend(coins: Seq<usize>, amount: nat, s: Seq<usize>, c: usize)
    requires
        is_decomposition(coins, amount, s),
        coins.contains(c),
    ensures
        is_decomposition(coins, amount + c as nat, s.push(c)),
        s.push(c).len() == s.len() + 1,
{
    lemma_total_push(s, c);
    let t = s.push(c);
    assert forall|j: int| 0 <= j < t.len() implies coins.contains(#[trigger] t[j]) by {
        if j < s.len() {
            assert(t[j] == s[j]);
        }
    }
}

/// A decomposition of a positive amount ends in a denomination no larger than
/// the amount, and what stands before it is a decomposition of the rest.
pub proof fn lemma_shrink(coins: Seq<usize>, amount: nat, s: Seq<usize>)
    requires
        is_decomposition(coins, amount, s),
        amount > 0,
    ensures
        s.len() > 0,
        coins.contains(s.last()),
        s.last() <= amount,
        is_decomposition(coins, (amount - s.last()) as nat, s.drop_last()),
{
    let rest = s.drop_last();
    assert(coins.contains(s[s.len() - 1]));
    assert forall|j: int| 0 <= j < rest.len() implies coins.contains(#[trigger] rest[j]) by {
        assert(rest[j] == s[j]);
    }
}

/// Some decomposition of `amount` has exactly `n` pieces.
spec fn has_length(coins: Seq<usize>, amount: nat, n: nat) -> bool {
    exists|s: Seq<usize>| is_decomposition(coins, amount, s) && s.len() == n
}

/// Below any length that a decomposition has, some length is the least.
proof fn lemma_least_length(coins: Seq<usize>, amount: nat, n: nat) -> (m: nat)
    requires
        has_length(coins, amount, n),
    ensures
        m <= n,
        has_length(coins, amount, m),
        forall|j: nat| j < m ==> !has_length(coins, amount, j),
    decreases n,
{
    if exists|j: nat| j < n && has_length(coins, amount, j) {
        let j = choose|j: nat| j < n && has_length(coins, amount, j);
        lemma_least_length(coins, amount, j)
    } else {
        n
    }
}

/// A feasible amount has a minimal decomposition, and `fewest` is its length.
pub proof fn lemma_fewest_exists(coins: Seq<usize>, amount: nat)
    requires
        feasible(coins, amount),
    ensures
        is_fewest(coins, amount, fewest(coins, amount)),
{
    let any = choose|s: Seq<usize>| is_decomposition(coins, amount, s);
    let m = lemma_least_length(coins, amount, any.len());
    let s = choose|s: Seq<usize>| is_decomposition(coins, amount, s) && s.len() == m;
    assert forall|t: Seq<usize>| is_decomposition(coins, amount, t) implies s.len() <= t.len() by {
        if t.len() < m {
            assert(has_length(coins, amount, t.len()));
        }
    }
    assert(is_minimal_decomposition(coins, amount, s));
    assert(is_fewest(coins, amount, m));
}

/// All minimal decompositions of an amount have the same length, the one that
/// `fewest` names.
pub proof fn lemma_fewest_unique(coins: Seq<usize>, amount: nat, s: Seq<usize>)
    requires
        is_minimal_decomposition(coins, amount, s),
    ensures
        feasible(coins, amount),
        fewest(coins, amount) == s.len(),
{
    assert(is_fewest(coins, amount, s.len()));
    let n = fewest(coins, amount);
    assert(is_fewest(coins, amount, n));
    let t = choose|t: Seq<usize>| is_minimal_decomposition(coins, amount, t) && t.len() == n;
    assert(s.len() <= t.len());
    assert(t.len() <= s.len());
}

/// The amount zero is made of no pieces at all.
pub proof fn lemma_nothing_for_zero(coins: Seq<usize>)
    ensures
        is_minimal_decomposition(coins, 0, Seq::<usize>::empty()),
        feasible(coins, 0),
        fewest(coins, 0) == 0,
{
    let e = Seq::<usize>::empty();
    assert(is_decomposition(coins, 0, e));
    assert(is_minimal_decomposition(coins, 0, e));
    lemma_fewest_unique(coins, 0, e);
}

/// With a denomination of value one, every amount can be reached.
pub proof fn lemma_unit_reaches_all(coins: Seq<usize>, amount: nat)
    requires
        coins.contains(1),
    ensures
        feasible(coins, amount),
    decreases amount,
{
    if amount == 0 {
        lemma_nothing_for_zero(coins);
    } else {
        let rest = (amount - 1) as nat;
        lemma_unit_reaches_all(coins, rest);
        let s = choose|s: Seq<usize>| is_decomposition(coins, rest, s);
        lemma_extend(coins, rest, s, 1);
        assert(is_decomposition(coins, amount, s.push(1)));
    }
}

/// The amount one can be reached only with a denomination of value one.
pub proof fn lemma_one_needs_unit(coins: Seq<usize>)
    requires
        valid_denominations(coins),
        feasible(coins, 1),
    ensures
        coins.contains(1),
{
    let s = choose|s: Seq<usize>| is_decomposition(coins, 1, s);
    lemma_shrink(coins, 1, s);
    let i = choose|i: int| 0 <= i < coins.len() && coins[i] == s.last();
    assert(coins[i] > 0);
}

/// Pieces that are all multiples of `g` add up to a multiple of `g`.
pub proof fn lemma_total_of_multiples(coins: Seq<usize>, g: nat, s: Seq<usize>)
    requires
        g > 0,
        forall|i: int| 0 <= i < coins.len() ==> coins[i] as nat % g == 0,
        uses_only(coins, s),
    ensures
        total(s) % g == 0,
    decreases s.len(),
{
    if s.len() > 0 {
        let rest = s.drop_last();
        assert forall|j: int| 0 <= j < rest.len() implies coins.contains(#[trigger] rest[j]) by {
            assert(rest[j] == s[j]);
        }
        lemma_total_of_multiples(coins, g, rest);
        assert(coins.contains(s[s.len() - 1]));
        let i = choose|i: int| 0 <= i < coins.len() && coins[i] == s.last();
        assert(coins[i] as nat % g == 0);
        let a = total(rest) as int;
        let b = s.last() as int;
        lemma_mod_adds(a, b, g as int);
        assert(a % (g as int) == 0);
        assert(b % (g as int) == 0);
        assert((a + b) % (g as int) == 0);
        assert(total(s) == a + b);
    } else {
        assert(0int % (g as int) == 0) by (nonlinear_arith)
            requires
                g > 0,
        ;
    }
}

/// Where every denomination is a multiple of `g`, an amount that is not a
/// multiple of `g` cannot be reached.
pub proof fn lemma_common_divisor_blocks(coins: Seq<usize>, g: nat, amount: nat)
    requires
        g > 0,
        forall|i: int| 0 <= i < coins.len() ==> coins[i] as nat % g == 0,
        amount % g != 0,
    ensures
        !feasible(coins, amount),
{
    if feasible(coins, amount) {
        let s = choose|s: Seq<usize>| is_decomposition(coins, amount, s);
        lemma_total_of_multiples(coins, g, s);
    }
}

/// A minimal decomposition has no more pieces than the amount.
pub proof fn lemma_fewest_at_most_amount(coins: Seq<usize>, amount: nat)
    requires
        valid_denominations(coins),
        feasible(coins, amount),
    ensures
        fewest(coins, amount) <= amount,
{
    lemma_fewest_exists(coins, amount);
    let s = choose|s: Seq<usize>|
        is_minimal_decomposition(coins, amount, s) && s.len() == fewest(coins, amount);
    lemma_length_at_most_total(coins, s);
}

/// A decomposition with `fewest` pieces is minimal.
pub proof fn lemma_fewest_is_minimal(coins: Seq<usize>, amount: nat, s: Seq<usize>)
    requires
        is_decomposition(coins, amount, s),
        s.len() == fewest(coins, amount),
    ensures
        is_minimal_decomposition(coins, amount, s),
{
    lemma_fewest_exists(coins, amount);
    let m = choose|m: Seq<usize>|
        is_minimal_decomposition(coins, amount, m) && m.len() == fewest(coins, amount);
    assert forall|t: Seq<usize>| is_decomposition(coins, amount, t) implies s.len() <= t.len() by {
        assert(m.len() <= t.len());
    }
}

/// A value occurs no more often than there are pieces.
pub proof fn lemma_occurrences_at_most_length(s: Seq<usize>, d: usize)
    ensures
        occurrences(s, d) <= s.len(),
    decreases s.len(),
{
    if s.len() > 0 {
        lemma_occurrences_at_most_length(s.drop_last(), d);
    }
}

/// The value of every piece occurs at least once.
pub proof fn lemma_piece_occurs(s: Seq<usize>, j: int)
    requires
        0 <= j < s.len(),
    ensures
        occurrences(s, s[j]) >= 1,
    decreases s.len(),
{
    if j < s.len() - 1 {
        lemma_piece_occurs(s.drop_last(), j);
    }
}

/// A value that occurs is the value of some piece.
pub proof fn lemma_occurring_piece(s: Seq<usize>, d: usize) -> (j: int)
    requires
        occurrences(s, d) >= 1,
    ensures
        0 <= j < s.len(),
        s[j] == d,
    decreases s.len(),
{
    if s.last() == d {
        s.len() - 1
    } else {
        lemma_occurring_piece(s.drop_last(), d)
    }
}

/// Taking one piece out lowers the total by its value, and the occurrences of
/// its value by one.
pub proof fn lemma_remove_piece(s: Seq<usize>, k: int, d: usize)
    requires
        0 <= k < s.len(),
    ensures
        total(s.remove(k)) + s[k] == total(s),
        occurrences(s.remove(k), d) + if s[k] == d {
            1nat
        } else {
            0nat
        } == occurrences(s, d),
    decreases s.len(),
{
    if k == s.len() - 1 {
        assert(s.remove(k) =~= s.drop_last());
    } else {
        let r = s.remove(k);
        assert(r.drop_last() =~= s.drop_last().remove(k));
        assert(r.last() == s.last());
        lemma_remove_piece(s.drop_last(), k, d);
    }
}

/// Two sequences in which every value occurs equally often hold the same
/// pieces.
pub open spec fn same_pieces(a: Seq<usize>, b: Seq<usize>) -> bool {
    forall|d: usize| occurrences(a, d) == occurrences(b, d)
}

/// Sequences that hold the same pieces have the same length and the same
/// total.
pub proof fn lemma_same_pieces_same_total(a: Seq<usize>, b: Seq<usize>)
    requires
        same_pieces(a, b),
    ensures
        a.len() == b.len(),
        total(a) == total(b),
    decreases a.len(),
{
    if a.len() == 0 {
        if b.len() > 0 {
            lemma_piece_occurs(b, 0);
            assert(occurrences(a, b[0]) == occurrences(b, b[0]));
        }
    } else {
        let x = a.last();
        lemma_piece_occurs(a, a.len() - 1);
        assert(occurrences(a, x) == occurrences(b, x));
        let k = lemma_occurring_piece(b, x);
        let rest = b.remove(k);
        assert forall|d: usize| occurrences(a.drop_last(), d) == occurrences(rest, d) by {
            lemma_remove_piece(b, k, d);
            assert(occurrences(a, d) == occurrences(b, d));
        }
        lemma_remove_piece(b, k, x);
        lemma_same_pieces_same_total(a.drop_last(), rest);
    }
}

/// A sequence that holds the same pieces as a decomposition is a
/// decomposition too, minimal if the other is.
pub proof fn lemma_same_pieces_decompose(
    coins: Seq<usize>,
    amount: nat,
    a: Seq<usize>,
    b: Seq<usize>,
)
    requires
        same_pieces(a, b),
        is_decomposition(coins, amount, b),
    ensures
        is_decomposition(coins, amount, a),
        is_minimal_decomposition(coins, amount, b) ==> is_minimal_decomposition(coins, amount, a),
{
    lemma_same_pieces_same_total(a, b);
    assert forall|j: int| 0 <= j < a.len() implies coins.contains(#[trigger] a[j]) by {
        lemma_piece_occurs(a, j);
        assert(occurrences(a, a[j]) == occurrences(b, a[j]));
        let k = lemma_occurring_piece(b, a[j]);
        assert(coins.contains(b[k]));
    }
}

/// Leaving out the last piece leaves out one occurrence of its value.
proof fn lemma_same_pieces_drop_last(a: Seq<usize>, b: Seq<usize>)
    requires
        same_pieces(a, b),
        a.len() > 0,
        b.len() > 0,
        a.last() == b.last(),
    ensures
        same_pieces(a.drop_last(), b.drop_last()),
{
    assert forall|d: usize| occurrences(a.drop_last(), d) == occurrences(b.drop_last(), d) by {
        assert(occurrences(a, d) == occurrences(b, d));
    }
}

/// A collection of pieces can be laid out from the largest to the smallest in
/// one way only.
pub proof fn lemma_descending_is_unique(a: Seq<usize>, b: Seq<usize>)
    requires
        descending(a),
        descending(b),
        same_pieces(a, b),
    ensures
        a == b,
    decreases a.len(),
{
    lemma_same_pieces_same_total(a, b);
    if a.len() == 0 {
        assert(a =~= b);
    } else {
        let x = a.last();
        let y = b.last();
        lemma_piece_occurs(a, a.len() - 1);
        lemma_piece_occurs(b, b.len() - 1);
        assert(occurrences(a, x) == occurrences(b, x));
        assert(occurrences(a, y) == occurrences(b, y));
        let k = lemma_occurring_piece(b, x);
        let l = lemma_occurring_piece(a, y);
        assert(b[k] >= b[b.len() - 1]);
        assert(a[l] >= a[a.len() - 1]);
        lemma_same_pieces_drop_last(a, b);
        lemma_descending_is_unique(a.drop_last(), b.drop_last());
        assert(a =~= a.drop_last().push(x));
        assert(b =~= b.drop_last().push(y));
    }
}

} // verus!
