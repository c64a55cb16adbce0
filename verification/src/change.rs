//! Change in the fewest pieces.

use vstd::prelude::*;
use crate::choice::{
    chosen, is_preferred, leads_optimally, lemma_chosen_step, lemma_last_piece, lemma_viable_step,
    remainder, viable,
};
use crate::decomposition::{
    descending, feasible, fewest, is_decomposition, is_minimal_decomposition, lemma_extend,
    lemma_fewest_at_most_amount, lemma_fewest_exists, lemma_fewest_is_minimal, lemma_length_at_most_total,
    lemma_nothing_for_zero, lemma_occurrences_at_most_length, lemma_occurrences_push,
    lemma_same_pieces_decompose, lemma_unit_reaches_all, occurrences, same_pieces, valid_denominations,
};

verus! {

/// Why no change could be given.
#[derive(Debug, Clone, Copy, PartialEq, Eq)]
pub enum ChangeError {
    /// The set of denominations is empty or holds a zero.
    InvalidDenominations,
    /// No combination of the denominations adds up to the amount.
    Infeasible,
}

/// Whether `coins` is a usable set of denominations.
fn denominations_are_valid(coins: &[usize]) -> (ok: bool)
    ensures
        ok == valid_denominations(coins@),
{
    if coins.len() == 0 {
        return false;
    }
    let mut i: usize = 0;
    while i < coins.len()
        invariant
            i <= coins.len(),
            forall|j: int| 0 <= j < i ==> coins@[j] > 0,
        decreases coins.len() - i,
    {
        if coins[i] == 0 {
            return false;
        }
        i += 1;
    }
    true
}

/// The outcome of looking at every denomination for one amount.
///
/// `pick` is the index that was kept, or the number of denominations where none
/// was viable; `best` is the piece count that goes with it. `seen` says how
/// many denominations have been looked at.
spec fn scanned(coins: Seq<usize>, amount: nat, seen: int, best: nat, pick: int) -> bool {
    if pick == coins.len() {
        forall|j: int| 0 <= j < seen ==> !viable(coins, amount, j)
    } else {
        &&& 0 <= pick < seen
        &&& viable(coins, amount, pick)
        &&& best == fewest(coins, remainder(coins, amount, pick)) + 1
        &&& forall|j: int|
            0 <= j < seen && viable(coins, amount, j) ==> best <= fewest(
                coins,
                remainder(coins, amount, j),
            ) + 1
        &&& forall|j: int|
            0 <= j < pick && viable(coins, amount, j) ==> best < fewest(
                coins,
                remainder(coins, amount, j),
            ) + 1
    }
}

/// What is known of an amount once it is settled: whether it can be reached,
/// and if so with how many pieces and by which first step.
spec fn settled(coins: Seq<usize>, amount: nat, cost: nat, pick: int) -> bool {
    if pick == coins.len() {
        !feasible(coins, amount)
    } else {
        &&& feasible(coins, amount)
        &&& cost == fewest(coins, amount)
        &&& is_preferred(coins, amount, pick)
    }
}

/// Once every denomination has been looked at, the amount is settled.
proof fn lemma_scan_settles(coins: Seq<usize>, amount: nat, best: nat, pick: int)
    requires
        valid_denominations(coins),
        amount > 0,
        scanned(coins, amount, coins.len() as int, best, pick),
    ensures
        settled(coins, amount, best, pick),
{
    if pick == coins.len() {
        if feasible(coins, amount) {
            let t = choose|t: Seq<usize>| is_decomposition(coins, amount, t);
            let j = lemma_last_piece(coins, amount, t);
            assert(false);
        }
    } else {
        lemma_viable_step(coins, amount, pick);
        lemma_fewest_exists(coins, amount);
        let m = choose|m: Seq<usize>|
            is_minimal_decomposition(coins, amount, m) && m.len() == fewest(coins, amount);
        let j = lemma_last_piece(coins, amount, m);
        assert(best <= fewest(coins, amount));
        assert(leads_optimally(coins, amount, pick));
        assert forall|j: int| 0 <= j < pick implies !leads_optimally(coins, amount, j) by {
            if viable(coins, amount, j) {
                assert(best < fewest(coins, remainder(coins, amount, j)) + 1);
            }
        }
    }
}

/// The first steps recorded for the amounts `1..=steps.len()`: the entry at
/// index `j` belongs to the amount `j + 1`. It is the preferred index for that
/// amount, or the number of denominations where the amount cannot be reached.
spec fn steps_settled(coins: Seq<usize>, steps: Seq<usize>) -> bool {
    forall|j: int|
        0 <= j < steps.len() ==> {
            &&& #[trigger] steps[j] <= coins.len()
            &&& if steps[j] == coins.len() {
                !feasible(coins, (j + 1) as nat)
            } else {
                is_preferred(coins, (j + 1) as nat, steps[j] as int)
            }
        }
}

/// The piece counts recorded beside the first steps: where an amount can be
/// reached, the entry is the length of its minimal decompositions.
spec fn costs_settled(coins: Seq<usize>, steps: Seq<usize>, costs: Seq<usize>) -> bool {
    &&& costs.len() == steps.len()
    &&& forall|j: int|
        0 <= j < steps.len() && steps[j] < coins.len() ==> #[trigger] costs[j] == fewest(
            coins,
            (j + 1) as nat,
        )
}

/// Looks at every denomination for one amount, given the tables for all
/// smaller amounts, and returns the piece count and the first step to record.
fn settle_amount(coins: &[usize], steps: &Vec<usize>, costs: &Vec<usize>, amount: usize) -> (r: (
    usize,
    usize,
))
    requires
        valid_denominations(coins@),
        steps_settled(coins@, steps@),
        costs_settled(coins@, steps@, costs@),
        amount == steps.len() + 1,
    ensures
        r.1 <= coins.len(),
        settled(coins@, amount as nat, r.0 as nat, r.1 as int),
{
    let k = coins.len();
    let mut best: usize = 0;
    let mut pick: usize = k;
    let mut i: usize = 0;
    while i < k
        invariant
            k == coins.len(),
            i <= k,
            pick <= k,
            best <= amount,
            valid_denominations(coins@),
            steps_settled(coins@, steps@),
            costs_settled(coins@, steps@, costs@),
            amount == steps.len() + 1,
            scanned(coins@, amount as nat, i as int, best as nat, pick as int),
        decreases k - i,
    {
        let c = coins[i];
        if c <= amount {
            let rest = amount - c;
            assert(rest == remainder(coins@, amount as nat, i as int));
            let reachable = rest == 0 || steps[rest - 1] < k;
            proof {
                if rest == 0 {
                    lemma_nothing_for_zero(coins@);
                } else {
                    assert(steps@[rest - 1] <= k);
                    if steps@[rest - 1] < k {
                        lemma_viable_step(coins@, rest as nat, steps@[rest - 1] as int);
                    }
                }
                assert(reachable == feasible(coins@, rest as nat));
            }
            if reachable {
                let sub = if rest == 0 {
                    0
                } else {
                    costs[rest - 1]
                };
                proof {
                    assert(sub == fewest(coins@, rest as nat));
                    lemma_fewest_at_most_amount(coins@, rest as nat);
                }
                if pick == k || sub + 1 < best {
                    best = sub + 1;
                    pick = i;
                }
            }
        }
        i += 1;
    }
    proof {
        lemma_scan_settles(coins@, amount as nat, best as nat, pick as int);
    }
    (best, pick)
}

/// Records the first step for every amount from one up to `target`.
fn settle_amounts(coins: &[usize], target: usize) -> (steps: Vec<usize>)
    requires
        valid_denominations(coins@),
    ensures
        steps.len() == target,
        steps_settled(coins@, steps@),
{
    let mut steps: Vec<usize> = Vec::new();
    let mut costs: Vec<usize> = Vec::new();
    let mut done: usize = 0;
    while done < target
        invariant
            done <= target,
            steps.len() == done,
            valid_denominations(coins@),
            steps_settled(coins@, steps@),
            costs_settled(coins@, steps@, costs@),
        decreases target - done,
    {
        let amount = done + 1;
        let (best, pick) = settle_amount(coins, &steps, &costs, amount);
        steps.push(pick);
        costs.push(best);
        done = amount;
    }
    steps
}

/// How many pieces of value `d` the counts `uses` stand for, over the first
/// `n` denominations: `uses[i]` pieces of `coins[i]` each.
spec fn weight(coins: Seq<usize>, uses: Seq<usize>, n: int, d: usize) -> nat
    decreases n,
{
    if n <= 0 {
        0
    } else {
        weight(coins, uses, n - 1, d) + if coins[n - 1] == d {
            uses[n - 1] as nat
        } else {
            0nat
        }
    }
}

/// Counts that are all zero stand for no piece.
proof fn lemma_weight_of_zeros(coins: Seq<usize>, uses: Seq<usize>, n: int, d: usize)
    requires
        n <= uses.len(),
        forall|i: int| 0 <= i < uses.len() ==> uses[i] == 0,
    ensures
        weight(coins, uses, n, d) == 0,
    decreases n,
{
    if n > 0 {
        lemma_weight_of_zeros(coins, uses, n - 1, d);
    }
}

/// Where no denomination has the value `d`, the counts stand for no piece of
/// that value.
proof fn lemma_weight_of_stranger(coins: Seq<usize>, uses: Seq<usize>, n: int, d: usize)
    requires
        n <= coins.len(),
        forall|i: int| 0 <= i < n ==> coins[i] != d,
    ensures
        weight(coins, uses, n, d) == 0,
    decreases n,
{
    if n > 0 {
        lemma_weight_of_stranger(coins, uses, n - 1, d);
    }
}

/// A single count is no more than the weight of its value.
proof fn lemma_weight_covers(coins: Seq<usize>, uses: Seq<usize>, n: int, i: int)
    requires
        0 <= i < n,
    ensures
        uses[i] <= weight(coins, uses, n, coins[i]),
    decreases n,
{
    if i < n - 1 {
        lemma_weight_covers(coins, uses, n - 1, i);
    }
}

/// Raising the count at index `i` by one adds one piece of `coins[i]`.
proof fn lemma_weight_after_use(
    coins: Seq<usize>,
    uses: Seq<usize>,
    raised: Seq<usize>,
    n: int,
    i: int,
    d: usize,
)
    requires
        0 <= i < uses.len(),
        n <= uses.len(),
        raised == uses.update(i, (uses[i] + 1) as usize),
        uses[i] < usize::MAX,
    ensures
        weight(coins, raised, n, d) == weight(coins, uses, n, d) + if i < n && coins[i] == d {
            1nat
        } else {
            0nat
        },
    decreases n,
{
    if n > 0 {
        lemma_weight_after_use(coins, uses, raised, n - 1, i, d);
    }
}

/// Follows the recorded first steps down from `target` and counts, for each
/// denomination, how often it is taken. The ghost result is the sequence of
/// the pieces taken.
fn count_uses(coins: &[usize], steps: &Vec<usize>, target: usize) -> (r: (
    Vec<usize>,
    Ghost<Seq<usize>>,
))
    requires
        valid_denominations(coins@),
        steps_settled(coins@, steps@),
        steps.len() == target,
        feasible(coins@, target as nat),
    ensures
        r.0.len() == coins.len(),
        is_minimal_decomposition(coins@, target as nat, r.1@),
        forall|d: usize| occurrences(r.1@, d) == chosen(coins@, target as nat, d),
        forall|d: usize| weight(coins@, r.0@, coins.len() as int, d) == occurrences(r.1@, d),
{
    let k = coins.len();
    let mut uses: Vec<usize> = Vec::new();
    while uses.len() < k
        invariant
            uses.len() <= k,
            forall|i: int| 0 <= i < uses.len() ==> uses@[i] == 0,
        decreases k - uses.len(),
    {
        uses.push(0);
    }
    let ghost mut taken: Seq<usize> = Seq::empty();
    let mut v = target;
    proof {
        assert forall|d: usize| weight(coins@, uses@, k as int, d) == occurrences(taken, d) by {
            lemma_weight_of_zeros(coins@, uses@, k as int, d);
        }
    }
    while v > 0
        invariant
            k == coins.len(),
            uses.len() == k,
            v <= target,
            steps.len() == target,
            valid_denominations(coins@),
            steps_settled(coins@, steps@),
            feasible(coins@, v as nat),
            feasible(coins@, target as nat),
            is_decomposition(coins@, (target - v) as nat, taken),
            taken.len() + fewest(coins@, v as nat) == fewest(coins@, target as nat),
            forall|d: usize|
                occurrences(taken, d) + chosen(coins@, v as nat, d) == chosen(
                    coins@,
                    target as nat,
                    d,
                ),
            forall|d: usize| weight(coins@, uses@, k as int, d) == occurrences(taken, d),
        decreases v,
    {
        let i = steps[v - 1];
        assert(i < k);
        assert(is_preferred(coins@, v as nat, i as int));
        let c = coins[i];
        proof {
            lemma_weight_covers(coins@, uses@, k as int, i as int);
            lemma_occurrences_at_most_length(taken, c);
            lemma_length_at_most_total(coins@, taken);
        }
        let ghost before = uses@;
        let ghost seen = taken;
        uses.set(i, uses[i] + 1);
        proof {
            taken = seen.push(c);
            assert(coins@.contains(coins@[i as int]));
            lemma_extend(coins@, (target - v) as nat, seen, c);
            assert(remainder(coins@, v as nat, i as int) == v - c);
            assert forall|d: usize|
                occurrences(taken, d) + chosen(coins@, (v - c) as nat, d) == chosen(
                    coins@,
                    target as nat,
                    d,
                ) by {
                lemma_occurrences_push(seen, c, d);
                lemma_chosen_step(coins@, v as nat, i as int, d);
            }
            assert forall|d: usize| weight(coins@, uses@, k as int, d) == occurrences(taken, d) by {
                lemma_occurrences_push(seen, c, d);
                lemma_weight_after_use(coins@, before, uses@, k as int, i as int, d);
            }
        }
        v = v - c;
    }
    proof {
        lemma_nothing_for_zero(coins@);
        lemma_fewest_is_minimal(coins@, target as nat, taken);
    }
    (uses, Ghost(taken))
}

/// Whether the value `d` lies below the bound; without a bound every value
/// does.
spec fn below(bound: Option<usize>, d: usize) -> bool {
    match bound {
        Some(b) => d < b,
        None => true,
    }
}

/// The largest denomination below the bound, if there is one.
fn largest_below(coins: &[usize], bound: Option<usize>) -> (r: Option<usize>)
    ensures
        match r {
            Some(m) => {
                &&& below(bound, m)
                &&& coins@.contains(m)
                &&& forall|j: int|
                    0 <= j < coins.len() && below(bound, #[trigger] coins@[j]) ==> coins@[j] <= m
            },
            None => forall|j: int| 0 <= j < coins.len() ==> !below(bound, #[trigger] coins@[j]),
        },
{
    let mut found: Option<usize> = None;
    let mut i: usize = 0;
    while i < coins.len()
        invariant
            i <= coins.len(),
            match found {
                Some(m) => {
                    &&& below(bound, m)
                    &&& coins@.contains(m)
                    &&& forall|j: int|
                        0 <= j < i && below(bound, #[trigger] coins@[j]) ==> coins@[j] <= m
                },
                None => forall|j: int| 0 <= j < i ==> !below(bound, #[trigger] coins@[j]),
            },
        decreases coins.len() - i,
    {
        let c = coins[i];
        let under = match bound {
            Some(b) => c < b,
            None => true,
        };
        let larger = match found {
            Some(m) => c > m,
            None => true,
        };
        if under && larger {
            found = Some(c);
            assert(coins@[i as int] == c);
        }
        i += 1;
    }
    found
}

/// Appends `count` pieces of `value`, none of which is larger than a piece
/// already there.
fn push_copies(out: &mut Vec<usize>, value: usize, count: usize)
    requires
        descending(old(out)@),
        forall|j: int| 0 <= j < old(out)@.len() ==> old(out)@[j] >= value,
    ensures
        descending(final(out)@),
        forall|j: int| 0 <= j < final(out)@.len() ==> final(out)@[j] >= value,
        forall|d: usize|
            occurrences(final(out)@, d) == occurrences(old(out)@, d) + if d == value {
                count as nat
            } else {
                0nat
            },
{
    let mut n: usize = 0;
    while n < count
        invariant
            n <= count,
            descending(out@),
            forall|j: int| 0 <= j < out@.len() ==> out@[j] >= value,
            forall|d: usize|
                occurrences(out@, d) == occurrences(old(out)@, d) + if d == value {
                    n as nat
                } else {
                    0nat
                },
        decreases count - n,
    {
        let ghost before = out@;
        out.push(value);
        proof {
            assert forall|d: usize|
                occurrences(out@, d) == occurrences(old(out)@, d) + if d == value {
                    (n + 1) as nat
                } else {
                    0nat
                } by {
                lemma_occurrences_push(before, value, d);
            }
        }
        n += 1;
    }
}

/// Appends the pieces of value `value` that the counts stand for.
fn push_value(coins: &[usize], uses: &Vec<usize>, out: &mut Vec<usize>, value: usize)
    requires
        uses.len() == coins.len(),
        descending(old(out)@),
        forall|j: int| 0 <= j < old(out)@.len() ==> old(out)@[j] >= value,
    ensures
        descending(final(out)@),
        forall|j: int| 0 <= j < final(out)@.len() ==> final(out)@[j] >= value,
        forall|d: usize|
            occurrences(final(out)@, d) == occurrences(old(out)@, d) + if d == value {
                weight(coins@, uses@, coins.len() as int, value)
            } else {
                0nat
            },
{
    let mut i: usize = 0;
    while i < coins.len()
        invariant
            i <= coins.len(),
            uses.len() == coins.len(),
            descending(out@),
            forall|j: int| 0 <= j < out@.len() ==> out@[j] >= value,
            forall|d: usize|
                occurrences(out@, d) == occurrences(old(out)@, d) + if d == value {
                    weight(coins@, uses@, i as int, value)
                } else {
                    0nat
                },
        decreases coins.len() - i,
    {
        if coins[i] == value {
            push_copies(out, value, uses[i]);
        }
        i += 1;
    }
}

/// The pieces that the counts stand for, from the largest value to the
/// smallest.
fn pieces_descending(coins: &[usize], uses: &Vec<usize>) -> (out: Vec<usize>)
    requires
        uses.len() == coins.len(),
    ensures
        descending(out@),
        forall|d: usize| occurrences(out@, d) == weight(coins@, uses@, coins.len() as int, d),
{
    let mut out: Vec<usize> = Vec::new();
    let mut bound: Option<usize> = None;
    loop
        invariant
            uses.len() == coins.len(),
            descending(out@),
            forall|j: int| 0 <= j < out@.len() ==> !below(bound, out@[j]),
            forall|d: usize|
                occurrences(out@, d) == if below(bound, d) {
                    0nat
                } else {
                    weight(coins@, uses@, coins.len() as int, d)
                },
        ensures
            descending(out@),
            forall|d: usize| occurrences(out@, d) == weight(coins@, uses@, coins.len() as int, d),
        decreases
            match bound {
                Some(b) => b as int,
                None => usize::MAX + 1,
            },
    {
        match largest_below(coins, bound) {
            None => {
                proof {
                    assert forall|d: usize|
                        occurrences(out@, d) == weight(
                            coins@,
                            uses@,
                            coins.len() as int,
                            d,
                        ) by {
                        if below(bound, d) {
                            lemma_weight_of_stranger(coins@, uses@, coins.len() as int, d);
                        }
                    }
                }
                break ;
            },
            Some(m) => {
                let ghost before = out@;
                push_value(coins, uses, &mut out, m);
                proof {
                    assert forall|d: usize|
                        occurrences(out@, d) == if below(Some(m), d) {
                            0nat
                        } else {
                            weight(coins@, uses@, coins.len() as int, d)
                        } by {
                        if d > m && below(bound, d) {
                            lemma_weight_of_stranger(coins@, uses@, coins.len() as int, d);
                        }
                    }
                }
                bound = Some(m);
            },
        }
    }
    out
}

/// Breaks `target` into the fewest pieces that the denominations `coins`
/// allow.
///
/// The pieces come from the largest value to the smallest. Where several
/// minimal decompositions exist, the one returned is that of [`chosen`]: at
/// each step the first denomination, in the order of `coins`, that begins a
/// minimal decomposition of what is left.
///
/// An empty set of denominations, or one that holds a zero, is refused; so is
/// an amount that no combination of the denominations adds up to.
pub fn coin_change(coins: &[usize], target: usize) -> (r: Result<Vec<usize>, ChangeError>)
    ensures
        match r {
            Ok(pieces) => {
                &&& valid_denominations(coins@)
                &&& is_minimal_decomposition(coins@, target as nat, pieces@)
                &&& descending(pieces@)
                &&& forall|d: usize| occurrences(pieces@, d) == chosen(coins@, target as nat, d)
            },
            Err(ChangeError::InvalidDenominations) => !valid_denominations(coins@),
            Err(ChangeError::Infeasible) => {
                &&& valid_denominations(coins@)
                &&& !feasible(coins@, target as nat)
            },
        },
        valid_denominations(coins@) && target == 0 ==> r is Ok && r->Ok_0@ == Seq::<usize>::empty(),
        valid_denominations(coins@) && coins@.contains(1) ==> r is Ok,
{
    if !denominations_are_valid(coins) {
        return Err(ChangeError::InvalidDenominations);
    }
    proof {
        if coins@.contains(1) {
            lemma_unit_reaches_all(coins@, target as nat);
        }
    }
    if target == 0 {
        let pieces: Vec<usize> = Vec::new();
        proof {
            lemma_nothing_for_zero(coins@);
            assert(pieces@ =~= Seq::<usize>::empty());
        }
        return Ok(pieces);
    }
    let steps = settle_amounts(coins, target);
    if steps[target - 1] == coins.len() {
        return Err(ChangeError::Infeasible);
    }
    proof {
        lemma_viable_step(coins@, target as nat, steps@[target - 1] as int);
    }
    let (uses, Ghost(taken)) = count_uses(coins, &steps, target);
    let pieces = pieces_descending(coins, &uses);
    proof {
        assert(same_pieces(pieces@, taken));
        lemma_same_pieces_decompose(coins@, target as nat, pieces@, taken);
    }
    Ok(pieces)
}

} // verus!
