//! Prices in pounds, shillings and halfpence.
//!
//! Twenty-four halfpence make a shilling and twenty shillings a pound, so a
//! pound is 480 halfpence.

use vstd::prelude::*;
use vstd::string::StringExecFns;
use crate::text::{append_decimal, decimal_text};
use crate::currency::Currency;
use crate::wallet::Wallet;

verus! {

/// What a price stands for: so many pounds, shillings and halfpence, as
/// mathematical numbers.
pub struct Amount {
    pub pounds: nat,
    pub shillings: nat,
    pub halfpence: nat,
}

impl Amount {
    /// The whole amount in halfpence.
    pub open spec fn worth(self) -> nat {
        self.pounds * 480 + self.shillings * 24 + self.halfpence
    }

    /// Fewer than twenty shillings and fewer than twenty-four halfpence: the
    /// one way to write an amount without leaving anything to carry.
    pub open spec fn is_normal(self) -> bool {
        self.shillings < 20 && self.halfpence < 24
    }

    /// The normal way to write `halfpence` halfpence.
    pub open spec fn of_halfpence(halfpence: nat) -> Amount {
        Amount {
            pounds: halfpence / 480,
            shillings: (halfpence / 24) % 20,
            halfpence: halfpence % 24,
        }
    }

    /// The sum of two amounts: halfpence are added and carried into the
    /// shillings, shillings are added and carried into the pounds.
    pub open spec fn plus(self, other: Amount) -> Amount {
        let halfpence = self.halfpence + other.halfpence;
        let shillings = halfpence / 24 + self.shillings + other.shillings;
        Amount {
            pounds: shillings / 20 + self.pounds + other.pounds,
            shillings: shillings % 20,
            halfpence: halfpence % 24,
        }
    }

    /// The price that stands for one coin or note. The halfpenny and the
    /// penny are written in halfpence; the threepence, the sixpence and the
    /// half crown carry their pence in the last field; the larger ones are
    /// written in shillings and pounds.
    pub open spec fn of_currency(currency: Currency) -> Amount {
        match currency {
            Currency::Halfpenny => Amount { pounds: 0, shillings: 0, halfpence: 1 },
            Currency::Penny => Amount { pounds: 0, shillings: 0, halfpence: 2 },
            Currency::Threepence => Amount { pounds: 0, shillings: 0, halfpence: 3 },
            Currency::Sixpence => Amount { pounds: 0, shillings: 0, halfpence: 6 },
            Currency::Shilling => Amount { pounds: 0, shillings: 1, halfpence: 0 },
            Currency::Florin => Amount { pounds: 0, shillings: 2, halfpence: 0 },
            Currency::HalfCrown => Amount { pounds: 0, shillings: 2, halfpence: 6 },
            Currency::Crown => Amount { pounds: 0, shillings: 5, halfpence: 0 },
            Currency::OnePound => Amount { pounds: 1, shillings: 0, halfpence: 0 },
            Currency::FivePound => Amount { pounds: 5, shillings: 0, halfpence: 0 },
            Currency::TenPound => Amount { pounds: 10, shillings: 0, halfpence: 0 },
        }
    }
}

/// Writing a number of halfpence as an amount keeps its worth, and the amount
/// is normal.
pub proof fn lemma_of_halfpence(halfpence: nat)
    ensures
        Amount::of_halfpence(halfpence).worth() == halfpence,
        Amount::of_halfpence(halfpence).is_normal(),
{
}

/// A normal amount is the normal way to write its own worth.
pub proof fn lemma_normal_is_of_worth(a: Amount)
    requires
        a.is_normal(),
    ensures
        Amount::of_halfpence(a.worth()) == a,
{
}

/// The sum of two amounts is worth what the two are worth together, and it is
/// normal.
pub proof fn lemma_plus(a: Amount, b: Amount)
    ensures
        a.plus(b).worth() == a.worth() + b.worth(),
        a.plus(b).is_normal(),
{
}

/// An amount written out, as in `£1 4s 0d`: pounds, shillings and whole
/// pence. An odd halfpenny is not shown.
pub open spec fn price_text(a: Amount) -> Seq<char> {
    seq!['£'] + decimal_text(a.pounds) + seq![' '] + decimal_text(a.shillings) + seq!['s', ' ']
        + decimal_text(a.halfpence / 2) + seq!['d']
}

/// The prices of `prices` added up one after another, starting from nothing.
pub open spec fn sum_of(prices: Seq<Price>) -> Amount
    decreases prices.len(),
{
    if prices.len() == 0 {
        Amount { pounds: 0, shillings: 0, halfpence: 0 }
    } else {
        sum_of(prices.drop_last()).plus(prices.last()@)
    }
}

/// What the prices of `prices` are worth together, in halfpence.
pub open spec fn worth_of(prices: Seq<Price>) -> nat
    decreases prices.len(),
{
    if prices.len() == 0 {
        0
    } else {
        worth_of(prices.drop_last()) + prices.last()@.worth()
    }
}

/// Adding prices up one after another gives the same as turning each into
/// halfpence, adding the numbers, and writing the result as a price again.
pub proof fn lemma_sum_matches_halfpence(prices: Seq<Price>)
    ensures
        sum_of(prices) == Amount::of_halfpence(worth_of(prices)),
        sum_of(prices).worth() == worth_of(prices),
    decreases prices.len(),
{
    if prices.len() > 0 {
        lemma_sum_matches_halfpence(prices.drop_last());
        lemma_plus(sum_of(prices.drop_last()), prices.last()@);
        lemma_normal_is_of_worth(sum_of(prices));
    }
}

/// The first prices of a sequence are worth no more than all of them.
pub proof fn lemma_worth_of_grows(prices: Seq<Price>, n: int)
    requires
        0 <= n <= prices.len(),
    ensures
        worth_of(prices.take(n)) <= worth_of(prices),
    decreases prices.len(),
{
    if n == prices.len() {
        assert(prices.take(n) =~= prices);
    } else {
        assert(prices.drop_last().take(n) =~= prices.take(n));
        lemma_worth_of_grows(prices.drop_last(), n);
    }
}

/// A price. Its worth in halfpence always fits in a `usize`.
#[derive(Debug, Clone, Copy, PartialEq, Eq, Structural)]
pub struct Price {
    pounds: usize,
    shillings: usize,
    halfpence: usize,
}

impl View for Price {
    type V = Amount;

    closed spec fn view(&self) -> Amount {
        Amount {
            pounds: self.pounds as nat,
            shillings: self.shillings as nat,
            halfpence: self.halfpence as nat,
        }
    }
}

/// A price is what it stands for: two prices with the same view are equal.
pub proof fn lemma_view_determines_price(a: Price, b: Price)
    requires
        a@ == b@,
    ensures
        a == b,
{
}

impl Price {
    /// The worth of the price fits in a `usize`. This holds of every price
    /// that exists at run time.
    #[verifier::type_invariant]
    pub closed spec fn fits(self) -> bool {
        self@.worth() <= usize::MAX
    }

    /// The price of so many pounds, shillings and halfpence. None of them
    /// needs to stay below what would be carried.
    pub fn new(pounds: usize, shillings: usize, halfpence: usize) -> (r: Self)
        requires
            pounds * 480 + shillings * 24 + halfpence <= usize::MAX,
        ensures
            r@ == (Amount {
                pounds: pounds as nat,
                shillings: shillings as nat,
                halfpence: halfpence as nat,
            }),
    {
        Price { pounds, shillings, halfpence }
    }

    /// The price worth `halfpence` halfpence, written the normal way.
    pub fn from_halfpence(halfpence: usize) -> (r: Self)
        ensures
            r@ == Amount::of_halfpence(halfpence as nat),
    {
        let shillings = halfpence / 24;
        proof {
            lemma_of_halfpence(halfpence as nat);
        }
        Price { pounds: shillings / 20, shillings: shillings % 20, halfpence: halfpence % 24 }
    }

    /// The price worth `pence` pence, written the normal way.
    pub fn from_pence(pence: usize) -> (r: Self)
        requires
            pence * 2 <= usize::MAX,
        ensures
            r@ == Amount::of_halfpence(pence as nat * 2),
    {
        Self::from_halfpence(pence * 2)
    }

    /// What the price is worth, in halfpence.
    pub fn to_halfpence(&self) -> (r: usize)
        ensures
            r == self@.worth(),
    {
        proof {
            use_type_invariant(self);
        }
        self.pounds * 480 + self.shillings * 24 + self.halfpence
    }

    /// The sum of this price and `rhs`, with halfpence carried into shillings
    /// and shillings into pounds.
    pub fn add(&self, rhs: Price) -> (r: Self)
        requires
            self@.worth() + rhs@.worth() <= usize::MAX,
        ensures
            r@ == self@.plus(rhs@),
            r@.worth() == self@.worth() + rhs@.worth(),
    {
        proof {
            lemma_plus(self@, rhs@);
        }
        let mut temp = self.halfpence + rhs.halfpence;
        let halfpence = temp % 24;
        temp = temp / 24 + self.shillings + rhs.shillings;
        let shillings = temp % 20;
        Price { pounds: temp / 20 + self.pounds + rhs.pounds, shillings, halfpence }
    }

    /// The prices of `prices` added up one after another, starting from
    /// nothing.
    pub fn sum(prices: &[Price]) -> (r: Self)
        requires
            worth_of(prices@) <= usize::MAX,
        ensures
            r@ == sum_of(prices@),
            r@ == Amount::of_halfpence(worth_of(prices@)),
    {
        let mut acc = Price::default();
        let mut i: usize = 0;
        while i < prices.len()
            invariant
                i <= prices.len(),
                acc@ == sum_of(prices@.take(i as int)),
                worth_of(prices@) <= usize::MAX,
            decreases prices.len() - i,
        {
            proof {
                assert(prices@.take(i + 1).drop_last() =~= prices@.take(i as int));
                lemma_sum_matches_halfpence(prices@.take(i as int));
                lemma_worth_of_grows(prices@, i + 1);
            }
            acc = acc.add(prices[i]);
            i += 1;
        }
        proof {
            assert(prices@.take(prices.len() as int) =~= prices@);
            lemma_sum_matches_halfpence(prices@);
        }
        acc
    }

    /// The price written out, as in `£1 4s 0d`: pounds, shillings and whole
    /// pence. An odd halfpenny is not shown.
    pub fn to_string(&self) -> (r: String)
        ensures
            r@ == price_text(self@),
    {
        proof {
            reveal_strlit("£");
            reveal_strlit(" ");
            reveal_strlit("s ");
            reveal_strlit("d");
        }
        let mut out = String::new();
        out.append("£");
        append_decimal(&mut out, self.pounds);
        out.append(" ");
        append_decimal(&mut out, self.shillings);
        out.append("s ");
        append_decimal(&mut out, self.halfpence / 2);
        out.append("d");
        assert(out@ =~= price_text(self@));
        out
    }

    /// The price of what the wallet holds, written the normal way.
    pub fn from_wallet(wallet: Wallet) -> (r: Self)
        requires
            wallet.worth() <= usize::MAX,
        ensures
            r@ == Amount::of_halfpence(wallet.worth()),
    {
        Self::from_halfpence(wallet.to_halfpence())
    }
}

impl Default for Price {
    /// The price of nothing.
    fn default() -> (r: Self)
        ensures
            r@ == (Amount { pounds: 0, shillings: 0, halfpence: 0 }),
    {
        Price { pounds: 0, shillings: 0, halfpence: 0 }
    }
}

impl From<Currency> for Price {
    /// The price that stands for one coin or note, as [`Amount::of_currency`]
    /// lists it.
    fn from(value: Currency) -> (r: Price)
        ensures
            r@ == Amount::of_currency(value),
    {
        match value {
            Currency::Halfpenny => Price { pounds: 0, shillings: 0, halfpence: 1 },
            Currency::Penny => Price { pounds: 0, shillings: 0, halfpence: 2 },
            Currency::Threepence => Price { pounds: 0, shillings: 0, halfpence: 3 },
            Currency::Sixpence => Price { pounds: 0, shillings: 0, halfpence: 6 },
            Currency::Shilling => Price { pounds: 0, shillings: 1, halfpence: 0 },
            Currency::Florin => Price { pounds: 0, shillings: 2, halfpence: 0 },
            Currency::HalfCrown => Price { pounds: 0, shillings: 2, halfpence: 6 },
            Currency::Crown => Price { pounds: 0, shillings: 5, halfpence: 0 },
            Currency::OnePound => Price { pounds: 1, shillings: 0, halfpence: 0 },
            Currency::FivePound => Price { pounds: 5, shillings: 0, halfpence: 0 },
            Currency::TenPound => Price { pounds: 10, shillings: 0, halfpence: 0 },
        }
    }
}

impl vstd::std_specs::convert::FromSpecImpl<Currency> for Price {
    open spec fn obeys_from_spec() -> bool {
        true
    }

    closed spec fn from_spec(value: Currency) -> Price {
        let a = Amount::of_currency(value);
        Price {
            pounds: a.pounds as usize,
            shillings: a.shillings as usize,
            halfpence: a.halfpence as usize,
        }
    }
}

} // verus!
