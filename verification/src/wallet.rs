//! A wallet: how many of each coin and note it holds.

use vstd::prelude::*;
use crate::change::coin_change;
use crate::choice::chosen;
use crate::currency::{lemma_table_of_values, Currency, CURRENCIES_AS_HALFPENCE};
use crate::decomposition::{
    lemma_occurrences_at_most_length, lemma_occurrences_push, lemma_total_push, occurrences, total,
};
use crate::price::Price;

verus! {

/// A container for coins and notes, with one counter for each kind.
#[derive(Debug, Clone, Copy, PartialEq, Eq, Structural)]
pub struct Wallet {
    pub halfpence: usize,
    pub pennies: usize,
    pub threepence: usize,
    pub sixpence: usize,
    pub shillings: usize,
    pub florins: usize,
    pub half_crowns: usize,
    pub crowns: usize,
    pub one_pounds: usize,
    pub five_pounds: usize,
    pub ten_pounds: usize,
}

impl Wallet {
    /// How many pieces of `currency` the wallet holds.
    pub open spec fn count(self, currency: Currency) -> nat {
        match currency {
            Currency::Halfpenny => self.halfpence as nat,
            Currency::Penny => self.pennies as nat,
            Currency::Threepence => self.threepence as nat,
            Currency::Sixpence => self.sixpence as nat,
            Currency::Shilling => self.shillings as nat,
            Currency::Florin => self.florins as nat,
            Currency::HalfCrown => self.half_crowns as nat,
            Currency::Crown => self.crowns as nat,
            Currency::OnePound => self.one_pounds as nat,
            Currency::FivePound => self.five_pounds as nat,
            Currency::TenPound => self.ten_pounds as nat,
        }
    }

    /// What the wallet holds, in halfpence.
    pub open spec fn worth(self) -> nat {
        self.halfpence as nat + self.pennies as nat * 2 + self.threepence as nat * 6
            + self.sixpence as nat * 12 + self.shillings as nat * 24 + self.florins as nat * 48
            + self.half_crowns as nat * 60 + self.crowns as nat * 120 + self.one_pounds as nat
            * 480 + self.five_pounds as nat * 2400 + self.ten_pounds as nat * 4800
    }

    /// Adds a coin or note to the wallet.
    pub fn add_currency(&mut self, currency: Currency)
        requires
            old(self).count(currency) < usize::MAX,
        ensures
            forall|c: Currency|
                #![trigger final(self).count(c)]
                #![trigger old(self).count(c)]
                final(self).count(c) == old(self).count(c) + if c == currency {
                    1nat
                } else {
                    0nat
                },
            final(self).worth() == old(self).worth() + currency.worth(),
    {
        match currency {
            Currency::Halfpenny => self.halfpence += 1,
            Currency::Penny => self.pennies += 1,
            Currency::Threepence => self.threepence += 1,
            Currency::Sixpence => self.sixpence += 1,
            Currency::Shilling => self.shillings += 1,
            Currency::Florin => self.florins += 1,
            Currency::HalfCrown => self.half_crowns += 1,
            Currency::Crown => self.crowns += 1,
            Currency::OnePound => self.one_pounds += 1,
            Currency::FivePound => self.five_pounds += 1,
            Currency::TenPound => self.ten_pounds += 1,
        }
    }

    /// Removes a coin or note from the wallet, which must hold one.
    pub fn remove_currency(&mut self, currency: Currency)
        requires
            old(self).count(currency) > 0,
        ensures
            forall|c: Currency|
                #![trigger final(self).count(c)]
                #![trigger old(self).count(c)]
                final(self).count(c) + if c == currency {
                    1nat
                } else {
                    0nat
                } == old(self).count(c),
            final(self).worth() + currency.worth() == old(self).worth(),
    {
        match currency {
            Currency::Halfpenny => self.halfpence -= 1,
            Currency::Penny => self.pennies -= 1,
            Currency::Threepence => self.threepence -= 1,
            Currency::Sixpence => self.sixpence -= 1,
            Currency::Shilling => self.shillings -= 1,
            Currency::Florin => self.florins -= 1,
            Currency::HalfCrown => self.half_crowns -= 1,
            Currency::Crown => self.crowns -= 1,
            Currency::OnePound => self.one_pounds -= 1,
            Currency::FivePound => self.five_pounds -= 1,
            Currency::TenPound => self.ten_pounds -= 1,
        }
    }

    /// What the wallet holds, in halfpence.
    pub fn to_halfpence(&self) -> (r: usize)
        requires
            self.worth() <= usize::MAX,
        ensures
            r == self.worth(),
    {
        self.halfpence + self.pennies * 2 + self.threepence * 6 + self.sixpence * 12
            + self.shillings * 24 + self.florins * 48 + self.half_crowns * 60 + self.crowns * 120
            + self.one_pounds * 480 + self.five_pounds * 2400 + self.ten_pounds * 4800
    }
}

impl Default for Wallet {
    /// The empty wallet.
    fn default() -> (r: Self)
        ensures
            forall|c: Currency| r.count(c) == 0,
            r.worth() == 0,
    {
        Wallet {
            halfpence: 0,
            pennies: 0,
            threepence: 0,
            sixpence: 0,
            shillings: 0,
            florins: 0,
            half_crowns: 0,
            crowns: 0,
            one_pounds: 0,
            five_pounds: 0,
            ten_pounds: 0,
        }
    }
}

/// Two wallets that hold as many pieces of every kind are the same wallet.
pub proof fn lemma_same_counts(a: Wallet, b: Wallet)
    requires
        forall|c: Currency| a.count(c) == b.count(c),
    ensures
        a == b,
{
    assert(a.count(Currency::Halfpenny) == b.count(Currency::Halfpenny));
    assert(a.count(Currency::Penny) == b.count(Currency::Penny));
    assert(a.count(Currency::Threepence) == b.count(Currency::Threepence));
    assert(a.count(Currency::Sixpence) == b.count(Currency::Sixpence));
    assert(a.count(Currency::Shilling) == b.count(Currency::Shilling));
    assert(a.count(Currency::Florin) == b.count(Currency::Florin));
    assert(a.count(Currency::HalfCrown) == b.count(Currency::HalfCrown));
    assert(a.count(Currency::Crown) == b.count(Currency::Crown));
    assert(a.count(Currency::OnePound) == b.count(Currency::OnePound));
    assert(a.count(Currency::FivePound) == b.count(Currency::FivePound));
    assert(a.count(Currency::TenPound) == b.count(Currency::TenPound));
}

/// How many pieces of `currency` are given as change for `halfpence`
/// halfpence.
pub open spec fn change_count(halfpence: nat, currency: Currency) -> nat {
    chosen(CURRENCIES_AS_HALFPENCE@, halfpence, currency.worth() as usize)
}

impl From<Price> for Wallet {
    /// The price in the fewest coins and notes.
    fn from(value: Price) -> (r: Wallet)
        ensures
            forall|c: Currency| r.count(c) == change_count(value@.worth(), c),
            r.worth() == value@.worth(),
    {
        let coins = CURRENCIES_AS_HALFPENCE;
        let target = value.to_halfpence();
        proof {
            lemma_table_of_values(1);
            assert(Currency::Halfpenny.worth() == 1);
        }
        let pieces = coin_change(coins.as_slice(), target).unwrap();
        let mut wallet = Wallet::default();
        let mut i: usize = 0;
        while i < pieces.len()
            invariant
                i <= pieces.len(),
                forall|j: int|
                    0 <= j < pieces.len() ==> CURRENCIES_AS_HALFPENCE@.contains(
                        #[trigger] pieces@[j],
                    ),
                forall|c: Currency|
                    wallet.count(c) == occurrences(pieces@.take(i as int), c.worth() as usize),
                wallet.worth() == total(pieces@.take(i as int)),
                total(pieces@) == target,
            decreases pieces.len() - i,
        {
            let piece = pieces[i];
            proof {
                assert(CURRENCIES_AS_HALFPENCE@.contains(pieces@[i as int]));
                lemma_table_of_values(piece);
            }
            let currency = Currency::from_halfpence(piece).unwrap();
            proof {
                let seen = pieces@.take(i as int);
                assert(pieces@.take(i + 1) =~= seen.push(piece));
                lemma_total_push(seen, piece);
                lemma_occurrences_at_most_length(seen, piece);
                assert forall|c: Currency|
                    occurrences(pieces@.take(i + 1), c.worth() as usize) == occurrences(
                        seen,
                        c.worth() as usize,
                    ) + if c == currency {
                        1nat
                    } else {
                        0nat
                    } by {
                    lemma_occurrences_push(seen, piece, c.worth() as usize);
                }
            }
            wallet.add_currency(currency);
            i += 1;
        }
        proof {
            assert(pieces@.take(pieces.len() as int) =~= pieces@);
            let halfpence = value@.worth();
            assert(wallet.count(Currency::Halfpenny) == change_count(halfpence, Currency::Halfpenny));
            assert(wallet.count(Currency::Penny) == change_count(halfpence, Currency::Penny));
            assert(wallet.count(Currency::Threepence) == change_count(
                halfpence,
                Currency::Threepence,
            ));
            assert(wallet.count(Currency::Sixpence) == change_count(halfpence, Currency::Sixpence));
            assert(wallet.count(Currency::Shilling) == change_count(halfpence, Currency::Shilling));
            assert(wallet.count(Currency::Florin) == change_count(halfpence, Currency::Florin));
            assert(wallet.count(Currency::HalfCrown) == change_count(halfpence, Currency::HalfCrown));
            assert(wallet.count(Currency::Crown) == change_count(halfpence, Currency::Crown));
            assert(wallet.count(Currency::OnePound) == change_count(halfpence, Currency::OnePound));
            assert(wallet.count(Currency::FivePound) == change_count(halfpence, Currency::FivePound));
            assert(wallet.count(Currency::TenPound) == change_count(halfpence, Currency::TenPound));
        }
        wallet
    }
}

impl vstd::std_specs::convert::FromSpecImpl<Price> for Wallet {
    open spec fn obeys_from_spec() -> bool {
        true
    }

    open spec fn from_spec(value: Price) -> Wallet {
        let halfpence = value@.worth();
        Wallet {
            halfpence: change_count(halfpence, Currency::Halfpenny) as usize,
            pennies: change_count(halfpence, Currency::Penny) as usize,
            threepence: change_count(halfpence, Currency::Threepence) as usize,
            sixpence: change_count(halfpence, Currency::Sixpence) as usize,
            shillings: change_count(halfpence, Currency::Shilling) as usize,
            florins: change_count(halfpence, Currency::Florin) as usize,
            half_crowns: change_count(halfpence, Currency::HalfCrown) as usize,
            crowns: change_count(halfpence, Currency::Crown) as usize,
            one_pounds: change_count(halfpence, Currency::OnePound) as usize,
            five_pounds: change_count(halfpence, Currency::FivePound) as usize,
            ten_pounds: change_count(halfpence, Currency::TenPound) as usize,
        }
    }
}

} // verus!
