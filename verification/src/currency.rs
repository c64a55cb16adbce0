//! The coins and notes in use before decimalisation.

use vstd::prelude::*;

verus! {

/// A coin or note. The crown saw little use in day-to-day life.
#[derive(Debug, Clone, Copy, PartialEq, Eq, Structural)]
pub enum Currency {
    Halfpenny,
    Penny,
    Threepence,
    Sixpence,
    Shilling,
    Florin,
    HalfCrown,
    Crown,
    OnePound,
    FivePound,
    TenPound,
}

/// What each coin and note is worth in halfpence, from the smallest to the
/// largest.
pub const CURRENCIES_AS_HALFPENCE: [usize; 11] = [1, 2, 6, 12, 24, 48, 60, 120, 480, 2400, 4800];

impl Currency {
    /// What one piece is worth, in halfpence.
    pub open spec fn worth(self) -> nat {
        match self {
            Currency::Halfpenny => 1,
            Currency::Penny => 2,
            Currency::Threepence => 6,
            Currency::Sixpence => 12,
            Currency::Shilling => 24,
            Currency::Florin => 48,
            Currency::HalfCrown => 60,
            Currency::Crown => 120,
            Currency::OnePound => 480,
            Currency::FivePound => 2400,
            Currency::TenPound => 4800,
        }
    }

    /// The coin or note worth that many halfpence: 48 gives the florin. Where
    /// none is, the result is `None`.
    pub fn from_halfpence(halfpence: usize) -> (r: Option<Self>)
        ensures
            match r {
                Some(c) => c.worth() == halfpence,
                None => forall|c: Currency| c.worth() != halfpence,
            },
    {
        match halfpence {
            1 => Some(Self::Halfpenny),
            2 => Some(Self::Penny),
            6 => Some(Self::Threepence),
            12 => Some(Self::Sixpence),
            24 => Some(Self::Shilling),
            48 => Some(Self::Florin),
            60 => Some(Self::HalfCrown),
            120 => Some(Self::Crown),
            480 => Some(Self::OnePound),
            2400 => Some(Self::FivePound),
            4800 => Some(Self::TenPound),
            _ => None,
        }
    }
}

/// The table of values holds the worth of each coin and note, and nothing
/// else.
pub proof fn lemma_table_of_values(v: usize)
    ensures
        CURRENCIES_AS_HALFPENCE@.contains(v) <==> exists|c: Currency| c.worth() == v,
        CURRENCIES_AS_HALFPENCE@.len() == 11,
        forall|i: int| 0 <= i < 11 ==> CURRENCIES_AS_HALFPENCE@[i] > 0,
{
    let t = CURRENCIES_AS_HALFPENCE@;
    assert(t[0] == 1 && t[1] == 2 && t[2] == 6 && t[3] == 12 && t[4] == 24 && t[5] == 48);
    assert(t[6] == 60 && t[7] == 120 && t[8] == 480 && t[9] == 2400 && t[10] == 4800);
    if t.contains(v) {
        let i = choose|i: int| 0 <= i < t.len() && t[i] == v;
        let c = if i == 0 {
            Currency::Halfpenny
        } else if i == 1 {
            Currency::Penny
        } else if i == 2 {
            Currency::Threepence
        } else if i == 3 {
            Currency::Sixpence
        } else if i == 4 {
            Currency::Shilling
        } else if i == 5 {
            Currency::Florin
        } else if i == 6 {
            Currency::HalfCrown
        } else if i == 7 {
            Currency::Crown
        } else if i == 8 {
            Currency::OnePound
        } else if i == 9 {
            Currency::FivePound
        } else {
            Currency::TenPound
        };
        assert(c.worth() == v);
    }
    if exists|c: Currency| c.worth() == v {
        let c = choose|c: Currency| c.worth() == v;
        let i: int = match c {
            Currency::Halfpenny => 0,
            Currency::Penny => 1,
            Currency::Threepence => 2,
            Currency::Sixpence => 3,
            Currency::Shilling => 4,
            Currency::Florin => 5,
            Currency::HalfCrown => 6,
            Currency::Crown => 7,
            Currency::OnePound => 8,
            Currency::FivePound => 9,
            Currency::TenPound => 10,
        };
        assert(t[i] == v);
    }
}

} // verus!
