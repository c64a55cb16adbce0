//! The slash notation for prices.
//!
//! `5/2` is five shillings and twopence, `1/4/-` one pound and four shillings,
//! `-/2` twopence. Two parts are shillings and pence, three are pounds,
//! shillings and pence. A part is a decimal number, or a dash for nothing. A
//! lone `0` is the price of nothing.

use vstd::prelude::*;
use vstd::string::StringSliceAdditionalSpecFns;
use crate::price::{Amount, Price};

verus! {

/// The byte `/`.
pub const SLASH: u8 = 47;

/// The byte `-`.
pub const DASH: u8 = 45;

/// The byte `0`.
pub const ZERO: u8 = 48;

/// The byte `9`.
pub const NINE: u8 = 57;

/// Why a text is not a price.
#[derive(Debug, Clone, Copy, PartialEq, Eq)]
pub enum NotationError {
    /// The text is not of the form described for the notation.
    Malformed,
    /// The text is well formed, but the price is worth more halfpence than a
    /// `usize` holds.
    TooLarge,
}

/// Every byte of `s` is a decimal digit.
pub open spec fn all_digits(s: Seq<u8>) -> bool {
    forall|i: int| 0 <= i < s.len() ==> ZERO <= #[trigger] s[i] <= NINE
}

/// The number that the digits of `s` write in decimal.
pub open spec fn decimal(s: Seq<u8>) -> nat
    decreases s.len(),
{
    if s.len() == 0 {
        0
    } else {
        decimal(s.drop_last()) * 10 + (s.last() - ZERO) as nat
    }
}

/// What one part of a price stands for: nothing for a dash, the number for a
/// run of digits, and `None` for anything else.
pub open spec fn part(s: Seq<u8>) -> Option<nat> {
    if s.len() == 1 && s[0] == DASH {
        Some(0)
    } else if s.len() > 0 && all_digits(s) {
        Some(decimal(s))
    } else {
        None
    }
}

/// How many bytes stand before the first slash of `s`: all of them where it
/// holds no slash.
pub open spec fn before_slash(s: Seq<u8>) -> int
    decreases s.len(),
{
    if s.len() == 0 || s[0] == SLASH {
        0
    } else {
        1 + before_slash(s.drop_first())
    }
}

/// Pounds, shillings and pence, where each of the three parts stands for a
/// number.
pub open spec fn three_parts(pounds: Option<nat>, shillings: Option<nat>, pence: Option<nat>)
    -> Option<(nat, nat, nat)> {
    match (pounds, shillings, pence) {
        (Some(l), Some(s), Some(d)) => Some((l, s, d)),
        _ => None,
    }
}

/// The pounds, shillings and pence that `text` writes in the slash notation,
/// or `None` where it is not of that form.
pub open spec fn components(text: Seq<u8>) -> Option<(nat, nat, nat)> {
    let i = before_slash(text);
    if i == text.len() {
        if text.len() == 1 && text[0] == ZERO {
            Some((0, 0, 0))
        } else {
            None
        }
    } else {
        let head = text.take(i);
        let tail = text.skip(i + 1);
        let j = before_slash(tail);
        if j == tail.len() {
            three_parts(Some(0), part(head), part(tail))
        } else {
            three_parts(part(head), part(tail.take(j)), part(tail.skip(j + 1)))
        }
    }
}

/// The amount of so many pounds, shillings and pence: a penny is two
/// halfpence.
pub open spec fn amount_of(parts: (nat, nat, nat)) -> Amount {
    Amount { pounds: parts.0, shillings: parts.1, halfpence: parts.2 * 2 }
}

/// `before_slash` is the one place that has a slash, or the end, and no slash
/// before it.
pub proof fn lemma_before_slash(s: Seq<u8>, i: int)
    requires
        0 <= i <= s.len(),
        forall|j: int| 0 <= j < i ==> s[j] != SLASH,
        i < s.len() ==> s[i] == SLASH,
    ensures
        before_slash(s) == i,
    decreases s.len(),
{
    if i > 0 {
        let rest = s.drop_first();
        assert forall|j: int| 0 <= j < i - 1 implies rest[j] != SLASH by {
            assert(rest[j] == s[j + 1]);
        }
        lemma_before_slash(rest, i - 1);
    }
}

/// What reading one part came to, against what the part stands for.
spec fn reads(r: Result<usize, NotationError>, p: Option<nat>) -> bool {
    match r {
        Ok(n) => p == Some(n as nat),
        Err(NotationError::Malformed) => p is None,
        Err(NotationError::TooLarge) => p matches Some(v) && v > usize::MAX,
    }
}

/// The place of the first slash at or after `from`, or the length of `bytes`
/// where none follows.
fn slash_from(bytes: &[u8], from: usize) -> (r: usize)
    requires
        from <= bytes.len(),
    ensures
        from <= r <= bytes.len(),
        r - from == before_slash(bytes@.skip(from as int)),
{
    let mut i = from;
    while i < bytes.len() && bytes[i] != SLASH
        invariant
            from <= i <= bytes.len(),
            forall|j: int| from <= j < i ==> bytes@[j] != SLASH,
        decreases bytes.len() - i,
    {
        i += 1;
    }
    proof {
        lemma_before_slash(bytes@.skip(from as int), i - from);
    }
    i
}

/// Reads the part that stands in `bytes` from `lo` up to `hi`.
fn read_part(bytes: &[u8], lo: usize, hi: usize) -> (r: Result<usize, NotationError>)
    requires
        lo <= hi <= bytes.len(),
    ensures
        reads(r, part(bytes@.subrange(lo as int, hi as int))),
{
    let ghost whole = bytes@.subrange(lo as int, hi as int);
    if lo == hi {
        return Err(NotationError::Malformed);
    }
    if hi - lo == 1 && bytes[lo] == DASH {
        return Ok(0);
    }
    let mut acc: Option<usize> = Some(0);
    let mut i = lo;
    while i < hi
        invariant
            lo <= i <= hi <= bytes.len(),
            whole == bytes@.subrange(lo as int, hi as int),
            !(hi - lo == 1 && bytes@[lo as int] == DASH),
            all_digits(bytes@.subrange(lo as int, i as int)),
            match acc {
                Some(a) => a == decimal(bytes@.subrange(lo as int, i as int)),
                None => decimal(bytes@.subrange(lo as int, i as int)) > usize::MAX,
            },
        decreases hi - i,
    {
        let b = bytes[i];
        if b < ZERO || b > NINE {
            proof {
                assert(whole[i - lo] == b);
                assert(whole[0] == bytes@[lo as int]);
            }
            return Err(NotationError::Malformed);
        }
        let d = (b - ZERO) as usize;
        proof {
            let next = bytes@.subrange(lo as int, i + 1);
            assert(next.drop_last() =~= bytes@.subrange(lo as int, i as int));
            assert(next.last() == b);
            assert forall|j: int| 0 <= j < next.len() implies ZERO <= #[trigger] next[j] <= NINE by {
                if j < i - lo {
                    assert(next[j] == bytes@.subrange(lo as int, i as int)[j]);
                }
            }
        }
        acc =
        match acc {
            Some(a) => match a.checked_mul(10) {
                Some(m) => m.checked_add(d),
                None => None,
            },
            None => None,
        };
        i += 1;
    }
    match acc {
        Some(a) => Ok(a),
        None => Err(NotationError::TooLarge),
    }
}

/// Puts the three parts together once each has been read.
fn assemble(
    pounds: Result<usize, NotationError>,
    shillings: Result<usize, NotationError>,
    pence: Result<usize, NotationError>,
    Ghost(l): Ghost<Option<nat>>,
    Ghost(s): Ghost<Option<nat>>,
    Ghost(d): Ghost<Option<nat>>,
) -> (r: Result<Price, NotationError>)
    requires
        reads(pounds, l),
        reads(shillings, s),
        reads(pence, d),
    ensures
        written(r, three_parts(l, s, d)),
{
    let malformed = matches!(pounds, Err(NotationError::Malformed)) || matches!(
        shillings,
        Err(NotationError::Malformed)
    ) || matches!(pence, Err(NotationError::Malformed));
    if malformed {
        return Err(NotationError::Malformed);
    }
    match (pounds, shillings, pence) {
        (Ok(l), Ok(s), Ok(d)) => {
            let total = match (l.checked_mul(480), s.checked_mul(24), d.checked_mul(2)) {
                (Some(a), Some(b), Some(c)) => match a.checked_add(b) {
                    Some(ab) => ab.checked_add(c),
                    None => None,
                },
                _ => None,
            };
            match total {
                Some(_) => Ok(Price::new(l, s, d * 2)),
                None => Err(NotationError::TooLarge),
            }
        },
        _ => Err(NotationError::TooLarge),
    }
}

/// What reading a text came to, against the parts that the text writes.
pub open spec fn written(r: Result<Price, NotationError>, parts: Option<(nat, nat, nat)>) -> bool {
    match r {
        Ok(p) => parts matches Some(c) && p@ == amount_of(c),
        Err(NotationError::Malformed) => parts is None,
        Err(NotationError::TooLarge) => parts matches Some(c) && amount_of(c).worth() > usize::MAX,
    }
}

/// The price that `text` writes in the slash notation.
///
/// A text that is not of that form is refused as malformed, whatever its
/// numbers are; one of that form whose price does not fit is refused as too
/// large.
pub fn price(text: &str) -> (r: Result<Price, NotationError>)
    ensures
        written(r, components(text.spec_bytes())),
{
    let bytes = text.as_bytes();
    let n = bytes.len();
    let i = slash_from(bytes, 0);
    assert(bytes@.skip(0) =~= bytes@);
    if i == n {
        if n == 1 && bytes[0] == ZERO {
            return Ok(Price::default());
        }
        return Err(NotationError::Malformed);
    }
    let j = slash_from(bytes, i + 1);
    proof {
        let tail = bytes@.skip(i + 1);
        assert(bytes@.take(i as int) =~= bytes@.subrange(0, i as int));
        assert(tail =~= bytes@.subrange(i + 1, n as int));
        assert(tail.take(j - (i + 1)) =~= bytes@.subrange(i + 1, j as int));
        if j < n {
            assert(tail.skip(j - (i + 1) + 1) =~= bytes@.subrange(j + 1, n as int));
        }
    }
    if j == n {
        let shillings = read_part(bytes, 0, i);
        let pence = read_part(bytes, i + 1, n);
        assemble(
            Ok(0),
            shillings,
            pence,
            Ghost(Some(0nat)),
            Ghost(part(bytes@.subrange(0, i as int))),
            Ghost(part(bytes@.subrange(i + 1, n as int))),
        )
    } else {
        let pounds = read_part(bytes, 0, i);
        let shillings = read_part(bytes, i + 1, j);
        let pence = read_part(bytes, j + 1, n);
        assemble(
            pounds,
            shillings,
            pence,
            Ghost(part(bytes@.subrange(0, i as int))),
            Ghost(part(bytes@.subrange(i + 1, j as int))),
            Ghost(part(bytes@.subrange(j + 1, n as int))),
        )
    }
}

} // verus!
