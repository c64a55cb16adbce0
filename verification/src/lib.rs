//! Pre-decimal British money: prices in pounds, shillings and pence, wallets of
//! coins and notes, and change given in the fewest possible pieces.
//!
//! The heart of the crate is [`coin_change`], which breaks an amount into the
//! fewest pieces of a given set of denominations. Everything it promises is
//! stated over the definitions in [`decomposition`] and [`choice`].

pub mod change;
pub mod choice;
pub mod currency;
pub mod decomposition;
pub mod notation;
pub mod price;
pub mod text;
pub mod wallet;

pub use change::{coin_change, ChangeError};
pub use currency::Currency;
pub use notation::{price, NotationError};
pub use price::Price;
pub use wallet::Wallet;
