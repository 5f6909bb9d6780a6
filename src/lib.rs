//! Client-side model of the bonding-curve protocol's global configuration
//! account: a byte-exact codec for the account record and the quote of the
//! tokens that an initial buy yields.

pub mod global;

pub use global::{ArithmeticError, DecodeError, GlobalAccount, ACCOUNT_LEN};
