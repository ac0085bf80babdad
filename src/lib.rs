//! A fungible-token ledger: balances, delegated allowances, a total supply and
//! a single owner who may mint and burn, with every operation proved atomic.
use vstd::prelude::*;

pub mod config;
pub mod ledger;
pub mod store;

pub use config::Config;
pub use ledger::{AccountId, Error, Event, Pallet};

verus! {

} // verus!
