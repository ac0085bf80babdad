//! Deployment-time token settings: informational only, never used in arithmetic.
use vstd::prelude::*;

verus! {

/// The token's display name, symbol and number of decimals.
pub struct Config {
    pub name: Vec<u8>,
    pub symbol: Vec<u8>,
    pub decimals: u8,
}

impl Config {
    pub fn new(name: Vec<u8>, symbol: Vec<u8>, decimals: u8) -> (r: Self)
        ensures
            r.name@ == name@,
            r.symbol@ == symbol@,
            r.decimals == decimals,
    {
        Config { name, symbol, decimals }
    }
}

} // verus!
