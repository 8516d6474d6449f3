//! Trading fees of an account.

use vstd::prelude::*;
use crate::types::Balance;

verus! {

/// The fractions of a trade that an account pays as maker and as taker.
#[derive(Clone, Copy, Debug, PartialEq, Eq, Structural)]
pub struct FeeConfig {
    pub maker_fraction: Balance,
    pub taker_fraction: Balance,
}

impl Default for FeeConfig {
    /// No fee on either side.
    fn default() -> (config: FeeConfig)
        ensures
            config == (FeeConfig { maker_fraction: 0, taker_fraction: 0 }),
    {
        FeeConfig { maker_fraction: 0, taker_fraction: 0 }
    }
}

} // verus!
