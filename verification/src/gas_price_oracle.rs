//! Parameters of the gas price oracle.

use crate::primitives::U256;
use vstd::prelude::*;

verus! {

/// Gas price below which the oracle ignores transactions, by default.
pub const DEFAULT_IGNORE_GAS_PRICE: u64 = 1_000_000;

/// Gas price to use if there are no blocks available, by default.
pub const DEFAULT_SUGGESTED_GAS_PRICE: u64 = 1_000_000;

/// Number of recent blocks to look at, by default.
pub const DEFAULT_GAS_PRICE_BLOCKS: u32 = 20;

/// Percentile of gas prices to use, by default.
pub const DEFAULT_GAS_PRICE_PERCENTILE: u32 = 60;

/// Maximum gas price to recommend, by default.
pub const DEFAULT_MAX_GAS_PRICE: u64 = 500_000_000_000;

/// What the user asks of the gas price oracle.
#[derive(Clone, Copy, Debug, PartialEq, Eq)]
pub struct GasPriceOracleArgs {
    /// Number of recent blocks to check for gas price.
    pub blocks: u32,
    /// Gas price below which transactions are ignored.
    pub ignore_price: u64,
    /// Maximum priority fee to be recommended.
    pub max_price: u64,
    /// The percentile of gas prices to use for the estimate.
    pub percentile: u32,
    /// The gas price to use if there are no blocks to use.
    pub default_suggested_fee: Option<U256>,
}

/// The configuration of the gas price oracle, as far as the user decides it.
#[derive(Clone, Copy, Debug, PartialEq, Eq)]
pub struct GasPriceOracleConfig {
    /// Number of recent blocks to check for gas price.
    pub blocks: u32,
    /// The percentile of gas prices to use for the estimate.
    pub percentile: u32,
    /// The gas price to use if there are no blocks to use.
    pub default_suggested_fee: Option<U256>,
    /// Maximum priority fee to be recommended.
    pub max_price: Option<U256>,
    /// Gas price below which transactions are ignored.
    pub ignore_price: Option<U256>,
}

impl GasPriceOracleArgs {
    /// The configuration that the arguments ask for.
    pub fn gas_price_oracle_config(&self) -> (config: GasPriceOracleConfig)
        ensures
            config.blocks == self.blocks,
            config.percentile == self.percentile,
            config.default_suggested_fee == self.default_suggested_fee,
            config.max_price matches Some(price) && price@ == self.max_price,
            config.ignore_price matches Some(price) && price@ == self.ignore_price,
    {
        GasPriceOracleConfig {
            blocks: self.blocks,
            percentile: self.percentile,
            default_suggested_fee: self.default_suggested_fee,
            max_price: Some(U256::from_u64(self.max_price)),
            ignore_price: Some(U256::from_u64(self.ignore_price)),
        }
    }
}

impl Default for GasPriceOracleArgs {
    fn default() -> (args: Self)
        ensures
            args.blocks == DEFAULT_GAS_PRICE_BLOCKS,
            args.ignore_price == DEFAULT_IGNORE_GAS_PRICE,
            args.max_price == DEFAULT_MAX_GAS_PRICE,
            args.percentile == DEFAULT_GAS_PRICE_PERCENTILE,
            args.default_suggested_fee matches Some(fee) && fee@ == DEFAULT_SUGGESTED_GAS_PRICE,
    {
        GasPriceOracleArgs {
            blocks: DEFAULT_GAS_PRICE_BLOCKS,
            ignore_price: DEFAULT_IGNORE_GAS_PRICE,
            max_price: DEFAULT_MAX_GAS_PRICE,
            percentile: DEFAULT_GAS_PRICE_PERCENTILE,
            default_suggested_fee: Some(U256::from_u64(DEFAULT_SUGGESTED_GAS_PRICE)),
        }
    }
}

} // verus!
