//! What the gas price oracle is configured with, and who gets a deposited sender.

use crate::gas_price_oracle::{GasPriceOracleArgs, GasPriceOracleConfig};
use vstd::prelude::*;

verus! {

/// Every argument reaches the configuration unchanged, and in its own place.
pub proof fn lemma_arguments_reach_the_configuration(
    args: GasPriceOracleArgs,
    config: GasPriceOracleConfig,
)
    requires
        call_ensures(GasPriceOracleArgs::gas_price_oracle_config, (&args,), config),
    ensures
        config.blocks == args.blocks,
        config.percentile == args.percentile,
        config.max_price is Some && config.max_price->0@ == args.max_price,
        config.ignore_price is Some && config.ignore_price->0@ == args.ignore_price,
        config.default_suggested_fee is Some <==> args.default_suggested_fee is Some,
        args.default_suggested_fee is Some ==> config.default_suggested_fee->0@
            == args.default_suggested_fee->0@,
{
}

/// Arguments that differ give configurations that differ.
pub proof fn lemma_configurations_differ(
    args1: GasPriceOracleArgs,
    args2: GasPriceOracleArgs,
    config1: GasPriceOracleConfig,
    config2: GasPriceOracleConfig,
)
    requires
        call_ensures(GasPriceOracleArgs::gas_price_oracle_config, (&args1,), config1),
        call_ensures(GasPriceOracleArgs::gas_price_oracle_config, (&args2,), config2),
        config1 == config2,
    ensures
        args1 == args2,
{
}

/// Without arguments, the oracle looks at 20 blocks and takes the price at the 60th percentile, up to
/// 500 gwei. It ignores prices below a thousandth of a gwei, and suggests as much where there are no
/// blocks.
pub proof fn lemma_default_arguments(args: GasPriceOracleArgs, config: GasPriceOracleConfig)
    requires
        call_ensures(<GasPriceOracleArgs as Default>::default, (), args),
        call_ensures(GasPriceOracleArgs::gas_price_oracle_config, (&args,), config),
    ensures
        config.blocks == 20,
        config.percentile == 60,
        config.max_price is Some && config.max_price->0@ == 500 * 1_000_000_000,
        config.ignore_price is Some && config.ignore_price->0@ * 1_000 == 1_000_000_000,
        config.default_suggested_fee is Some && config.default_suggested_fee->0@ * 1_000
            == 1_000_000_000,
{
}

/// A sender that was deposited, whatever was there before, is handed to the first taker, and no other
/// taker gets anything until the next deposit. Where nothing is deposited, nobody gets anything.
pub proof fn lemma_one_taker_gets_the_deposit<S, T, F: FnOnce(S) -> Option<T>>(
    deposited_to: &mut Option<S>,
    taken_from: &mut Option<S>,
    taken_from_again: &mut Option<S>,
    sender: S,
    downcast: F,
    downcast_again: F,
    first: Option<T>,
    second: Option<T>,
)
    requires
        call_ensures(
            crate::tree_sender_escrow::deposit::<S>,
            (deposited_to, sender),
            (),
        ),
        *old(taken_from) == *final(deposited_to),
        call_ensures(
            crate::tree_sender_escrow::take::<S, T, F>,
            (taken_from, downcast),
            first,
        ),
        *old(taken_from_again) == *final(taken_from),
        call_ensures(
            crate::tree_sender_escrow::take::<S, T, F>,
            (taken_from_again, downcast_again),
            second,
        ),
    ensures
        downcast.ensures((sender,), first),
        *final(taken_from) is None,
        second is None,
        *final(taken_from_again) is None,
        downcast.requires((sender,)) ==> call_requires(
            crate::tree_sender_escrow::take::<S, T, F>,
            (taken_from, downcast),
        ),
        call_requires(
            crate::tree_sender_escrow::take::<S, T, F>,
            (taken_from_again, downcast_again),
        ),
{
}

} // verus!
