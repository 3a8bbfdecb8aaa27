use clap::builder::RangedU64ValueParser;
use clap::{Arg, ArgMatches, Command};
use reth_components::gas_price_oracle::{
    GasPriceOracleArgs, DEFAULT_GAS_PRICE_BLOCKS, DEFAULT_GAS_PRICE_PERCENTILE,
    DEFAULT_IGNORE_GAS_PRICE, DEFAULT_MAX_GAS_PRICE, DEFAULT_SUGGESTED_GAS_PRICE,
};
use reth_components::primitives::U256;

fn number<T>(name: &'static str, default: String) -> Arg
where
    T: TryFrom<u64> + Clone + Send + Sync + 'static,
    <T as TryFrom<u64>>::Error: Send + Sync + 'static + std::error::Error + ToString,
{
    let default: &'static str = Box::leak(default.into_boxed_str());
    Arg::new(name).long(name).default_value(default).value_parser(RangedU64ValueParser::<T>::new())
}

fn given<T: Copy + Send + Sync + 'static>(matches: &ArgMatches, name: &str) -> T {
    *matches.get_one::<T>(name).unwrap()
}

/// Parses arguments with the defaults of the library.
fn parse_from<const N: usize>(args: [&str; N]) -> GasPriceOracleArgs {
    let command = Command::new("reth")
        .arg(number::<u32>("gpo.blocks", DEFAULT_GAS_PRICE_BLOCKS.to_string()))
        .arg(number::<u64>("gpo.ignoreprice", DEFAULT_IGNORE_GAS_PRICE.to_string()))
        .arg(number::<u64>("gpo.maxprice", DEFAULT_MAX_GAS_PRICE.to_string()))
        .arg(number::<u32>("gpo.percentile", DEFAULT_GAS_PRICE_PERCENTILE.to_string()))
        .arg(number::<u64>(
            "gpo.default-suggested-fee",
            DEFAULT_SUGGESTED_GAS_PRICE.to_string(),
        ));
    let matches = command.get_matches_from(args);
    GasPriceOracleArgs {
        blocks: given(&matches, "gpo.blocks"),
        ignore_price: given(&matches, "gpo.ignoreprice"),
        max_price: given(&matches, "gpo.maxprice"),
        percentile: given(&matches, "gpo.percentile"),
        default_suggested_fee: Some(U256::from_u64(given(&matches, "gpo.default-suggested-fee"))),
    }
}

#[test]
fn test_parse_gpo_args() {
    let args = parse_from(["reth"]);
    assert_eq!(
        args,
        GasPriceOracleArgs {
            blocks: DEFAULT_GAS_PRICE_BLOCKS,
            ignore_price: DEFAULT_IGNORE_GAS_PRICE,
            max_price: DEFAULT_MAX_GAS_PRICE,
            percentile: DEFAULT_GAS_PRICE_PERCENTILE,
            default_suggested_fee: Some(U256::from_u64(DEFAULT_SUGGESTED_GAS_PRICE)),
        }
    );
}

#[test]
fn gpo_args_default_sanity_test() {
    let default_args = GasPriceOracleArgs::default();
    let args = parse_from(["reth"]);
    assert_eq!(args, default_args);
}

#[test]
fn gpo_args_use_requested_defaults_and_allow_overrides() {
    let args = parse_from(["reth"]);
    assert_eq!(args.ignore_price, DEFAULT_IGNORE_GAS_PRICE);
    assert_eq!(args.default_suggested_fee, Some(U256::from_u64(DEFAULT_SUGGESTED_GAS_PRICE)));

    let args =
        parse_from(["reth", "--gpo.ignoreprice", "42", "--gpo.default-suggested-fee", "43"]);
    assert_eq!(args.ignore_price, 42);
    assert_eq!(args.default_suggested_fee, Some(U256::from_u64(43)));
}

#[test]
fn the_configuration_follows_the_arguments() {
    let args = GasPriceOracleArgs {
        blocks: 5,
        ignore_price: 0x0102,
        max_price: u64::MAX,
        percentile: 77,
        default_suggested_fee: None,
    };
    let config = args.gas_price_oracle_config();
    assert_eq!(config.blocks, 5);
    assert_eq!(config.percentile, 77);
    assert_eq!(config.default_suggested_fee, None);
    let mut ignored = [0u8; 32];
    ignored[30] = 1;
    ignored[31] = 2;
    assert_eq!(config.ignore_price, Some(U256 { be_bytes: ignored }));
    let mut max = [0u8; 32];
    max[24..].fill(0xff);
    assert_eq!(config.max_price, Some(U256 { be_bytes: max }));
}

#[test]
fn the_defaults_have_these_values() {
    let args = GasPriceOracleArgs::default();
    assert_eq!(args.ignore_price, 1_000_000);
    assert_eq!(args.default_suggested_fee, Some(U256::from_u64(1_000_000)));
}
