use rebase_mint::error::RebaseMintError;
use rebase_mint::pubkey::OptionalNonZeroPubkey;
use rebase_mint::state::RebaseMintConfig;
use rebase_mint::ui::{format_ui_amount, parse_ui_amount};

const TEST_TOTAL_SUPPLY: u64 = 1000;
const TEST_TOTAL_SHARES: u64 = 500;
const TEST_DECIMALS: u8 = 2;

fn config(total_supply: u64, total_shares: u64) -> RebaseMintConfig {
    RebaseMintConfig {
        total_supply,
        total_shares,
        supply_authority: OptionalNonZeroPubkey::none(),
        rounding_error_carry: 0,
    }
}

#[test]
fn test_amount_to_shares() {
    let config = config(TEST_TOTAL_SUPPLY, TEST_TOTAL_SHARES);
    assert_eq!(config.amount_to_shares(500), 250);
    assert_eq!(config.amount_to_shares(0), 0);
}

#[test]
fn test_shares_to_amount() {
    let config = config(TEST_TOTAL_SUPPLY, TEST_TOTAL_SHARES);
    assert_eq!(config.shares_to_amount(250), 500);
    assert_eq!(config.shares_to_amount(0), 0);
}

#[test]
fn test_shares_to_ui_amount() {
    let config = config(TEST_TOTAL_SUPPLY, TEST_TOTAL_SHARES);
    // exactly `decimals` fractional digits
    assert_eq!(config.shares_to_ui_amount(250, TEST_DECIMALS), Some("5.00".to_string()));
    assert_eq!(config.shares_to_ui_amount(0, TEST_DECIMALS), Some("0.00".to_string()));
}

#[test]
fn test_try_ui_amount_into_shares() {
    let config = config(TEST_TOTAL_SUPPLY, TEST_TOTAL_SHARES);
    assert_eq!(config.try_ui_amount_into_shares("5", TEST_DECIMALS).unwrap(), 250);
    assert_eq!(config.try_ui_amount_into_shares("0", TEST_DECIMALS).unwrap(), 0);
    assert!(config.try_ui_amount_into_shares("invalid", TEST_DECIMALS).is_err());
}

#[test]
fn invalid_text_is_an_argument_error() {
    let config = config(TEST_TOTAL_SUPPLY, TEST_TOTAL_SHARES);
    assert_eq!(
        config.try_ui_amount_into_shares("invalid", TEST_DECIMALS),
        Err(RebaseMintError::InvalidArgument)
    );
}

#[test]
fn empty_supply_converts_one_for_one() {
    let c = config(0, 500);
    assert_eq!(c.amount_to_shares(7), 7);
    let c = config(500, 0);
    assert_eq!(c.shares_to_amount(9), 9);
}

#[test]
fn halves_round_up() {
    let c = config(2, 1);
    assert_eq!(c.amount_to_shares(1), 1);
    assert_eq!(c.amount_to_shares(3), 2);
    let c = config(3, 1);
    assert_eq!(c.amount_to_shares(1), 0);
    assert_eq!(c.amount_to_shares(2), 1);
}

#[test]
fn large_ratio_saturates() {
    let c = config(1, u64::MAX);
    assert_eq!(c.amount_to_shares(2), u64::MAX);
    assert_eq!(c.amount_to_shares(1), u64::MAX);
    let c = config(u64::MAX, u64::MAX);
    assert_eq!(c.amount_to_shares(u64::MAX), u64::MAX);
}

#[test]
fn round_trip_within_one_unit() {
    let c = config(3, 7);
    for amount in [0u64, 1, 2, 10, 999, 123456] {
        let back = c.shares_to_amount(c.amount_to_shares(amount));
        assert!(back + 1 >= amount && back <= amount + 1);
    }
    assert_eq!(c.amount_to_shares(10), 23);
    assert_eq!(c.shares_to_amount(23), 10);
}

#[test]
fn format_places_the_point() {
    assert_eq!(format_ui_amount(5, 3), "0.005");
    assert_eq!(format_ui_amount(123456, 0), "123456");
    assert_eq!(format_ui_amount(123456, 2), "1234.56");
    assert_eq!(format_ui_amount(0, 0), "0");
    assert_eq!(format_ui_amount(u64::MAX, 2), "184467440737095516.15");
    assert_eq!(format_ui_amount(7, 1), "0.7");
}

#[test]
fn parse_accepts_decimal_forms() {
    assert_eq!(parse_ui_amount("1.239", 2), Ok(123));
    assert_eq!(parse_ui_amount("5.", 2), Ok(500));
    assert_eq!(parse_ui_amount(".5", 2), Ok(50));
    assert_eq!(parse_ui_amount("+2", 2), Ok(200));
    assert_eq!(parse_ui_amount("1.5", 0), Ok(1));
    assert_eq!(parse_ui_amount("0", 255), Ok(0));
    assert_eq!(parse_ui_amount("007", 0), Ok(7));
    assert_eq!(parse_ui_amount("18446744073709551615", 0), Ok(u64::MAX));
    assert_eq!(parse_ui_amount("184467440737095516.15", 2), Ok(u64::MAX));
}

#[test]
fn parse_rejects_malformed_or_out_of_range() {
    for text in ["", ".", "+", "-1", "-0.001", "1e", "e5", "1e+", "1e1.5", "--0", "inf", "NaN", "1.2.3", " 1", "1,5", "é"] {
        assert_eq!(parse_ui_amount(text, 2), Err(RebaseMintError::InvalidArgument), "{}", text);
    }
    assert_eq!(parse_ui_amount("18446744073709551616", 0), Err(RebaseMintError::InvalidArgument));
    assert_eq!(parse_ui_amount("184467440737095516.16", 2), Err(RebaseMintError::InvalidArgument));
    assert_eq!(parse_ui_amount("1", 255), Err(RebaseMintError::InvalidArgument));
    assert_eq!(parse_ui_amount("1", 20), Err(RebaseMintError::InvalidArgument));
}

#[test]
fn ui_text_round_trips_through_shares() {
    let c = config(TEST_TOTAL_SUPPLY, TEST_TOTAL_SHARES);
    let text = c.shares_to_ui_amount(1234, 3).unwrap();
    assert_eq!(text, "2.468");
    assert_eq!(c.try_ui_amount_into_shares(&text, 3), Ok(1234));
}

#[test]
fn default_config_is_empty() {
    let c = RebaseMintConfig::default();
    assert_eq!((c.total_supply, c.total_shares, c.rounding_error_carry), (0, 0, 0));
    assert!(c.supply_authority.to_option().is_none());
    assert!(OptionalNonZeroPubkey::default().to_option().is_none());
    assert_eq!(c.amount_to_shares(42), 42);
}

#[test]
fn parse_accepts_negative_zero() {
    assert_eq!(parse_ui_amount("-0", 2), Ok(0));
    assert_eq!(parse_ui_amount("-0.000e7", 2), Ok(0));
    let c = config(TEST_TOTAL_SUPPLY, TEST_TOTAL_SHARES);
    assert_eq!(c.try_ui_amount_into_shares("-0", TEST_DECIMALS), Ok(0));
    assert_eq!(c.try_ui_amount_into_shares("-5", TEST_DECIMALS), Err(RebaseMintError::InvalidArgument));
}

#[test]
fn parse_accepts_exponents() {
    assert_eq!(parse_ui_amount("1e3", 2), Ok(100000));
    assert_eq!(parse_ui_amount("1e2", 0), Ok(100));
    assert_eq!(parse_ui_amount("1E+2", 0), Ok(100));
    assert_eq!(parse_ui_amount("5E-1", 2), Ok(50));
    assert_eq!(parse_ui_amount("1.5e1", 0), Ok(15));
    assert_eq!(parse_ui_amount("2.5e-1", 1), Ok(2));
    assert_eq!(parse_ui_amount("1e-400", 2), Ok(0));
    assert_eq!(parse_ui_amount("0e99999999999999999999999", 2), Ok(0));
    assert_eq!(parse_ui_amount("1.8446744073709551615e19", 0), Ok(u64::MAX));
    assert_eq!(parse_ui_amount("1e400", 2), Err(RebaseMintError::InvalidArgument));
    assert_eq!(parse_ui_amount("1e99999999999999999999999", 0), Err(RebaseMintError::InvalidArgument));
    assert_eq!(parse_ui_amount("1e20", 0), Err(RebaseMintError::InvalidArgument));
    let c = config(TEST_TOTAL_SUPPLY, TEST_TOTAL_SHARES);
    assert_eq!(c.try_ui_amount_into_shares("5e0", TEST_DECIMALS), Ok(250));
}

#[test]
fn round_trip_with_half_as_many_shares() {
    let c = config(1000, 500);
    assert_eq!(c.amount_to_shares(3), 2);
    assert_eq!(c.shares_to_amount(2), 4);
    for amount in 0u64..2000 {
        let back = c.shares_to_amount(c.amount_to_shares(amount));
        assert!(back + 1 >= amount && back <= amount + 1, "{}", amount);
    }
}
