use walletfetch::amount::{parse_hex_quantity, Amount, BigNat};
use walletfetch::hexfmt::append_hex;

fn amount(raw: u128, decimals: u8) -> Amount {
    Amount { raw: BigNat::from_u128(raw), decimals }
}

fn hex_number(s: &str) -> Option<String> {
    parse_hex_quantity(s).map(|n| n.to_decimal_string())
}

#[test]
fn native_balance_of_one_coin() {
    let raw = parse_hex_quantity("0x0de0b6b3a7640000").unwrap();
    assert_eq!(raw, BigNat::from_u128(1_000_000_000_000_000_000u128));
    let a = Amount { raw, decimals: 18 };
    assert_eq!(a.to_decimal_string(), "1.0");
}

#[test]
fn token_balance_with_six_decimals() {
    let raw = parse_hex_quantity("0x0f4240").unwrap();
    assert_eq!(raw, BigNat::from_u128(1_000_000));
    assert_eq!(Amount { raw, decimals: 6 }.to_decimal_string(), "1.0");
}

#[test]
fn amounts_are_exact() {
    assert_eq!(amount(1_234_500, 6).to_decimal_string(), "1.2345");
    assert_eq!(amount(5, 18).to_decimal_string(), "0.000000000000000005");
    assert_eq!(amount(0, 18).to_decimal_string(), "0.0");
    assert_eq!(amount(42, 0).to_decimal_string(), "42.0");
    assert_eq!(amount(1, 40).to_decimal_string(), format!("0.{}1", "0".repeat(39)));
    assert_eq!(
        amount(u128::MAX, 18).to_decimal_string(),
        "340282366920938463463.374607431768211455"
    );
}

#[test]
fn balances_beyond_128_bits() {
    let raw = parse_hex_quantity(&format!("0x1{}", "0".repeat(32))).unwrap();
    assert_eq!(raw.to_decimal_string(), "340282366920938463463374607431768211456");
    assert_eq!(
        Amount { raw, decimals: 18 }.to_decimal_string(),
        "340282366920938463463.374607431768211456"
    );
    assert_eq!(
        hex_number(&format!("0x{}", "f".repeat(40))),
        Some("1461501637330902918203684832716283019655932542975".to_string())
    );
}

#[test]
fn hex_quantities() {
    assert_eq!(hex_number("0x0"), Some("0".to_string()));
    assert_eq!(hex_number("0x000"), Some("0".to_string()));
    assert_eq!(hex_number("0xFf"), Some("255".to_string()));
    assert_eq!(hex_number("0x00a"), Some("10".to_string()));
    assert_eq!(parse_hex_quantity("0x00ff"), parse_hex_quantity("0xff"));
    assert_eq!(hex_number("0x"), None);
    assert_eq!(hex_number("ff"), None);
    assert_eq!(hex_number("0x1g"), None);
    assert_eq!(hex_number("0x+1"), None);
    assert_eq!(
        hex_number(&format!("0x{}", "f".repeat(32))),
        Some(u128::MAX.to_string())
    );
}

#[test]
fn small_numbers_in_decimal() {
    assert_eq!(BigNat::from_u128(0).to_decimal_string(), "0");
    assert_eq!(BigNat::from_u128(15).to_decimal_string(), "15");
    assert_eq!(BigNat::from_u128(1234567890).to_decimal_string(), "1234567890");
    assert_eq!(BigNat::from_u128(u128::MAX).to_decimal_string(), u128::MAX.to_string());
}

#[test]
fn hex_encoding_is_lowercase() {
    let mut s = String::from("0x");
    append_hex(&mut s, &vec![0x00, 0xab, 0x7f, 0xff]);
    assert_eq!(s, "0x00ab7fff");
}
