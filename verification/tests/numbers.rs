use rusty_gate::address::Address;
use rusty_gate::amount::{Amount, AMOUNT_SCALE};
use rusty_gate::providers::u256_from_str;
use rusty_gate::uint::U256;

fn amt(units: u128) -> Amount {
    Amount { units }
}

#[test]
fn amount_parse_fraction() {
    assert_eq!(Amount::parse("0.0004"), Some(amt(400_000_000_000_000)));
    assert_eq!(Amount::parse("595"), Some(amt(595 * AMOUNT_SCALE)));
    assert_eq!(Amount::parse("420.69"), Some(amt(420_690_000_000_000_000_000)));
    assert_eq!(Amount::parse("1.5"), Some(amt(1_500_000_000_000_000_000)));
    assert_eq!(Amount::parse("3.0"), Some(amt(3 * AMOUNT_SCALE)));
}

#[test]
fn amount_parse_edges() {
    assert_eq!(Amount::parse(""), None);
    assert_eq!(Amount::parse("."), None);
    assert_eq!(Amount::parse("5."), Some(amt(5 * AMOUNT_SCALE)));
    assert_eq!(Amount::parse(".5"), Some(amt(500_000_000_000_000_000)));
    assert_eq!(Amount::parse("1.2.3"), None);
    assert_eq!(Amount::parse("12a"), None);
    assert_eq!(Amount::parse("-3"), None);
    assert_eq!(Amount::parse("0"), Some(amt(0)));
    // a nineteenth fractional digit is truncated away
    assert_eq!(
        Amount::parse("1.0000000000000000009"),
        Some(amt(AMOUNT_SCALE))
    );
}

#[test]
fn u256_decimal_parse() {
    let v = U256::from_dec_str("10527").unwrap();
    assert_eq!(v, U256::from_u64(10527));
    assert_eq!(U256::from_dec_str(""), None);
    assert_eq!(U256::from_dec_str("12x"), None);
    let huge = U256::from_dec_str(
        "61313325075603536901663283754390960556726744542208800735045237225934362163454",
    )
    .unwrap();
    // its low 128 bits do not fit a u64, so the saturating read caps
    assert_eq!(huge.to_u128_saturating(), u128::MAX);
    // one over the largest 256-bit value is refused
    assert!(U256::from_dec_str(
        "115792089237316195423570985008687907853269984665640564039457584007913129639936"
    )
    .is_none());
    assert!(U256::from_dec_str(
        "115792089237316195423570985008687907853269984665640564039457584007913129639935"
    )
    .is_some());
}

#[test]
fn u256_hex_parse() {
    let v = U256::from_hex_str("0x2a").unwrap();
    assert_eq!(v, U256::from_u64(42));
    let w = U256::from_hex_str("FF").unwrap();
    assert_eq!(w, U256::from_u64(255));
    assert_eq!(U256::from_hex_str("0x"), None);
    assert_eq!(U256::from_hex_str("0xzz"), None);
}

#[test]
fn u256_arithmetic() {
    let a = U256::from_u64(7);
    let b = U256::from_u64(5);
    assert_eq!(a.checked_add(b).unwrap(), U256::from_u64(12));
    let scaled = a.mul_small_add(10, 3).unwrap();
    assert_eq!(scaled, U256::from_u64(73));
    assert_eq!(U256::from_u64(73).div_small(10), U256::from_u64(7));
    assert_eq!(U256::from_u128(1 << 70).to_u128_saturating(), 1u128 << 70);
}

#[test]
fn u256_from_str_helper() {
    assert_eq!(u256_from_str("8110").unwrap(), U256::from_u64(8110));
    assert!(u256_from_str("nope").is_none());
}

#[test]
fn address_parse_and_case() {
    let a = Address::parse("0xE43878Ce78934fe8007748FF481f03B8Ee3b97DE").unwrap();
    let b = Address::parse("0xe43878ce78934fe8007748ff481f03b8ee3b97de").unwrap();
    assert!(a.eq_addr(&b));
    let c = Address::parse("0x14ddfe8ea7ffc338015627d160ccaf99e8f16dd3").unwrap();
    assert!(!a.eq_addr(&c));
    assert!(Address::parse("0x123").is_none());
    assert!(Address::parse("e43878ce78934fe8007748ff481f03b8ee3b97de").is_some());
}

#[test]
fn address_hex_round_trip() {
    let text = "0xe43878ce78934fe8007748ff481f03b8ee3b97de";
    let a = Address::parse("0xE43878Ce78934fe8007748FF481f03B8Ee3b97DE").unwrap();
    assert_eq!(a.to_hex(), text);
    let back = Address::parse(&a.to_hex()).unwrap();
    assert!(a.eq_addr(&back));
}
