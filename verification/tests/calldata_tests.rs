use rusty_gate::address::Address;
use rusty_gate::providers::calldata::{
    address_from_word, decode_abi_words, encode_balance_of, encode_balance_of_batch,
    encode_decimals_call, encode_owner_of,
};
use rusty_gate::uint::U256;

fn addr(s: &str) -> Address {
    Address::parse(s).expect("a valid address text")
}

fn num_word(n: u64) -> String {
    format!("{:064x}", n)
}

fn addr_word(s: &str) -> String {
    format!("{:0>64}", s.to_lowercase().trim_start_matches("0x"))
}

#[test]
fn decimals_call_data() {
    assert_eq!(encode_decimals_call(), "313ce567");
}

#[test]
fn balance_of_call_data() {
    let user = addr("0xE43878Ce78934fe8007748FF481f03B8Ee3b97DE");
    let expected = format!(
        "70a08231{}",
        addr_word("0xe43878ce78934fe8007748ff481f03b8ee3b97de")
    );
    assert_eq!(encode_balance_of(&user), expected);
}

#[test]
fn owner_of_call_data() {
    let id = U256::from_u64(42);
    assert_eq!(encode_owner_of(&id), format!("6352211e{}", num_word(42)));
    let big = U256::from_dec_str(
        "61313325075603536901663283754390960556726744542208800735045237225934362163454",
    )
    .unwrap();
    let encoded = encode_owner_of(&big);
    assert_eq!(encoded.len(), 8 + 64);
    assert!(encoded.starts_with("6352211e"));
}

#[test]
fn balance_of_batch_call_data() {
    let holders = vec![
        addr("0xE43878Ce78934fe8007748FF481f03B8Ee3b97DE"),
        addr("0x283d678711daa088640c86a1ad3f12c00ec1252e"),
    ];
    let id = U256::from_u64(10527);
    let encoded = encode_balance_of_batch(&holders, &id).unwrap();
    let expected = format!(
        "4e1273f4{}{}{}{}{}{}{}",
        num_word(0x40),
        num_word(0xa0),
        num_word(2),
        addr_word("0xe43878ce78934fe8007748ff481f03b8ee3b97de"),
        addr_word("0x283d678711daa088640c86a1ad3f12c00ec1252e"),
        num_word(1),
        num_word(10527),
    );
    assert_eq!(encoded, expected);
}

#[test]
fn word_decoding() {
    let text = format!("0x{}{}", num_word(64), num_word(595));
    let words = decode_abi_words(&text).unwrap();
    assert_eq!(words.len(), 2);
    assert_eq!(words[0], U256::from_u64(64));
    assert_eq!(words[1], U256::from_u64(595));

    assert!(decode_abi_words("0x123").is_none());
    assert!(decode_abi_words(&format!("0x{}", "zz".repeat(32))).is_none());
    assert_eq!(decode_abi_words("0x").unwrap().len(), 0);
}

#[test]
fn owner_word_to_address() {
    let word_text = format!("0x{}", addr_word("0xe43878ce78934fe8007748ff481f03b8ee3b97de"));
    let word = U256::from_hex_str(&word_text).unwrap();
    let owner = address_from_word(&word);
    assert!(owner.eq_addr(&addr("0xE43878Ce78934fe8007748FF481f03B8Ee3b97DE")));
}

#[test]
fn word_decoding_refuses_prefixed_words() {
    // a word whose own first characters look like a prefix is refused,
    // so every accepted word is exactly sixty-four digits
    let text = format!("0x0x{}", "1".repeat(62));
    assert!(decode_abi_words(&text).is_none());
    let text = format!("0x0X{}", "1".repeat(62));
    assert!(decode_abi_words(&text).is_none());
}
