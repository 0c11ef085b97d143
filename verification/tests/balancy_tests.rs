use rusty_gate::address::Address;
use rusty_gate::amount::{Amount, AMOUNT_SCALE};
use rusty_gate::providers::balancy::{
    balancy_chain_id, classify_status, get_erc1155_balance, get_erc20_balance,
    get_erc721_balance, get_erc_amount, AddressTokenResponse, BalancyError, BalancyProvider,
    Erc1155, Erc20, Erc721, TokenType,
};
use rusty_gate::providers::general::{
    count_amount, fungible_amount, native_amount, ownership_amount,
};
use rusty_gate::providers::EvmChain;
use rusty_gate::uint::U256;

fn addr(s: &str) -> Address {
    Address::parse(s).expect("a valid address text")
}

fn dec(s: &str) -> U256 {
    U256::from_dec_str(s).expect("a valid decimal text")
}

fn sample_response() -> AddressTokenResponse {
    AddressTokenResponse {
        erc20: vec![Erc20 {
            address: addr("0xe9e7CEA3DedcA5984780Bafc599bD69ADd087D56"),
            amount: dec("423157234052929992066"),
        }],
        erc721: vec![Erc721 {
            address: addr("0x57f1887a8bf19b14fc0df6fd9b2acc9af147ea85"),
            token_id: dec(
                "61313325075603536901663283754390960556726744542208800735045237225934362163454",
            ),
        }],
        erc1155: vec![
            Erc1155 {
                addr: addr("0x76be3b62873462d2142405439777e971754e8e77"),
                token_id: dec("10527"),
                amount: dec("595"),
            },
            Erc1155 {
                addr: addr("0x76be3b62873462d2142405439777e971754e8e77"),
                token_id: dec("8110"),
                amount: dec("7515"),
            },
        ],
    }
}

#[test]
fn balancy_erc20() {
    let body = sample_response();
    let balance = get_erc20_balance(&body, &addr("0xe9e7CEA3DedcA5984780Bafc599bD69ADd087D56"));
    // 423157234052929992066 base units at eighteen decimals
    assert_eq!(balance, Amount { units: 423157234052929992066 });
    let none = get_erc20_balance(&body, &addr("0x20CC54c7ebc5f43b74866D839b4BD5c01BB23503"));
    assert_eq!(none, Amount { units: 0 });
}

#[test]
fn balancy_erc721() {
    let body = sample_response();
    let owned = get_erc721_balance(
        &body,
        &addr("0x57f1887a8bf19b14fc0df6fd9b2acc9af147ea85"),
        &dec("61313325075603536901663283754390960556726744542208800735045237225934362163454"),
    );
    assert_eq!(owned, Amount { units: AMOUNT_SCALE });
    let other = get_erc721_balance(
        &body,
        &addr("0x57f1887a8bf19b14fc0df6fd9b2acc9af147ea85"),
        &dec("1"),
    );
    assert_eq!(other, Amount { units: 0 });
}

#[test]
fn balancy_erc1155() {
    let body = sample_response();
    let held = get_erc1155_balance(
        &body,
        &addr("0x76be3b62873462d2142405439777e971754e8e77"),
        &dec("10527"),
    );
    assert_eq!(held, Amount { units: 595 * AMOUNT_SCALE });
}

#[test]
fn balancy_total_erc1155_of_address() {
    let body = sample_response();
    let total = BalancyProvider::get_total_erc1155_of_address(
        &body,
        &addr("0x76be3b62873462d2142405439777e971754e8e77"),
    );
    assert_eq!(total, dec("8110"));
}

#[test]
fn erc_amount_lookup() {
    let body = sample_response();
    let token = TokenType::Erc1155 {
        address: addr("0x76be3b62873462d2142405439777e971754e8e77"),
        id: dec("8110"),
    };
    assert_eq!(get_erc_amount(&body, &token), dec("7515"));
    let absent = TokenType::Erc20 {
        address: addr("0x20CC54c7ebc5f43b74866D839b4BD5c01BB23503"),
    };
    assert_eq!(get_erc_amount(&body, &absent), U256::zero());
}

#[test]
fn balancy_chain_identifiers() {
    assert_eq!(balancy_chain_id(EvmChain::Ethereum), Some(1));
    assert_eq!(balancy_chain_id(EvmChain::Bsc), Some(56));
    assert_eq!(balancy_chain_id(EvmChain::Gnosis), Some(100));
    assert_eq!(balancy_chain_id(EvmChain::Polygon), Some(137));
    assert_eq!(balancy_chain_id(EvmChain::Arbitrum), None);
}

#[test]
fn status_classification() {
    assert!(classify_status(200).is_none());
    assert!(matches!(classify_status(400), Some(BalancyError::InvalidBalancyRequest)));
    assert!(matches!(classify_status(429), Some(BalancyError::TooManyRequests)));
    assert!(matches!(classify_status(503), Some(BalancyError::Unknown(503))));
}

#[test]
fn balancy_error_messages() {
    assert_eq!(
        BalancyError::ChainNotSupported(String::from("Palm")).to_msg(),
        "Chain `Palm` is not supported by Balancy"
    );
    assert_eq!(
        BalancyError::NoSuchTokenInWallet(addr("0xE43878Ce78934fe8007748FF481f03B8Ee3b97DE"))
            .to_msg(),
        "User doesn't have token associated with address `0xe43878ce78934fe8007748ff481f03b8ee3b97de`"
    );
    assert_eq!(BalancyError::Unknown(503).to_msg(), "Got response with status code `503`");
    assert_eq!(BalancyError::Transport(String::from("timed out")).to_msg(), "timed out");
}

#[test]
fn native_conversion() {
    assert_eq!(native_amount(&dec("500000000000000")), Amount { units: 500000000000000 });
}

#[test]
fn fungible_scaling() {
    // six decimals scale up by a factor of a million million
    assert_eq!(
        fungible_amount(&dec("1000000"), 6),
        Amount { units: AMOUNT_SCALE }
    );
    // eighteen decimals carry over unchanged
    assert_eq!(
        fungible_amount(&dec("423157234052929992066"), 18),
        Amount { units: 423157234052929992066 }
    );
    // twenty-four decimals floor down
    assert_eq!(
        fungible_amount(&dec("1000000000000000000000000"), 24),
        Amount { units: AMOUNT_SCALE }
    );
    assert_eq!(fungible_amount(&dec("999999"), 24), Amount { units: 0 });
    // forty-five decimals walk the divisor down in two steps
    assert_eq!(
        fungible_amount(
            &dec("1000000000000000000000000000000000000000000000"),
            45
        ),
        Amount { units: AMOUNT_SCALE }
    );
}

#[test]
fn ownership_and_count() {
    let owner = addr("0xE43878Ce78934fe8007748FF481f03B8Ee3b97DE");
    let same = addr("0xe43878ce78934fe8007748ff481f03b8ee3b97de");
    let other = addr("0x20CC54c7ebc5f43b74866D839b4BD5c01BB23503");
    assert_eq!(ownership_amount(&owner, &same), Amount { units: AMOUNT_SCALE });
    assert_eq!(ownership_amount(&owner, &other), Amount { units: 0 });
    assert_eq!(count_amount(&dec("3")), Amount { units: 3 * AMOUNT_SCALE });
}
