use rusty_gate::address::Address;
use rusty_gate::amount::{Amount, AMOUNT_SCALE};
use rusty_gate::providers::{EvmChain, MulticallParams, Provider, ProviderRegistry};
use rusty_gate::requirements::allowlist::AllowListRequirement;
use rusty_gate::requirements::coin::CoinRequirement;
use rusty_gate::requirements::erc1155::Erc1155Requirement;
use rusty_gate::requirements::erc20::Erc20Requirement;
use rusty_gate::requirements::erc721::Erc721Requirement;
use rusty_gate::requirements::errors::{dec_string, CheckableError};
use rusty_gate::requirements::free::FreeRequirement;
use rusty_gate::requirements::utils::check_if_in_range;
use rusty_gate::requirements::erc721::NftData;
use rusty_gate::types::{AmountLimits, Requirement, RequirementData, RequirementType, User};
use rusty_gate::uint::U256;

fn addr(s: &str) -> Address {
    Address::parse(s).expect("a valid address text")
}

fn amt(units: u128) -> Amount {
    Amount { units }
}

fn one_user(id: u64, address: &str) -> Vec<User> {
    vec![User { id, addresses: vec![addr(address)], platform_users: None }]
}

fn registry_with_ethereum() -> ProviderRegistry {
    let mut registry = ProviderRegistry::new();
    registry.register(Provider {
        chain: EvmChain::Ethereum,
        multi: MulticallParams {
            rpc_url: String::from("http://localhost:8545"),
            address: addr("0x5ba1e12693dc8f9c48aad8770482f4739beed696"),
        },
    });
    registry
}

fn accesses_of(rows: &[rusty_gate::types::ReqUserAccess]) -> Vec<bool> {
    rows.iter().map(|a| a.access.unwrap_or_default()).collect()
}

#[test]
fn check() {
    let users_1 = one_user(0, "0xE43878Ce78934fe8007748FF481f03B8Ee3b97DE");
    let users_2 = one_user(0, "0x14ddfe8ea7ffc338015627d160ccaf99e8f16dd3");

    let req = FreeRequirement { id: 0 };

    assert_eq!(accesses_of(&req.check(&users_1)), vec![true]);
    assert_ne!(accesses_of(&req.check(&users_2)), vec![false]);
}

#[test]
fn allowlist_check() {
    let users_1 = one_user(0, "0xE43878Ce78934fe8007748FF481f03B8Ee3b97DE");
    let users_2 = one_user(0, "0x14ddfe8ea7ffc338015627d160ccaf99e8f16dd3");

    let allowlist = AllowListRequirement {
        id: 0,
        addresses: vec![
            addr("0xe43878ce78934fe8007748ff481f03b8ee3b97de"),
            addr("0x20cc54c7ebc5f43b74866d839b4bd5c01bb23503"),
        ],
    };

    assert_eq!(accesses_of(&allowlist.check(&users_1)), vec![true]);
    assert_ne!(accesses_of(&allowlist.check(&users_2)), vec![true]);
}

#[test]
fn coin_check() {
    let users_1 = one_user(0, "0xE43878Ce78934fe8007748FF481f03B8Ee3b97DE");
    let users_2 = one_user(0, "0x20CC54c7ebc5f43b74866D839b4BD5c01BB23503");

    let req = CoinRequirement {
        id: 0,
        chain: EvmChain::Ethereum,
        data: Some(AmountLimits {
            min_amount: Some(amt(400_000_000_000_000)),
            max_amount: None,
        }),
    };

    // the first user holds 0.0005 coin, the second nothing
    let rows_1 = req.check(&users_1, &vec![Ok(amt(500_000_000_000_000))]);
    let rows_2 = req.check(&users_2, &vec![Ok(amt(0))]);
    assert_eq!(accesses_of(&rows_1), vec![true]);
    assert_ne!(accesses_of(&rows_2), vec![true]);
}

#[test]
fn erc20_check() {
    let users_1 = one_user(0, "0x14DDFE8EA7FFc338015627D160ccAf99e8F16Dd3");
    let users_2 = one_user(0, "0x20CC54c7ebc5f43b74866D839b4BD5c01BB23503");

    let req = Erc20Requirement {
        id: 0,
        chain: EvmChain::Goerli,
        address: addr("0x3C65D35A8190294d39013287B246117eBf6615Bd"),
        data: Some(AmountLimits {
            min_amount: Amount::parse("420.69"),
            max_amount: None,
        }),
    };

    let rows_1 = req.check(&users_1, &vec![Ok(amt(450 * AMOUNT_SCALE))]);
    let rows_2 = req.check(&users_2, &vec![Ok(amt(0))]);
    assert_eq!(accesses_of(&rows_1), vec![true]);
    assert_ne!(accesses_of(&rows_2), vec![true]);
}

#[test]
fn erc721_check() {
    let users_1 = one_user(0, "0xE43878Ce78934fe8007748FF481f03B8Ee3b97DE");
    let users_2 = one_user(0, "0x20CC54c7ebc5f43b74866D839b4BD5c01BB23503");

    let req1 = Erc721Requirement {
        id: 0,
        chain: EvmChain::Ethereum,
        address: addr("0x57f1887a8bf19b14fc0df6fd9b2acc9af147ea85"),
        data: NftData {
            id: U256::from_dec_str(
                "61313325075603536901663283754390960556726744542208800735045237225934362163454",
            ),
            limits: None,
        },
    };

    let req2 = Erc721Requirement {
        id: 0,
        chain: EvmChain::Ethereum,
        address: addr("0x57f1887a8bf19b14fc0df6fd9b2acc9af147ea85"),
        data: NftData { id: None, limits: None },
    };

    // the first user owns the token; the second does not
    assert_eq!(accesses_of(&req1.check(&users_1, &vec![Ok(amt(AMOUNT_SCALE))])), vec![true]);
    assert_ne!(accesses_of(&req1.check(&users_2, &vec![Ok(amt(0))])), vec![true]);
    // without an identifier, any positive collection count passes
    assert_eq!(accesses_of(&req2.check(&users_1, &vec![Ok(amt(2 * AMOUNT_SCALE))])), vec![true]);
    assert_ne!(accesses_of(&req2.check(&users_2, &vec![Ok(amt(0))])), vec![true]);
}

#[test]
fn erc1155_check() {
    let users_1 = one_user(0, "0x283d678711daa088640c86a1ad3f12c00ec1252e");
    let users_2 = one_user(0, "0xE43878Ce78934fe8007748FF481f03B8Ee3b97DE");

    let req = Erc1155Requirement {
        id: 0,
        chain: EvmChain::Ethereum,
        address: addr("0x76be3b62873462d2142405439777e971754e8e77"),
        data: NftData {
            id: U256::from_dec_str("10527"),
            limits: Some(AmountLimits {
                min_amount: Some(amt(3 * AMOUNT_SCALE)),
                max_amount: None,
            }),
        },
    };

    assert_eq!(accesses_of(&req.check(&users_1, &vec![Ok(amt(595 * AMOUNT_SCALE))])), vec![true]);
    assert_ne!(accesses_of(&req.check(&users_2, &vec![Ok(amt(0))])), vec![true]);
}

#[test]
fn missing_address_row() {
    let users = vec![User { id: 9, addresses: vec![], platform_users: None }];
    let req = CoinRequirement { id: 3, chain: EvmChain::Ethereum, data: None };
    let rows = req.check(&users, &vec![]);
    assert_eq!(rows.len(), 1);
    assert_eq!(rows[0].user_id, 9);
    assert_eq!(rows[0].access, None);
    assert_eq!(rows[0].error.as_deref(), Some("No address attached to user `9`"));
}

#[test]
fn range_no_limits() {
    assert!(check_if_in_range(amt(1), &None, false));
    assert!(!check_if_in_range(amt(0), &None, false));
}

#[test]
fn range_zero_min() {
    let limits = Some(AmountLimits { min_amount: Some(amt(0)), max_amount: None });
    assert!(check_if_in_range(amt(1), &limits, false));
    assert!(!check_if_in_range(amt(0), &limits, false));
}

#[test]
fn range_min_and_max() {
    let limits = Some(AmountLimits {
        min_amount: Some(amt(2 * AMOUNT_SCALE)),
        max_amount: Some(amt(5 * AMOUNT_SCALE)),
    });
    assert!(!check_if_in_range(amt(AMOUNT_SCALE), &limits, false));
    assert!(check_if_in_range(amt(2 * AMOUNT_SCALE), &limits, false));
    assert!(check_if_in_range(amt(5 * AMOUNT_SCALE - 1), &limits, false));
    assert!(!check_if_in_range(amt(5 * AMOUNT_SCALE), &limits, false));
    assert!(check_if_in_range(amt(5 * AMOUNT_SCALE), &limits, true));
}

#[test]
fn limits_from_requirement() {
    let req = Requirement {
        id: 1,
        typ: RequirementType::Coin,
        address: None,
        data: Some(RequirementData {
            id: None,
            addresses: None,
            min_amount: Some(String::from("0.0004")),
            max_amount: Some(String::from("bogus")),
        }),
        chain: Some(EvmChain::Ethereum),
    };
    let limits = AmountLimits::from_req(&req).unwrap();
    assert_eq!(limits.min_amount, Some(amt(400_000_000_000_000)));
    // an unreadable bound is silently dropped
    assert_eq!(limits.max_amount, None);

    let bare = Requirement {
        id: 1,
        typ: RequirementType::Free,
        address: None,
        data: None,
        chain: None,
    };
    assert!(AmountLimits::from_req(&bare).is_none());
}

#[test]
fn error_messages() {
    assert_eq!(dec_string(0), "0");
    assert_eq!(dec_string(10527), "10527");
    assert_eq!(dec_string(u64::MAX), "18446744073709551615");
    assert_eq!(
        CheckableError::MissingField(String::from("chain")).to_msg(),
        "Missing field `chain`"
    );
    assert_eq!(
        CheckableError::NoSuchChain(String::from("Palm")).to_msg(),
        "Chain `Palm` is not supported"
    );
    assert_eq!(
        CheckableError::MissingUserAddress(String::from("7")).to_msg(),
        "No address attached to user `7`"
    );
    assert_eq!(
        CheckableError::MissingTokenAddress(String::from("12")).to_msg(),
        "No address attached to requirement `id: 12`"
    );
}

#[test]
fn construction_outcomes() {
    let registry = registry_with_ethereum();

    let no_chain = Requirement {
        id: 5,
        typ: RequirementType::Coin,
        address: None,
        data: None,
        chain: None,
    };
    let err = no_chain.inner(&registry).err().unwrap();
    assert_eq!(err.to_msg(), "Missing field `chain`");

    let wrong_chain = Requirement {
        id: 5,
        typ: RequirementType::Coin,
        address: None,
        data: None,
        chain: Some(EvmChain::Palm),
    };
    let err = wrong_chain.inner(&registry).err().unwrap();
    assert_eq!(err.to_msg(), "Chain `Palm` is not supported");

    let no_token = Requirement {
        id: 6,
        typ: RequirementType::Erc20,
        address: None,
        data: None,
        chain: Some(EvmChain::Ethereum),
    };
    let err = no_token.inner(&registry).err().unwrap();
    assert_eq!(err.to_msg(), "No address attached to requirement `id: 6`");

    let no_list = Requirement {
        id: 7,
        typ: RequirementType::Allowlist,
        address: None,
        data: None,
        chain: None,
    };
    let err = no_list.inner(&registry).err().unwrap();
    assert_eq!(err.to_msg(), "Missing field `data`");

    let free = Requirement {
        id: 8,
        typ: RequirementType::Free,
        address: None,
        data: None,
        chain: None,
    };
    assert!(free.inner(&registry).is_ok());
}

#[test]
fn chain_names() {
    assert_eq!(EvmChain::Ethereum.name(), "Ethereum");
    assert_eq!(EvmChain::Bsc.name(), "Bsc");
    assert_eq!(EvmChain::Palm.name(), "Palm");
}

#[test]
fn registry_lookup() {
    let registry = registry_with_ethereum();
    assert!(registry.supports(EvmChain::Ethereum));
    assert!(!registry.supports(EvmChain::Polygon));
    assert_eq!(registry.get(EvmChain::Ethereum).unwrap().chain, EvmChain::Ethereum);
    assert!(registry.get(EvmChain::Gnosis).is_none());
}

#[test]
fn erc1155_without_token_id_constructs() {
    let registry = registry_with_ethereum();
    // no token identifier: the whole holding at the contract is summed
    let no_id = Requirement {
        id: 11,
        typ: RequirementType::Erc1155,
        address: Some(addr("0x76be3b62873462d2142405439777e971754e8e77")),
        data: None,
        chain: Some(EvmChain::Ethereum),
    };
    let checker = Erc1155Requirement::try_from(&no_id, &registry).ok().unwrap();
    assert!(checker.data.id.is_none());
    assert!(checker.data.limits.is_none());

    let with_data_no_id = Requirement {
        id: 12,
        typ: RequirementType::Erc1155,
        address: Some(addr("0x76be3b62873462d2142405439777e971754e8e77")),
        data: Some(RequirementData {
            id: None,
            addresses: None,
            min_amount: Some(String::from("2")),
            max_amount: None,
        }),
        chain: Some(EvmChain::Ethereum),
    };
    let checker = Erc1155Requirement::try_from(&with_data_no_id, &registry).ok().unwrap();
    assert!(checker.data.id.is_none());
    assert_eq!(checker.data.limits.unwrap().min_amount, Some(amt(2 * AMOUNT_SCALE)));

    // the token contract is still demanded
    let no_token = Requirement {
        id: 13,
        typ: RequirementType::Erc1155,
        address: None,
        data: None,
        chain: Some(EvmChain::Ethereum),
    };
    let err = no_token.inner(&registry).err().unwrap();
    assert_eq!(err.to_msg(), "No address attached to requirement `id: 13`");
}
