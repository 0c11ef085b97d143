use rusty_gate::address::Address;
use rusty_gate::amount::{Amount, AMOUNT_SCALE};
use rusty_gate::providers::{EvmChain, MulticallParams, Provider, ProviderRegistry};
use rusty_gate::requirements::check_access;
use rusty_gate::types::{Requirement, RequirementData, RequirementType, User};
use rusty_gate::uint::U256;

fn addr(s: &str) -> Address {
    Address::parse(s).expect("a valid address text")
}

fn amt(units: u128) -> Amount {
    Amount { units }
}

fn user(id: u64, address: &str) -> User {
    User { id, addresses: vec![addr(address)], platform_users: None }
}

fn registry_with_ethereum() -> ProviderRegistry {
    let mut registry = ProviderRegistry::new();
    registry.register(Provider {
        chain: EvmChain::Ethereum,
        multi: MulticallParams {
            rpc_url: String::from("http://localhost:8545"),
            address: addr("0x5ba1e12693dc8f9c48aad8770482f4739beed696"),
        },
    });
    registry
}

fn free_req(id: u64) -> Requirement {
    Requirement { id, typ: RequirementType::Free, address: None, data: None, chain: None }
}

#[test]
fn free_requirement_grants_access() {
    let users = vec![user(1, "0xE43878Ce78934fe8007748FF481f03B8Ee3b97DE")];
    let requirements = vec![free_req(10)];
    let registry = ProviderRegistry::new();
    let result = check_access(&users, &requirements, "0", false, &registry, &vec![vec![]]);
    assert_eq!(result.accesses.len(), 1);
    assert_eq!(result.accesses[0].id, 1);
    assert_eq!(result.accesses[0].access, Some(true));
    assert!(result.accesses[0].errors.is_none());
    assert!(result.errors.is_none());
}

#[test]
fn allowlist_is_case_insensitive() {
    let requirements = vec![Requirement {
        id: 0,
        typ: RequirementType::Allowlist,
        address: None,
        data: Some(RequirementData {
            id: None,
            addresses: Some(vec![addr("0xe43878ce78934fe8007748ff481f03b8ee3b97de")]),
            min_amount: None,
            max_amount: None,
        }),
        chain: None,
    }];
    let registry = ProviderRegistry::new();

    let hit = vec![user(1, "0xE43878Ce78934fe8007748FF481f03B8Ee3b97DE")];
    let result = check_access(&hit, &requirements, "0", false, &registry, &vec![vec![]]);
    assert_eq!(result.accesses[0].access, Some(true));

    let miss = vec![user(1, "0x14ddfe8ea7ffc338015627d160ccaf99e8f16dd3")];
    let result = check_access(&miss, &requirements, "0", false, &registry, &vec![vec![]]);
    assert_eq!(result.accesses[0].access, Some(false));
    // a clean denial carries no errors
    assert!(result.accesses[0].errors.is_none());
}

#[test]
fn coin_threshold() {
    let users = vec![
        user(1, "0xE43878Ce78934fe8007748FF481f03B8Ee3b97DE"),
        user(2, "0x20CC54c7ebc5f43b74866D839b4BD5c01BB23503"),
    ];
    let requirements = vec![Requirement {
        id: 0,
        typ: RequirementType::Coin,
        address: None,
        data: Some(RequirementData {
            id: None,
            addresses: None,
            min_amount: Some(String::from("0.0004")),
            max_amount: None,
        }),
        chain: Some(EvmChain::Ethereum),
    }];
    let registry = registry_with_ethereum();
    // 0.0005 coin for the first user, nothing for the second
    let balances = vec![vec![Ok(amt(500_000_000_000_000)), Ok(amt(0))]];
    let result = check_access(&users, &requirements, "0", false, &registry, &balances);
    assert_eq!(result.accesses[0].access, Some(true));
    assert_eq!(result.accesses[1].access, Some(false));
}

#[test]
fn erc721_with_token_id() {
    let users = vec![
        user(1, "0xE43878Ce78934fe8007748FF481f03B8Ee3b97DE"),
        user(2, "0x20CC54c7ebc5f43b74866D839b4BD5c01BB23503"),
    ];
    let requirements = vec![Requirement {
        id: 0,
        typ: RequirementType::Erc721,
        address: Some(addr("0x57f1887a8bf19b14fc0df6fd9b2acc9af147ea85")),
        data: Some(RequirementData {
            id: U256::from_dec_str(
                "61313325075603536901663283754390960556726744542208800735045237225934362163454",
            ),
            addresses: None,
            min_amount: None,
            max_amount: None,
        }),
        chain: Some(EvmChain::Ethereum),
    }];
    let registry = registry_with_ethereum();
    // ownership is one token for the first user, none for the second
    let balances = vec![vec![Ok(amt(AMOUNT_SCALE)), Ok(amt(0))]];
    let result = check_access(&users, &requirements, "0", true, &registry, &balances);
    assert_eq!(result.accesses[0].access, Some(true));
    assert_eq!(result.accesses[1].access, Some(false));
    let detailed = result.accesses[0].detailed.as_ref().unwrap();
    assert_eq!(detailed.len(), 1);
    assert_eq!(detailed[0].requirement_id, 0);
    assert_eq!(detailed[0].access, Some(true));
    assert_eq!(detailed[0].amount, Some(amt(AMOUNT_SCALE)));
    let detailed_2 = result.accesses[1].detailed.as_ref().unwrap();
    assert_eq!(detailed_2[0].access, Some(false));
    assert_eq!(detailed_2[0].amount, Some(amt(0)));
}

#[test]
fn erc1155_with_threshold() {
    let users = vec![user(1, "0x283d678711daa088640c86a1ad3f12c00ec1252e")];
    let requirements = vec![Requirement {
        id: 0,
        typ: RequirementType::Erc1155,
        address: Some(addr("0x76be3b62873462d2142405439777e971754e8e77")),
        data: Some(RequirementData {
            id: U256::from_dec_str("10527"),
            addresses: None,
            min_amount: Some(String::from("595")),
            max_amount: None,
        }),
        chain: Some(EvmChain::Ethereum),
    }];
    let registry = registry_with_ethereum();
    let balances = vec![vec![Ok(amt(595 * AMOUNT_SCALE))]];
    let result = check_access(&users, &requirements, "0", true, &registry, &balances);
    assert_eq!(result.accesses[0].access, Some(true));
    let detailed = result.accesses[0].detailed.as_ref().unwrap();
    assert_eq!(detailed[0].amount, Some(amt(595 * AMOUNT_SCALE)));
}

#[test]
fn partial_failure_over_compound_logic() {
    let users = vec![user(1, "0xE43878Ce78934fe8007748FF481f03B8Ee3b97DE")];
    let requirements = vec![
        free_req(0),
        Requirement {
            id: 1,
            typ: RequirementType::Erc20,
            address: Some(addr("0x3C65D35A8190294d39013287B246117eBf6615Bd")),
            data: None,
            chain: Some(EvmChain::Ethereum),
        },
    ];
    let registry = registry_with_ethereum();
    let balances = vec![vec![], vec![Err(String::from("the lookup failed"))]];

    // truth is decidable from the free requirement alone
    let result = check_access(&users, &requirements, "0 OR 1", false, &registry, &balances);
    assert_eq!(result.accesses[0].access, Some(true));
    let errors = result.accesses[0].errors.as_ref().unwrap();
    assert_eq!(errors.len(), 1);
    assert_eq!(errors[0].requirement_id, 1);
    assert_eq!(errors[0].msg, "the lookup failed");

    // the conjunction stays undetermined
    let result = check_access(&users, &requirements, "0 AND 1", false, &registry, &balances);
    assert_eq!(result.accesses[0].access, None);
    assert!(result.accesses[0].errors.is_some());
    assert!(result.errors.is_none());
}

#[test]
fn construction_failure_is_reported() {
    let users = vec![user(1, "0xE43878Ce78934fe8007748FF481f03B8Ee3b97DE")];
    let requirements = vec![Requirement {
        id: 4,
        typ: RequirementType::Erc20,
        address: Some(addr("0x3C65D35A8190294d39013287B246117eBf6615Bd")),
        data: None,
        chain: None,
    }];
    let registry = ProviderRegistry::new();
    let result = check_access(&users, &requirements, "0", false, &registry, &vec![vec![]]);
    assert_eq!(result.accesses[0].access, None);
    let top = result.errors.as_ref().unwrap();
    assert_eq!(top.len(), 1);
    assert_eq!(top[0].requirement_id, 4);
    assert_eq!(top[0].msg, "Missing field `chain`");
    let per_user = result.accesses[0].errors.as_ref().unwrap();
    assert_eq!(per_user[0].msg, "Missing field `chain`");
}

#[test]
fn unparseable_logic_gives_unknown() {
    let users = vec![user(1, "0xE43878Ce78934fe8007748FF481f03B8Ee3b97DE")];
    let requirements = vec![free_req(0)];
    let registry = ProviderRegistry::new();
    let result = check_access(&users, &requirements, "0 AND", false, &registry, &vec![vec![]]);
    assert_eq!(result.accesses[0].access, None);
    assert!(result.accesses[0].errors.is_none());
}

#[test]
fn one_access_per_user_in_order() {
    let users = vec![
        user(5, "0xE43878Ce78934fe8007748FF481f03B8Ee3b97DE"),
        user(7, "0x14ddfe8ea7ffc338015627d160ccaf99e8f16dd3"),
        user(9, "0x20CC54c7ebc5f43b74866D839b4BD5c01BB23503"),
    ];
    let requirements = vec![free_req(0)];
    let registry = ProviderRegistry::new();
    let result = check_access(&users, &requirements, "0", false, &registry, &vec![vec![]]);
    let ids: Vec<u64> = result.accesses.iter().map(|a| a.id).collect();
    assert_eq!(ids, vec![5, 7, 9]);
}

#[test]
fn user_without_addresses_is_an_error_case() {
    let users = vec![User { id: 3, addresses: vec![], platform_users: None }];
    let requirements = vec![Requirement {
        id: 0,
        typ: RequirementType::Coin,
        address: None,
        data: None,
        chain: Some(EvmChain::Ethereum),
    }];
    let registry = registry_with_ethereum();
    let result = check_access(&users, &requirements, "0", false, &registry, &vec![vec![]]);
    assert_eq!(result.accesses[0].access, None);
    let errors = result.accesses[0].errors.as_ref().unwrap();
    assert_eq!(errors[0].msg, "No address attached to user `3`");
}

#[test]
fn amounts_sum_over_addresses() {
    let users = vec![User {
        id: 1,
        addresses: vec![
            addr("0xE43878Ce78934fe8007748FF481f03B8Ee3b97DE"),
            addr("0x14ddfe8ea7ffc338015627d160ccaf99e8f16dd3"),
        ],
        platform_users: None,
    }];
    let requirements = vec![Requirement {
        id: 0,
        typ: RequirementType::Coin,
        address: None,
        data: None,
        chain: Some(EvmChain::Ethereum),
    }];
    let registry = registry_with_ethereum();
    let balances = vec![vec![Ok(amt(2 * AMOUNT_SCALE)), Ok(amt(3 * AMOUNT_SCALE))]];
    let result = check_access(&users, &requirements, "0", true, &registry, &balances);
    let detailed = result.accesses[0].detailed.as_ref().unwrap();
    assert_eq!(detailed[0].amount, Some(amt(5 * AMOUNT_SCALE)));
    assert_eq!(detailed[0].access, Some(true));
}

#[test]
fn construction_failures_in_order() {
    let users = vec![user(1, "0xE43878Ce78934fe8007748FF481f03B8Ee3b97DE")];
    let requirements = vec![
        Requirement {
            id: 4,
            typ: RequirementType::Erc20,
            address: Some(addr("0x3C65D35A8190294d39013287B246117eBf6615Bd")),
            data: None,
            chain: None,
        },
        Requirement {
            id: 9,
            typ: RequirementType::Coin,
            address: None,
            data: None,
            chain: Some(EvmChain::Palm),
        },
    ];
    let registry = registry_with_ethereum();
    let result = check_access(
        &users,
        &requirements,
        "0 AND 1",
        false,
        &registry,
        &vec![vec![], vec![]],
    );
    let top = result.errors.as_ref().unwrap();
    assert_eq!(top.len(), 2);
    assert_eq!(top[0].requirement_id, 4);
    assert_eq!(top[0].msg, "Missing field `chain`");
    assert_eq!(top[1].requirement_id, 9);
    assert_eq!(top[1].msg, "Chain `Palm` is not supported");
    let per_user = result.accesses[0].errors.as_ref().unwrap();
    assert_eq!(per_user.len(), 2);
    assert_eq!(per_user[0].requirement_id, 4);
    assert_eq!(per_user[1].requirement_id, 9);
    assert!(result.accesses[0].warnings.is_none());
    assert_eq!(result.accesses[0].access, None);
}

#[test]
fn erc1155_without_id_sums_the_whole_holding() {
    let users = vec![user(1, "0x283d678711daa088640c86a1ad3f12c00ec1252e")];
    let requirements = vec![Requirement {
        id: 0,
        typ: RequirementType::Erc1155,
        address: Some(addr("0x76be3b62873462d2142405439777e971754e8e77")),
        data: Some(RequirementData {
            id: None,
            addresses: None,
            min_amount: Some(String::from("8000")),
            max_amount: None,
        }),
        chain: Some(EvmChain::Ethereum),
    }];
    let registry = registry_with_ethereum();
    // the summed holding over the whole contract, as the indexer reports it
    let balances = vec![vec![Ok(amt(8110 * AMOUNT_SCALE))]];
    let result = check_access(&users, &requirements, "0", true, &registry, &balances);
    assert_eq!(result.accesses[0].access, Some(true));
    assert!(result.errors.is_none());
    let detailed = result.accesses[0].detailed.as_ref().unwrap();
    assert_eq!(detailed[0].amount, Some(amt(8110 * AMOUNT_SCALE)));
}
