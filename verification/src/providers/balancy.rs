use vstd::prelude::*;
use crate::address::{addr_text_of, Address};
use crate::amount::{Amount, AMOUNT_SCALE};
use crate::providers::general::count_amount;
use crate::providers::EvmChain;
use crate::requirements::errors::{dec_str_of, dec_string};
use crate::uint::{u256_limit, U256};

verus! {

/// Why an indexer lookup failed.
///
/// `Transport` stands for an error of the HTTP client, carrying its
/// text; the rest mirror the indexer's own refusals.
pub enum BalancyError {
    ChainNotSupported(String),
    NoSuchTokenInWallet(Address),
    InvalidBalancyRequest,
    TooManyRequests,
    Transport(String),
    Unknown(u16),
}

/// The message text of an indexer error.
pub open spec fn spec_balancy_msg(e: BalancyError) -> Seq<char> {
    match e {
        BalancyError::ChainNotSupported(c) => "Chain `"@ + c@ + "` is not supported by Balancy"@,
        BalancyError::NoSuchTokenInWallet(a) => "User doesn't have token associated with address `"@
            + addr_text_of(a@) + "`"@,
        BalancyError::InvalidBalancyRequest => "Invalid Balancy request"@,
        BalancyError::TooManyRequests => "Too many requests to Balancy"@,
        BalancyError::Transport(s) => s@,
        BalancyError::Unknown(c) => "Got response with status code `"@ + dec_str_of(c as nat)
            + "`"@,
    }
}

impl BalancyError {
    /// The message text of this error, as `spec_balancy_msg` states.
    pub fn to_msg(&self) -> (r: String)
        ensures
            r@ == spec_balancy_msg(*self),
    {
        match self {
            BalancyError::ChainNotSupported(c) => {
                let mut r = String::from_str("Chain `");
                r.append(c.as_str());
                r.append("` is not supported by Balancy");
                r
            },
            BalancyError::NoSuchTokenInWallet(a) => {
                let mut r = String::from_str("User doesn't have token associated with address `");
                let hex = a.to_hex();
                r.append(hex.as_str());
                r.append("`");
                r
            },
            BalancyError::InvalidBalancyRequest => String::from_str("Invalid Balancy request"),
            BalancyError::TooManyRequests => String::from_str("Too many requests to Balancy"),
            BalancyError::Transport(s) => s.clone(),
            BalancyError::Unknown(c) => {
                let mut r = String::from_str("Got response with status code `");
                let num = dec_string(*c as u64);
                r.append(num.as_str());
                r.append("`");
                r
            },
        }
    }
}

/// The kinds of token holding the indexer can be asked about.
pub enum TokenType {
    Native,
    Erc20 { address: Address },
    Erc721 { address: Address, id: U256 },
    Erc1155 { address: Address, id: U256 },
}

/// One fungible holding the indexer reports.
pub struct Erc20 {
    pub address: Address,
    pub amount: U256,
}

/// One non-fungible holding the indexer reports.
pub struct Erc721 {
    pub address: Address,
    pub token_id: U256,
}

/// One semi-fungible holding the indexer reports.
pub struct Erc1155 {
    pub addr: Address,
    pub token_id: U256,
    pub amount: U256,
}

/// Everything the indexer reports for one wallet address.
pub struct AddressTokenResponse {
    pub erc20: Vec<Erc20>,
    pub erc721: Vec<Erc721>,
    pub erc1155: Vec<Erc1155>,
}

/// The chain identifier the indexer serves, for the four chains it
/// knows of.
pub open spec fn spec_balancy_chain_id(chain: EvmChain) -> Option<u32> {
    match chain {
        EvmChain::Ethereum => Some(1u32),
        EvmChain::Bsc => Some(56u32),
        EvmChain::Gnosis => Some(100u32),
        EvmChain::Polygon => Some(137u32),
        _ => None,
    }
}

/// The chain identifier the indexer serves, as `spec_balancy_chain_id`
/// states; nothing for a chain the indexer does not support.
pub fn balancy_chain_id(chain: EvmChain) -> (r: Option<u32>)
    ensures
        r == spec_balancy_chain_id(chain),
{
    match chain {
        EvmChain::Ethereum => Some(1),
        EvmChain::Bsc => Some(56),
        EvmChain::Gnosis => Some(100),
        EvmChain::Polygon => Some(137),
        _ => None,
    }
}

/// How an indexer response status is judged: 200 succeeds, 400 is an
/// invalid request, 429 asks to slow down, anything else is unknown.
pub fn classify_status(status: u16) -> (r: Option<BalancyError>)
    ensures
        status == 200 <==> r is None,
        status == 400 ==> r == Some(BalancyError::InvalidBalancyRequest),
        status == 429 ==> r == Some(BalancyError::TooManyRequests),
        (status != 200 && status != 400 && status != 429) ==> r == Some(
            BalancyError::Unknown(status),
        ),
{
    if status == 200 {
        None
    } else if status == 400 {
        Some(BalancyError::InvalidBalancyRequest)
    } else if status == 429 {
        Some(BalancyError::TooManyRequests)
    } else {
        Some(BalancyError::Unknown(status))
    }
}

/// The query path asking the indexer for every holding of one address
/// on one chain.
pub fn balancy_query_path(address: &Address, chain_id: u32) -> (r: String)
    ensures
        r@ == "addressTokens?address="@ + addr_text_of(address@) + "&chain="@ + dec_str_of(
            chain_id as nat,
        ),
{
    let mut r = String::from_str("addressTokens?address=");
    let hex = address.to_hex();
    r.append(hex.as_str());
    r.append("&chain=");
    let num = dec_string(chain_id as u64);
    r.append(num.as_str());
    r
}

/// The amount of the first fungible entry held at `token`, or zero when
/// none is.
pub open spec fn spec_first_erc20_amount(s: Seq<Erc20>, token: Seq<u8>) -> U256
    decreases s.len(),
{
    if s.len() == 0 {
        U256 { w0: 0, w1: 0, w2: 0, w3: 0 }
    } else if s[0].address@ == token {
        s[0].amount
    } else {
        spec_first_erc20_amount(s.drop_first(), token)
    }
}

/// Whether the response lists the non-fungible token `id` of `token`.
pub open spec fn spec_erc721_owned(s: Seq<Erc721>, token: Seq<u8>, id: U256) -> bool {
    exists|i: int| 0 <= i < s.len() && (#[trigger] s[i]).address@ == token && s[i].token_id == id
}

/// The amount of the first semi-fungible entry at `token` with `id`, or
/// zero when none is.
pub open spec fn spec_first_erc1155_amount(s: Seq<Erc1155>, token: Seq<u8>, id: U256) -> U256
    decreases s.len(),
{
    if s.len() == 0 {
        U256 { w0: 0, w1: 0, w2: 0, w3: 0 }
    } else if s[0].addr@ == token && s[0].token_id == id {
        s[0].amount
    } else {
        spec_first_erc1155_amount(s.drop_first(), token, id)
    }
}

/// The summed amount of every semi-fungible entry held at `token`,
/// over the first `i` entries.
pub open spec fn spec_total_erc1155(s: Seq<Erc1155>, token: Seq<u8>, i: int) -> nat
    decreases i,
{
    if i <= 0 {
        0
    } else {
        spec_total_erc1155(s, token, i - 1) + (if s[i - 1].addr@ == token {
            s[i - 1].amount.val()
        } else {
            0
        })
    }
}

/// The raw holding a response shows for one token query: the first
/// matching fungible amount, ownership of a given non-fungible token as
/// zero or one, or the first matching semi-fungible amount.
#[verifier::loop_isolation(false)]
pub fn get_erc_amount(body: &AddressTokenResponse, token: &TokenType) -> (r: U256)
    requires
        !(token is Native),
    ensures
        match *token {
            TokenType::Erc20 { address } => r == spec_first_erc20_amount(body.erc20@, address@),
            TokenType::Erc721 { address, id } => r.val() == (if spec_erc721_owned(
                body.erc721@,
                address@,
                id,
            ) {
                1int
            } else {
                0int
            }),
            TokenType::Erc1155 { address, id } => r == spec_first_erc1155_amount(
                body.erc1155@,
                address@,
                id,
            ),
            TokenType::Native => true,
        },
{
    match token {
        TokenType::Erc20 { address } => {
            assert(body.erc20@.skip(0) =~= body.erc20@);
            let mut i: usize = 0;
            while i < body.erc20.len()
                invariant
                    i <= body.erc20@.len(),
                    forall|j: int| 0 <= j < i ==> (#[trigger] body.erc20@[j]).address@ != address@,
                    spec_first_erc20_amount(body.erc20@, address@) == spec_first_erc20_amount(
                        body.erc20@.skip(i as int),
                        address@,
                    ),
                decreases body.erc20@.len() - i,
            {
                proof {
                    assert(body.erc20@.skip(i as int)[0] == body.erc20@[i as int]);
                    assert(body.erc20@.skip(i as int).drop_first() =~= body.erc20@.skip(
                        i as int + 1));
                }
                if body.erc20[i].address.eq_addr(address) {
                    return body.erc20[i].amount;
                }
                i = i + 1;
            }
            assert(body.erc20@.skip(i as int).len() == 0);
            U256::zero()
        },
        TokenType::Erc721 { address, id } => {
            let mut i: usize = 0;
            while i < body.erc721.len()
                invariant
                    i <= body.erc721@.len(),
                    forall|j: int| 0 <= j < i ==> !((#[trigger] body.erc721@[j]).address@
                        == address@ && body.erc721@[j].token_id == *id),
                decreases body.erc721@.len() - i,
            {
                if body.erc721[i].address.eq_addr(address) && body.erc721[i].token_id == *id {
                    let r = U256::from_u64(1);
                    assert(spec_erc721_owned(body.erc721@, address@, *id));
                    return r;
                }
                i = i + 1;
            }
            assert(!spec_erc721_owned(body.erc721@, address@, *id));
            U256::zero()
        },
        TokenType::Erc1155 { address, id } => {
            assert(body.erc1155@.skip(0) =~= body.erc1155@);
            let mut i: usize = 0;
            while i < body.erc1155.len()
                invariant
                    i <= body.erc1155@.len(),
                    spec_first_erc1155_amount(body.erc1155@, address@, *id)
                        == spec_first_erc1155_amount(body.erc1155@.skip(i as int), address@, *id),
                decreases body.erc1155@.len() - i,
            {
                proof {
                    assert(body.erc1155@.skip(i as int)[0] == body.erc1155@[i as int]);
                    assert(body.erc1155@.skip(i as int).drop_first() =~= body.erc1155@.skip(
                        i as int + 1));
                }
                if body.erc1155[i].addr.eq_addr(address) && body.erc1155[i].token_id == *id {
                    return body.erc1155[i].amount;
                }
                i = i + 1;
            }
            assert(body.erc1155@.skip(i as int).len() == 0);
            U256::zero()
        },
        TokenType::Native => U256::zero(),
    }
}

/// The fungible balance a response shows, scaled to an amount at the
/// indexer's fixed eighteen decimal places.
pub fn get_erc20_balance(body: &AddressTokenResponse, token_address: &Address) -> (r: Amount)
    ensures
        ({
            let v = spec_first_erc20_amount(body.erc20@, token_address@);
            &&& v.val() <= u128::MAX ==> r.units == v.val()
            &&& v.val() > u128::MAX ==> r.units == u128::MAX
        }),
{
    let raw = get_erc_amount(
        body,
        &TokenType::Erc20 { address: token_address.duplicate() },
    );
    Amount { units: raw.to_u128_saturating() }
}

/// Whether a response shows the given non-fungible token, as an amount
/// of one or zero.
pub fn get_erc721_balance(body: &AddressTokenResponse, token_address: &Address, token_id: &U256)
    -> (r: Amount)
    ensures
        spec_erc721_owned(body.erc721@, token_address@, *token_id) ==> r.units == AMOUNT_SCALE,
        !spec_erc721_owned(body.erc721@, token_address@, *token_id) ==> r.units == 0,
{
    let raw = get_erc_amount(
        body,
        &TokenType::Erc721 { address: token_address.duplicate(), id: *token_id },
    );
    count_amount(&raw)
}

/// The given semi-fungible holding a response shows, as a whole-token
/// count scaled to an amount.
pub fn get_erc1155_balance(body: &AddressTokenResponse, token_address: &Address, token_id: &U256)
    -> (r: Amount)
    ensures
        ({
            let c = spec_first_erc1155_amount(body.erc1155@, token_address@, *token_id).val();
            &&& c * (AMOUNT_SCALE as nat) <= u128::MAX ==> r.units == c * (AMOUNT_SCALE as nat)
            &&& c * (AMOUNT_SCALE as nat) > u128::MAX ==> r.units == u128::MAX
        }),
{
    let raw = get_erc_amount(
        body,
        &TokenType::Erc1155 { address: token_address.duplicate(), id: *token_id },
    );
    count_amount(&raw)
}

/// The indexer-backed provider: its computations over a fetched
/// response.
pub struct BalancyProvider;

impl BalancyProvider {
    /// The summed semi-fungible holding at one contract over a fetched
    /// response, saturating at the largest 256-bit value.
    #[verifier::loop_isolation(false)]
    pub fn get_total_erc1155_of_address(body: &AddressTokenResponse, token_address: &Address)
        -> (r: U256)
        ensures
            ({
                let total = spec_total_erc1155(
                    body.erc1155@,
                    token_address@,
                    body.erc1155@.len() as int,
                );
                &&& total < u256_limit() ==> r.val() == total
                &&& total >= u256_limit() ==> r.val() == u256_limit() - 1
            }),
    {
        let ghost token = token_address@;
        let mut acc = U256::zero();
        let mut i: usize = 0;
        while i < body.erc1155.len()
            invariant
                i <= body.erc1155@.len(),
                ({
                    let pfx = spec_total_erc1155(body.erc1155@, token, i as int);
                    &&& pfx < u256_limit() ==> acc.val() == pfx
                    &&& pfx >= u256_limit() ==> acc.val() == u256_limit() - 1
                }),
            decreases body.erc1155@.len() - i,
        {
            let entry = &body.erc1155[i];
            if entry.addr.eq_addr(token_address) {
                acc = match acc.checked_add(entry.amount) {
                    Some(v) => v,
                    None => u256_max(),
                };
            }
            i = i + 1;
        }
        acc
    }
}

/// The largest 256-bit value.
fn u256_max() -> (r: U256)
    ensures
        r.val() == u256_limit() - 1,
{
    let r = U256 { w0: u64::MAX, w1: u64::MAX, w2: u64::MAX, w3: u64::MAX };
    proof {
        assert(r.val() == u256_limit() - 1) by (nonlinear_arith)
            requires
                r.w0 == 0xffff_ffff_ffff_ffffu64 && r.w1 == 0xffff_ffff_ffff_ffffu64 && r.w2
                    == 0xffff_ffff_ffff_ffffu64 && r.w3 == 0xffff_ffff_ffff_ffffu64,
                r.val() == (r.w0 + 0x1_0000_0000_0000_0000 * (r.w1 + 0x1_0000_0000_0000_0000 * (
                r.w2 + 0x1_0000_0000_0000_0000 * r.w3))) as nat,
        ;
    }
    r
}

} // verus!
