use vstd::prelude::*;
use crate::address::Address;
use crate::amount::Amount;
use crate::providers::{EvmChain, ProviderRegistry};
use crate::requirements::errors::{dec_str_of, dec_string, spec_missing_field_msg, spec_missing_token_address_msg, spec_msg, spec_no_such_chain_msg, CheckableError};
use crate::requirements::rows::{balance_rows, balance_rows_match, total_addresses};
use crate::types::{spec_limits_of, AmountLimits, NumberId, ReqUserAccess, Requirement, User};
use crate::uint::U256;

verus! {

/// Token identifier and limits of a non-fungible or semi-fungible
/// requirement.
pub struct NftData {
    pub id: Option<U256>,
    pub limits: Option<AmountLimits>,
}

/// The requirement of owning a non-fungible token: a given one when an
/// identifier is present, else a count of the collection within limits.
pub struct Erc721Requirement {
    pub id: NumberId,
    pub address: Address,
    pub data: NftData,
    pub chain: EvmChain,
}

impl Erc721Requirement {
    /// A non-fungible checker, from a requirement that must name a
    /// supported chain, carry data, and name a token contract.
    pub fn try_from(req: &Requirement, registry: &ProviderRegistry) -> (r: Result<
        Erc721Requirement,
        CheckableError,
    >)
        ensures
            r is Ok <==> (req.chain is Some && registry.spec_supports(req.chain->0)
                && req.data is Some && req.address is Some),
            r is Ok ==> r->Ok_0.id == req.id && r->Ok_0.chain == req.chain->0 && r->Ok_0.data.id
                == req.data->0.id && r->Ok_0.data.limits == spec_limits_of(*req)
                && r->Ok_0.address@ == req.address->0@,
            r is Err ==> spec_msg(r->Err_0) == (if req.chain is None {
                spec_missing_field_msg("chain"@)
            } else if !registry.spec_supports(req.chain->0) {
                spec_no_such_chain_msg(req.chain->0.spec_name())
            } else if req.data is None {
                spec_missing_field_msg("data"@)
            } else {
                spec_missing_token_address_msg(dec_str_of(req.id as nat))
            }),
    {
        match &req.chain {
            Some(chain) => {
                if !registry.supports(*chain) {
                    return Err(CheckableError::NoSuchChain(String::from_str(chain.name())));
                }
                let data = match &req.data {
                    Some(data) => data,
                    None => {
                        return Err(CheckableError::MissingField(String::from_str("data")));
                    },
                };
                match &req.address {
                    Some(address) => Ok(
                        Erc721Requirement {
                            id: req.id,
                            address: address.duplicate(),
                            data: NftData { id: data.id, limits: AmountLimits::from_req(req) },
                            chain: *chain,
                        },
                    ),
                    None => Err(CheckableError::MissingTokenAddress(dec_string(req.id))),
                }
            },
            None => Err(CheckableError::MissingField(String::from_str("chain"))),
        }
    }

    /// One row per user address judging its fetched holding, as
    /// `balance_rows_match` states.
    pub fn check(&self, users: &Vec<User>, balances: &Vec<Result<Amount, String>>) -> (rows: Vec<
        ReqUserAccess,
    >)
        requires
            balances@.len() == total_addresses(users@),
        ensures
            balance_rows_match(rows@, self.id, users@, balances@, self.data.limits),
    {
        balance_rows(self.id, users, balances, &self.data.limits)
    }
}

} // verus!
