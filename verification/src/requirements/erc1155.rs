use vstd::prelude::*;
use crate::address::Address;
use crate::amount::Amount;
use crate::providers::{EvmChain, ProviderRegistry};
use crate::requirements::erc721::NftData;
use crate::requirements::errors::{dec_str_of, dec_string, spec_missing_field_msg, spec_missing_token_address_msg, spec_msg, spec_no_such_chain_msg, CheckableError};
use crate::requirements::rows::{balance_rows, balance_rows_match, total_addresses};
use crate::types::{spec_limits_of, AmountLimits, NumberId, ReqUserAccess, Requirement, User};

verus! {

/// The requirement of holding a given semi-fungible token, within limits.
pub struct Erc1155Requirement {
    pub id: NumberId,
    pub address: Address,
    pub data: NftData,
    pub chain: EvmChain,
}

impl Erc1155Requirement {
    /// A semi-fungible checker, from a requirement that must name a
    /// supported chain and a token contract; the token identifier is
    /// optional, and without one the whole holding at the contract is
    /// summed instead.
    pub fn try_from(req: &Requirement, registry: &ProviderRegistry) -> (r: Result<
        Erc1155Requirement,
        CheckableError,
    >)
        ensures
            r is Ok <==> (req.chain is Some && registry.spec_supports(req.chain->0)
                && req.address is Some),
            r is Ok ==> r->Ok_0.id == req.id && r->Ok_0.chain == req.chain->0 && r->Ok_0.data.id
                == crate::types::spec_token_id_of(*req) && r->Ok_0.data.limits == spec_limits_of(
                *req) && r->Ok_0.address@ == req.address->0@,
            r is Err ==> spec_msg(r->Err_0) == (if req.chain is None {
                spec_missing_field_msg("chain"@)
            } else if !registry.spec_supports(req.chain->0) {
                spec_no_such_chain_msg(req.chain->0.spec_name())
            } else {
                spec_missing_token_address_msg(dec_str_of(req.id as nat))
            }),
    {
        match &req.chain {
            Some(chain) => {
                if !registry.supports(*chain) {
                    return Err(CheckableError::NoSuchChain(String::from_str(chain.name())));
                }
                let id = match &req.data {
                    Some(data) => data.id,
                    None => None,
                };
                match &req.address {
                    Some(address) => Ok(
                        Erc1155Requirement {
                            id: req.id,
                            address: address.duplicate(),
                            data: NftData { id, limits: AmountLimits::from_req(req) },
                            chain: *chain,
                        },
                    ),
                    None => Err(CheckableError::MissingTokenAddress(dec_string(req.id))),
                }
            },
            None => Err(CheckableError::MissingField(String::from_str("chain"))),
        }
    }

    /// One row per user address judging its fetched holding, as
    /// `balance_rows_match` states.
    pub fn check(&self, users: &Vec<User>, balances: &Vec<Result<Amount, String>>) -> (rows: Vec<
        ReqUserAccess,
    >)
        requires
            balances@.len() == total_addresses(users@),
        ensures
            balance_rows_match(rows@, self.id, users@, balances@, self.data.limits),
    {
        balance_rows(self.id, users, balances, &self.data.limits)
    }
}

} // verus!
