use vstd::prelude::*;
use crate::amount::Amount;
use crate::providers::{EvmChain, ProviderRegistry};
use crate::requirements::errors::{spec_missing_field_msg, spec_msg, spec_no_such_chain_msg, CheckableError};
use crate::requirements::rows::{balance_rows, balance_rows_match, total_addresses};
use crate::types::{spec_limits_of, AmountLimits, NumberId, ReqUserAccess, Requirement, User};

verus! {

/// The requirement of holding native coin on a chain, within limits.
pub struct CoinRequirement {
    pub id: NumberId,
    pub data: Option<AmountLimits>,
    pub chain: EvmChain,
}

impl CoinRequirement {
    /// A native-coin checker, from a requirement that must name a
    /// supported chain.
    pub fn try_from(req: &Requirement, registry: &ProviderRegistry) -> (r: Result<
        CoinRequirement,
        CheckableError,
    >)
        ensures
            r is Ok <==> (req.chain is Some && registry.spec_supports(req.chain->0)),
            r is Ok ==> r->Ok_0.id == req.id && r->Ok_0.chain == req.chain->0 && r->Ok_0.data
                == spec_limits_of(*req),
            r is Err ==> spec_msg(r->Err_0) == (if req.chain is None {
                spec_missing_field_msg("chain"@)
            } else {
                spec_no_such_chain_msg(req.chain->0.spec_name())
            }),
    {
        match &req.chain {
            Some(chain) => {
                if !registry.supports(*chain) {
                    return Err(CheckableError::NoSuchChain(String::from_str(chain.name())));
                }
                Ok(CoinRequirement { id: req.id, data: AmountLimits::from_req(req), chain: *chain })
            },
            None => Err(CheckableError::MissingField(String::from_str("chain"))),
        }
    }

    /// One row per user address judging its fetched native balance, as
    /// `balance_rows_match` states.
    pub fn check(&self, users: &Vec<User>, balances: &Vec<Result<Amount, String>>) -> (rows: Vec<
        ReqUserAccess,
    >)
        requires
            balances@.len() == total_addresses(users@),
        ensures
            balance_rows_match(rows@, self.id, users@, balances@, self.data),
    {
        balance_rows(self.id, users, balances, &self.data)
    }
}

} // verus!
