use vstd::prelude::*;
use crate::address::Address;
use crate::amount::{spec_parse_amount, Amount};
use crate::providers::EvmChain;
use crate::uint::U256;

verus! {

/// Numeric identifier of users, requirements and roles.
pub type NumberId = u64;

/// The third-party platforms a user identity may come from.
#[derive(PartialEq, Eq, Structural, Clone, Copy, Debug)]
pub enum PlatformName {
    Discord,
    Telegram,
    Github,
    Google,
    Twitter,
    Steam,
}

/// Tokens of a third-party platform identity.
pub struct PlatformUserData {
    pub access_token: Option<String>,
    pub refresh_token: Option<String>,
}

/// A user identity on a third-party platform. Present in the wire form;
/// not consulted by any requirement.
pub struct PlatformUser {
    pub platform_id: NumberId,
    pub platform_name: PlatformName,
    pub platform_user_id: String,
    pub platform_user_data: Option<PlatformUserData>,
}

/// A member to check: an identifier and the wallet addresses it owns.
pub struct User {
    pub id: NumberId,
    pub addresses: Vec<Address>,
    pub platform_users: Option<Vec<PlatformUser>>,
}

/// One wallet address together with the user owning it.
pub struct UserAddress {
    pub user_id: NumberId,
    pub address: Address,
}

/// The kinds of requirement this service can check.
#[derive(PartialEq, Eq, Structural, Clone, Copy, Debug)]
pub enum RequirementType {
    Erc20,
    Erc721,
    Erc1155,
    Coin,
    Allowlist,
    Free,
}

/// Kind-dependent payload of a requirement: a token identifier, an
/// allowlist, and textual amount bounds.
pub struct RequirementData {
    pub id: Option<U256>,
    pub addresses: Option<Vec<Address>>,
    pub min_amount: Option<String>,
    pub max_amount: Option<String>,
}

/// A declarative predicate to check users against.
pub struct Requirement {
    pub id: NumberId,
    pub typ: RequirementType,
    pub address: Option<Address>,
    pub data: Option<RequirementData>,
    pub chain: Option<EvmChain>,
}

/// A bundle of requirements combined by a boolean logic expression whose
/// leaves are 0-based indices into `requirements`.
pub struct Role {
    pub id: Option<NumberId>,
    pub logic: String,
    pub requirements: Vec<Requirement>,
}

/// The request body of the role-checking endpoint.
pub struct CheckRolesOfMembersRequest {
    pub users: Vec<User>,
    pub roles: Vec<Role>,
    pub send_details: Option<bool>,
}

/// The verdict of one requirement for one user address: a three-valued
/// access, the amount found, and any warning or error text.
pub struct ReqUserAccess {
    pub requirement_id: NumberId,
    pub user_id: NumberId,
    pub access: Option<bool>,
    pub amount: Option<Amount>,
    pub warning: Option<String>,
    pub error: Option<String>,
}

/// Per-requirement aggregate for one user: access joined by or over the
/// user's addresses, amount summed over them.
pub struct DetailedAccess {
    pub requirement_id: NumberId,
    pub access: Option<bool>,
    pub amount: Option<Amount>,
}

/// An error or warning tied to one requirement.
pub struct RequirementError {
    pub requirement_id: NumberId,
    pub msg: String,
}

/// The aggregated verdict for one user.
pub struct Access {
    pub id: NumberId,
    pub access: Option<bool>,
    pub warnings: Option<Vec<RequirementError>>,
    pub errors: Option<Vec<RequirementError>>,
    pub detailed: Option<Vec<DetailedAccess>>,
}

/// The evaluator's output: one `Access` per user, in user order, and the
/// requirement-construction errors, if any arose.
pub struct CheckAccessResult {
    pub accesses: Vec<Access>,
    pub errors: Option<Vec<RequirementError>>,
}

/// The verdicts of one role for all users.
pub struct CheckRolesOfMembersResult {
    pub role_id: NumberId,
    pub users: Vec<Access>,
    pub errors: Option<Vec<RequirementError>>,
}

/// Numeric amount bounds of a requirement, parsed from its textual form.
pub struct AmountLimits {
    pub min_amount: Option<Amount>,
    pub max_amount: Option<Amount>,
}

/// What parsing an optional textual amount yields: a number only where
/// the text is present and well formed; a silent nothing otherwise.
pub open spec fn spec_parse_opt_amount(o: Option<String>) -> Option<Amount> {
    match o {
        Some(s) => spec_parse_amount(s@),
        None => None,
    }
}

/// The token identifier a requirement's data carries, if any.
pub open spec fn spec_token_id_of(req: Requirement) -> Option<U256> {
    match req.data {
        Some(d) => d.id,
        None => None,
    }
}

/// The limits a requirement's data carries, as `from_req` yields them.
pub open spec fn spec_limits_of(req: Requirement) -> Option<AmountLimits> {
    match req.data {
        Some(d) => Some(
            AmountLimits {
                min_amount: spec_parse_opt_amount(d.min_amount),
                max_amount: spec_parse_opt_amount(d.max_amount),
            },
        ),
        None => None,
    }
}

fn parse_opt_amount(o: &Option<String>) -> (r: Option<Amount>)
    ensures
        r == spec_parse_opt_amount(*o),
{
    match o {
        Some(s) => Amount::parse(s.as_str()),
        None => None,
    }
}

impl AmountLimits {
    /// The amount bounds of a requirement: present exactly when the
    /// requirement carries data, each bound parsed from its text and
    /// silently absent when the text does not parse. The readable texts
    /// are the plain decimal ones of `spec_parse_amount`: a bound written
    /// with a sign or an exponent mark reads as no bound.
    pub fn from_req(req: &Requirement) -> (r: Option<AmountLimits>)
        ensures
            r == spec_limits_of(*req),
    {
        match &req.data {
            Some(data) => Some(
                AmountLimits {
                    min_amount: parse_opt_amount(&data.min_amount),
                    max_amount: parse_opt_amount(&data.max_amount),
                },
            ),
            None => None,
        }
    }
}

} // verus!
