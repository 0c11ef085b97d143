use vstd::prelude::*;
use crate::logic::LogicTree;

pub mod allowlist;
pub mod coin;
pub mod erc1155;
pub mod erc20;
pub mod erc721;
pub mod errors;
pub mod free;
pub mod rows;
pub mod utils;

use crate::amount::Amount;
use crate::providers::ProviderRegistry;
use crate::requirements::allowlist::AllowListRequirement;
use crate::requirements::coin::CoinRequirement;
use crate::requirements::erc1155::Erc1155Requirement;
use crate::requirements::erc20::Erc20Requirement;
use crate::requirements::erc721::Erc721Requirement;
use crate::requirements::errors::{dec_str_of, spec_missing_field_msg, spec_missing_token_address_msg, spec_msg, spec_no_such_chain_msg, CheckableError};
use crate::requirements::free::FreeRequirement;
use crate::requirements::rows::total_addresses;
use crate::types::{spec_limits_of, ReqUserAccess, Requirement, RequirementType, User};

verus! {

/// A constructed checker: the runtime object realising one requirement.
pub enum Checker {
    Free(FreeRequirement),
    Allowlist(AllowListRequirement),
    Coin(CoinRequirement),
    Erc20(Erc20Requirement),
    Erc721(Erc721Requirement),
    Erc1155(Erc1155Requirement),
}

/// Why building a checker from a requirement fails, as a message text;
/// nothing when it succeeds.
pub open spec fn spec_cons_err_msg(req: Requirement, reg: ProviderRegistry) -> Option<Seq<char>> {
    match req.typ {
        RequirementType::Free => None,
        RequirementType::Allowlist => if req.data is None {
            Some(spec_missing_field_msg("data"@))
        } else if req.data->0.addresses is None {
            Some(spec_missing_field_msg("addresses"@))
        } else {
            None
        },
        RequirementType::Coin => if req.chain is None {
            Some(spec_missing_field_msg("chain"@))
        } else if !reg.spec_supports(req.chain->0) {
            Some(spec_no_such_chain_msg(req.chain->0.spec_name()))
        } else {
            None
        },
        RequirementType::Erc20 => if req.chain is None {
            Some(spec_missing_field_msg("chain"@))
        } else if !reg.spec_supports(req.chain->0) {
            Some(spec_no_such_chain_msg(req.chain->0.spec_name()))
        } else if req.address is None {
            Some(spec_missing_token_address_msg(dec_str_of(req.id as nat)))
        } else {
            None
        },
        RequirementType::Erc721 => if req.chain is None {
            Some(spec_missing_field_msg("chain"@))
        } else if !reg.spec_supports(req.chain->0) {
            Some(spec_no_such_chain_msg(req.chain->0.spec_name()))
        } else if req.data is None {
            Some(spec_missing_field_msg("data"@))
        } else if req.address is None {
            Some(spec_missing_token_address_msg(dec_str_of(req.id as nat)))
        } else {
            None
        },
        RequirementType::Erc1155 => if req.chain is None {
            Some(spec_missing_field_msg("chain"@))
        } else if !reg.spec_supports(req.chain->0) {
            Some(spec_no_such_chain_msg(req.chain->0.spec_name()))
        } else if req.address is None {
            Some(spec_missing_token_address_msg(dec_str_of(req.id as nat)))
        } else {
            None
        },
    }
}

/// Whether a successfully built checker carries what its requirement
/// declared: the identifier, the chain, the parsed limits, the token
/// contract and identifier, or the copied allowlist.
pub open spec fn checker_matches(c: Checker, req: Requirement) -> bool {
    match c {
        Checker::Free(f) => req.typ == RequirementType::Free && f.id == req.id,
        Checker::Allowlist(a) => {
            let listed = req.data->0.addresses->0;
            &&& req.typ == RequirementType::Allowlist
            &&& a.id == req.id
            &&& a.addresses@.len() == listed@.len()
            &&& forall|j: int| 0 <= j < listed@.len() ==> a.addresses@[j]@ == #[trigger] listed@[j]@
        },
        Checker::Coin(c2) => req.typ == RequirementType::Coin && c2.id == req.id && Some(c2.chain)
            == req.chain && c2.data == spec_limits_of(req),
        Checker::Erc20(e) => req.typ == RequirementType::Erc20 && e.id == req.id && Some(e.chain)
            == req.chain && e.data == spec_limits_of(req) && e.address@ == req.address->0@,
        Checker::Erc721(e) => req.typ == RequirementType::Erc721 && e.id == req.id && Some(e.chain)
            == req.chain && e.data.limits == spec_limits_of(req) && e.data.id == req.data->0.id
            && e.address@ == req.address->0@,
        Checker::Erc1155(e) => req.typ == RequirementType::Erc1155 && e.id == req.id && Some(
            e.chain) == req.chain && e.data.limits == spec_limits_of(req) && e.data.id
            == crate::types::spec_token_id_of(req) && e.address@ == req.address->0@,
    }
}

/// The rows a checker yields over the users and, for chain-backed kinds,
/// their fetched balances.
pub open spec fn checker_rows_match(
    c: Checker,
    rows: Seq<ReqUserAccess>,
    users: Seq<User>,
    bals: Seq<Result<Amount, String>>,
) -> bool {
    match c {
        Checker::Free(f) => free::free_rows_match(rows, f.id, users),
        Checker::Allowlist(a) => allowlist::allowlist_rows_match(rows, a.id, a.addresses@, users),
        Checker::Coin(c2) => rows::balance_rows_match(rows, c2.id, users, bals, c2.data),
        Checker::Erc20(e) => rows::balance_rows_match(rows, e.id, users, bals, e.data),
        Checker::Erc721(e) => rows::balance_rows_match(rows, e.id, users, bals, e.data.limits),
        Checker::Erc1155(e) => rows::balance_rows_match(rows, e.id, users, bals, e.data.limits),
    }
}

impl Checker {
    /// Whether this checker's verdicts rest on fetched balances.
    pub open spec fn needs_balances(self) -> bool {
        match self {
            Checker::Free(_) => false,
            Checker::Allowlist(_) => false,
            _ => true,
        }
    }

    /// The rows of this checker over the users, judging the fetched
    /// balances where the kind needs them, as `checker_rows_match` states.
    pub fn check(&self, users: &Vec<User>, balances: &Vec<Result<Amount, String>>) -> (rows: Vec<
        ReqUserAccess,
    >)
        requires
            self.needs_balances() ==> balances@.len() == total_addresses(users@),
        ensures
            checker_rows_match(*self, rows@, users@, balances@),
    {
        match self {
            Checker::Free(f) => f.check(users),
            Checker::Allowlist(a) => a.check(users),
            Checker::Coin(c) => c.check(users, balances),
            Checker::Erc20(e) => e.check(users, balances),
            Checker::Erc721(e) => e.check(users, balances),
            Checker::Erc1155(e) => e.check(users, balances),
        }
    }
}

impl Requirement {
    /// The checker realising this requirement against the registry's
    /// chains, or the construction error `spec_cons_err_msg` states.
    pub fn inner(&self, registry: &ProviderRegistry) -> (r: Result<Checker, CheckableError>)
        ensures
            r is Ok <==> spec_cons_err_msg(*self, *registry) is None,
            r is Err ==> Some(spec_msg(r->Err_0)) == spec_cons_err_msg(*self, *registry),
            r is Ok ==> checker_matches(r->Ok_0, *self),
    {
        match self.typ {
            RequirementType::Free => match FreeRequirement::try_from(self) {
                Ok(c) => Ok(Checker::Free(c)),
                Err(e) => Err(e),
            },
            RequirementType::Allowlist => match AllowListRequirement::try_from(self) {
                Ok(c) => Ok(Checker::Allowlist(c)),
                Err(e) => Err(e),
            },
            RequirementType::Coin => match CoinRequirement::try_from(self, registry) {
                Ok(c) => Ok(Checker::Coin(c)),
                Err(e) => Err(e),
            },
            RequirementType::Erc20 => match Erc20Requirement::try_from(self, registry) {
                Ok(c) => Ok(Checker::Erc20(c)),
                Err(e) => Err(e),
            },
            RequirementType::Erc721 => match Erc721Requirement::try_from(self, registry) {
                Ok(c) => Ok(Checker::Erc721(c)),
                Err(e) => Err(e),
            },
            RequirementType::Erc1155 => match Erc1155Requirement::try_from(self, registry) {
                Ok(c) => Ok(Checker::Erc1155(c)),
                Err(e) => Err(e),
            },
        }
    }
}


/// Whether a requirement's verdicts rest on fetched balances.
pub open spec fn spec_chain_backed(req: Requirement) -> bool {
    req.typ == RequirementType::Coin || req.typ == RequirementType::Erc20 || req.typ
        == RequirementType::Erc721 || req.typ == RequirementType::Erc1155
}

/// The terminal a requirement contributes for one user: the or over the
/// known per-address verdicts, unknown when there is none.
pub open spec fn spec_terminal(
    users: Seq<User>,
    ui: int,
    req: Requirement,
    bal: Seq<Result<Amount, String>>,
    reg: ProviderRegistry,
) -> Option<bool> {
    let u = users[ui];
    if spec_cons_err_msg(req, reg) is Some {
        None
    } else if u.addresses@.len() == 0 {
        None
    } else if req.typ == RequirementType::Free {
        Some(true)
    } else if req.typ == RequirementType::Allowlist {
        Some(exists|k: int|
            0 <= k < u.addresses@.len() && allowlist::spec_allowlist_contains(
                req.data->0.addresses->0@,
                u.addresses@[k]@,
            ))
    } else {
        if forall|k: int| 0 <= k < u.addresses@.len()
            ==> bal[rows::bal_index(users, ui, k)] is Err {
            None
        } else {
            Some(exists|k: int|
                0 <= k < u.addresses@.len() && bal[rows::bal_index(users, ui, k)] is Ok
                    && utils::spec_in_range(
                    bal[rows::bal_index(users, ui, k)]->Ok_0,
                    spec_limits_of(req),
                    false,
                ))
        }
    }
}

/// Whether a requirement leaves this user with at least one error row.
pub open spec fn spec_user_req_has_error(
    users: Seq<User>,
    ui: int,
    req: Requirement,
    bal: Seq<Result<Amount, String>>,
    reg: ProviderRegistry,
) -> bool {
    if spec_cons_err_msg(req, reg) is Some {
        true
    } else if !spec_chain_backed(req) {
        false
    } else {
        users[ui].addresses@.len() == 0 || exists|k: int|
            0 <= k < users[ui].addresses@.len() && bal[rows::bal_index(users, ui, k)] is Err
    }
}

/// Whether any requirement leaves this user with an error.
pub open spec fn spec_user_has_error(
    users: Seq<User>,
    ui: int,
    requirements: Seq<Requirement>,
    bals: Seq<Vec<Result<Amount, String>>>,
    reg: ProviderRegistry,
) -> bool {
    exists|ri: int|
        0 <= ri < requirements.len() && spec_user_req_has_error(
            users,
            ui,
            requirements[ri],
            bals[ri]@,
            reg,
        )
}

/// The error texts of the user's slots, in address order.
pub open spec fn err_texts(bal: Seq<Result<Amount, String>>, start: int, count: int) -> Seq<
    Seq<char>,
>
    decreases count,
{
    if count <= 0 {
        Seq::empty()
    } else {
        err_texts(bal, start, count - 1) + (match bal[start + count - 1] {
            Ok(_) => Seq::<Seq<char>>::empty(),
            Err(e) => seq![e@],
        })
    }
}

/// The error texts one requirement leaves for this user, in row order.
pub open spec fn spec_user_req_errors(
    users: Seq<User>,
    ui: int,
    req: Requirement,
    bal: Seq<Result<Amount, String>>,
    reg: ProviderRegistry,
) -> Seq<Seq<char>> {
    match spec_cons_err_msg(req, reg) {
        Some(m) => seq![m],
        None => if !spec_chain_backed(req) {
            Seq::empty()
        } else if users[ui].addresses@.len() == 0 {
            seq![errors::spec_missing_user_address_msg(dec_str_of(users[ui].id as nat))]
        } else {
            err_texts(
                bal,
                rows::flat_offset(users, ui) as int,
                users[ui].addresses@.len() as int,
            )
        },
    }
}

/// Requirement identifiers attached to a run of error texts.
pub open spec fn tag_errors(id: crate::types::NumberId, msgs: Seq<Seq<char>>) -> Seq<
    (crate::types::NumberId, Seq<char>),
> {
    Seq::new(msgs.len(), |j: int| (id, msgs[j]))
}

/// All error entries of one user over the first `ri` requirements, in
/// requirement order then row order.
pub open spec fn spec_user_errors(
    users: Seq<User>,
    ui: int,
    requirements: Seq<Requirement>,
    bals: Seq<Vec<Result<Amount, String>>>,
    reg: ProviderRegistry,
    ri: int,
) -> Seq<(crate::types::NumberId, Seq<char>)>
    decreases ri,
{
    if ri <= 0 {
        Seq::empty()
    } else {
        spec_user_errors(users, ui, requirements, bals, reg, ri - 1) + tag_errors(
            requirements[ri - 1].id,
            spec_user_req_errors(users, ui, requirements[ri - 1], bals[ri - 1]@, reg),
        )
    }
}

/// How many of the first `i` requirements fail construction.
pub open spec fn spec_cerr_count(requirements: Seq<Requirement>, reg: ProviderRegistry, i: int) -> nat
    decreases i,
{
    if i <= 0 {
        0
    } else {
        spec_cerr_count(requirements, reg, i - 1) + (if spec_cons_err_msg(
            requirements[i - 1],
            reg,
        ) is Some {
            1nat
        } else {
            0
        })
    }
}

/// The per-requirement terminals of one user, in requirement order.
pub open spec fn spec_terminals(
    users: Seq<User>,
    ui: int,
    requirements: Seq<Requirement>,
    bals: Seq<Vec<Result<Amount, String>>>,
    reg: ProviderRegistry,
) -> Seq<Option<bool>> {
    Seq::new(requirements.len(), |ri: int| spec_terminal(users, ui, requirements[ri], bals[ri]@, reg))
}

/// The aggregated three-valued verdict of one user.
///
/// An unparseable logic text gives unknown. A tree true on the known
/// terminals is reported true even beside errors; false is reported only
/// with no errors anywhere; everything else is unknown.
pub open spec fn spec_user_access(
    users: Seq<User>,
    ui: int,
    requirements: Seq<Requirement>,
    bals: Seq<Vec<Result<Amount, String>>>,
    reg: ProviderRegistry,
    logic: Seq<char>,
) -> Option<bool> {
    match crate::logic::spec_parse_logic(logic) {
        None => None,
        Some(tree) => {
            let v = crate::logic::spec_eval(tree, spec_terminals(users, ui, requirements, bals, reg));
            if v == Some(true) {
                Some(true)
            } else if v == Some(false) && !spec_user_has_error(users, ui, requirements, bals, reg)
                && spec_cerr_count(requirements, reg, requirements.len() as int) == 0 {
                Some(false)
            } else {
                None
            }
        },
    }
}

/// The detailed access of one user at one requirement: the or over the
/// per-address verdicts, unknown counting as no.
pub open spec fn spec_detailed_access(
    users: Seq<User>,
    ui: int,
    req: Requirement,
    bal: Seq<Result<Amount, String>>,
    reg: ProviderRegistry,
) -> bool {
    let u = users[ui];
    if spec_cons_err_msg(req, reg) is Some {
        false
    } else if req.typ == RequirementType::Free {
        u.addresses@.len() > 0
    } else if req.typ == RequirementType::Allowlist {
        exists|k: int|
            0 <= k < u.addresses@.len() && allowlist::spec_allowlist_contains(
                req.data->0.addresses->0@,
                u.addresses@[k]@,
            )
    } else {
        u.addresses@.len() > 0 && exists|k: int|
            0 <= k < u.addresses@.len() && bal[rows::bal_index(users, ui, k)] is Ok
                && utils::spec_in_range(
                bal[rows::bal_index(users, ui, k)]->Ok_0,
                spec_limits_of(req),
                false,
            )
    }
}

/// Sum of the units of the user's successful lookups.
pub open spec fn ok_units_sum(bal: Seq<Result<Amount, String>>, start: int, count: int) -> nat
    decreases count,
{
    if count <= 0 {
        0
    } else {
        ok_units_sum(bal, start, count - 1) + (match bal[start + count - 1] {
            Ok(a) => a.units as nat,
            Err(_) => 0,
        })
    }
}

/// How many of the user's addresses are listed.
pub open spec fn listed_count(list: Seq<crate::address::Address>, addrs: Seq<crate::address::Address>, count: int) -> nat
    decreases count,
{
    if count <= 0 {
        0
    } else {
        listed_count(list, addrs, count - 1) + (if allowlist::spec_allowlist_contains(
            list,
            addrs[count - 1]@,
        ) {
            1nat
        } else {
            0
        })
    }
}

/// The detailed amount of one user at one requirement: the sum of the
/// per-address amounts, unknown counting as zero.
pub open spec fn spec_detailed_amount(
    users: Seq<User>,
    ui: int,
    req: Requirement,
    bal: Seq<Result<Amount, String>>,
    reg: ProviderRegistry,
) -> nat {
    let u = users[ui];
    if spec_cons_err_msg(req, reg) is Some {
        0
    } else if req.typ == RequirementType::Free {
        u.addresses@.len() * (crate::amount::AMOUNT_SCALE as nat)
    } else if req.typ == RequirementType::Allowlist {
        listed_count(req.data->0.addresses->0@, u.addresses@, u.addresses@.len() as int) * (
        crate::amount::AMOUNT_SCALE as nat)
    } else {
        ok_units_sum(bal, rows::flat_offset(users, ui) as int, u.addresses@.len() as int)
    }
}


/// A unit count capped at what an `Amount` can hold.
pub open spec fn sat_units(n: nat) -> u128 {
    if n <= u128::MAX {
        n as u128
    } else {
        u128::MAX
    }
}

/// What one entry list of per-user errors must hold: the expected
/// requirement identifiers and message texts, in order.
pub open spec fn user_errors_match(
    es: Seq<crate::types::RequirementError>,
    expected: Seq<(crate::types::NumberId, Seq<char>)>,
) -> bool {
    &&& es.len() == expected.len()
    &&& forall|j: int| 0 <= j < es.len() ==> (#[trigger] es[j]).requirement_id == expected[j].0
        && es[j].msg@ == expected[j].1
}

/// What one user's detailed list must hold: per requirement in order, its
/// identifier, the or-joined access and the summed amount.
pub open spec fn detailed_match(
    ds: Seq<crate::types::DetailedAccess>,
    users: Seq<User>,
    ui: int,
    requirements: Seq<Requirement>,
    bals: Seq<Vec<Result<Amount, String>>>,
    reg: ProviderRegistry,
) -> bool {
    &&& ds.len() == requirements.len()
    &&& forall|ri: int| 0 <= ri < requirements.len() ==> {
        let d = #[trigger] ds[ri];
        &&& d.requirement_id == requirements[ri].id
        &&& d.access == Some(spec_detailed_access(users, ui, requirements[ri], bals[ri]@, reg))
        &&& d.amount == Some(
            Amount { units: sat_units(spec_detailed_amount(users, ui, requirements[ri], bals[ri]@, reg)) },
        )
    }
}

/// What one user's aggregated `Access` must hold.
pub open spec fn access_matches(
    a: crate::types::Access,
    users: Seq<User>,
    ui: int,
    requirements: Seq<Requirement>,
    bals: Seq<Vec<Result<Amount, String>>>,
    reg: ProviderRegistry,
    logic: Seq<char>,
    send_details: bool,
) -> bool {
    &&& a.id == users[ui].id
    &&& a.access == spec_user_access(users, ui, requirements, bals, reg, logic)
    &&& a.warnings is None
    &&& (a.errors is Some <==> spec_user_errors(
        users,
        ui,
        requirements,
        bals,
        reg,
        requirements.len() as int,
    ).len() > 0)
    &&& (a.errors is Some ==> user_errors_match(
        a.errors->0@,
        spec_user_errors(users, ui, requirements, bals, reg, requirements.len() as int),
    ))
    &&& (send_details ==> a.detailed is Some && detailed_match(
        a.detailed->0@,
        users,
        ui,
        requirements,
        bals,
        reg,
    ))
    &&& (!send_details ==> a.detailed is None)
}

/// What the top-level construction-error list must hold: one entry per
/// failing requirement, in order.
pub open spec fn cons_errors_match(
    es: Seq<crate::types::RequirementError>,
    requirements: Seq<Requirement>,
    reg: ProviderRegistry,
) -> bool {
    &&& es.len() == spec_cerr_count(requirements, reg, requirements.len() as int)
    &&& forall|ri: int| #![trigger spec_cerr_count(requirements, reg, ri)]
        0 <= ri < requirements.len() && spec_cons_err_msg(requirements[ri], reg) is Some ==> {
            &&& es[spec_cerr_count(requirements, reg, ri) as int].requirement_id
                == requirements[ri].id
            &&& es[spec_cerr_count(requirements, reg, ri) as int].msg@ == spec_cons_err_msg(
                requirements[ri],
                reg,
            )->0
        }
}

/// One requirement readied for evaluation: its checker, or nothing when
/// construction failed, and the verdict rows it produced.
pub struct PreparedReq {
    pub checker: Option<Checker>,
    pub rows: Vec<ReqUserAccess>,
}

/// Whether a prepared requirement is what `inner` and `check` yield for
/// `req` over these users and balances.
pub open spec fn prepared_matches(
    p: PreparedReq,
    req: Requirement,
    reg: ProviderRegistry,
    users: Seq<User>,
    bal: Seq<Result<Amount, String>>,
) -> bool {
    match spec_cons_err_msg(req, reg) {
        Some(m) => p.checker is None && rows::error_rows_match(p.rows@, req.id, users, m),
        None => p.checker is Some && checker_matches(p.checker->0, req) && checker_rows_match(
            p.checker->0,
            p.rows@,
            users,
            bal,
        ),
    }
}

/// The error texts of a row range, in row order.
pub open spec fn row_err_texts(rows: Seq<ReqUserAccess>, start: int, count: int) -> Seq<Seq<char>>
    decreases count,
{
    if count <= 0 {
        Seq::empty()
    } else {
        row_err_texts(rows, start, count - 1) + (match rows[start + count - 1].error {
            Some(e) => seq![e@],
            None => Seq::<Seq<char>>::empty(),
        })
    }
}

/// The amount units carried by a row range, unknown counting zero.
pub open spec fn row_amount_sum(rows: Seq<ReqUserAccess>, start: int, count: int) -> nat
    decreases count,
{
    if count <= 0 {
        0
    } else {
        row_amount_sum(rows, start, count - 1) + (match rows[start + count - 1].amount {
            Some(a) => a.units as nat,
            None => 0,
        })
    }
}

/// Two address lists holding the same bytes list the same addresses.
proof fn lemma_allowlist_same(l1: Seq<crate::address::Address>, l2: Seq<crate::address::Address>)
    requires
        l1.len() == l2.len(),
        forall|j: int| 0 <= j < l1.len() ==> l1[j]@ == #[trigger] l2[j]@,
    ensures
        forall|x: Seq<u8>| allowlist::spec_allowlist_contains(l1, x)
            == #[trigger] allowlist::spec_allowlist_contains(l2, x),
{
    assert forall|x: Seq<u8>|
        allowlist::spec_allowlist_contains(l1, x) == #[trigger] allowlist::spec_allowlist_contains(
            l2,
            x,
        ) by {
        if allowlist::spec_allowlist_contains(l1, x) {
            let j = choose|j: int| 0 <= j < l1.len() && l1[j]@ == x;
            assert(l2[j]@ == x);
        }
        if allowlist::spec_allowlist_contains(l2, x) {
            let j = choose|j: int| 0 <= j < l2.len() && l2[j]@ == x;
            assert(l1[j]@ == x);
        }
    }
}

/// Rows judging balances leave exactly the failed lookups' texts.
proof fn lemma_row_errs_balance(
    rows: Seq<ReqUserAccess>,
    rstart: int,
    bal: Seq<Result<Amount, String>>,
    bstart: int,
    count: int,
    req_id: crate::types::NumberId,
    user_id: crate::types::NumberId,
    limits: Option<crate::types::AmountLimits>,
)
    requires
        forall|k: int| 0 <= k < count ==> rows::balance_row_matches(
            #[trigger] rows[rstart + k],
            req_id,
            user_id,
            bal[bstart + k],
            limits,
        ),
    ensures
        row_err_texts(rows, rstart, count) =~= err_texts(bal, bstart, count),
        row_amount_sum(rows, rstart, count) == ok_units_sum(bal, bstart, count),
    decreases count,
{
    if count > 0 {
        lemma_row_errs_balance(rows, rstart, bal, bstart, count - 1, req_id, user_id, limits);
        assert(rows::balance_row_matches(
            rows[rstart + (count - 1)],
            req_id,
            user_id,
            bal[bstart + (count - 1)],
            limits,
        ));
    }
}

/// Rows with no error text and a known amount: the free and allowlist
/// kinds.
proof fn lemma_row_errs_none(rows: Seq<ReqUserAccess>, start: int, count: int)
    requires
        forall|k: int| 0 <= k < count ==> (#[trigger] rows[start + k]).error is None,
    ensures
        row_err_texts(rows, start, count) =~= Seq::<Seq<char>>::empty(),
    decreases count,
{
    if count > 0 {
        lemma_row_errs_none(rows, start, count - 1);
        assert(rows[start + (count - 1)].error is None);
    }
}

/// The amount a run of free rows carries: one per address.
proof fn lemma_free_amount_sum(
    rows: Seq<ReqUserAccess>,
    start: int,
    count: int,
    req_id: crate::types::NumberId,
    user_id: crate::types::NumberId,
)
    requires
        count >= 0,
        forall|k: int| 0 <= k < count ==> free::free_row_matches(
            #[trigger] rows[start + k],
            req_id,
            user_id,
        ),
    ensures
        row_amount_sum(rows, start, count) == count * (crate::amount::AMOUNT_SCALE as nat),
    decreases count,
{
    if count > 0 {
        lemma_free_amount_sum(rows, start, count - 1, req_id, user_id);
        assert(free::free_row_matches(rows[start + (count - 1)], req_id, user_id));
        assert((count - 1) * (crate::amount::AMOUNT_SCALE as nat) + crate::amount::AMOUNT_SCALE
            == count * (crate::amount::AMOUNT_SCALE as nat)) by (nonlinear_arith);
    } else {
        assert(count * (crate::amount::AMOUNT_SCALE as nat) == 0) by (nonlinear_arith)
            requires count <= 0 && count >= 0,
        ;
    }
}

/// The amount a run of allowlist rows carries: one per listed address.
proof fn lemma_allowlist_amount_sum(
    rows: Seq<ReqUserAccess>,
    start: int,
    count: int,
    req_id: crate::types::NumberId,
    user_id: crate::types::NumberId,
    list: Seq<crate::address::Address>,
    addrs: Seq<crate::address::Address>,
)
    requires
        count >= 0,
        forall|k: int| 0 <= k < count ==> allowlist::allowlist_row_matches(
            #[trigger] rows[start + k],
            req_id,
            user_id,
            allowlist::spec_allowlist_contains(list, addrs[k]@),
        ),
    ensures
        row_amount_sum(rows, start, count) == listed_count(list, addrs, count) * (
        crate::amount::AMOUNT_SCALE as nat),
    decreases count,
{
    if count > 0 {
        lemma_allowlist_amount_sum(rows, start, count - 1, req_id, user_id, list, addrs);
        assert(allowlist::allowlist_row_matches(
            rows[start + (count - 1)],
            req_id,
            user_id,
            allowlist::spec_allowlist_contains(list, addrs[count - 1]@),
        ));
        let c1 = listed_count(list, addrs, count - 1);
        assert((c1 + 1) * (crate::amount::AMOUNT_SCALE as nat) == c1 * (
        crate::amount::AMOUNT_SCALE as nat) + crate::amount::AMOUNT_SCALE) by (nonlinear_arith);
    } else {
        assert(listed_count(list, addrs, count) == 0);
    }
}

/// A nonempty error-text run means a failed lookup, and the other way
/// round.
proof fn lemma_err_texts_nonempty(bal: Seq<Result<Amount, String>>, start: int, count: int)
    ensures
        err_texts(bal, start, count).len() > 0 <==> exists|k: int|
            0 <= k < count && (#[trigger] bal[start + k]) is Err,
    decreases count,
{
    if count > 0 {
        lemma_err_texts_nonempty(bal, start, count - 1);
        if err_texts(bal, start, count).len() > 0 {
            if err_texts(bal, start, count - 1).len() > 0 {
                let k = choose|k: int| 0 <= k < count - 1 && (#[trigger] bal[start + k]) is Err;
                assert(0 <= k < count && bal[start + k] is Err);
            } else {
                assert(bal[start + (count - 1)] is Err);
            }
        }
        if exists|k: int| 0 <= k < count && (#[trigger] bal[start + k]) is Err {
            let k = choose|k: int| 0 <= k < count && (#[trigger] bal[start + k]) is Err;
            if k < count - 1 {
                assert(exists|k2: int| 0 <= k2 < count - 1 && (#[trigger] bal[start + k2]) is Err);
            }
        }
    }
}

/// A user's error entries are nonempty exactly when some requirement
/// leaves the user an error.
proof fn lemma_req_errors_nonempty(
    users: Seq<User>,
    ui: int,
    req: Requirement,
    bal: Seq<Result<Amount, String>>,
    reg: ProviderRegistry,
)
    requires
        0 <= ui < users.len(),
    ensures
        spec_user_req_errors(users, ui, req, bal, reg).len() > 0 <==> spec_user_req_has_error(
            users,
            ui,
            req,
            bal,
            reg,
        ),
{
    if spec_cons_err_msg(req, reg) is None && spec_chain_backed(req) && users[ui].addresses@.len()
        != 0 {
        let start = rows::flat_offset(users, ui) as int;
        let n = users[ui].addresses@.len() as int;
        lemma_err_texts_nonempty(bal, start, n);
        if spec_user_req_errors(users, ui, req, bal, reg).len() > 0 {
            let k = choose|k: int| 0 <= k < n && (#[trigger] bal[start + k]) is Err;
            assert(bal[rows::bal_index(users, ui, k)] is Err);
        }
        if spec_user_req_has_error(users, ui, req, bal, reg) {
            let k = choose|k: int|
                0 <= k < n && bal[#[trigger] rows::bal_index(users, ui, k)] is Err;
            assert(bal[start + k] is Err);
        }
    }
}

/// The user's full error list is nonempty exactly when some requirement
/// among the first `ri` leaves an error.
proof fn lemma_user_errors_nonempty(
    users: Seq<User>,
    ui: int,
    requirements: Seq<Requirement>,
    bals: Seq<Vec<Result<Amount, String>>>,
    reg: ProviderRegistry,
    ri: int,
)
    requires
        0 <= ui < users.len(),
        ri <= requirements.len(),
    ensures
        spec_user_errors(users, ui, requirements, bals, reg, ri).len() > 0 <==> exists|i: int|
            0 <= i < ri && spec_user_req_has_error(users, ui, #[trigger] requirements[i], bals[i]@, reg),
    decreases ri,
{
    if ri > 0 {
        lemma_user_errors_nonempty(users, ui, requirements, bals, reg, ri - 1);
        lemma_req_errors_nonempty(users, ui, requirements[ri - 1], bals[ri - 1]@, reg);
        if spec_user_errors(users, ui, requirements, bals, reg, ri).len() > 0 {
            if spec_user_errors(users, ui, requirements, bals, reg, ri - 1).len() > 0 {
                let i = choose|i: int|
                    0 <= i < ri - 1 && spec_user_req_has_error(
                        users,
                        ui,
                        #[trigger] requirements[i],
                        bals[i]@,
                        reg,
                    );
                assert(0 <= i < ri && spec_user_req_has_error(users, ui, requirements[i], bals[i]@, reg));
            } else {
                assert(spec_user_req_has_error(users, ui, requirements[ri - 1], bals[ri - 1]@, reg));
            }
        }
        if exists|i: int|
            0 <= i < ri && spec_user_req_has_error(users, ui, #[trigger] requirements[i], bals[i]@, reg) {
            let i = choose|i: int|
                0 <= i < ri && spec_user_req_has_error(
                    users,
                    ui,
                    #[trigger] requirements[i],
                    bals[i]@,
                    reg,
                );
            if i < ri - 1 {
                assert(exists|i2: int|
                    0 <= i2 < ri - 1 && spec_user_req_has_error(
                        users,
                        ui,
                        #[trigger] requirements[i2],
                        bals[i2]@,
                        reg,
                    ));
            }
        }
    }
}


/// The flat balance offset of user `ui`, summed on the way.
#[verifier::loop_isolation(false)]
fn flat_offset_upto(users: &Vec<User>, ui: usize) -> (r: usize)
    requires
        ui <= users@.len(),
        total_addresses(users@) <= usize::MAX,
    ensures
        r == rows::flat_offset(users@, ui as int),
{
    let mut s: usize = 0;
    let mut i: usize = 0;
    while i < ui
        invariant
            i <= ui,
            s == rows::flat_offset(users@, i as int),
        decreases ui - i,
    {
        proof {
            rows::lemma_flat_offset_mono(users@, i as int + 1, users@.len() as int);
        }
        s = s + users[i].addresses.len();
        i = i + 1;
    }
    s
}

/// The first row index of user `ui` in a grouped row run, summed on the
/// way.
#[verifier::loop_isolation(false)]
fn row_start_upto(users: &Vec<User>, ui: usize) -> (r: usize)
    requires
        ui <= users@.len(),
        rows::rows_total(users@) <= usize::MAX,
    ensures
        r == rows::row_start(users@, ui as int),
{
    let mut s: usize = 0;
    let mut i: usize = 0;
    while i < ui
        invariant
            i <= ui,
            s == rows::row_start(users@, i as int),
        decreases ui - i,
    {
        proof {
            rows::lemma_row_start_mono(users@, i as int + 1, users@.len() as int);
        }
        let n = users[i].addresses.len();
        s = s + (if n == 0 { 1 } else { n });
        i = i + 1;
    }
    s
}

/// The three-valued or over a row range's verdicts: known when any row
/// is, true when any known row is.
fn range_verdict(rws: &Vec<ReqUserAccess>, start: usize, count: usize) -> (r: Option<bool>)
    requires
        start + count <= rws@.len(),
    ensures
        (r is Some) == (exists|k: int|
            start <= k < start + count && (#[trigger] rws@[k]).access is Some),
        (r == Some(true)) == (exists|k: int|
            start <= k < start + count && (#[trigger] rws@[k]).access == Some(true)),
{
    let n_rows = rws.len();
    let mut any: bool = false;
    let mut val: bool = false;
    let mut k: usize = 0;
    while k < count
        invariant
            k <= count,
            start + count <= rws@.len(),
            rws@.len() == n_rows,
            any == (exists|k2: int|
                start <= k2 < start + k && (#[trigger] rws@[k2]).access is Some),
            val == (exists|k2: int|
                start <= k2 < start + k && (#[trigger] rws@[k2]).access == Some(true)),
        decreases count - k,
    {
        let a = rws[start + k].access;
        k = k + 1;
        if a.is_some() {
            any = true;
            proof {
                assert(rws@[start + k - 1].access is Some);
            }
        }
        if a == Some(true) {
            val = true;
            proof {
                assert(rws@[start + k - 1].access == Some(true));
            }
        }
    }
    if any {
        Some(val)
    } else {
        None
    }
}

/// The or-with-default and the saturated amount sum of a row range.
fn range_detail(rws: &Vec<ReqUserAccess>, start: usize, count: usize) -> (r: (bool, u128))
    requires
        start + count <= rws@.len(),
    ensures
        r.0 == (exists|k: int|
            start <= k < start + count && (#[trigger] rws@[k]).access == Some(true)),
        r.1 == sat_units(row_amount_sum(rws@, start as int, count as int)),
{
    let n_rows = rws.len();
    let mut val: bool = false;
    let mut sum: u128 = 0;
    let mut k: usize = 0;
    while k < count
        invariant
            k <= count,
            start + count <= rws@.len(),
            rws@.len() == n_rows,
            val == (exists|k2: int|
                start <= k2 < start + k && (#[trigger] rws@[k2]).access == Some(true)),
            sum == sat_units(row_amount_sum(rws@, start as int, k as int)),
        decreases count - k,
    {
        let row = &rws[start + k];
        if row.access == Some(true) {
            val = true;
        }
        let add: u128 = match &row.amount {
            Some(a) => a.units,
            None => 0,
        };
        sum = match sum.checked_add(add) {
            Some(v) => v,
            None => u128::MAX,
        };
        k = k + 1;
        proof {
            if rws@[start + k - 1].access == Some(true) {
                assert(val);
            }
            assert(row_amount_sum(rws@, start as int, k as int) == row_amount_sum(
                rws@,
                start as int,
                k as int - 1,
            ) + (match rws@[start + k - 1].amount {
                Some(a) => a.units as nat,
                None => 0nat,
            }));
        }
    }
    (val, sum)
}

/// The error entries of a row range, tagged with the requirement's
/// identifier, in row order.
fn range_error_entries(
    rws: &Vec<ReqUserAccess>,
    start: usize,
    count: usize,
    req_id: crate::types::NumberId,
) -> (out: Vec<crate::types::RequirementError>)
    requires
        start + count <= rws@.len(),
    ensures
        out@.len() == row_err_texts(rws@, start as int, count as int).len(),
        forall|j: int|
            0 <= j < out@.len() ==> (#[trigger] out@[j]).requirement_id == req_id
                && out@[j].msg@ == row_err_texts(rws@, start as int, count as int)[j],
{
    let n_rows = rws.len();
    let mut out: Vec<crate::types::RequirementError> = Vec::new();
    let mut k: usize = 0;
    while k < count
        invariant
            k <= count,
            start + count <= rws@.len(),
            rws@.len() == n_rows,
            out@.len() == row_err_texts(rws@, start as int, k as int).len(),
            forall|j: int|
                0 <= j < out@.len() ==> (#[trigger] out@[j]).requirement_id == req_id
                    && out@[j].msg@ == row_err_texts(rws@, start as int, k as int)[j],
        decreases count - k,
    {
        let ghost before = row_err_texts(rws@, start as int, k as int);
        match &rws[start + k].error {
            Some(e) => {
                out.push(
                    crate::types::RequirementError { requirement_id: req_id, msg: e.clone() },
                );
            },
            None => {},
        }
        k = k + 1;
        proof {
            let now = row_err_texts(rws@, start as int, k as int);
            if rws@[start + k - 1].error is Some {
                assert(now =~= before.push(rws@[start + k - 1].error->0@));
            } else {
                assert(now =~= before);
            }
        }
    }
    out
}


/// Listing counts agree for lists that list the same addresses.
proof fn lemma_listed_count_same(
    l1: Seq<crate::address::Address>,
    l2: Seq<crate::address::Address>,
    addrs: Seq<crate::address::Address>,
    count: int,
)
    requires
        forall|x: Seq<u8>| allowlist::spec_allowlist_contains(l1, x)
            == #[trigger] allowlist::spec_allowlist_contains(l2, x),
    ensures
        listed_count(l1, addrs, count) == listed_count(l2, addrs, count),
    decreases count,
{
    if count > 0 {
        lemma_listed_count_same(l1, l2, addrs, count - 1);
    }
}

/// The contribution of one chain-backed requirement to one user: read
/// from its grouped rows.
fn scan_grouped(
    p_rows: &Vec<ReqUserAccess>,
    users: &Vec<User>,
    ui: usize,
    rid: crate::types::NumberId,
    Ghost(req): Ghost<Requirement>,
    Ghost(reg): Ghost<ProviderRegistry>,
    Ghost(bal): Ghost<Seq<Result<Amount, String>>>,
) -> (r: (Option<bool>, bool, u128, Vec<crate::types::RequirementError>))
    requires
        rows::balance_rows_match(p_rows@, req.id, users@, bal, spec_limits_of(req)),
        rid == req.id,
        ui < users@.len(),
        spec_cons_err_msg(req, reg) is None,
        spec_chain_backed(req),
    ensures
        r.0 == spec_terminal(users@, ui as int, req, bal, reg),
        r.1 == spec_detailed_access(users@, ui as int, req, bal, reg),
        r.2 == sat_units(spec_detailed_amount(users@, ui as int, req, bal, reg)),
        user_errors_match(
            r.3@,
            tag_errors(req.id, spec_user_req_errors(users@, ui as int, req, bal, reg)),
        ),
{
    let ghost us = users@;
    let count = users[ui].addresses.len();
    let n_rows = p_rows.len();
    assert(n_rows == rows::rows_total(us));
    let gstart = row_start_upto(users, ui);
    proof {
        rows::lemma_row_start_in(us, ui as int, us.len() as int);
    }
    if count == 0 {
        let entries = range_error_entries(p_rows, gstart, 1, rid);
        proof {
            assert(rows::missing_address_row_matches(
                p_rows@[rows::row_start(us, ui as int) as int],
                req.id,
                us[ui as int].id,
            ));
            reveal_with_fuel(row_err_texts, 3);
            assert(row_err_texts(p_rows@, gstart as int, 0) =~= Seq::<Seq<char>>::empty());
            assert(row_err_texts(p_rows@, gstart as int, 1) =~= seq![
                p_rows@[gstart as int].error->0@,
            ]);
        }
        (None, false, 0, entries)
    } else {
        let v = range_verdict(p_rows, gstart, count);
        let (da, dsum) = range_detail(p_rows, gstart, count);
        let entries = range_error_entries(p_rows, gstart, count, rid);
        let ghost foff = rows::flat_offset(us, ui as int) as int;
        proof {
            assert forall|k: int|
                0 <= k < count implies rows::balance_row_matches(
                    #[trigger] p_rows@[gstart + k],
                    req.id,
                    us[ui as int].id,
                    bal[foff + k],
                    spec_limits_of(req),
                ) by {
                assert(rows::row_index(us, ui as int, k) == gstart + k);
                assert(rows::bal_index(us, ui as int, k) == foff + k);
            }
            // The terminal read from the rows is the terminal of the slots.
            assert((v is Some) == !(forall|k: int|
                0 <= k < count ==> bal[#[trigger] rows::bal_index(us, ui as int, k)] is Err))
                by {
                if v is Some {
                    let jr = choose|jr: int|
                        gstart <= jr < gstart + count && (#[trigger] p_rows@[jr]).access is Some;
                    let k = jr - gstart;
                    assert(p_rows@[gstart + k].access is Some);
                    assert(rows::bal_index(us, ui as int, k) == foff + k);
                    assert(!(bal[rows::bal_index(us, ui as int, k)] is Err));
                } else {
                    if !(forall|k: int|
                        0 <= k < count ==> bal[#[trigger] rows::bal_index(
                            us,
                            ui as int,
                            k,
                        )] is Err) {
                        let k = choose|k: int|
                            0 <= k < count && !(bal[#[trigger] rows::bal_index(
                                us,
                                ui as int,
                                k,
                            )] is Err);
                        assert(rows::bal_index(us, ui as int, k) == foff + k);
                        assert(p_rows@[gstart + k].access is Some);
                    }
                }
            }
            assert((v == Some(true)) == (exists|k: int|
                0 <= k < count && (#[trigger] bal[rows::bal_index(us, ui as int, k)]) is Ok
                    && utils::spec_in_range(
                    bal[rows::bal_index(us, ui as int, k)]->Ok_0,
                    spec_limits_of(req),
                    false,
                ))) by {
                if v == Some(true) {
                    let jr = choose|jr: int|
                        gstart <= jr < gstart + count && (#[trigger] p_rows@[jr]).access == Some(
                            true,
                        );
                    let k = jr - gstart;
                    assert(p_rows@[gstart + k].access == Some(true));
                    assert(rows::bal_index(us, ui as int, k) == foff + k);
                    assert(bal[rows::bal_index(us, ui as int, k)] is Ok && utils::spec_in_range(
                        bal[rows::bal_index(us, ui as int, k)]->Ok_0,
                        spec_limits_of(req),
                        false,
                    ));
                } else {
                    if exists|k: int|
                        0 <= k < count && (#[trigger] bal[rows::bal_index(us, ui as int, k)]) is Ok
                            && utils::spec_in_range(
                            bal[rows::bal_index(us, ui as int, k)]->Ok_0,
                            spec_limits_of(req),
                            false,
                        ) {
                        let k = choose|k: int|
                            0 <= k < count && (#[trigger] bal[rows::bal_index(
                                us,
                                ui as int,
                                k,
                            )]) is Ok && utils::spec_in_range(
                                bal[rows::bal_index(us, ui as int, k)]->Ok_0,
                                spec_limits_of(req),
                                false,
                            );
                        assert(p_rows@[gstart + k].access == Some(true));
                    }
                }
            }
            lemma_row_errs_balance(
                p_rows@,
                gstart as int,
                bal,
                foff,
                count as int,
                req.id,
                us[ui as int].id,
                spec_limits_of(req),
            );
        }
        (v, da, dsum, entries)
    }
}

/// The contribution of one prepared requirement to one user: the
/// terminal it adds, its detailed access and summed units, and the error
/// entries it leaves, each exactly as the closed forms state.
fn scan_user_requirement(
    p: &PreparedReq,
    users: &Vec<User>,
    ui: usize,
    Ghost(req): Ghost<Requirement>,
    Ghost(reg): Ghost<ProviderRegistry>,
    Ghost(bal): Ghost<Seq<Result<Amount, String>>>,
) -> (r: (Option<bool>, bool, u128, Vec<crate::types::RequirementError>))
    requires
        prepared_matches(*p, req, reg, users@, bal),
        ui < users@.len(),
    ensures
        r.0 == spec_terminal(users@, ui as int, req, bal, reg),
        r.1 == spec_detailed_access(users@, ui as int, req, bal, reg),
        r.2 == sat_units(spec_detailed_amount(users@, ui as int, req, bal, reg)),
        user_errors_match(
            r.3@,
            tag_errors(req.id, spec_user_req_errors(users@, ui as int, req, bal, reg)),
        ),
{
    let ghost us = users@;
    match &p.checker {
        None => {
            let rid = p.rows[ui].requirement_id;
            let entries = range_error_entries(&p.rows, ui, 1, rid);
            proof {
                reveal_with_fuel(row_err_texts, 3);
                assert(row_err_texts(p.rows@, ui as int, 0) =~= Seq::<Seq<char>>::empty());
                assert(row_err_texts(p.rows@, ui as int, 1) =~= seq![
                    p.rows@[ui as int].error->0@,
                ]);
            }
            (None, false, 0, entries)
        },
        Some(c) => {
            match c {
                Checker::Free(f) => {
                    let count = users[ui].addresses.len();
                    let n_rows = p.rows.len();
                    assert(n_rows == total_addresses(us));
                    let foff = flat_offset_upto(users, ui);
                    proof {
                        rows::lemma_flat_offset_in(us, ui as int, us.len() as int);
                        assert forall|k: int|
                            0 <= k < count implies free::free_row_matches(
                                #[trigger] p.rows@[foff + k],
                                f.id,
                                us[ui as int].id,
                            ) by {
                            assert(rows::bal_index(us, ui as int, k) == foff + k);
                        }
                    }
                    let v = range_verdict(&p.rows, foff, count);
                    let (da, dsum) = range_detail(&p.rows, foff, count);
                    let entries = range_error_entries(&p.rows, foff, count, f.id);
                    proof {
                        if count > 0 {
                            assert(p.rows@[foff + 0].access == Some(true));
                        }
                        lemma_free_amount_sum(
                            p.rows@,
                            foff as int,
                            count as int,
                            f.id,
                            us[ui as int].id,
                        );
                        lemma_row_errs_none(p.rows@, foff as int, count as int);
                    }
                    (v, da, dsum, entries)
                },
                Checker::Allowlist(a) => {
                    let count = users[ui].addresses.len();
                    let n_rows = p.rows.len();
                    assert(n_rows == total_addresses(us));
                    let foff = flat_offset_upto(users, ui);
                    let ghost rlist = req.data->0.addresses->0@;
                    proof {
                        rows::lemma_flat_offset_in(us, ui as int, us.len() as int);
                        lemma_allowlist_same(a.addresses@, rlist);
                        assert forall|k: int|
                            0 <= k < count implies allowlist::allowlist_row_matches(
                                #[trigger] p.rows@[foff + k],
                                a.id,
                                us[ui as int].id,
                                allowlist::spec_allowlist_contains(
                                    a.addresses@,
                                    us[ui as int].addresses@[k]@,
                                ),
                            ) by {
                            assert(rows::bal_index(us, ui as int, k) == foff + k);
                        }
                    }
                    let v = range_verdict(&p.rows, foff, count);
                    let (da, dsum) = range_detail(&p.rows, foff, count);
                    let entries = range_error_entries(&p.rows, foff, count, a.id);
                    proof {
                        if count > 0 {
                            assert(p.rows@[foff + 0].access is Some);
                        }
                        assert((v == Some(true)) == (exists|k: int|
                            0 <= k < count && allowlist::spec_allowlist_contains(
                                rlist,
                                (#[trigger] us[ui as int].addresses@[k])@,
                            ))) by {
                            if v == Some(true) {
                                let jr = choose|jr: int|
                                    foff <= jr < foff + count && (#[trigger] p.rows@[jr]).access
                                        == Some(true);
                                let k = jr - foff;
                                assert(p.rows@[foff + k].access == Some(true));
                                assert(allowlist::spec_allowlist_contains(
                                    rlist,
                                    us[ui as int].addresses@[k]@,
                                ));
                            } else {
                                if exists|k: int|
                                    0 <= k < count && allowlist::spec_allowlist_contains(
                                        rlist,
                                        (#[trigger] us[ui as int].addresses@[k])@,
                                    ) {
                                    let k = choose|k: int|
                                        0 <= k < count && allowlist::spec_allowlist_contains(
                                            rlist,
                                            (#[trigger] us[ui as int].addresses@[k])@,
                                        );
                                    assert(p.rows@[foff + k].access == Some(true));
                                }
                            }
                        }
                        lemma_allowlist_amount_sum(
                            p.rows@,
                            foff as int,
                            count as int,
                            a.id,
                            us[ui as int].id,
                            a.addresses@,
                            us[ui as int].addresses@,
                        );
                        lemma_listed_count_same(
                            a.addresses@,
                            rlist,
                            us[ui as int].addresses@,
                            count as int,
                        );
                        lemma_row_errs_none(p.rows@, foff as int, count as int);
                    }
                    (v, da, dsum, entries)
                },
                Checker::Coin(c2) => scan_grouped(
                    &p.rows,
                    users,
                    ui,
                    c2.id,
                    Ghost(req),
                    Ghost(reg),
                    Ghost(bal),
                ),
                Checker::Erc20(e) => scan_grouped(
                    &p.rows,
                    users,
                    ui,
                    e.id,
                    Ghost(req),
                    Ghost(reg),
                    Ghost(bal),
                ),
                Checker::Erc721(e) => scan_grouped(
                    &p.rows,
                    users,
                    ui,
                    e.id,
                    Ghost(req),
                    Ghost(reg),
                    Ghost(bal),
                ),
                Checker::Erc1155(e) => scan_grouped(
                    &p.rows,
                    users,
                    ui,
                    e.id,
                    Ghost(req),
                    Ghost(reg),
                    Ghost(bal),
                ),
            }
        },
    }
}


/// Construction-failure counts never shrink along the requirement list.
proof fn lemma_cerr_mono(requirements: Seq<Requirement>, reg: ProviderRegistry, i: int, j: int)
    requires
        0 <= i <= j,
    ensures
        spec_cerr_count(requirements, reg, i) <= spec_cerr_count(requirements, reg, j),
    decreases j,
{
    if i < j {
        lemma_cerr_mono(requirements, reg, i, j - 1);
    }
}

/// Entry lists matching expectation runs concatenate to a matching list.
proof fn lemma_user_errors_concat(
    a1: Seq<crate::types::RequirementError>,
    a2: Seq<crate::types::RequirementError>,
    e1: Seq<(crate::types::NumberId, Seq<char>)>,
    e2: Seq<(crate::types::NumberId, Seq<char>)>,
)
    requires
        user_errors_match(a1, e1),
        user_errors_match(a2, e2),
    ensures
        user_errors_match(a1 + a2, e1 + e2),
{
    assert forall|j: int| 0 <= j < (a1 + a2).len() implies ((#[trigger] (a1 + a2)[j]).requirement_id
        == (e1 + e2)[j].0 && (a1 + a2)[j].msg@ == (e1 + e2)[j].1) by {
        if j < a1.len() {
            assert((a1 + a2)[j] == a1[j]);
            assert((e1 + e2)[j] == e1[j]);
        } else {
            assert((a1 + a2)[j] == a2[j - a1.len()]);
            assert((e1 + e2)[j] == e2[j - e1.len()]);
        }
    }
}

/// The access evaluation pipeline.
///
/// Builds a checker per requirement, collects each checker's verdict
/// rows over every user address, and joins the verdicts per user through
/// the role's logic expression with three-valued semantics, as
/// `access_matches` and `cons_errors_match` state.
///
/// `balances` carries, for every chain-backed requirement whose checker
/// constructs, one fetched outcome per user address, in user order then
/// address order; entries of other requirements are never read.
#[verifier::loop_isolation(false)]
pub fn check_access(
    users: &Vec<User>,
    requirements: &Vec<Requirement>,
    logic: &str,
    send_details: bool,
    registry: &ProviderRegistry,
    balances: &Vec<Vec<Result<Amount, String>>>,
) -> (r: crate::types::CheckAccessResult)
    requires
        balances@.len() == requirements@.len(),
        forall|ri: int|
            0 <= ri < requirements@.len() && spec_chain_backed(#[trigger] requirements@[ri])
                && spec_cons_err_msg(requirements@[ri], *registry) is None ==> balances@[ri]@.len()
                == total_addresses(users@),
    ensures
        r.accesses@.len() == users@.len(),
        forall|ui: int|
            0 <= ui < users@.len() ==> access_matches(
                #[trigger] r.accesses@[ui],
                users@,
                ui,
                requirements@,
                balances@,
                *registry,
                logic@,
                send_details,
            ),
        spec_cerr_count(requirements@, *registry, requirements@.len() as int) == 0 <==> r.errors is None,
        r.errors is Some ==> cons_errors_match(r.errors->0@, requirements@, *registry),
{
    let ghost us = users@;
    let ghost rq = requirements@;
    let ghost reg = *registry;
    let ghost bl = balances@;

    // First, build each requirement's checker and collect its rows; a
    // construction failure yields a top-level error and one unknown row
    // per user.
    let mut prepared: Vec<PreparedReq> = Vec::new();
    let mut req_errors: Vec<crate::types::RequirementError> = Vec::new();
    let mut ri: usize = 0;
    while ri < requirements.len()
        invariant
            ri <= rq.len(),
            prepared@.len() == ri,
            forall|i: int|
                0 <= i < ri ==> prepared_matches(#[trigger] prepared@[i], rq[i], reg, us, bl[i]@),
            req_errors@.len() == spec_cerr_count(rq, reg, ri as int),
            forall|i: int| #![trigger spec_cerr_count(rq, reg, i)]
                0 <= i < ri && spec_cons_err_msg(rq[i], reg) is Some ==> {
                    &&& req_errors@[spec_cerr_count(rq, reg, i) as int].requirement_id == rq[i].id
                    &&& req_errors@[spec_cerr_count(rq, reg, i) as int].msg@ == spec_cons_err_msg(
                        rq[i],
                        reg,
                    )->0
                },
        decreases rq.len() - ri,
    {
        let req = &requirements[ri];
        match req.inner(registry) {
            Ok(c) => {
                let rows_v = c.check(users, &balances[ri]);
                prepared.push(PreparedReq { checker: Some(c), rows: rows_v });
            },
            Err(e) => {
                let msg = e.to_msg();
                req_errors.push(
                    crate::types::RequirementError { requirement_id: req.id, msg: msg.clone() },
                );
                let rows_v = rows::error_rows(req.id, users, &msg);
                prepared.push(PreparedReq { checker: None, rows: rows_v });
            },
        }
        ri = ri + 1;
        proof {
            assert forall|i: int|
                0 <= i < ri && spec_cons_err_msg(rq[i], reg) is Some implies {
                    &&& req_errors@[#[trigger] spec_cerr_count(rq, reg, i) as int].requirement_id
                        == rq[i].id
                    &&& req_errors@[spec_cerr_count(rq, reg, i) as int].msg@ == spec_cons_err_msg(
                        rq[i],
                        reg,
                    )->0
                } by {
                if i < ri - 1 {
                    lemma_cerr_mono(rq, reg, i + 1, ri - 1);
                }
            }
        }
    }

    // Then parse the logic and join the verdicts per user.
    let tree = LogicTree::parse(logic);
    let cons_clean = req_errors.len() == 0;
    let mut accesses: Vec<crate::types::Access> = Vec::new();
    let mut ui: usize = 0;
    while ui < users.len()
        invariant
            ui <= us.len(),
            accesses@.len() == ui,
            forall|u2: int|
                0 <= u2 < ui ==> access_matches(
                    #[trigger] accesses@[u2],
                    us,
                    u2,
                    rq,
                    bl,
                    reg,
                    logic@,
                    send_details,
                ),
        decreases us.len() - ui,
    {
        let mut terminals: Vec<Option<bool>> = Vec::new();
        let mut err_list: Vec<crate::types::RequirementError> = Vec::new();
        let mut details: Vec<crate::types::DetailedAccess> = Vec::new();
        let mut rj: usize = 0;
        while rj < prepared.len()
            invariant
                rj <= rq.len(),
                ui < us.len(),
                terminals@.len() == rj,
                forall|i: int|
                    0 <= i < rj ==> #[trigger] terminals@[i] == spec_terminal(
                        us,
                        ui as int,
                        rq[i],
                        bl[i]@,
                        reg,
                    ),
                user_errors_match(
                    err_list@,
                    spec_user_errors(us, ui as int, rq, bl, reg, rj as int),
                ),
                send_details ==> details@.len() == rj,
                !send_details ==> details@.len() == 0,
                send_details ==> forall|i: int|
                    0 <= i < rj ==> {
                        let d = #[trigger] details@[i];
                        &&& d.requirement_id == rq[i].id
                        &&& d.access == Some(spec_detailed_access(us, ui as int, rq[i], bl[i]@, reg))
                        &&& d.amount == Some(
                            Amount {
                                units: sat_units(
                                    spec_detailed_amount(us, ui as int, rq[i], bl[i]@, reg),
                                ),
                            },
                        )
                    },
            decreases rq.len() - rj,
        {
            let scanned = scan_user_requirement(
                &prepared[rj],
                users,
                ui,
                Ghost(rq[rj as int]),
                Ghost(reg),
                Ghost(bl[rj as int]@),
            );
            let t = scanned.0;
            let da = scanned.1;
            let dsum = scanned.2;
            let mut entries = scanned.3;
            let ghost old_err_list = err_list@;
            let ghost entries0 = entries@;
            terminals.push(t);
            err_list.append(&mut entries);
            if send_details {
                details.push(
                    crate::types::DetailedAccess {
                        requirement_id: requirements[rj].id,
                        access: Some(da),
                        amount: Some(Amount { units: dsum }),
                    },
                );
            }
            rj = rj + 1;
            proof {
                lemma_user_errors_concat(
                    old_err_list,
                    entries0,
                    spec_user_errors(us, ui as int, rq, bl, reg, rj - 1),
                    tag_errors(
                        rq[rj - 1].id,
                        spec_user_req_errors(us, ui as int, rq[rj - 1], bl[rj - 1]@, reg),
                    ),
                );
            }
        }
        assert(terminals@ =~= spec_terminals(us, ui as int, rq, bl, reg));

        let no_user_errors = err_list.len() == 0;
        proof {
            lemma_user_errors_nonempty(us, ui as int, rq, bl, reg, rq.len() as int);
        }
        let user_access: Option<bool> = match &tree {
            Some(t) => {
                let v = t.evaluate(&terminals);
                match v {
                    Some(true) => Some(true),
                    Some(false) => if cons_clean && no_user_errors {
                        Some(false)
                    } else {
                        None
                    },
                    None => None,
                }
            },
            None => None,
        };
        let errors_opt: Option<Vec<crate::types::RequirementError>> = if no_user_errors {
            None
        } else {
            Some(err_list)
        };
        let detailed_opt: Option<Vec<crate::types::DetailedAccess>> = if send_details {
            Some(details)
        } else {
            None
        };
        accesses.push(
            crate::types::Access {
                id: users[ui].id,
                access: user_access,
                warnings: None,
                errors: errors_opt,
                detailed: detailed_opt,
            },
        );
        ui = ui + 1;
    }
    let result_errors: Option<Vec<crate::types::RequirementError>> = if cons_clean {
        None
    } else {
        Some(req_errors)
    };
    crate::types::CheckAccessResult { accesses, errors: result_errors }
}


/// Each user gets exactly one verdict entry, held under its own
/// identifier, when user identifiers are distinct.
///
/// The first two premises are what `check_access` ensures of its result.
pub proof fn lemma_one_access_per_user(
    r: crate::types::CheckAccessResult,
    users: Seq<User>,
    requirements: Seq<Requirement>,
    bals: Seq<Vec<Result<Amount, String>>>,
    reg: ProviderRegistry,
    logic: Seq<char>,
    send_details: bool,
    ui: int,
)
    requires
        r.accesses@.len() == users.len(),
        forall|u2: int|
            0 <= u2 < users.len() ==> access_matches(
                #[trigger] r.accesses@[u2],
                users,
                u2,
                requirements,
                bals,
                reg,
                logic,
                send_details,
            ),
        forall|i: int, j: int| 0 <= i < j < users.len() ==> (#[trigger] users[i]).id != (#[trigger] users[j]).id,
        0 <= ui < users.len(),
    ensures
        r.accesses@[ui].id == users[ui].id,
        forall|j: int|
            0 <= j < r.accesses@.len() && (#[trigger] r.accesses@[j]).id == users[ui].id ==> j
                == ui,
{
    assert forall|j: int|
        0 <= j < r.accesses@.len() && (#[trigger] r.accesses@[j]).id == users[ui].id implies j
        == ui by {
        assert(r.accesses@[j].id == users[j].id);
        if j < ui {
            assert(users[j].id != users[ui].id);
        }
        if ui < j {
            assert(users[ui].id != users[j].id);
        }
    }
}

/// Every detailed entry names the requirement it stands for, in the
/// requirement list's order.
pub proof fn lemma_detailed_requirement_ids(
    a: crate::types::Access,
    users: Seq<User>,
    ui: int,
    requirements: Seq<Requirement>,
    bals: Seq<Vec<Result<Amount, String>>>,
    reg: ProviderRegistry,
    logic: Seq<char>,
)
    requires
        access_matches(a, users, ui, requirements, bals, reg, logic, true),
    ensures
        a.detailed is Some,
        a.detailed->0@.len() == requirements.len(),
        forall|ri: int|
            0 <= ri < requirements.len() ==> (#[trigger] a.detailed->0@[ri]).requirement_id
                == requirements[ri].id,
{
}

/// A reported denial is clean: an access of `Some(false)` leaves the
/// user with no error entries at all.
pub proof fn lemma_false_means_no_errors(
    a: crate::types::Access,
    users: Seq<User>,
    ui: int,
    requirements: Seq<Requirement>,
    bals: Seq<Vec<Result<Amount, String>>>,
    reg: ProviderRegistry,
    logic: Seq<char>,
    send_details: bool,
)
    requires
        access_matches(a, users, ui, requirements, bals, reg, logic, send_details),
        0 <= ui < users.len(),
        a.access == Some(false),
    ensures
        a.errors is None,
{
    lemma_user_errors_nonempty(users, ui, requirements, bals, reg, requirements.len() as int);
}

/// Over a single requirement joined by the logic `0`, the user's access
/// mirrors the requirement's own aggregate: true carries over, unknown
/// carries over, and false carries over when nothing errored.
pub proof fn lemma_single_requirement_logic(
    a: crate::types::Access,
    users: Seq<User>,
    ui: int,
    requirements: Seq<Requirement>,
    bals: Seq<Vec<Result<Amount, String>>>,
    reg: ProviderRegistry,
    logic: Seq<char>,
    send_details: bool,
)
    requires
        access_matches(a, users, ui, requirements, bals, reg, logic, send_details),
        0 <= ui < users.len(),
        requirements.len() == 1,
        logic == "0"@,
    ensures
        spec_terminal(users, ui, requirements[0], bals[0]@, reg) == Some(true) ==> a.access
            == Some(true),
        spec_terminal(users, ui, requirements[0], bals[0]@, reg) is None ==> a.access is None,
        (spec_terminal(users, ui, requirements[0], bals[0]@, reg) == Some(false)
            && !spec_user_has_error(users, ui, requirements, bals, reg) && spec_cerr_count(
            requirements,
            reg,
            1,
        ) == 0) ==> a.access == Some(false),
{
    crate::logic::lemma_parse_single_leaf();
    let terms = spec_terminals(users, ui, requirements, bals, reg);
    assert(terms.len() == 1);
    assert(terms[0] == spec_terminal(users, ui, requirements[0], bals[0]@, reg));
    assert(crate::logic::spec_eval(crate::logic::LogicTree::Leaf(0usize), terms) == terms[0]);
}

} // verus!
