use vstd::prelude::*;
use crate::amount::Amount;
use crate::requirements::errors::{dec_str_of, dec_string, spec_missing_user_address_msg, CheckableError};
use crate::requirements::utils::{check_if_in_range, spec_in_range};
use crate::types::{AmountLimits, NumberId, ReqUserAccess, User};

verus! {

/// Number of wallet addresses among the first `i` users.
pub open spec fn flat_offset(users: Seq<User>, i: int) -> nat
    decreases i,
{
    if i <= 0 {
        0
    } else {
        flat_offset(users, i - 1) + users[i - 1].addresses@.len()
    }
}

/// Number of wallet addresses over all users: one balance is looked up
/// for each.
pub open spec fn total_addresses(users: Seq<User>) -> nat {
    flat_offset(users, users.len() as int)
}

/// How many rows a chain-backed check yields for one user: one per
/// address, or a single missing-address row.
pub open spec fn group_len(u: User) -> nat {
    if u.addresses@.len() == 0 {
        1
    } else {
        u.addresses@.len()
    }
}

/// Index of the first row of user `i` in a chain-backed check's output.
pub open spec fn row_start(users: Seq<User>, i: int) -> nat
    decreases i,
{
    if i <= 0 {
        0
    } else {
        row_start(users, i - 1) + group_len(users[i - 1])
    }
}

/// Total number of rows of a chain-backed check.
pub open spec fn rows_total(users: Seq<User>) -> nat {
    row_start(users, users.len() as int)
}

pub open spec fn row_index(users: Seq<User>, i: int, k: int) -> int {
    row_start(users, i) + k
}

pub open spec fn bal_index(users: Seq<User>, i: int, k: int) -> int {
    flat_offset(users, i) + k
}

pub proof fn lemma_flat_offset_mono(users: Seq<User>, i: int, j: int)
    requires
        0 <= i <= j,
    ensures
        flat_offset(users, i) <= flat_offset(users, j),
    decreases j,
{
    if i < j {
        lemma_flat_offset_mono(users, i, j - 1);
    }
}

pub proof fn lemma_row_start_mono(users: Seq<User>, i: int, j: int)
    requires
        0 <= i <= j,
    ensures
        row_start(users, i) <= row_start(users, j),
    decreases j,
{
    if i < j {
        lemma_row_start_mono(users, i, j - 1);
    }
}

/// What a verdict row says for one looked-up balance.
pub open spec fn balance_row_matches(
    row: ReqUserAccess,
    req_id: NumberId,
    user_id: NumberId,
    b: Result<Amount, String>,
    limits: Option<AmountLimits>,
) -> bool {
    &&& row.requirement_id == req_id
    &&& row.user_id == user_id
    &&& row.warning is None
    &&& match b {
        Ok(a) => row.access == Some(spec_in_range(a, limits, false)) && row.amount == Some(a)
            && row.error is None,
        Err(e) => row.access is None && row.amount is None && row.error is Some
            && row.error->0@ == e@,
    }
}

/// The single row of a user with no addresses at a chain-backed
/// requirement.
pub open spec fn missing_address_row_matches(
    row: ReqUserAccess,
    req_id: NumberId,
    user_id: NumberId,
) -> bool {
    &&& row.requirement_id == req_id
    &&& row.user_id == user_id
    &&& row.access is None
    &&& row.amount is None
    &&& row.warning is None
    &&& row.error is Some
    &&& row.error->0@ == spec_missing_user_address_msg(dec_str_of(user_id as nat))
}

/// All rows of a chain-backed check: per user, either one row per address
/// judging its balance, or one missing-address row.
pub open spec fn balance_rows_match(
    rows: Seq<ReqUserAccess>,
    req_id: NumberId,
    users: Seq<User>,
    bals: Seq<Result<Amount, String>>,
    limits: Option<AmountLimits>,
) -> bool {
    &&& rows.len() == rows_total(users)
    &&& forall|i: int| #![trigger row_start(users, i)]
        0 <= i < users.len() && users[i].addresses@.len() == 0 ==> missing_address_row_matches(
            rows[row_start(users, i) as int],
            req_id,
            users[i].id,
        )
    &&& forall|i: int, k: int| #![trigger row_index(users, i, k)]
        0 <= i < users.len() && 0 <= k < users[i].addresses@.len() ==> balance_row_matches(
            rows[row_index(users, i, k)],
            req_id,
            users[i].id,
            bals[bal_index(users, i, k)],
            limits,
        )
}

/// The first row of a user begins where the previous user's group ends.
pub proof fn lemma_row_start_in(users: Seq<User>, i: int, j: int)
    requires
        0 <= i < j,
    ensures
        row_start(users, i) + group_len(users[i]) <= row_start(users, j),
{
    lemma_row_start_mono(users, i + 1, j);
}

/// A user's balance slots end before the next user's begin.
pub proof fn lemma_flat_offset_in(users: Seq<User>, i: int, j: int)
    requires
        0 <= i < j,
    ensures
        flat_offset(users, i) + users[i].addresses@.len() <= flat_offset(users, j),
{
    lemma_flat_offset_mono(users, i + 1, j);
}

/// The rows of a chain-backed requirement, judging one fetched balance
/// per user address against the limits, as `balance_rows_match` states.
#[verifier::loop_isolation(false)]
pub fn balance_rows(
    req_id: NumberId,
    users: &Vec<User>,
    balances: &Vec<Result<Amount, String>>,
    limits: &Option<AmountLimits>,
) -> (rows: Vec<ReqUserAccess>)
    requires
        balances@.len() == total_addresses(users@),
    ensures
        balance_rows_match(rows@, req_id, users@, balances@, *limits),
{
    let ghost us = users@;
    let bal_n = balances.len();
    assert(bal_n == total_addresses(us));
    let mut rows: Vec<ReqUserAccess> = Vec::new();
    let mut off: usize = 0;
    let mut ui: usize = 0;
    while ui < users.len()
        invariant
            ui <= us.len(),
            off == flat_offset(us, ui as int),
            rows@.len() == row_start(us, ui as int),
            forall|i: int| #![trigger row_start(us, i)]
                0 <= i < ui && us[i].addresses@.len() == 0 ==> missing_address_row_matches(
                    rows@[row_start(us, i) as int],
                    req_id,
                    us[i].id,
                ),
            forall|i: int, k: int| #![trigger row_index(us, i, k)]
                0 <= i < ui && 0 <= k < us[i].addresses@.len() ==> balance_row_matches(
                    rows@[row_index(us, i, k)],
                    req_id,
                    us[i].id,
                    balances@[bal_index(us, i, k)],
                    *limits,
                ),
        decreases us.len() - ui,
    {
        proof {
            lemma_flat_offset_mono(us, ui as int + 1, us.len() as int);
        }
        let u = &users[ui];
        if u.addresses.len() == 0 {
            let msg = CheckableError::MissingUserAddress(dec_string(u.id)).to_msg();
            rows.push(
                ReqUserAccess {
                    requirement_id: req_id,
                    user_id: u.id,
                    access: None,
                    amount: None,
                    warning: None,
                    error: Some(msg),
                },
            );
            proof {
                assert forall|i: int|
                    0 <= i < ui + 1 && us[i].addresses@.len() == 0
                        implies missing_address_row_matches(
                        #[trigger] rows@[row_start(us, i) as int],
                        req_id,
                        us[i].id,
                    ) by {
                    if i < ui {
                        lemma_row_start_in(us, i, ui as int);
                    }
                }
                assert forall|i: int, k: int|
                    0 <= i < ui + 1 && 0 <= k < us[i].addresses@.len() implies balance_row_matches(
                        rows@[#[trigger] row_index(us, i, k)],
                        req_id,
                        us[i].id,
                        balances@[bal_index(us, i, k)],
                        *limits,
                    ) by {
                    lemma_row_start_in(us, i, ui as int);
                }
            }
        } else {
            let count = u.addresses.len();
            let mut k: usize = 0;
            while k < count
                invariant
                    k <= count,
                    rows@.len() == row_start(us, ui as int) + k,
                    forall|i: int| #![trigger row_start(us, i)]
                        0 <= i < ui && us[i].addresses@.len() == 0
                            ==> missing_address_row_matches(
                            rows@[row_start(us, i) as int],
                            req_id,
                            us[i].id,
                        ),
                    forall|i: int, k2: int| #![trigger row_index(us, i, k2)]
                        0 <= i < ui && 0 <= k2 < us[i].addresses@.len() ==> balance_row_matches(
                            rows@[row_index(us, i, k2)],
                            req_id,
                            us[i].id,
                            balances@[bal_index(us, i, k2)],
                            *limits,
                        ),
                    forall|k2: int| #![trigger row_index(us, ui as int, k2)]
                        0 <= k2 < k ==> balance_row_matches(
                            rows@[row_index(us, ui as int, k2)],
                            req_id,
                            us[ui as int].id,
                            balances@[bal_index(us, ui as int, k2)],
                            *limits,
                        ),
                decreases count - k,
            {
                let row = match &balances[off + k] {
                    Ok(a) => ReqUserAccess {
                        requirement_id: req_id,
                        user_id: u.id,
                        access: Some(check_if_in_range(*a, limits, false)),
                        amount: Some(*a),
                        warning: None,
                        error: None,
                    },
                    Err(e) => ReqUserAccess {
                        requirement_id: req_id,
                        user_id: u.id,
                        access: None,
                        amount: None,
                        warning: None,
                        error: Some(e.clone()),
                    },
                };
                rows.push(row);
                k = k + 1;
                proof {
                    assert forall|i: int|
                        0 <= i < ui && us[i].addresses@.len() == 0
                            implies missing_address_row_matches(
                            #[trigger] rows@[row_start(us, i) as int],
                            req_id,
                            us[i].id,
                        ) by {
                        lemma_row_start_in(us, i, ui as int);
                    }
                    assert forall|i: int, k2: int|
                        0 <= i < ui && 0 <= k2 < us[i].addresses@.len()
                            implies balance_row_matches(
                            rows@[#[trigger] row_index(us, i, k2)],
                            req_id,
                            us[i].id,
                            balances@[bal_index(us, i, k2)],
                            *limits,
                        ) by {
                        lemma_row_start_in(us, i, ui as int);
                    }
                    assert forall|k2: int|
                        0 <= k2 < k implies balance_row_matches(
                            rows@[#[trigger] row_index(us, ui as int, k2)],
                            req_id,
                            us[ui as int].id,
                            balances@[bal_index(us, ui as int, k2)],
                            *limits,
                        ) by {
                    }
                }
            }
        }
        off = off + u.addresses.len();
        ui = ui + 1;
        proof {
            assert forall|i: int, k: int|
                0 <= i < ui && 0 <= k < us[i].addresses@.len() implies balance_row_matches(
                    rows@[#[trigger] row_index(us, i, k)],
                    req_id,
                    us[i].id,
                    balances@[bal_index(us, i, k)],
                    *limits,
                ) by {
            }
        }
    }
    rows
}

/// The flat list of user-address pairs, in user order then address
/// order: chain-backed checks look one balance up per entry.
#[verifier::loop_isolation(false)]
pub fn user_addresses(users: &Vec<User>) -> (r: Vec<crate::types::UserAddress>)
    ensures
        r@.len() == total_addresses(users@),
        forall|i: int, k: int| #![trigger bal_index(users@, i, k)]
            0 <= i < users@.len() && 0 <= k < users@[i].addresses@.len() ==> {
                let ua = r@[bal_index(users@, i, k)];
                &&& ua.user_id == users@[i].id
                &&& ua.address@ == users@[i].addresses@[k]@
            },
{
    let ghost us = users@;
    let mut r: Vec<crate::types::UserAddress> = Vec::new();
    let mut ui: usize = 0;
    while ui < users.len()
        invariant
            ui <= us.len(),
            r@.len() == flat_offset(us, ui as int),
            forall|i: int, k: int| #![trigger bal_index(us, i, k)]
                0 <= i < ui && 0 <= k < us[i].addresses@.len() ==> {
                    let ua = r@[bal_index(us, i, k)];
                    &&& ua.user_id == us[i].id
                    &&& ua.address@ == us[i].addresses@[k]@
                },
        decreases us.len() - ui,
    {
        let u = &users[ui];
        let count = u.addresses.len();
        let mut k: usize = 0;
        while k < count
            invariant
                k <= count,
                r@.len() == flat_offset(us, ui as int) + k,
                forall|i: int, k2: int| #![trigger bal_index(us, i, k2)]
                    0 <= i < ui && 0 <= k2 < us[i].addresses@.len() ==> {
                        let ua = r@[bal_index(us, i, k2)];
                        &&& ua.user_id == us[i].id
                        &&& ua.address@ == us[i].addresses@[k2]@
                    },
                forall|k2: int| #![trigger bal_index(us, ui as int, k2)]
                    0 <= k2 < k ==> {
                        let ua = r@[bal_index(us, ui as int, k2)];
                        &&& ua.user_id == us[ui as int].id
                        &&& ua.address@ == us[ui as int].addresses@[k2]@
                    },
            decreases count - k,
        {
            r.push(
                crate::types::UserAddress { user_id: u.id, address: u.addresses[k].duplicate() },
            );
            k = k + 1;
            proof {
                assert forall|i: int, k2: int|
                    0 <= i < ui && 0 <= k2 < us[i].addresses@.len() implies {
                        let ua = r@[#[trigger] bal_index(us, i, k2)];
                        &&& ua.user_id == us[i].id
                        &&& ua.address@ == us[i].addresses@[k2]@
                    } by {
                    lemma_flat_offset_in(us, i, ui as int);
                }
            }
        }
        ui = ui + 1;
        proof {
            assert forall|i: int, k: int|
                0 <= i < ui && 0 <= k < us[i].addresses@.len() implies {
                    let ua = r@[#[trigger] bal_index(us, i, k)];
                    &&& ua.user_id == us[i].id
                    &&& ua.address@ == us[i].addresses@[k]@
                } by {
            }
        }
    }
    r
}

/// All rows of a requirement whose checker could not be built: one row
/// per user, unknown access, carrying the construction error.
pub open spec fn error_rows_match(
    rows: Seq<ReqUserAccess>,
    req_id: NumberId,
    users: Seq<User>,
    msg: Seq<char>,
) -> bool {
    &&& rows.len() == users.len()
    &&& forall|i: int| #![trigger rows[i]]
        0 <= i < users.len() ==> {
            &&& rows[i].requirement_id == req_id
            &&& rows[i].user_id == users[i].id
            &&& rows[i].access is None
            &&& rows[i].amount is None
            &&& rows[i].warning is None
            &&& rows[i].error is Some
            &&& rows[i].error->0@ == msg
        }
}

/// One unknown-access row per user, carrying the construction error, as
/// `error_rows_match` states.
pub fn error_rows(req_id: NumberId, users: &Vec<User>, msg: &String) -> (rows: Vec<ReqUserAccess>)
    ensures
        error_rows_match(rows@, req_id, users@, msg@),
{
    let mut rows: Vec<ReqUserAccess> = Vec::new();
    let mut ui: usize = 0;
    while ui < users.len()
        invariant
            ui <= users@.len(),
            rows@.len() == ui,
            forall|i: int| #![trigger rows@[i]]
                0 <= i < ui ==> {
                    &&& rows@[i].requirement_id == req_id
                    &&& rows@[i].user_id == users@[i].id
                    &&& rows@[i].access is None
                    &&& rows@[i].amount is None
                    &&& rows@[i].warning is None
                    &&& rows@[i].error is Some
                    &&& rows@[i].error->0@ == msg@
                },
        decreases users@.len() - ui,
    {
        rows.push(
            ReqUserAccess {
                requirement_id: req_id,
                user_id: users[ui].id,
                access: None,
                amount: None,
                warning: None,
                error: Some(msg.clone()),
            },
        );
        ui = ui + 1;
    }
    rows
}

} // verus!
