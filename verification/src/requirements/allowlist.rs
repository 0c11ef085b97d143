use vstd::prelude::*;
use crate::address::Address;
use crate::amount::{Amount, AMOUNT_SCALE};
use crate::requirements::errors::{spec_missing_field_msg, CheckableError};
use crate::requirements::rows::{bal_index, flat_offset, lemma_flat_offset_in, total_addresses};
use crate::types::{NumberId, ReqUserAccess, Requirement, User};

verus! {

/// The requirement an address passes by being listed.
pub struct AllowListRequirement {
    pub id: NumberId,
    pub addresses: Vec<Address>,
}

/// Whether an address's bytes are listed. The listing is by bytes, so
/// letter case in the written form never matters.
pub open spec fn spec_allowlist_contains(list: Seq<Address>, a: Seq<u8>) -> bool {
    exists|j: int| 0 <= j < list.len() && list[j]@ == a
}

/// What an allowlist check's row says: access is the listing test, the
/// amount one when listed and zero when not.
pub open spec fn allowlist_row_matches(
    row: ReqUserAccess,
    req_id: NumberId,
    user_id: NumberId,
    listed: bool,
) -> bool {
    &&& row.requirement_id == req_id
    &&& row.user_id == user_id
    &&& row.access == Some(listed)
    &&& row.amount == Some(Amount { units: if listed { AMOUNT_SCALE as nat } else { 0 } as u128 })
    &&& row.warning is None
    &&& row.error is None
}

/// All rows of an allowlist check: one row per user address, each judged
/// by listing.
pub open spec fn allowlist_rows_match(
    rows: Seq<ReqUserAccess>,
    req_id: NumberId,
    list: Seq<Address>,
    users: Seq<User>,
) -> bool {
    &&& rows.len() == total_addresses(users)
    &&& forall|i: int, k: int| #![trigger bal_index(users, i, k)]
        0 <= i < users.len() && 0 <= k < users[i].addresses@.len() ==> allowlist_row_matches(
            rows[bal_index(users, i, k)],
            req_id,
            users[i].id,
            spec_allowlist_contains(list, users[i].addresses@[k]@),
        )
}

/// Whether `a` is in `list`, as `spec_allowlist_contains` states.
fn contains_address(list: &Vec<Address>, a: &Address) -> (r: bool)
    ensures
        r == spec_allowlist_contains(list@, a@),
{
    let mut j: usize = 0;
    while j < list.len()
        invariant
            j <= list@.len(),
            forall|p: int| 0 <= p < j ==> list@[p]@ != a@,
        decreases list@.len() - j,
    {
        if list[j].eq_addr(a) {
            return true;
        }
        j = j + 1;
    }
    false
}

impl AllowListRequirement {
    /// An allowlist checker, from a requirement that must carry data with
    /// an address list.
    pub fn try_from(req: &Requirement) -> (r: Result<AllowListRequirement, CheckableError>)
        ensures
            r is Ok <==> (req.data is Some && req.data->0.addresses is Some),
            r is Ok ==> {
                let listed = req.data->0.addresses->0;
                &&& r->Ok_0.id == req.id
                &&& r->Ok_0.addresses@.len() == listed@.len()
                &&& forall|j: int| 0 <= j < listed@.len() ==> r->Ok_0.addresses@[j]@ == #[trigger] listed@[j]@
            },
            r is Err ==> crate::requirements::errors::spec_msg(r->Err_0) == (if req.data is None {
                spec_missing_field_msg("data"@)
            } else {
                spec_missing_field_msg("addresses"@)
            }),
    {
        match &req.data {
            Some(data) => match &data.addresses {
                Some(addresses) => {
                    let mut list: Vec<Address> = Vec::new();
                    let mut j: usize = 0;
                    while j < addresses.len()
                        invariant
                            j <= addresses@.len(),
                            list@.len() == j,
                            forall|p: int| 0 <= p < j ==> list@[p]@ == #[trigger] addresses@[p]@,
                        decreases addresses@.len() - j,
                    {
                        list.push(addresses[j].duplicate());
                        j = j + 1;
                    }
                    Ok(AllowListRequirement { id: req.id, addresses: list })
                },
                None => Err(CheckableError::MissingField(String::from_str("addresses"))),
            },
            None => Err(CheckableError::MissingField(String::from_str("data"))),
        }
    }

    /// One listing-judged row per user address, as `allowlist_rows_match`
    /// states.
    #[verifier::loop_isolation(false)]
    pub fn check(&self, users: &Vec<User>) -> (rows: Vec<ReqUserAccess>)
        ensures
            allowlist_rows_match(rows@, self.id, self.addresses@, users@),
    {
        let ghost us = users@;
        let mut rows: Vec<ReqUserAccess> = Vec::new();
        let mut ui: usize = 0;
        while ui < users.len()
            invariant
                ui <= us.len(),
                rows@.len() == flat_offset(us, ui as int),
                forall|i: int, k: int| #![trigger bal_index(us, i, k)]
                    0 <= i < ui && 0 <= k < us[i].addresses@.len() ==> allowlist_row_matches(
                        rows@[bal_index(us, i, k)],
                        self.id,
                        us[i].id,
                        spec_allowlist_contains(self.addresses@, us[i].addresses@[k]@),
                    ),
            decreases us.len() - ui,
        {
            let u = &users[ui];
            let count = u.addresses.len();
            let mut k: usize = 0;
            while k < count
                invariant
                    k <= count,
                    rows@.len() == flat_offset(us, ui as int) + k,
                    forall|i: int, k2: int| #![trigger bal_index(us, i, k2)]
                        0 <= i < ui && 0 <= k2 < us[i].addresses@.len() ==> allowlist_row_matches(
                            rows@[bal_index(us, i, k2)],
                            self.id,
                            us[i].id,
                            spec_allowlist_contains(self.addresses@, us[i].addresses@[k2]@),
                        ),
                    forall|k2: int| #![trigger bal_index(us, ui as int, k2)]
                        0 <= k2 < k ==> allowlist_row_matches(
                            rows@[bal_index(us, ui as int, k2)],
                            self.id,
                            us[ui as int].id,
                            spec_allowlist_contains(self.addresses@, us[ui as int].addresses@[k2]@),
                        ),
                decreases count - k,
            {
                let listed = contains_address(&self.addresses, &u.addresses[k]);
                rows.push(
                    ReqUserAccess {
                        requirement_id: self.id,
                        user_id: u.id,
                        access: Some(listed),
                        amount: Some(if listed { Amount::one() } else { Amount::zero() }),
                        warning: None,
                        error: None,
                    },
                );
                k = k + 1;
                proof {
                    assert forall|i: int, k2: int|
                        0 <= i < ui && 0 <= k2 < us[i].addresses@.len()
                            implies allowlist_row_matches(
                            rows@[#[trigger] bal_index(us, i, k2)],
                            self.id,
                            us[i].id,
                            spec_allowlist_contains(self.addresses@, us[i].addresses@[k2]@),
                        ) by {
                        lemma_flat_offset_in(us, i, ui as int);
                    }
                }
            }
            ui = ui + 1;
            proof {
                assert forall|i: int, k: int|
                    0 <= i < ui && 0 <= k < us[i].addresses@.len() implies allowlist_row_matches(
                        rows@[#[trigger] bal_index(us, i, k)],
                        self.id,
                        us[i].id,
                        spec_allowlist_contains(self.addresses@, us[i].addresses@[k]@),
                    ) by {
                }
            }
        }
        rows
    }
}

} // verus!
