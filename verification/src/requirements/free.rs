use vstd::prelude::*;
use crate::amount::{Amount, AMOUNT_SCALE};
use crate::requirements::errors::CheckableError;
use crate::requirements::rows::{bal_index, flat_offset, lemma_flat_offset_in, lemma_flat_offset_mono, total_addresses};
use crate::types::{NumberId, ReqUserAccess, Requirement, User};

verus! {

/// The requirement every address passes.
pub struct FreeRequirement {
    pub id: NumberId,
}

/// What a free check's row says: access granted, amount one.
pub open spec fn free_row_matches(row: ReqUserAccess, req_id: NumberId, user_id: NumberId) -> bool {
    &&& row.requirement_id == req_id
    &&& row.user_id == user_id
    &&& row.access == Some(true)
    &&& row.amount == Some(Amount { units: AMOUNT_SCALE })
    &&& row.warning is None
    &&& row.error is None
}

/// All rows of a free check: one passing row per user address.
pub open spec fn free_rows_match(rows: Seq<ReqUserAccess>, req_id: NumberId, users: Seq<User>) -> bool {
    &&& rows.len() == total_addresses(users)
    &&& forall|i: int, k: int| #![trigger bal_index(users, i, k)]
        0 <= i < users.len() && 0 <= k < users[i].addresses@.len() ==> free_row_matches(
            rows[bal_index(users, i, k)],
            req_id,
            users[i].id,
        )
}

impl FreeRequirement {
    /// A free checker; its construction never fails.
    pub fn try_from(req: &Requirement) -> (r: Result<FreeRequirement, CheckableError>)
        ensures
            r is Ok,
            r->Ok_0.id == req.id,
    {
        Ok(FreeRequirement { id: req.id })
    }

    /// One passing row per user address, as `free_rows_match` states.
    #[verifier::loop_isolation(false)]
    pub fn check(&self, users: &Vec<User>) -> (rows: Vec<ReqUserAccess>)
        ensures
            free_rows_match(rows@, self.id, users@),
    {
        let ghost us = users@;
        let mut rows: Vec<ReqUserAccess> = Vec::new();
        let mut ui: usize = 0;
        while ui < users.len()
            invariant
                ui <= us.len(),
                rows@.len() == flat_offset(us, ui as int),
                forall|i: int, k: int| #![trigger bal_index(us, i, k)]
                    0 <= i < ui && 0 <= k < us[i].addresses@.len() ==> free_row_matches(
                        rows@[bal_index(us, i, k)],
                        self.id,
                        us[i].id,
                    ),
            decreases us.len() - ui,
        {
            let u = &users[ui];
            let count = u.addresses.len();
            let mut k: usize = 0;
            while k < count
                invariant
                    k <= count,
                    rows@.len() == flat_offset(us, ui as int) + k,
                    forall|i: int, k2: int| #![trigger bal_index(us, i, k2)]
                        0 <= i < ui && 0 <= k2 < us[i].addresses@.len() ==> free_row_matches(
                            rows@[bal_index(us, i, k2)],
                            self.id,
                            us[i].id,
                        ),
                    forall|k2: int| #![trigger bal_index(us, ui as int, k2)]
                        0 <= k2 < k ==> free_row_matches(
                            rows@[bal_index(us, ui as int, k2)],
                            self.id,
                            us[ui as int].id,
                        ),
                decreases count - k,
            {
                rows.push(
                    ReqUserAccess {
                        requirement_id: self.id,
                        user_id: u.id,
                        access: Some(true),
                        amount: Some(Amount::one()),
                        warning: None,
                        error: None,
                    },
                );
                k = k + 1;
                proof {
                    assert forall|i: int, k2: int|
                        0 <= i < ui && 0 <= k2 < us[i].addresses@.len() implies free_row_matches(
                            rows@[#[trigger] bal_index(us, i, k2)],
                            self.id,
                            us[i].id,
                        ) by {
                        lemma_flat_offset_in(us, i, ui as int);
                    }
                }
            }
            ui = ui + 1;
            proof {
                assert forall|i: int, k: int|
                    0 <= i < ui && 0 <= k < us[i].addresses@.len() implies free_row_matches(
                        rows@[#[trigger] bal_index(us, i, k)],
                        self.id,
                        us[i].id,
                    ) by {
                }
            }
        }
        rows
    }
}

} // verus!
