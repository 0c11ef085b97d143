use vstd::prelude::*;
use crate::address::{hex_char_of, hex_digit_str};

verus! {

/// Decimal text of a number, most significant digit first.
pub open spec fn dec_str_of(n: nat) -> Seq<char>
    decreases n,
{
    if n < 10 {
        seq![hex_char_of(n)]
    } else {
        dec_str_of(n / 10) + seq![hex_char_of(n % 10)]
    }
}

/// The decimal text of a number, as `dec_str_of` states.
pub fn dec_string(n: u64) -> (r: String)
    ensures
        r@ == dec_str_of(n as nat),
    decreases n,
{
    if n < 10 {
        let r = String::from_str(hex_digit_str(n as u8));
        assert(r@ =~= dec_str_of(n as nat));
        r
    } else {
        let mut r = dec_string(n / 10);
        r.append(hex_digit_str((n % 10) as u8));
        assert(r@ =~= dec_str_of(n as nat));
        r
    }
}

/// Why a checker could not be built from a requirement, or a user not
/// checked. Payloads carry the field, chain, user or requirement written
/// into the message.
pub enum CheckableError {
    MissingField(String),
    NoSuchChain(String),
    MissingUserAddress(String),
    MissingTokenAddress(String),
}

pub open spec fn spec_missing_field_msg(f: Seq<char>) -> Seq<char> {
    "Missing field `"@ + f + "`"@
}

pub open spec fn spec_no_such_chain_msg(c: Seq<char>) -> Seq<char> {
    "Chain `"@ + c + "` is not supported"@
}

pub open spec fn spec_missing_user_address_msg(u: Seq<char>) -> Seq<char> {
    "No address attached to user `"@ + u + "`"@
}

pub open spec fn spec_missing_token_address_msg(id: Seq<char>) -> Seq<char> {
    "No address attached to requirement `id: "@ + id + "`"@
}

/// The message text of an error.
pub open spec fn spec_msg(e: CheckableError) -> Seq<char> {
    match e {
        CheckableError::MissingField(f) => spec_missing_field_msg(f@),
        CheckableError::NoSuchChain(c) => spec_no_such_chain_msg(c@),
        CheckableError::MissingUserAddress(u) => spec_missing_user_address_msg(u@),
        CheckableError::MissingTokenAddress(id) => spec_missing_token_address_msg(id@),
    }
}

impl CheckableError {
    /// The message text of this error, as `spec_msg` states.
    pub fn to_msg(&self) -> (r: String)
        ensures
            r@ == spec_msg(*self),
    {
        match self {
            CheckableError::MissingField(f) => {
                let mut r = String::from_str("Missing field `");
                r.append(f.as_str());
                r.append("`");
                r
            },
            CheckableError::NoSuchChain(c) => {
                let mut r = String::from_str("Chain `");
                r.append(c.as_str());
                r.append("` is not supported");
                r
            },
            CheckableError::MissingUserAddress(u) => {
                let mut r = String::from_str("No address attached to user `");
                r.append(u.as_str());
                r.append("`");
                r
            },
            CheckableError::MissingTokenAddress(id) => {
                let mut r = String::from_str("No address attached to requirement `id: ");
                r.append(id.as_str());
                r.append("`");
                r
            },
        }
    }
}

} // verus!
