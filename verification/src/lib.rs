//! Role-based access evaluation over on-chain state.
//!
//! For a set of users, each owning wallet addresses, the library decides
//! which of them satisfy a role: a boolean expression over requirements
//! such as holding native coin, fungible or non-fungible tokens within
//! limits, or standing on an allowlist. Balances are fetched outside the
//! library and handed in as plain values; everything that judges them —
//! the threshold rule, the requirement checkers, the boolean-expression
//! parser and the three-valued evaluator — is verified.

pub mod address;
pub mod amount;
pub mod logic;
pub mod providers;
pub mod requirements;
pub mod types;
pub mod uint;
