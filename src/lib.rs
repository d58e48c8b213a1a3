//! Routing of deposits into and redemptions out of yield vaults.
//!
//! Every step of a deposit or redemption pipeline is a function from what
//! the step observed to the ordered list of requests it issues
//! ([`msg::Action`]), ending with the check of the caller's minimum outputs.
//! The lockup ledger records unlock requests per owner and vault and pages
//! through them.

pub mod asset;
pub mod deposit;
pub mod error;
pub mod event;
pub mod lockup;
pub mod min_out;
pub mod msg;
pub mod order;
pub mod pagination;
pub mod query;
pub mod withdraw;
