use vstd::prelude::*;

pub mod accounts;
pub mod amount;
pub mod balance;
pub mod date;
pub mod importers;
pub mod parse;
pub mod qfx;
pub mod records;
pub mod report;
pub mod state;
pub mod text;

pub use amount::Amount;
pub use date::Date;
pub use records::{HeaderParams, IncludeParams, InfoParams, PostingParams, VerificationParams};
pub use state::LedgerState;

verus! {

} // verus!
