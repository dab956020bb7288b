use vstd::prelude::*;
use crate::amount::Amount;
use crate::date::Date;

verus! {

pub const OPEN_ACTION: u32 = 0;

pub const BALANCE_ACTION: u32 = 1;

pub const CLOSE_ACTION: u32 = 2;

pub const EVENT_ACTION: u32 = 3;

pub const OPTION_ACTION: u32 = 4;

pub const CUSTOM_ACTION: u32 = 5;

/// Record of an `include` directive, kept with the path as written.
#[derive(Debug, Clone, PartialEq)]
pub struct IncludeParams {
    pub statement_no: u32,
    pub file_no: u32,
    pub start: u32,
    pub end: u32,
    pub path: String,
}

/// Record of an `open`, `close` or `balance` directive.
#[derive(Debug, Clone, PartialEq)]
pub struct VerificationParams {
    pub statement_no: u32,
    pub file_no: u32,
    pub start: u32,
    pub end: u32,
    pub date: Date,
    pub action: u32,
    pub account: String,
    pub quantity: Option<Amount>,
    pub commodity: Option<String>,
}

/// Record of a transaction header line.
#[derive(Debug, Clone, PartialEq)]
pub struct HeaderParams {
    pub statement_no: u32,
    pub file_no: u32,
    pub start: u32,
    pub end: u32,
    pub date: Date,
    pub narration: String,
    pub tags: Option<String>,
}

/// Record of one posting leg below a transaction header.
#[derive(Debug, Clone, PartialEq)]
pub struct PostingParams {
    pub statement_no: u32,
    pub transaction_no: u32,
    pub file_no: u32,
    pub start: u32,
    pub end: u32,
    pub account: String,
    pub cp_quantity: Option<Amount>,
    pub cp_commodity: Option<String>,
    pub tc_quantity: Option<Amount>,
    pub tc_commodity: Option<String>,
}

/// Record of an `event`, `option` or `custom` directive.
#[derive(Debug, Clone, PartialEq)]
pub struct InfoParams {
    pub statement_no: u32,
    pub file_no: u32,
    pub start: u32,
    pub end: u32,
    pub date: Option<Date>,
    pub action: u32,
    pub attribute: Option<String>,
    pub value: String,
}

impl PostingParams {
    /// Both quantities stay inside the parse-time magnitude bound, so that
    /// per-transaction sums cannot overflow.
    pub open spec fn quantities_in_limit(self) -> bool {
        &&& (self.cp_quantity matches Some(q) ==> q.in_limit())
        &&& (self.tc_quantity matches Some(q) ==> q.in_limit())
    }
}

} // verus!
