use vstd::prelude::*;
use crate::amount::Amount;
use crate::date::Date;
use crate::importers::SymbolsMap;
use crate::records::{HeaderParams, PostingParams, VerificationParams, BALANCE_ACTION};
use crate::state::LedgerState;
use vstd::string::StringExecFns;

verus! {

broadcast use vstd::string::group_string_axioms;

/// One imported bank or card transaction before numbering.
pub struct InterTrans {
    pub date: Date,
    pub narration: String,
    pub account: String,
    pub quantity: Amount,
    pub commodity: String,
}

/// One imported ledger balance before numbering.
pub struct InterBalance {
    pub date: Date,
    pub account: String,
    pub quantity: Amount,
    pub commodity: String,
}

/// The collected rows of one statement import.
pub struct QfxImportState {
    pub transactions: Vec<InterTrans>,
    pub balances: Vec<InterBalance>,
}

impl QfxImportState {
    pub fn new() -> (r: QfxImportState)
        ensures
            r.transactions@.len() == 0,
            r.balances@.len() == 0,
    {
        QfxImportState { transactions: Vec::new(), balances: Vec::new() }
    }

    pub fn append_transaction(
        &mut self,
        date: Date,
        narration: String,
        account: String,
        quantity: Amount,
        commodity: String,
    )
        ensures
            final(self).transactions@ == old(self).transactions@.push(
                InterTrans { date, narration, account, quantity, commodity },
            ),
            final(self).balances@ == old(self).balances@,
    {
        self.transactions.push(InterTrans { date, narration, account, quantity, commodity });
    }

    pub fn append_balance(&mut self, date: Date, account: String, quantity: Amount, commodity: String)
        ensures
            final(self).balances@ == old(self).balances@.push(
                InterBalance { date, account, quantity, commodity },
            ),
            final(self).transactions@ == old(self).transactions@,
    {
        self.balances.push(InterBalance { date, account, quantity, commodity });
    }
}

/// The bank-account identification aggregate of a statement.
pub struct BANKACCTFROM {
    pub acctid: String,
}

impl BANKACCTFROM {
    pub fn get_acctid(&self) -> (r: String)
        ensures
            r@ == self.acctid@,
    {
        self.acctid.clone()
    }
}

/// The card-account identification aggregate of a statement.
pub struct CCACCTFROM {
    pub acctid: String,
}

impl CCACCTFROM {
    pub fn get_acctid(&self) -> (r: String)
        ensures
            r@ == self.acctid@,
    {
        self.acctid.clone()
    }
}

/// Parse the date prefix of a statement timestamp: eight digits as
/// year, month and day, accepted exactly when they name a valid civil
/// date.
pub fn parse_qfx_date(s: &str) -> (r: Option<Date>)
    ensures
        match r {
            Some(d) => {
                &&& s@.len() >= 8
                &&& forall|k: int| 0 <= k < 8 ==> crate::amount::is_digit(#[trigger] s@[k])
                &&& d == (Date {
                    year: crate::date::four_digit_val(s@, 0) as u32,
                    month: crate::date::two_digit_val(s@, 4) as u32,
                    day: crate::date::two_digit_val(s@, 6) as u32,
                })
                &&& d.valid()
            },
            None => s@.len() < 8 || !(forall|k: int|
                0 <= k < 8 ==> crate::amount::is_digit(#[trigger] s@[k])) || !(Date {
                year: crate::date::four_digit_val(s@, 0) as u32,
                month: crate::date::two_digit_val(s@, 4) as u32,
                day: crate::date::two_digit_val(s@, 6) as u32,
            }).valid(),
        },
{
    let cs = crate::text::chars_vec(s);
    if cs.len() < 8 {
        return None;
    }
    let mut k: usize = 0;
    while k < 8
        invariant
            cs@ == s@,
            s@.len() >= 8,
            k <= 8,
            forall|k2: int| 0 <= k2 < k ==> crate::amount::is_digit(#[trigger] s@[k2]),
        decreases 8 - k,
    {
        if !crate::parse::char_is_digit(cs[k]) {
            return None;
        }
        k = k + 1;
    }
    let year: u32 = crate::parse::digit_of(cs[0]) * 1000 + crate::parse::digit_of(cs[1]) * 100
        + crate::parse::digit_of(cs[2]) * 10 + crate::parse::digit_of(cs[3]);
    let month: u32 = crate::parse::digit_of(cs[4]) * 10 + crate::parse::digit_of(cs[5]);
    let day: u32 = crate::parse::digit_of(cs[6]) * 10 + crate::parse::digit_of(cs[7]);
    Date::checked_new(year, month, day)
}

/// The narration a statement row carries: name and memo joined with a
/// separator, either alone, or a fixed marker when both are missing.
pub fn make_narration(name: &Option<String>, memo: &Option<String>) -> (r: String)
    ensures
        match (name, memo) {
            (Some(n), Some(m)) => r@ == n@ + " / "@ + m@,
            (Some(n), None) => r@ == n@,
            (None, Some(m)) => r@ == m@,
            (None, None) => r@ == "PROBLEM"@,
        },
{
    proof {
        reveal_strlit(" / ");
        reveal_strlit("PROBLEM");
    }
    match (name, memo) {
        (Some(n), Some(m)) => {
            let mut r = n.clone();
            r.append(" / ");
            r.append(m.as_str());
            r
        },
        (Some(n), None) => n.clone(),
        (None, Some(m)) => m.clone(),
        (None, None) => String::from_str("PROBLEM"),
    }
}

/// The `k`-th imported transaction was materialized as header and
/// posting `k`, numbered `k + 1`.
pub open spec fn qfx_txn_ok(
    ts: Seq<InterTrans>,
    hs: Seq<HeaderParams>,
    ps: Seq<PostingParams>,
    k: int,
) -> bool {
    &&& hs[k].statement_no == k + 1
    &&& hs[k].date == ts[k].date
    &&& hs[k].narration@ == ts[k].narration@
    &&& ps[k].statement_no == k + 1
    &&& ps[k].transaction_no == k + 1
    &&& ps[k].cp_quantity == Some(ts[k].quantity)
    &&& (ps[k].cp_commodity matches Some(c) && c@ == ts[k].commodity@)
    &&& ps[k].tc_quantity == Some(ts[k].quantity)
    &&& (ps[k].tc_commodity matches Some(c) && c@ == ts[k].commodity@)
    &&& ps[k].quantities_in_limit()
}

/// The `k`-th imported balance was materialized as verification `k`,
/// numbered after all transactions.
pub open spec fn qfx_bal_ok(
    bs: Seq<InterBalance>,
    vs: Seq<VerificationParams>,
    nt: int,
    k: int,
) -> bool {
    &&& vs[k].statement_no == nt + k + 1
    &&& vs[k].date == bs[k].date
    &&& vs[k].action == BALANCE_ACTION
    &&& vs[k].quantity == Some(bs[k].quantity)
    &&& (vs[k].commodity matches Some(c) && c@ == bs[k].commodity@)
}

/// Materialize the imported rows into ledger records: each transaction
/// becomes a header with one fully specified posting, then each balance
/// becomes a `balance` verification, numbered consecutively from one;
/// account names run through the symbol table when it knows them.
pub fn store_qfx_records(import_state: &QfxImportState, symbols: &SymbolsMap, state: &mut LedgerState) -> (r: bool)
    requires
        old(state).transactions@.len() == 0,
        old(state).postings@.len() == 0,
        old(state).verifications@.len() == 0,
        import_state.transactions@.len() + import_state.balances@.len() + 1 < u32::MAX,
        forall|i: int|
            0 <= i < import_state.transactions@.len() ==> (
            #[trigger] import_state.transactions@[i]).quantity.in_limit(),
    ensures
        r,
        final(state).transactions@.len() == import_state.transactions@.len(),
        final(state).postings@.len() == import_state.transactions@.len(),
        final(state).verifications@.len() == import_state.balances@.len(),
        forall|i: int|
            0 <= i < import_state.transactions@.len() ==> #[trigger] qfx_txn_ok(
                import_state.transactions@,
                final(state).transactions@,
                final(state).postings@,
                i,
            ),
        forall|i: int|
            0 <= i < import_state.balances@.len() ==> #[trigger] qfx_bal_ok(
                import_state.balances@,
                final(state).verifications@,
                import_state.transactions@.len() as int,
                i,
            ),
{
    let mut count: u32 = 1;
    let nt = import_state.transactions.len();
    let nb = import_state.balances.len();
    let mut i: usize = 0;
    while i < nt
        invariant
            nt == import_state.transactions@.len(),
            nb == import_state.balances@.len(),
            nt + nb + 1 < u32::MAX,
            i <= nt,
            count == i + 1,
            state.transactions@.len() == i,
            state.postings@.len() == i,
            state.verifications@.len() == 0,
            forall|k: int|
                0 <= k < import_state.transactions@.len() ==> (
                #[trigger] import_state.transactions@[k]).quantity.in_limit(),
            forall|k: int|
                0 <= k < i ==> #[trigger] qfx_txn_ok(
                    import_state.transactions@,
                    state.transactions@,
                    state.postings@,
                    k,
                ),
        decreases nt - i,
    {
        let ghost pre_trans = state.transactions@;
        let ghost pre_posts = state.postings@;
        let t = &import_state.transactions[i];
        let acct = match symbols.get(&t.account) {
            Some(n) => n,
            None => t.account.clone(),
        };
        state.transactions.push(
            HeaderParams {
                statement_no: count,
                file_no: 0,
                start: 0,
                end: 0,
                date: t.date,
                narration: t.narration.clone(),
                tags: None,
            },
        );
        state.postings.push(
            PostingParams {
                statement_no: count,
                transaction_no: count,
                file_no: 0,
                start: 0,
                end: 0,
                account: acct,
                cp_quantity: Some(t.quantity),
                cp_commodity: Some(t.commodity.clone()),
                tc_quantity: Some(t.quantity),
                tc_commodity: Some(t.commodity.clone()),
            },
        );
        proof {
            assert forall|k: int|
                0 <= k < i + 1 implies #[trigger] qfx_txn_ok(
                import_state.transactions@,
                state.transactions@,
                state.postings@,
                k,
            ) by {
                if k == i {
                    assert(state.transactions@[k] == state.transactions@.last());
                    assert(state.postings@[k] == state.postings@.last());
                } else {
                    assert(qfx_txn_ok(import_state.transactions@, pre_trans, pre_posts, k));
                    assert(state.transactions@[k] == pre_trans[k]);
                    assert(state.postings@[k] == pre_posts[k]);
                }
            }
        }
        count = count + 1;
        i = i + 1;
    }
    let mut j: usize = 0;
    while j < nb
        invariant
            nt == import_state.transactions@.len(),
            nb == import_state.balances@.len(),
            nt + nb + 1 < u32::MAX,
            j <= nb,
            count == nt + j + 1,
            state.transactions@.len() == nt,
            state.postings@.len() == nt,
            state.verifications@.len() == j,
            forall|k: int|
                0 <= k < nt ==> #[trigger] qfx_txn_ok(
                    import_state.transactions@,
                    state.transactions@,
                    state.postings@,
                    k,
                ),
            forall|k: int|
                0 <= k < j ==> #[trigger] qfx_bal_ok(
                    import_state.balances@,
                    state.verifications@,
                    nt as int,
                    k,
                ),
        decreases nb - j,
    {
        let ghost pre_vers = state.verifications@;
        let b = &import_state.balances[j];
        let acct = match symbols.get(&b.account) {
            Some(n) => n,
            None => b.account.clone(),
        };
        state.verifications.push(
            VerificationParams {
                statement_no: count,
                file_no: 0,
                start: 0,
                end: 0,
                date: b.date,
                action: BALANCE_ACTION,
                account: acct,
                quantity: Some(b.quantity),
                commodity: Some(b.commodity.clone()),
            },
        );
        proof {
            assert forall|k: int|
                0 <= k < j + 1 implies #[trigger] qfx_bal_ok(
                import_state.balances@,
                state.verifications@,
                nt as int,
                k,
            ) by {
                if k == j {
                    assert(state.verifications@[k] == state.verifications@.last());
                } else {
                    assert(qfx_bal_ok(import_state.balances@, pre_vers, nt as int, k));
                    assert(state.verifications@[k] == pre_vers[k]);
                }
            }
        }
        count = count + 1;
        j = j + 1;
    }
    true
}

} // verus!
