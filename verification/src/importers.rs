use vstd::prelude::*;
use crate::amount::{Amount, AMOUNT_LIMIT};
use crate::date::Date;
use crate::parse::{parse_decimal, scan_decimal};
use crate::records::{HeaderParams, PostingParams};
use crate::state::LedgerState;
use vstd::string::StringExecFns;

verus! {

broadcast use vstd::string::group_string_axioms;

/// One leg produced by an importer: an account, an optional held
/// position and an optional total cost.
pub struct InterPost {
    pub account: String,
    pub cp: Option<(Amount, String)>,
    pub tc: Option<(Amount, String)>,
}

/// Flip the sign of a quantity, as the importer's decimal helper does.
pub fn reverse_sign(d: &Amount) -> (r: Amount)
    requires
        d.cents != i128::MIN,
    ensures
        r.cents == -d.cents,
{
    Amount { cents: -d.cents }
}

/// The characters the importers strip from broker-written numbers.
pub open spec fn is_stripped_char(c: char) -> bool {
    c == '$' || c == ','
}

/// Parse a broker-written decimal after stripping `$` and `,`; accepted
/// exactly when the whole cleaned text is one decimal token.
pub fn parse_csv_decimal(s: &str) -> (r: Option<Amount>)
    ensures
        match r {
            Some(a) => {
                &&& scan_decimal(s@.filter(|c: char| !is_stripped_char(c)), 0) matches Some((v, e))
                &&& a.cents == v
                &&& e == s@.filter(|c: char| !is_stripped_char(c)).len()
                &&& a.in_limit()
            },
            None => !(scan_decimal(s@.filter(|c: char| !is_stripped_char(c)), 0) matches Some(
                (v, e),
            ) && e == s@.filter(|c: char| !is_stripped_char(c)).len()),
        },
{
    let sv = crate::text::chars_vec(s);
    let n = sv.len();
    let mut clean: Vec<char> = Vec::new();
    let mut i: usize = 0;
    while i < n
        invariant
            n == sv@.len(),
            sv@ == s@,
            i <= n,
            clean@ == s@.subrange(0, i as int).filter(|c: char| !is_stripped_char(c)),
        decreases n - i,
    {
        let c = sv[i];
        proof {
            reveal(Seq::filter);
            assert(s@.subrange(0, i + 1).drop_last() =~= s@.subrange(0, i as int));
            assert(s@.subrange(0, i + 1).last() == s@[i as int]);
        }
        if !(c == '$' || c == ',') {
            clean.push(c);
        }
        i = i + 1;
    }
    proof {
        assert(s@.subrange(0, n as int) =~= s@);
        assert(clean@ == s@.filter(|c2: char| !is_stripped_char(c2)));
    }
    match parse_decimal(&clean, 0) {
        Some((a, e)) => {
            if e == clean.len() {
                Some(a)
            } else {
                None
            }
        },
        None => None,
    }
}

/// `Assets:Investments:{owner}:{acct}:Cash`.
pub fn acct_cash(owner: &str, acct: &str) -> (r: String)
    ensures
        r@ == "Assets:Investments:"@ + owner@ + ":"@ + acct@ + ":Cash"@,
{
    proof {
        reveal_strlit("Assets:Investments:");
        reveal_strlit(":");
        reveal_strlit(":Cash");
    }
    let mut r = String::from_str("Assets:Investments:");
    r.append(owner);
    r.append(":");
    r.append(acct);
    r.append(":Cash");
    r
}

/// `Assets:Investments:{owner}:{acct}:Securities`.
pub fn acct_securities(owner: &str, acct: &str) -> (r: String)
    ensures
        r@ == "Assets:Investments:"@ + owner@ + ":"@ + acct@ + ":Securities"@,
{
    proof {
        reveal_strlit("Assets:Investments:");
        reveal_strlit(":");
        reveal_strlit(":Securities");
    }
    let mut r = String::from_str("Assets:Investments:");
    r.append(owner);
    r.append(":");
    r.append(acct);
    r.append(":Securities");
    r
}

/// `Assets:Investments:{owner}:TODO`.
pub fn acct_todo(owner: &str) -> (r: String)
    ensures
        r@ == "Assets:Investments:"@ + owner@ + ":TODO"@,
{
    proof {
        reveal_strlit("Assets:Investments:");
        reveal_strlit(":TODO");
    }
    let mut r = String::from_str("Assets:Investments:");
    r.append(owner);
    r.append(":TODO");
    r
}

/// `Income:Investments:{owner}:Taxable:{kind}` for the income accounts.
pub fn acct_income(owner: &str, kind: &str) -> (r: String)
    ensures
        r@ == "Income:Investments:"@ + owner@ + ":Taxable:"@ + kind@,
{
    proof {
        reveal_strlit("Income:Investments:");
        reveal_strlit(":Taxable:");
    }
    let mut r = String::from_str("Income:Investments:");
    r.append(owner);
    r.append(":Taxable:");
    r.append(kind);
    r
}

/// `Expenses:Investments:{owner}:{kind}` for fees and withheld taxes.
pub fn acct_expense(owner: &str, kind: &str) -> (r: String)
    ensures
        r@ == "Expenses:Investments:"@ + owner@ + ":"@ + kind@,
{
    proof {
        reveal_strlit("Expenses:Investments:");
        reveal_strlit(":");
    }
    let mut r = String::from_str("Expenses:Investments:");
    r.append(owner);
    r.append(":");
    r.append(kind);
    r
}

/// A symbol table mapping broker descriptions to commodity names; the
/// first matching row wins.
pub struct SymbolsMap {
    pub pairs: Vec<(String, String)>,
}

impl SymbolsMap {
    pub fn new() -> (r: SymbolsMap)
        ensures
            r.pairs@.len() == 0,
    {
        SymbolsMap { pairs: Vec::new() }
    }

    pub fn insert(&mut self, k: String, v: String)
        ensures
            final(self).pairs@ == old(self).pairs@.push((k, v)),
    {
        self.pairs.push((k, v));
    }

    /// First value stored under a key.
    pub fn get(&self, k: &String) -> (r: Option<String>)
        ensures
            match r {
                Some(v) => exists|i: int|
                    0 <= i < self.pairs@.len() && (#[trigger] self.pairs@[i]).0@ == k@
                        && self.pairs@[i].1@ == v@,
                None => forall|i: int|
                    0 <= i < self.pairs@.len() ==> (#[trigger] self.pairs@[i]).0@ != k@,
            },
    {
        let n = self.pairs.len();
        let mut i: usize = 0;
        while i < n
            invariant
                n == self.pairs@.len(),
                i <= n,
                forall|j: int| 0 <= j < i ==> (#[trigger] self.pairs@[j]).0@ != k@,
            decreases n - i,
        {
            if self.pairs[i].0.eq(k) {
                return Some(self.pairs[i].1.clone());
            }
            i = i + 1;
        }
        None
    }
}

/// The `i`-th classified leg was appended as a posting with the row's
/// transaction number and exactly its account and legs.
pub open spec fn stored_post_ok(
    pre: LedgerState,
    post: LedgerState,
    posts: Seq<InterPost>,
    i: int,
) -> bool {
    &&& post.postings@[pre.postings@.len() + i].transaction_no == pre.line_count
    &&& post.postings@[pre.postings@.len() + i].account@ == posts[i].account@
    &&& (match posts[i].cp {
        Some((q, c)) => post.postings@[pre.postings@.len() + i].cp_quantity == Some(q) && (
        post.postings@[pre.postings@.len() + i].cp_commodity matches Some(pc) && pc@ == c@),
        None => post.postings@[pre.postings@.len() + i].cp_quantity is None && post.postings@[pre.postings@.len() + i].cp_commodity is None,
    })
    &&& (match posts[i].tc {
        Some((q, c)) => post.postings@[pre.postings@.len() + i].tc_quantity == Some(q) && (
        post.postings@[pre.postings@.len() + i].tc_commodity matches Some(pc) && pc@ == c@),
        None => post.postings@[pre.postings@.len() + i].tc_quantity is None && post.postings@[pre.postings@.len() + i].tc_commodity is None,
    })
    &&& post.postings@[pre.postings@.len() + i].quantities_in_limit()
}

/// A classified row was stored: one header carrying the date and
/// narration, then one posting per leg, all linked to the header's
/// number.
pub open spec fn stored_posts_ok(
    pre: LedgerState,
    post: LedgerState,
    date: Date,
    narr: Seq<char>,
    posts: Seq<InterPost>,
) -> bool {
    &&& post.transactions@.len() == pre.transactions@.len() + 1
    &&& post.transactions@.last().date == date
    &&& post.transactions@.last().narration@ == narr
    &&& post.transactions@.last().statement_no == pre.line_count
    &&& post.postings@.len() == pre.postings@.len() + posts.len()
    &&& forall|i: int| 0 <= i < pre.postings@.len() ==> post.postings@[i] == pre.postings@[i]
    &&& forall|i: int| 0 <= i < posts.len() ==> #[trigger] stored_post_ok(pre, post, posts, i)
}

/// Append one imported transaction to the state: a header and its legs,
/// numbered from the shared line counter.
pub fn store_inter_posts(
    state: &mut LedgerState,
    date: Date,
    narration: String,
    posts: Vec<InterPost>,
) -> (r: bool)
    requires
        old(state).line_count + posts@.len() < u32::MAX,
        forall|i: int|
            0 <= i < posts@.len() ==> ((#[trigger] posts@[i]).cp matches Some((q, c))
                ==> q.in_limit()),
        forall|i: int|
            0 <= i < posts@.len() ==> ((#[trigger] posts@[i]).tc matches Some((q, c))
                ==> q.in_limit()),
    ensures
        !r ==> final(state).transactions@ == old(state).transactions@ && final(state).postings@
            == old(state).postings@ && final(state).line_count == old(state).line_count + 1,
        r == (posts@.len() > 0),
        r ==> {
            &&& final(state).transactions@.len() == old(state).transactions@.len() + 1
            &&& final(state).transactions@.last().date == date
            &&& final(state).transactions@.last().narration@ == narration@
            &&& final(state).transactions@.last().statement_no == old(state).line_count
            &&& final(state).postings@.len() == old(state).postings@.len() + posts@.len()
            &&& forall|i: int|
                0 <= i < old(state).postings@.len() ==> final(state).postings@[i] == old(state).postings@[i]
            &&& forall|i: int|
                0 <= i < posts@.len() ==> {
                    let p = #[trigger] final(state).postings@[old(state).postings@.len() + i];
                    &&& p.transaction_no == old(state).line_count
                    &&& p.account@ == posts@[i].account@
                    &&& (match posts@[i].cp {
                        Some((q, c)) => p.cp_quantity == Some(q) && (p.cp_commodity matches Some(
                            pc,
                        ) && pc@ == c@),
                        None => p.cp_quantity is None && p.cp_commodity is None,
                    })
                    &&& (match posts@[i].tc {
                        Some((q, c)) => p.tc_quantity == Some(q) && (p.tc_commodity matches Some(
                            pc,
                        ) && pc@ == c@),
                        None => p.tc_quantity is None && p.tc_commodity is None,
                    })
                    &&& p.quantities_in_limit()
                }
        },
        final(state).verifications@ == old(state).verifications@,
        final(state).includes@ == old(state).includes@,
        final(state).informationals@ == old(state).informationals@,
        forall|i: int|
            old(state).postings@.len() <= i < final(state).postings@.len() ==> (
            #[trigger] final(state).postings@[i]).quantities_in_limit(),
        forall|i: int|
            0 <= i < old(state).postings@.len() ==> final(state).postings@[i] == old(
                state,
            ).postings@[i],
        r ==> stored_posts_ok(*old(state), *final(state), date, narration@, posts@),
{
    let posno = state.next_line_no();
    if posts.len() == 0 {
        return false;
    }
    let transno = posno;
    let ghost narr_view = narration@;
    state.transactions.push(
        HeaderParams {
            statement_no: transno,
            file_no: 0,
            start: 0,
            end: 0,
            date,
            narration,
            tags: None,
        },
    );
    let nn = posts.len();
    let ghost base = state.postings@;
    let ghost posts_seq = posts@;
    let mut k: usize = 0;
    while k < nn
        invariant
            nn == posts_seq.len(),
            posts@ == posts_seq,
            k <= nn,
            state.line_count == transno + 1 + k,
            transno + 1 + nn <= u32::MAX,
            forall|i: int|
                0 <= i < posts_seq.len() ==> ((#[trigger] posts_seq[i]).cp matches Some((q, c))
                    ==> q.in_limit()),
            forall|i: int|
                0 <= i < posts_seq.len() ==> ((#[trigger] posts_seq[i]).tc matches Some((q, c))
                    ==> q.in_limit()),
            state.postings@.len() == base.len() + k,
            forall|i: int| 0 <= i < base.len() ==> state.postings@[i] == base[i],
            forall|i: int|
                0 <= i < k ==> {
                    let p = #[trigger] state.postings@[base.len() + i];
                    &&& p.transaction_no == transno
                    &&& p.account@ == posts_seq[i].account@
                    &&& (match posts_seq[i].cp {
                        Some((q, c)) => p.cp_quantity == Some(q) && (p.cp_commodity matches Some(
                            pc,
                        ) && pc@ == c@),
                        None => p.cp_quantity is None && p.cp_commodity is None,
                    })
                    &&& (match posts_seq[i].tc {
                        Some((q, c)) => p.tc_quantity == Some(q) && (p.tc_commodity matches Some(
                            pc,
                        ) && pc@ == c@),
                        None => p.tc_quantity is None && p.tc_commodity is None,
                    })
                    &&& p.quantities_in_limit()
                },
            state.transactions@.len() == old(state).transactions@.len() + 1,
            forall|i: int|
                0 <= i < old(state).transactions@.len() ==> state.transactions@[i] == old(state).transactions@[i],
            state.transactions@.last().statement_no == transno,
            state.transactions@.last().date == date,
            state.transactions@.last().narration@ == narr_view,
            state.verifications@ == old(state).verifications@,
            state.includes@ == old(state).includes@,
            state.informationals@ == old(state).informationals@,
        decreases nn - k,
    {
        let pno = state.next_line_no();
        let post = &posts[k];
        let (cp_quantity, cp_commodity): (Option<Amount>, Option<String>) = match &post.cp {
            Some((q, c)) => (Some(*q), Some(c.clone())),
            None => (None, None),
        };
        let (tc_quantity, tc_commodity): (Option<Amount>, Option<String>) = match &post.tc {
            Some((q, c)) => (Some(*q), Some(c.clone())),
            None => (None, None),
        };
        state.postings.push(
            PostingParams {
                statement_no: pno,
                transaction_no: transno,
                file_no: 0,
                start: 0,
                end: 0,
                account: post.account.clone(),
                cp_quantity,
                cp_commodity,
                tc_quantity,
                tc_commodity,
            },
        );
        k = k + 1;
    }
    proof {
        assert forall|i: int|
            old(state).postings@.len() <= i < state.postings@.len() implies (
        #[trigger] state.postings@[i]).quantities_in_limit() by {
            let k2 = i - base.len();
            assert(state.postings@[base.len() + k2].quantities_in_limit());
        }
    }
    true
}

/// The transaction kinds of the Canadian activity statements.
#[derive(Debug, Clone, Copy, PartialEq, Eq, Structural)]
pub enum TranType {
    Buy,
    CashReceipt,
    CanadianCashDividend,
    Distribution,
    ExpiringRightsAndWarrants,
    ForeignDividend,
    ForeignNonResidentTax,
    ForeignTransfer,
    GoodsAndServicesTax,
    InternalTransfer,
    MandatoryExchange,
    MFNotionalDistribution,
    MutualFundDividend,
    OtherManagedAcctFees,
    OtherManagedAcctFeeRegistered,
    PartnersFeeNonRegistered,
    QuebecSalesTax,
    ReinvestmentDividend,
    RRSPContribution,
    SecTfrCosts,
    Sell,
    SpinOffForeign,
    SpinOffUS,
    StockSplit,
    USCashDividend,
    USSourceLongTermGains,
    ViridanFeesNonRegistered,
    MonthlyInterest,
    MFReturnOfCapital,
}

/// One parsed activity row of the Canadian statement.
pub struct TransRecord {
    pub settled: Date,
    pub tran_types: TranType,
    pub description: String,
    pub price: Amount,
    pub quantity: Amount,
    pub amount: Amount,
}

/// The kinds of legs a classified row can produce.
pub open spec fn buy_like(t: TranType) -> bool {
    t == TranType::Buy || t == TranType::SpinOffForeign || t == TranType::SpinOffUS || t
        == TranType::StockSplit
}

pub open spec fn sell_like(t: TranType) -> bool {
    t == TranType::ExpiringRightsAndWarrants || t == TranType::MFNotionalDistribution || t
        == TranType::MandatoryExchange || t == TranType::Sell
}

impl TransRecord {
    pub open spec fn amounts_in_limit(self) -> bool {
        &&& self.price.in_limit()
        &&& self.quantity.in_limit()
        &&& self.amount.in_limit()
    }
}

/// Classify one Canadian activity row into its ledger legs, as the
/// activity importer does: buys carry the security with the absolute
/// cash amount as total cost, sells release the security against cash
/// and gains, every cash-only kind moves cash against its category
/// account, transfers carry whichever side is present, reinvested
/// dividends book the security against the dividend account, and a
/// return of capital produces nothing.
pub fn classify_cdn(
    rec: &TransRecord,
    currency: &str,
    symbols: &SymbolsMap,
    cash: &String,
    sec: &String,
    target: &String,
    gl: &String,
) -> (r: Vec<InterPost>)
    requires
        rec.amounts_in_limit(),
    ensures
        r@.len() <= 3,
        forall|i: int|
            0 <= i < r@.len() ==> ((#[trigger] r@[i]).cp matches Some((q, c)) ==> q.in_limit()),
        forall|i: int|
            0 <= i < r@.len() ==> ((#[trigger] r@[i]).tc matches Some((q, c)) ==> q.in_limit()),
        rec.tran_types == TranType::MFReturnOfCapital ==> r@.len() == 0,
        buy_like(rec.tran_types) ==> {
            &&& r@.len() == 2
            &&& r@[0].account@ == sec@
            &&& (r@[0].cp matches Some((q, c)) && q == rec.quantity)
            &&& (r@[0].tc matches Some((q, c)) && q.cents == if rec.amount.cents < 0 {
                -rec.amount.cents
            } else {
                rec.amount.cents as int
            } && c@ == currency@)
            &&& r@[1].account@ == cash@
            &&& (r@[1].cp matches Some((q, c)) && q == rec.amount && c@ == currency@)
            &&& r@[1].tc is None
        },
        sell_like(rec.tran_types) ==> {
            &&& r@.len() == 3
            &&& r@[0].account@ == sec@
            &&& (r@[0].cp matches Some((q, c)) && q == rec.quantity)
            &&& r@[0].tc is None
            &&& r@[1].account@ == cash@
            &&& (r@[1].cp matches Some((q, c)) && q == rec.amount && c@ == currency@)
            &&& r@[1].tc is None
            &&& r@[2].account@ == gl@
            &&& r@[2].cp is None && r@[2].tc is None
        },
        cash_like(rec.tran_types) ==> {
            &&& r@.len() == 2
            &&& r@[0].account@ == cash@
            &&& (r@[0].cp matches Some((q, c)) && q == rec.amount && c@ == (
                if rec.tran_types == TranType::USCashDividend {
                    "USD"@
                } else {
                    currency@
                }))
            &&& r@[0].tc is None
            &&& r@[1].account@ == target@
            &&& r@[1].cp is None && r@[1].tc is None
        },
{
    proof {
        reveal_strlit("USD");
        reveal_strlit("UNKNOENSEC");
    }
    let sec_name = match symbols.get(&rec.description) {
        Some(sname) => sname,
        None => String::from_str("UNKNOENSEC"),
    };
    match rec.tran_types {
        TranType::Buy | TranType::SpinOffForeign | TranType::SpinOffUS | TranType::StockSplit => {
            let mut res: Vec<InterPost> = Vec::new();
            let cost_q = rec.amount.abs();
            res.push(
                InterPost {
                    account: sec.clone(),
                    cp: Some((rec.quantity, sec_name)),
                    tc: Some((cost_q, String::from_str(currency))),
                },
            );
            res.push(
                InterPost {
                    account: cash.clone(),
                    cp: Some((rec.amount, String::from_str(currency))),
                    tc: None,
                },
            );
            res
        },
        TranType::ExpiringRightsAndWarrants | TranType::MFNotionalDistribution
            | TranType::MandatoryExchange | TranType::Sell => {
            let mut res: Vec<InterPost> = Vec::new();
            res.push(
                InterPost { account: sec.clone(), cp: Some((rec.quantity, sec_name)), tc: None },
            );
            res.push(
                InterPost {
                    account: cash.clone(),
                    cp: Some((rec.amount, String::from_str(currency))),
                    tc: None,
                },
            );
            res.push(InterPost { account: gl.clone(), cp: None, tc: None });
            res
        },
        TranType::InternalTransfer => {
            let mut res: Vec<InterPost> = Vec::new();
            if !rec.amount.is_zero() {
                res.push(
                    InterPost {
                        account: cash.clone(),
                        cp: Some((rec.amount, String::from_str(currency))),
                        tc: None,
                    },
                );
            }
            if !rec.quantity.is_zero() {
                match mul_cost(rec.price, rec.quantity) {
                    Some(cost) => {
                        res.push(
                            InterPost {
                                account: sec.clone(),
                                cp: Some((rec.quantity, sec_name)),
                                tc: Some((cost, String::from_str(currency))),
                            },
                        );
                    },
                    None => {},
                }
            }
            res.push(InterPost { account: target.clone(), cp: None, tc: None });
            res
        },
        TranType::ReinvestmentDividend => {
            let mut res: Vec<InterPost> = Vec::new();
            match mul_cost(rec.price, rec.quantity) {
                Some(cost) => {
                    let rev = reverse_sign(&cost);
                    res.push(
                        InterPost {
                            account: sec.clone(),
                            cp: Some((rec.quantity, sec_name)),
                            tc: Some((cost, String::from_str(currency))),
                        },
                    );
                    res.push(
                        InterPost {
                            account: target.clone(),
                            cp: Some((rev, String::from_str(currency))),
                            tc: None,
                        },
                    );
                },
                None => {},
            }
            res
        },
        TranType::MFReturnOfCapital => Vec::new(),
        _ => {
            let mut res: Vec<InterPost> = Vec::new();
            let cur = if matches!(rec.tran_types, TranType::USCashDividend) {
                String::from_str("USD")
            } else {
                String::from_str(currency)
            };
            res.push(InterPost { account: cash.clone(), cp: Some((rec.amount, cur)), tc: None });
            res.push(InterPost { account: target.clone(), cp: None, tc: None });
            res
        },
    }
}

/// The cash-only kinds: everything that books the cash amount against a
/// single category account.
pub open spec fn cash_like(t: TranType) -> bool {
    !buy_like(t) && !sell_like(t) && t != TranType::InternalTransfer && t
        != TranType::ReinvestmentDividend && t != TranType::MFReturnOfCapital
}

/// The absolute cost of a position: price times quantity, rounded back to
/// hundredths and made positive; refused when it leaves the fixed-point
/// range.
pub fn mul_cost(price: Amount, quantity: Amount) -> (r: Option<Amount>)
    requires
        price.in_limit(),
        quantity.in_limit(),
    ensures
        r matches Some(a) ==> {
            &&& a.in_limit()
            &&& a.cents >= 0
            &&& a.cents == if crate::amount::spec_mul_cents(
                price.cents as int,
                quantity.cents as int,
            ) < 0 {
                -crate::amount::spec_mul_cents(price.cents as int, quantity.cents as int)
            } else {
                crate::amount::spec_mul_cents(price.cents as int, quantity.cents as int)
            }
        },
{
    let p = crate::amount::mul_rounded(price, quantity);
    proof {
        let n = price.cents as int * quantity.cents as int;
        assert((-AMOUNT_LIMIT) * AMOUNT_LIMIT <= n <= AMOUNT_LIMIT * AMOUNT_LIMIT)
            by (nonlinear_arith)
            requires
                -AMOUNT_LIMIT <= price.cents <= AMOUNT_LIMIT,
                -AMOUNT_LIMIT <= quantity.cents <= AMOUNT_LIMIT,
                n == price.cents as int * quantity.cents as int,
        ;
        let m: int = if n >= 0 {
            n
        } else {
            -n
        };
        vstd::arithmetic::div_mod::lemma_div_pos_is_pos(m, 100);
        vstd::arithmetic::div_mod::lemma_div_nonincreasing(m, 100);
        vstd::arithmetic::div_mod::lemma_mod_division_less_than_divisor(m, 100);
        assert(crate::amount::round_half_even(m, 100) <= m + 1);
        assert(p.cents > i128::MIN);
    }
    let a = p.abs();
    if a.cents <= AMOUNT_LIMIT {
        Some(a)
    } else {
        None
    }
}

/// The category account a Canadian activity kind books against:
/// dividend kinds against the dividend income, transfers and receipts
/// against the open items, distributions, withheld tax, gains and
/// interest against their own accounts, and every remaining kind against
/// the fee account.
pub fn cdn_target_account(t: TranType, owner: &str) -> (r: String)
    ensures
        (t == TranType::CanadianCashDividend || t == TranType::ForeignDividend || t
            == TranType::MutualFundDividend || t == TranType::ReinvestmentDividend || t
            == TranType::USCashDividend) ==> r@ == "Income:Investments:"@ + owner@
            + ":Taxable:"@ + "Dividend"@,
        (t == TranType::CashReceipt || t == TranType::ForeignTransfer || t
            == TranType::RRSPContribution || t == TranType::InternalTransfer) ==> r@
            == "Assets:Investments:"@ + owner@ + ":TODO"@,
        t == TranType::Distribution ==> r@ == "Income:Investments:"@ + owner@ + ":Taxable:"@
            + "Distribution"@,
        t == TranType::ForeignNonResidentTax ==> r@ == "Expenses:Investments:"@ + owner@ + ":"@
            + "ForeignTax"@,
        t == TranType::USSourceLongTermGains ==> r@ == "Income:Investments:"@ + owner@
            + ":Taxable:"@ + "CapitalGains"@,
        t == TranType::MonthlyInterest ==> r@ == "Income:Investments:"@ + owner@ + ":Taxable:"@
            + "Interest"@,
        !(t == TranType::CanadianCashDividend || t == TranType::ForeignDividend || t
            == TranType::MutualFundDividend || t == TranType::ReinvestmentDividend || t
            == TranType::USCashDividend || t == TranType::CashReceipt || t
            == TranType::ForeignTransfer || t == TranType::RRSPContribution || t
            == TranType::InternalTransfer || t == TranType::Distribution || t
            == TranType::ForeignNonResidentTax || t == TranType::USSourceLongTermGains || t
            == TranType::MonthlyInterest) ==> r@ == "Expenses:Investments:"@ + owner@ + ":"@
            + "Fees"@,
{
    match t {
        TranType::CanadianCashDividend | TranType::ForeignDividend | TranType::MutualFundDividend
            | TranType::ReinvestmentDividend | TranType::USCashDividend => acct_income(
            owner,
            "Dividend",
        ),
        TranType::CashReceipt | TranType::ForeignTransfer | TranType::RRSPContribution
            | TranType::InternalTransfer => acct_todo(owner),
        TranType::Distribution => acct_income(owner, "Distribution"),
        TranType::ForeignNonResidentTax => acct_expense(owner, "ForeignTax"),
        TranType::USSourceLongTermGains => acct_income(owner, "CapitalGains"),
        TranType::MonthlyInterest => acct_income(owner, "Interest"),
        _ => acct_expense(owner, "Fees"),
    }
}

/// Append one classified Canadian activity row: a header dated at the
/// settlement with the given narration, then exactly the classified
/// legs; a row that produced no legs stores nothing and only spends a
/// row number.
pub fn store_transaction(
    rec: &TransRecord,
    narration: String,
    posts: Vec<InterPost>,
    state: &mut LedgerState,
) -> (r: bool)
    requires
        old(state).line_count + posts@.len() < u32::MAX,
        forall|i: int|
            0 <= i < posts@.len() ==> ((#[trigger] posts@[i]).cp matches Some((q, c))
                ==> q.in_limit()),
        forall|i: int|
            0 <= i < posts@.len() ==> ((#[trigger] posts@[i]).tc matches Some((q, c))
                ==> q.in_limit()),
    ensures
        r == (posts@.len() > 0),
        r ==> stored_posts_ok(*old(state), *final(state), rec.settled, narration@, posts@),
        !r ==> final(state).transactions@ == old(state).transactions@ && final(state).postings@
            == old(state).postings@,
        final(state).verifications@ == old(state).verifications@,
        final(state).includes@ == old(state).includes@,
        final(state).informationals@ == old(state).informationals@,
        forall|i: int|
            0 <= i < old(state).postings@.len() ==> final(state).postings@[i] == old(state).postings@[i],
        forall|i: int|
            old(state).postings@.len() <= i < final(state).postings@.len() ==> (
            #[trigger] final(state).postings@[i]).quantities_in_limit(),
{
    store_inter_posts(state, rec.settled, narration, posts)
}

/// One parsed row of the United States transaction export; the quantity
/// is kept as written because the export quotes it inconsistently.
pub struct USTransactionRecord {
    pub symbol: String,
    pub description: String,
    pub amount: Amount,
    pub settled: Option<Date>,
    pub quantity: String,
    pub details: String,
}

/// Classify one United States row by its description prefix, as the
/// importer does; rows with an unreadable settlement date or an unknown
/// description produce nothing.
pub fn classify_us(rec: &USTransactionRecord, currency: &str, cash: &String, sec: &String, target: &String, gl: &String, todo: &String) -> (r: Vec<InterPost>)
    requires
        rec.amount.in_limit(),
    ensures
        r@.len() <= 3,
        forall|i: int|
            0 <= i < r@.len() ==> ((#[trigger] r@[i]).cp matches Some((q, c)) ==> q.in_limit()),
        forall|i: int|
            0 <= i < r@.len() ==> ((#[trigger] r@[i]).tc matches Some((q, c)) ==> q.in_limit()),
{
    proof {
        reveal_strlit("UNKNOWNSEC");
        reveal_strlit("Error");
        reveal_strlit(" ");
        reveal_strlit("BUY ");
        reveal_strlit("SELL ");
        reveal_strlit("YOUR ASSET TRANSFERRED");
        reveal_strlit("REINVEST CASH INCOME");
        reveal_strlit("STOCK SPIN-OFF RECEIVED");
        reveal_strlit("STOCK SPLIT RECEIVED");
    }
    if rec.settled.is_none() {
        return Vec::new();
    }
    let mut sec_name = if rec.symbol.as_str().unicode_len() == 0 {
        String::from_str("UNKNOWNSEC")
    } else {
        rec.symbol.clone()
    };
    let qty: Amount = match parse_csv_decimal(rec.quantity.as_str()) {
        Some(q) => q,
        None => {
            let mut ns = String::from_str("Error");
            ns.append(rec.quantity.as_str());
            ns.append(" ");
            ns.append(sec_name.as_str());
            sec_name = ns;
            Amount { cents: 0 }
        },
    };
    let cost = rec.amount.abs();
    let is_buy = crate::text::str_is_prefix("BUY ", rec.description.as_str())
        || crate::text::str_is_prefix("REINVEST CASH INCOME", rec.description.as_str())
        || crate::text::str_is_prefix("STOCK SPIN-OFF RECEIVED", rec.description.as_str())
        || crate::text::str_is_prefix("STOCK SPLIT RECEIVED", rec.description.as_str());
    let is_sell = crate::text::str_is_prefix("SELL ", rec.description.as_str());
    let is_transfer = crate::text::str_is_prefix(
        "YOUR ASSET TRANSFERRED",
        rec.description.as_str(),
    );
    let has_symbol = rec.symbol.as_str().unicode_len() != 0;
    let mut res: Vec<InterPost> = Vec::new();
    if is_buy {
        if has_symbol {
            res.push(
                InterPost {
                    account: sec.clone(),
                    cp: Some((qty, sec_name)),
                    tc: Some((cost, String::from_str(currency))),
                },
            );
            res.push(
                InterPost {
                    account: cash.clone(),
                    cp: Some((rec.amount, String::from_str(currency))),
                    tc: None,
                },
            );
        }
    } else if is_sell {
        if has_symbol {
            proof {
                assert(qty.cents != i128::MIN);
            }
            let neg_q = if qty.cents > 0 {
                Amount { cents: -qty.cents }
            } else {
                qty
            };
            res.push(InterPost { account: sec.clone(), cp: Some((neg_q, sec_name)), tc: None });
            res.push(
                InterPost {
                    account: cash.clone(),
                    cp: Some((rec.amount, String::from_str(currency))),
                    tc: None,
                },
            );
            res.push(InterPost { account: gl.clone(), cp: None, tc: None });
        }
    } else if is_transfer {
        if has_symbol {
            res.push(
                InterPost {
                    account: sec.clone(),
                    cp: Some((qty, sec_name)),
                    tc: Some((cost, String::from_str(currency))),
                },
            );
        } else {
            res.push(
                InterPost {
                    account: cash.clone(),
                    cp: Some((rec.amount, String::from_str(currency))),
                    tc: None,
                },
            );
        }
        res.push(InterPost { account: todo.clone(), cp: None, tc: None });
    } else {
        res.push(
            InterPost {
                account: cash.clone(),
                cp: Some((rec.amount, String::from_str(currency))),
                tc: None,
            },
        );
        res.push(InterPost { account: target.clone(), cp: None, tc: None });
    }
    res
}

/// Append one classified United States row; the category account was
/// already picked from the description.
pub fn store_us_transaction(
    rec: &USTransactionRecord,
    narration: String,
    posts: Vec<InterPost>,
    state: &mut LedgerState,
) -> (r: bool)
    requires
        old(state).line_count + posts@.len() < u32::MAX,
        rec.settled is Some,
        forall|i: int|
            0 <= i < posts@.len() ==> ((#[trigger] posts@[i]).cp matches Some((q, c))
                ==> q.in_limit()),
        forall|i: int|
            0 <= i < posts@.len() ==> ((#[trigger] posts@[i]).tc matches Some((q, c))
                ==> q.in_limit()),
    ensures
        r == (posts@.len() > 0),
        r ==> stored_posts_ok(
            *old(state),
            *final(state),
            rec.settled->Some_0,
            narration@,
            posts@,
        ),
        !r ==> final(state).transactions@ == old(state).transactions@ && final(state).postings@
            == old(state).postings@,
        final(state).verifications@ == old(state).verifications@,
        final(state).includes@ == old(state).includes@,
        final(state).informationals@ == old(state).informationals@,
        forall|i: int|
            0 <= i < old(state).postings@.len() ==> final(state).postings@[i] == old(state).postings@[i],
        forall|i: int|
            old(state).postings@.len() <= i < final(state).postings@.len() ==> (
            #[trigger] final(state).postings@[i]).quantities_in_limit(),
{
    let d = match rec.settled {
        Some(d) => d,
        None => Date { year: 0, month: 1, day: 1 },
    };
    store_inter_posts(state, d, narration, posts)
}

/// The transaction codes of the closed-account statements.
#[derive(Debug, Clone, Copy, PartialEq, Eq, Structural)]
pub enum ClosedTranType {
    ATI,
    BUY,
    CN,
    CR,
    DVR,
    DVU,
    EFT,
    GST,
    QST,
    SEL,
    TFE,
    TSF,
    VFN,
    VFR,
}

/// One parsed closed-account row.
pub struct ClosedAcctTransRecord {
    pub settled: Date,
    pub tran_type: ClosedTranType,
    pub description: String,
    pub symbol: String,
    pub quantity: Amount,
    pub cost: Amount,
    pub amount: Amount,
}

impl ClosedAcctTransRecord {
    pub open spec fn amounts_in_limit(self) -> bool {
        &&& self.quantity.in_limit()
        &&& self.cost.in_limit()
        &&& self.amount.in_limit()
    }
}

/// Classify one closed-account row: the cash side is the row's amount
/// with its sign reversed, buys and transfers carry the security with
/// its booked cost, reinvested dividends book the security when no cash
/// moved, and every fee code moves cash against the fee account.
pub fn classify_closed(
    rec: &ClosedAcctTransRecord,
    currency: &str,
    cash: &String,
    sec: &String,
    todo: &String,
    dividend: &String,
    fees: &String,
    gl: &String,
) -> (r: Vec<InterPost>)
    requires
        rec.amounts_in_limit(),
    ensures
        r@.len() <= 3,
        forall|i: int|
            0 <= i < r@.len() ==> ((#[trigger] r@[i]).cp matches Some((q, c)) ==> q.in_limit()),
        forall|i: int|
            0 <= i < r@.len() ==> ((#[trigger] r@[i]).tc matches Some((q, c)) ==> q.in_limit()),
{
    proof {
        reveal_strlit("UNKNOWNSEC");
        reveal_strlit("USD");
    }
    let has_symbol = rec.symbol.as_str().unicode_len() != 0;
    let sec_name = if has_symbol {
        rec.symbol.clone()
    } else {
        String::from_str("UNKNOWNSEC")
    };
    let cash_amt = reverse_sign(&rec.amount);
    let cost = rec.cost.abs();
    let cost_in_range = cost.cents <= AMOUNT_LIMIT;
    let mut res: Vec<InterPost> = Vec::new();
    match rec.tran_type {
        ClosedTranType::BUY => {
            if has_symbol {
                res.push(
                    InterPost {
                        account: sec.clone(),
                        cp: Some((rec.quantity, sec_name)),
                        tc: Some((cost, String::from_str(currency))),
                    },
                );
                res.push(
                    InterPost {
                        account: cash.clone(),
                        cp: Some((cash_amt, String::from_str(currency))),
                        tc: None,
                    },
                );
            }
        },
        ClosedTranType::SEL => {
            if has_symbol {
                res.push(
                    InterPost { account: sec.clone(), cp: Some((rec.quantity, sec_name)), tc: None },
                );
                res.push(
                    InterPost {
                        account: cash.clone(),
                        cp: Some((cash_amt, String::from_str(currency))),
                        tc: None,
                    },
                );
                res.push(InterPost { account: gl.clone(), cp: None, tc: None });
            }
        },
        ClosedTranType::ATI | ClosedTranType::TSF => {
            if has_symbol {
                res.push(
                    InterPost {
                        account: sec.clone(),
                        cp: Some((rec.quantity, sec_name)),
                        tc: Some((cost, String::from_str(currency))),
                    },
                );
            } else {
                res.push(
                    InterPost {
                        account: cash.clone(),
                        cp: Some((cash_amt, String::from_str(currency))),
                        tc: None,
                    },
                );
            }
            res.push(InterPost { account: todo.clone(), cp: None, tc: None });
        },
        ClosedTranType::DVR | ClosedTranType::DVU => {
            let cur = if matches!(rec.tran_type, ClosedTranType::DVU) {
                String::from_str("USD")
            } else {
                String::from_str(currency)
            };
            if rec.amount.is_zero() {
                if !rec.cost.is_zero() {
                    res.push(
                        InterPost {
                            account: sec.clone(),
                            cp: Some((rec.quantity, sec_name)),
                            tc: Some((cost, cur)),
                        },
                    );
                    res.push(InterPost { account: dividend.clone(), cp: None, tc: None });
                }
            } else {
                res.push(InterPost { account: cash.clone(), cp: Some((cash_amt, cur)), tc: None });
                res.push(InterPost { account: dividend.clone(), cp: None, tc: None });
            }
        },
        ClosedTranType::CN | ClosedTranType::CR | ClosedTranType::EFT => {
            res.push(
                InterPost {
                    account: cash.clone(),
                    cp: Some((cash_amt, String::from_str(currency))),
                    tc: None,
                },
            );
            res.push(InterPost { account: todo.clone(), cp: None, tc: None });
        },
        _ => {
            res.push(
                InterPost {
                    account: cash.clone(),
                    cp: Some((cash_amt, String::from_str(currency))),
                    tc: None,
                },
            );
            res.push(InterPost { account: fees.clone(), cp: None, tc: None });
        },
    }
    let _ = cost_in_range;
    res
}

/// Append one classified closed-account row; beside the ledger records
/// the caller receives the `symbol,description` line the importer adds
/// to its commodity table when the row names a symbol.
pub fn store_closed_transaction(
    rec: &ClosedAcctTransRecord,
    narration: String,
    posts: Vec<InterPost>,
    state: &mut LedgerState,
) -> (r: (bool, Option<String>))
    requires
        old(state).line_count + posts@.len() < u32::MAX,
        forall|i: int|
            0 <= i < posts@.len() ==> ((#[trigger] posts@[i]).cp matches Some((q, c))
                ==> q.in_limit()),
        forall|i: int|
            0 <= i < posts@.len() ==> ((#[trigger] posts@[i]).tc matches Some((q, c))
                ==> q.in_limit()),
    ensures
        final(state).verifications@ == old(state).verifications@,
        forall|i: int|
            0 <= i < old(state).postings@.len() ==> final(state).postings@[i] == old(
                state,
            ).postings@[i],
        final(state).postings@.len() >= old(state).postings@.len(),
        forall|i: int|
            old(state).postings@.len() <= i < final(state).postings@.len() ==> (
            #[trigger] final(state).postings@[i]).quantities_in_limit(),
        r.0 ==> final(state).transactions@.len() == old(state).transactions@.len() + 1 && final(state).transactions@.last().date == rec.settled,
        !r.0 ==> final(state).transactions@ == old(state).transactions@ && final(state).postings@
            == old(state).postings@,
        r.1 matches Some(line) ==> line@ == rec.symbol@ + ","@ + rec.description@,
        (r.1 is Some) == (rec.symbol@.len() > 0),
{
    proof {
        reveal_strlit(",");
    }
    let stored = store_inter_posts(state, rec.settled, narration, posts);
    let line = if rec.symbol.as_str().unicode_len() != 0 {
        let mut l = rec.symbol.clone();
        l.append(",");
        l.append(rec.description.as_str());
        Some(l)
    } else {
        None
    };
    (stored, line)
}

/// One parsed holdings row.
pub struct HoldingRecord {
    pub owner: String,
    pub account_number: String,
    pub symbol: String,
    pub holding: String,
    pub quantity: Amount,
    pub fund: String,
}

/// Classify one holdings row into the account and commodity its balance
/// assertion names: cash rows go to the cash account under the fund name
/// when one is given and the statement currency otherwise; any other row
/// asserts the symbol's quantity in the securities account.
pub fn classify_holding(rec: &HoldingRecord, currency: &str) -> (r: (String, String))
    ensures
        rec.holding@ == "CASH"@ ==> r.0@ == "Assets:Investments:"@ + rec.owner@ + ":"@
            + rec.account_number@ + ":Cash"@,
        rec.holding@ == "CASH"@ && rec.fund@.len() > 0 ==> r.1@ == rec.fund@,
        rec.holding@ == "CASH"@ && rec.fund@.len() == 0 ==> r.1@ == currency@,
        rec.holding@ != "CASH"@ ==> r.0@ == "Assets:Investments:"@ + rec.owner@ + ":"@
            + rec.account_number@ + ":Securities"@ && r.1@ == rec.symbol@,
{
    proof {
        reveal_strlit("CASH");
    }
    let is_cash = crate::text::str_eq(rec.holding.as_str(), "CASH");
    if is_cash {
        let account = acct_cash(rec.owner.as_str(), rec.account_number.as_str());
        let com = if rec.fund.as_str().unicode_len() != 0 {
            rec.fund.clone()
        } else {
            String::from_str(currency)
        };
        (account, com)
    } else {
        let account = acct_securities(rec.owner.as_str(), rec.account_number.as_str());
        (account, rec.symbol.clone())
    }
}

/// Append one holdings balance assertion, numbered from the row counter.
pub fn store_balance(
    state: &mut LedgerState,
    date: Date,
    account: String,
    quantity: Amount,
    commodity: String,
)
    requires
        old(state).line_count < u32::MAX,
    ensures
        final(state).verifications@.len() == old(state).verifications@.len() + 1,
        final(state).verifications@.last().statement_no == old(state).line_count,
        final(state).verifications@.last().date == date,
        final(state).verifications@.last().action == crate::records::BALANCE_ACTION,
        final(state).verifications@.last().account@ == account@,
        final(state).verifications@.last().quantity == Some(quantity),
        (final(state).verifications@.last().commodity matches Some(c) && c@ == commodity@),
        forall|i: int|
            0 <= i < old(state).verifications@.len() ==> final(state).verifications@[i] == old(
                state,
            ).verifications@[i],
        final(state).transactions@ == old(state).transactions@,
        final(state).postings@ == old(state).postings@,
        final(state).includes@ == old(state).includes@,
        final(state).informationals@ == old(state).informationals@,
{
    let posno = state.next_line_no();
    state.verifications.push(
        crate::records::VerificationParams {
            statement_no: posno,
            file_no: 0,
            start: 0,
            end: 0,
            date,
            action: crate::records::BALANCE_ACTION,
            account,
            quantity: Some(quantity),
            commodity: Some(commodity),
        },
    );
}

} // verus!
