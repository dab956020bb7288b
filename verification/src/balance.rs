use vstd::prelude::*;
use crate::amount::{Amount, AMOUNT_LIMIT};
use crate::records::PostingParams;
use crate::text::{lex_le, lex_lt, lemma_lex_lt_total, lemma_lex_lt_asym, str_lex_lt};

verus! {

/// Most rows the balancer accepts in one run; keeps every sum inside the
/// fixed-point range.
pub const ROW_LIMIT: usize = 1_000_000_000;

/// One row of the materialized `final_postings` table: the posting with
/// both legs filled in wherever the residual could supply them.
pub struct FinalPosting {
    pub statement_no: u32,
    pub transaction_no: u32,
    pub file_no: u32,
    pub start: u32,
    pub account: String,
    pub final_cp_quantity: Option<Amount>,
    pub final_cp_commodity: Option<String>,
    pub final_tc_quantity: Option<Amount>,
    pub final_tc_commodity: Option<String>,
}

/// One diagnosed imbalance: a transaction-and-commodity group whose filled
/// trade-cost quantities do not sum to zero, or a group left without a
/// commodity.
pub struct BalanceError {
    pub transaction_no: u32,
    pub commodity: Option<String>,
    pub totals: Amount,
}

/// The balancer's output.
pub struct BalanceResult {
    pub final_postings: Vec<FinalPosting>,
    pub errors: Vec<BalanceError>,
}

/// Contribution of one raw posting to the trade-cost sum of `(t, c)`.
pub open spec fn tc_contrib(p: PostingParams, t: u32, c: Seq<char>) -> int {
    if p.transaction_no == t && (p.tc_commodity matches Some(cm) && cm@ == c) && (
    p.tc_quantity matches Some(q)) {
        p.tc_quantity->Some_0.cents as int
    } else {
        0
    }
}

/// Trade-cost sum of a transaction and commodity over the raw postings.
pub open spec fn sum_tc(s: Seq<PostingParams>, t: u32, c: Seq<char>) -> int
    decreases s.len(),
{
    if s.len() == 0 {
        0
    } else {
        sum_tc(s.drop_last(), t, c) + tc_contrib(s.last(), t, c)
    }
}

/// Contribution of one final row to the trade-cost sum of `(t, c)`, where
/// `c` of `None` collects the rows left without a commodity.
pub open spec fn final_contrib(p: FinalPosting, t: u32, c: Option<Seq<char>>) -> int {
    if p.transaction_no == t && (match c {
        Some(cv) => p.final_tc_commodity matches Some(cm) && cm@ == cv,
        None => p.final_tc_commodity is None,
    }) && (p.final_tc_quantity matches Some(q)) {
        p.final_tc_quantity->Some_0.cents as int
    } else {
        0
    }
}

/// Trade-cost sum of a transaction and commodity over the final rows.
pub open spec fn sum_final_tc(s: Seq<FinalPosting>, t: u32, c: Option<Seq<char>>) -> int
    decreases s.len(),
{
    if s.len() == 0 {
        0
    } else {
        sum_final_tc(s.drop_last(), t, c) + final_contrib(s.last(), t, c)
    }
}

/// `c` is the designated residual commodity of transaction `t`: its raw sum
/// is not zero and it is the lexicographically least such commodity.
pub open spec fn is_designated(s: Seq<PostingParams>, t: u32, c: Seq<char>) -> bool {
    &&& sum_tc(s, t, c) != 0
    &&& forall|c2: Seq<char>| #[trigger] sum_tc(s, t, c2) != 0 ==> lex_le(c, c2)
}

pub proof fn lemma_sum_tc_bound(s: Seq<PostingParams>, t: u32, c: Seq<char>)
    requires
        forall|i: int| 0 <= i < s.len() ==> (#[trigger] s[i]).quantities_in_limit(),
    ensures
        -(s.len() as int) * AMOUNT_LIMIT <= sum_tc(s, t, c) <= (s.len() as int) * AMOUNT_LIMIT,
    decreases s.len(),
{
    if s.len() > 0 {
        assert(forall|i: int|
            0 <= i < s.drop_last().len() ==> (#[trigger] s.drop_last()[i]).quantities_in_limit());
        lemma_sum_tc_bound(s.drop_last(), t, c);
        assert(s.last().quantities_in_limit());
        assert((s.len() as int) * AMOUNT_LIMIT == (s.len() - 1) as int * AMOUNT_LIMIT
            + AMOUNT_LIMIT) by (nonlinear_arith);
    }
}

/// The raw sums restricted to a prefix extend one row at a time.
pub proof fn lemma_sum_tc_extend(s: Seq<PostingParams>, k: int, t: u32, c: Seq<char>)
    requires
        0 <= k < s.len(),
    ensures
        sum_tc(s.subrange(0, k + 1), t, c) == sum_tc(s.subrange(0, k), t, c) + tc_contrib(
            s[k],
            t,
            c,
        ),
{
    assert(s.subrange(0, k + 1).drop_last() =~= s.subrange(0, k));
    assert(s.subrange(0, k + 1).last() == s[k]);
}

pub proof fn lemma_sum_final_extend(s: Seq<FinalPosting>, k: int, t: u32, c: Option<Seq<char>>)
    requires
        0 <= k < s.len(),
    ensures
        sum_final_tc(s.subrange(0, k + 1), t, c) == sum_final_tc(s.subrange(0, k), t, c)
            + final_contrib(s[k], t, c),
{
    assert(s.subrange(0, k + 1).drop_last() =~= s.subrange(0, k));
    assert(s.subrange(0, k + 1).last() == s[k]);
}

/// Accumulated trade-cost group of the first pass.
struct TcGroup {
    t: u32,
    com: String,
    total: i128,
}

/// First pass: group the raw postings with a trade-cost leg by transaction
/// and commodity and total their quantities.
fn tc_groups(postings: &Vec<PostingParams>) -> (groups: Vec<TcGroup>)
    requires
        postings@.len() <= ROW_LIMIT,
        forall|i: int|
            0 <= i < postings@.len() ==> (#[trigger] postings@[i]).quantities_in_limit(),
    ensures
        forall|g: int|
            0 <= g < groups@.len() ==> (#[trigger] groups@[g]).total == sum_tc(
                postings@,
                groups@[g].t,
                groups@[g].com@,
            ),
        forall|g: int, h: int|
            0 <= g < h < groups@.len() ==> !((#[trigger] groups@[g]).t == (
            #[trigger] groups@[h]).t && groups@[g].com@ == groups@[h].com@),
        forall|t: u32, c: Seq<char>|
            sum_tc(postings@, t, c) != 0 ==> exists|g: int|
                0 <= g < groups@.len() && (#[trigger] groups@[g]).t == t && groups@[g].com@ == c,
{
    let n = postings.len();
    let mut groups: Vec<TcGroup> = Vec::new();
    let mut i: usize = 0;
    while i < n
        invariant
            n == postings@.len(),
            n <= ROW_LIMIT,
            i <= n,
            forall|k: int|
                0 <= k < postings@.len() ==> (#[trigger] postings@[k]).quantities_in_limit(),
            forall|g: int|
                0 <= g < groups@.len() ==> (#[trigger] groups@[g]).total == sum_tc(
                    postings@.subrange(0, i as int),
                    groups@[g].t,
                    groups@[g].com@,
                ),
            forall|g: int, h: int|
                0 <= g < h < groups@.len() ==> !((#[trigger] groups@[g]).t == (
                #[trigger] groups@[h]).t && groups@[g].com@ == groups@[h].com@),
            forall|t: u32, c: Seq<char>|
                sum_tc(postings@.subrange(0, i as int), t, c) != 0 ==> exists|g: int|
                    0 <= g < groups@.len() && (#[trigger] groups@[g]).t == t && groups@[g].com@
                        == c,
            forall|g: int|
                0 <= g < groups@.len() ==> -(i as int) * AMOUNT_LIMIT <= (
                #[trigger] groups@[g]).total <= (i as int) * AMOUNT_LIMIT,
        decreases n - i,
    {
        let ghost pre = postings@.subrange(0, i as int);
        let p = &postings[i];
        let has_leg = p.tc_commodity.is_some() && p.tc_quantity.is_some();
        if has_leg {
            let q = match p.tc_quantity {
                Some(q) => q,
                None => Amount { cents: 0 },
            };
            let com_ref = match &p.tc_commodity {
                Some(c) => c,
                None => &p.account,
            };
            // find the group of (transaction_no, commodity)
            let mut g: usize = 0;
            while g < groups.len() && !(groups[g].t == p.transaction_no && groups[g].com.eq(
                com_ref,
            ))
                invariant
                    g <= groups@.len(),
                    forall|k: int|
                        0 <= k < g ==> !((#[trigger] groups@[k]).t == p.transaction_no
                            && groups@[k].com@ == com_ref@),
                decreases groups@.len() - g,
            {
                g = g + 1;
            }
            let found = g < groups.len();
            proof {
                lemma_sum_tc_bound(pre, p.transaction_no, com_ref@);
                assert((i as int) * AMOUNT_LIMIT <= (ROW_LIMIT as int) * AMOUNT_LIMIT)
                    by (nonlinear_arith)
                    requires
                        0 <= i as int <= ROW_LIMIT as int,
                ;
            }
            let ghost pre_groups = groups@;
            let ghost gw: int = if found {
                g as int
            } else {
                groups@.len() as int
            };
            if found {
                let old_total = groups[g].total;
                let new_total = old_total + q.cents;
                let com2 = groups[g].com.clone();
                groups.set(g, TcGroup { t: p.transaction_no, com: com2, total: new_total });
            } else {
                groups.push(TcGroup { t: p.transaction_no, com: com_ref.clone(), total: q.cents });
            }
            proof {
                assert(0 <= gw < groups@.len() && groups@[gw].t == p.transaction_no
                    && groups@[gw].com@ == com_ref@);
                assert forall|g2: int| 0 <= g2 < groups@.len() implies (
                #[trigger] groups@[g2]).total == sum_tc(
                    postings@.subrange(0, i + 1),
                    groups@[g2].t,
                    groups@[g2].com@,
                ) by {
                    lemma_sum_tc_extend(postings@, i as int, groups@[g2].t, groups@[g2].com@);
                }
                assert forall|t: u32, c: Seq<char>|
                    #[trigger] sum_tc(postings@.subrange(0, i + 1), t, c) != 0 implies exists|
                    g2: int,
                |
                    0 <= g2 < groups@.len() && (#[trigger] groups@[g2]).t == t && groups@[g2].com@
                        == c by {
                    lemma_sum_tc_extend(postings@, i as int, t, c);
                    if sum_tc(pre, t, c) != 0 {
                        let g3 = choose|g3: int|
                            0 <= g3 < pre_groups.len() && (#[trigger] pre_groups[g3]).t == t
                                && pre_groups[g3].com@ == c;
                        if found && g3 == gw {
                            assert(groups@[gw].t == t && groups@[gw].com@ == c);
                        } else {
                            assert(groups@[g3].t == t && groups@[g3].com@ == c);
                        }
                    } else {
                        assert(tc_contrib(postings@[i as int], t, c) != 0);
                        assert(t == p.transaction_no && c == com_ref@);
                        assert(groups@[gw].t == t && groups@[gw].com@ == c);
                    }
                }
                assert forall|g2: int| 0 <= g2 < groups@.len() implies -(i + 1) * AMOUNT_LIMIT <= (
                #[trigger] groups@[g2]).total <= (i + 1) * AMOUNT_LIMIT by {
                    let gg = groups@[g2];
                    lemma_sum_tc_bound(postings@.subrange(0, i + 1), gg.t, gg.com@);
                }
            }
        } else {
            proof {
                assert(postings@.subrange(0, i + 1).drop_last() =~= pre);
                assert forall|t: u32, c: Seq<char>|
                    #[trigger] sum_tc(postings@.subrange(0, i + 1), t, c) == sum_tc(pre, t, c) by {
                    lemma_sum_tc_extend(postings@, i as int, t, c);
                }
            }
        }
        i = i + 1;
    }
    proof {
        assert(postings@.subrange(0, n as int) =~= postings@);
    }
    groups
}

/// A designated residual: the transaction, its chosen commodity and the
/// negated sum to be filled in.
struct Residual {
    t: u32,
    com: String,
    totals: Amount,
}

/// Second pass: keep, per transaction, the lexicographically least
/// commodity whose sum is not zero, with the negated sum.
fn select_residuals(groups: &Vec<TcGroup>, Ghost(ps): Ghost<Seq<PostingParams>>) -> (res: Vec<
    Residual,
>)
    requires
        forall|g: int|
            0 <= g < groups@.len() ==> (#[trigger] groups@[g]).total == sum_tc(
                ps,
                groups@[g].t,
                groups@[g].com@,
            ),
        forall|g: int, h: int|
            0 <= g < h < groups@.len() ==> !((#[trigger] groups@[g]).t == (
            #[trigger] groups@[h]).t && groups@[g].com@ == groups@[h].com@),
        forall|t: u32, c: Seq<char>|
            #[trigger] sum_tc(ps, t, c) != 0 ==> exists|g: int|
                0 <= g < groups@.len() && (#[trigger] groups@[g]).t == t && groups@[g].com@ == c,
        forall|g: int|
            0 <= g < groups@.len() ==> -(ROW_LIMIT as int) * AMOUNT_LIMIT <= (
            #[trigger] groups@[g]).total <= (ROW_LIMIT as int) * AMOUNT_LIMIT,
    ensures
        forall|r: int|
            0 <= r < res@.len() ==> is_designated(ps, (#[trigger] res@[r]).t, res@[r].com@),
        forall|r: int|
            0 <= r < res@.len() ==> (#[trigger] res@[r]).totals.cents == -sum_tc(
                ps,
                res@[r].t,
                res@[r].com@,
            ),
        forall|r: int, r2: int| 0 <= r < r2 < res@.len() ==> (#[trigger] res@[r]).t != (
        #[trigger] res@[r2]).t,
        forall|t: u32, c: Seq<char>|
            #[trigger] sum_tc(ps, t, c) != 0 ==> exists|r: int|
                0 <= r < res@.len() && (#[trigger] res@[r]).t == t,
{
    let n = groups.len();
    let mut res: Vec<Residual> = Vec::new();
    let mut i: usize = 0;
    while i < n
        invariant
            n == groups@.len(),
            i <= n,
            forall|g: int|
                0 <= g < groups@.len() ==> (#[trigger] groups@[g]).total == sum_tc(
                    ps,
                    groups@[g].t,
                    groups@[g].com@,
                ),
            forall|g: int, h: int|
                0 <= g < h < groups@.len() ==> !((#[trigger] groups@[g]).t == (
                #[trigger] groups@[h]).t && groups@[g].com@ == groups@[h].com@),
            forall|g: int|
                0 <= g < groups@.len() ==> -(ROW_LIMIT as int) * AMOUNT_LIMIT <= (
                #[trigger] groups@[g]).total <= (ROW_LIMIT as int) * AMOUNT_LIMIT,
            forall|r: int|
                0 <= r < res@.len() ==> (#[trigger] res@[r]).totals.cents == -sum_tc(
                    ps,
                    res@[r].t,
                    res@[r].com@,
                ) && sum_tc(ps, res@[r].t, res@[r].com@) != 0,
            forall|r: int, g: int|
                0 <= r < res@.len() && 0 <= g < i && (#[trigger] groups@[g]).t == (
                #[trigger] res@[r]).t && groups@[g].total != 0 ==> lex_le(
                    res@[r].com@,
                    groups@[g].com@,
                ),
            forall|r: int, r2: int| 0 <= r < r2 < res@.len() ==> (#[trigger] res@[r]).t != (
            #[trigger] res@[r2]).t,
            forall|g: int|
                0 <= g < i && (#[trigger] groups@[g]).total != 0 ==> exists|r: int|
                    0 <= r < res@.len() && (#[trigger] res@[r]).t == groups@[g].t,
        decreases n - i,
    {
        let gr = &groups[i];
        let ghost pre_res = res@;
        if gr.total != 0 {
            // find an existing residual for this transaction
            let mut r: usize = 0;
            while r < res.len() && res[r].t != gr.t
                invariant
                    r <= res@.len(),
                    forall|k: int| 0 <= k < r ==> (#[trigger] res@[k]).t != gr.t,
                decreases res@.len() - r,
            {
                r = r + 1;
            }
            if r == res.len() {
                proof {
                    assert forall|g: int|
                        0 <= g < i && (#[trigger] groups@[g]).t == gr.t implies !(groups@[g].total
                        != 0) by {
                        if groups@[g].total != 0 {
                            let rw = choose|rw: int|
                                0 <= rw < res@.len() && (#[trigger] res@[rw]).t == groups@[g].t;
                            assert(res@[rw].t != gr.t);
                        }
                    }
                }
                res.push(Residual { t: gr.t, com: gr.com.clone(), totals: Amount { cents: -gr.total } });
            } else {
                if str_lex_lt(gr.com.as_str(), res[r].com.as_str()) {
                    proof {
                        let rv = res@[r as int];
                        lemma_lex_lt_asym(gr.com@, rv.com@);
                        assert forall|g: int|
                            0 <= g < i && (#[trigger] groups@[g]).t == gr.t && groups@[g].total
                                != 0 implies lex_le(gr.com@, groups@[g].com@) by {
                            crate::text::lemma_lex_le_trans(gr.com@, rv.com@, groups@[g].com@);
                        }
                    }
                    res.set(
                        r,
                        Residual { t: gr.t, com: gr.com.clone(), totals: Amount { cents: -gr.total } },
                    );
                } else {
                    proof {
                        lemma_lex_lt_total(res@[r as int].com@, gr.com@);
                    }
                }
            }
            proof {
                assert(exists|rr: int|
                    0 <= rr < res@.len() && (#[trigger] res@[rr]).t == gr.t) by {
                    if r < pre_res.len() {
                        assert(res@[r as int].t == gr.t);
                    } else {
                        assert(res@[res@.len() - 1].t == gr.t);
                    }
                }
                assert forall|g: int|
                    0 <= g < i + 1 && (#[trigger] groups@[g]).total != 0 implies exists|rr: int|
                    0 <= rr < res@.len() && (#[trigger] res@[rr]).t == groups@[g].t by {
                    if g < i {
                        let rw = choose|rw: int|
                            0 <= rw < pre_res.len() && (#[trigger] pre_res[rw]).t == groups@[g].t;
                        assert(res@[rw].t == groups@[g].t);
                    } else {
                        assert(groups@[g].t == gr.t);
                    }
                }
            }
        }
        i = i + 1;
    }
    proof {
        assert forall|r: int| 0 <= r < res@.len() implies is_designated(
            ps,
            (#[trigger] res@[r]).t,
            res@[r].com@,
        ) by {
            let rv = res@[r];
            assert forall|c2: Seq<char>| #[trigger] sum_tc(ps, rv.t, c2) != 0 implies lex_le(
                rv.com@,
                c2,
            ) by {
                let g = choose|g: int|
                    0 <= g < groups@.len() && (#[trigger] groups@[g]).t == rv.t && groups@[g].com@
                        == c2;
                assert(groups@[g].total != 0);
            }
        }
        assert forall|t: u32, c: Seq<char>| #[trigger] sum_tc(ps, t, c) != 0 implies exists|
            r: int,
        | 0 <= r < res@.len() && (#[trigger] res@[r]).t == t by {
            let g = choose|g: int|
                0 <= g < groups@.len() && (#[trigger] groups@[g]).t == t && groups@[g].com@ == c;
            assert(groups@[g].total != 0);
        }
    }
    res
}

/// Bound on any quantity a final row can hold: a raw quantity or a
/// residual, which is a sum of at most `ROW_LIMIT` raw quantities.
pub const FINAL_LIMIT: i128 = 1_000_000_000_000_000_000_000_000;

/// View of an optional commodity.
pub open spec fn ov(o: Option<String>) -> Option<Seq<char>> {
    match o {
        Some(s) => Some(s@),
        None => None,
    }
}

pub proof fn lemma_designated_unique(ps: Seq<PostingParams>, t: u32, c1: Seq<char>, c2: Seq<char>)
    requires
        is_designated(ps, t, c1),
        is_designated(ps, t, c2),
    ensures
        c1 == c2,
{
    if c1 != c2 {
        assert(lex_le(c1, c2) && lex_le(c2, c1));
        lemma_lex_lt_asym(c1, c2);
    }
}

/// How one final row relates to its raw posting: equal provenance, and
/// each leg either carried over or coalesced with the transaction's
/// designated residual.
pub open spec fn final_row_ok(ps: Seq<PostingParams>, p: PostingParams, f: FinalPosting) -> bool {
    &&& f.statement_no == p.statement_no
    &&& f.transaction_no == p.transaction_no
    &&& f.file_no == p.file_no
    &&& f.start == p.start
    &&& f.account@ == p.account@
    &&& (match p.cp_commodity {
        Some(c) => f.final_cp_commodity matches Some(fc) && fc@ == c@,
        None => fill_com_ok(ps, p.transaction_no, f.final_cp_commodity),
    })
    &&& (match p.cp_quantity {
        Some(q) => f.final_cp_quantity == Some(q),
        None => fill_qty_ok(ps, p.transaction_no, f.final_cp_quantity),
    })
    &&& (match p.tc_commodity {
        Some(c) => f.final_tc_commodity matches Some(fc) && fc@ == c@,
        None => fill_com_ok(ps, p.transaction_no, f.final_tc_commodity),
    })
    &&& (match p.tc_quantity {
        Some(q) => f.final_tc_quantity == Some(q),
        None => fill_qty_ok(ps, p.transaction_no, f.final_tc_quantity),
    })
}

/// A missing commodity is filled with the designated residual commodity,
/// or stays missing when every commodity of the transaction sums to zero.
pub open spec fn fill_com_ok(ps: Seq<PostingParams>, t: u32, o: Option<String>) -> bool {
    match o {
        Some(c) => is_designated(ps, t, c@),
        None => forall|c: Seq<char>| #[trigger] sum_tc(ps, t, c) == 0,
    }
}

/// A missing quantity is filled with the negated sum of the designated
/// residual commodity, or stays missing.
pub open spec fn fill_qty_ok(ps: Seq<PostingParams>, t: u32, o: Option<Amount>) -> bool {
    match o {
        Some(a) => exists|c: Seq<char>|
            is_designated(ps, t, c) && a.cents == -(#[trigger] sum_tc(ps, t, c)),
        None => forall|c: Seq<char>| #[trigger] sum_tc(ps, t, c) == 0,
    }
}

/// Third pass: left-join the raw postings with the designated residuals
/// and coalesce each leg.
fn build_final(postings: &Vec<PostingParams>, res: &Vec<Residual>) -> (out: Vec<FinalPosting>)
    requires
        postings@.len() <= ROW_LIMIT,
        forall|i: int|
            0 <= i < postings@.len() ==> (#[trigger] postings@[i]).quantities_in_limit(),
        forall|r: int|
            0 <= r < res@.len() ==> is_designated(postings@, (#[trigger] res@[r]).t, res@[r].com@),
        forall|r: int|
            0 <= r < res@.len() ==> (#[trigger] res@[r]).totals.cents == -sum_tc(
                postings@,
                res@[r].t,
                res@[r].com@,
            ),
        forall|t: u32, c: Seq<char>|
            #[trigger] sum_tc(postings@, t, c) != 0 ==> exists|r: int|
                0 <= r < res@.len() && (#[trigger] res@[r]).t == t,
    ensures
        out@.len() == postings@.len(),
        forall|i: int|
            0 <= i < out@.len() ==> final_row_ok(postings@, postings@[i], #[trigger] out@[i]),
        forall|i: int|
            0 <= i < out@.len() ==> ((#[trigger] out@[i]).final_tc_quantity matches Some(q)
                ==> -FINAL_LIMIT <= q.cents <= FINAL_LIMIT),
{
    let n = postings.len();
    let mut out: Vec<FinalPosting> = Vec::new();
    let mut i: usize = 0;
    while i < n
        invariant
            n == postings@.len(),
            n <= ROW_LIMIT,
            i <= n,
            out@.len() == i,
            forall|k: int|
                0 <= k < postings@.len() ==> (#[trigger] postings@[k]).quantities_in_limit(),
            forall|r: int|
                0 <= r < res@.len() ==> is_designated(
                    postings@,
                    (#[trigger] res@[r]).t,
                    res@[r].com@,
                ),
            forall|r: int|
                0 <= r < res@.len() ==> (#[trigger] res@[r]).totals.cents == -sum_tc(
                    postings@,
                    res@[r].t,
                    res@[r].com@,
                ),
            forall|t: u32, c: Seq<char>|
                #[trigger] sum_tc(postings@, t, c) != 0 ==> exists|r: int|
                    0 <= r < res@.len() && (#[trigger] res@[r]).t == t,
            forall|k: int|
                0 <= k < out@.len() ==> final_row_ok(postings@, postings@[k], #[trigger] out@[k]),
            forall|k: int|
                0 <= k < out@.len() ==> ((#[trigger] out@[k]).final_tc_quantity matches Some(q)
                    ==> -FINAL_LIMIT <= q.cents <= FINAL_LIMIT),
        decreases n - i,
    {
        let p = &postings[i];
        let mut r: usize = 0;
        while r < res.len() && res[r].t != p.transaction_no
            invariant
                r <= res@.len(),
                forall|k: int| 0 <= k < r ==> (#[trigger] res@[k]).t != p.transaction_no,
            decreases res@.len() - r,
        {
            r = r + 1;
        }
        let row = if r < res.len() {
            proof {
                lemma_sum_tc_bound(postings@, res@[r as int].t, res@[r as int].com@);
                assert((postings@.len() as int) * AMOUNT_LIMIT <= (ROW_LIMIT as int)
                    * AMOUNT_LIMIT) by (nonlinear_arith)
                    requires
                        0 <= postings@.len() as int <= ROW_LIMIT as int,
                ;
            }
            let rr = &res[r];
            FinalPosting {
                statement_no: p.statement_no,
                transaction_no: p.transaction_no,
                file_no: p.file_no,
                start: p.start,
                account: p.account.clone(),
                final_cp_quantity: match p.cp_quantity {
                    Some(q) => Some(q),
                    None => Some(rr.totals),
                },
                final_cp_commodity: match &p.cp_commodity {
                    Some(c) => Some(c.clone()),
                    None => Some(rr.com.clone()),
                },
                final_tc_quantity: match p.tc_quantity {
                    Some(q) => Some(q),
                    None => Some(rr.totals),
                },
                final_tc_commodity: match &p.tc_commodity {
                    Some(c) => Some(c.clone()),
                    None => Some(rr.com.clone()),
                },
            }
        } else {
            proof {
                assert forall|c: Seq<char>| #[trigger] sum_tc(
                    postings@,
                    p.transaction_no,
                    c,
                ) == 0 by {
                    if sum_tc(postings@, p.transaction_no, c) != 0 {
                        let rw = choose|rw: int|
                            0 <= rw < res@.len() && (#[trigger] res@[rw]).t == p.transaction_no;
                        assert(res@[rw].t != p.transaction_no);
                    }
                }
            }
            FinalPosting {
                statement_no: p.statement_no,
                transaction_no: p.transaction_no,
                file_no: p.file_no,
                start: p.start,
                account: p.account.clone(),
                final_cp_quantity: p.cp_quantity,
                final_cp_commodity: p.cp_commodity.clone(),
                final_tc_quantity: p.tc_quantity,
                final_tc_commodity: p.tc_commodity.clone(),
            }
        };
        out.push(row);
        i = i + 1;
    }
    out
}

/// Equality of optional commodities by text.
pub(crate) fn opt_com_eq(a: &Option<String>, b: &Option<String>) -> (r: bool)
    ensures
        r == (ov(*a) == ov(*b)),
{
    match (a, b) {
        (Some(x), Some(y)) => x.eq(y),
        (None, None) => true,
        _ => false,
    }
}

/// Fourth pass: group the final rows by transaction and (possibly
/// missing) commodity, and keep the groups that are out of balance or
/// that never received a commodity.
/// Among the first `upto` final rows, some row of transaction `t` lacks
/// a trade-cost commodity.
pub open spec fn none_row_before(rows: Seq<FinalPosting>, t: u32, upto: int) -> bool {
    exists|k: int|
        0 <= k < upto && (#[trigger] rows[k]).transaction_no == t
            && rows[k].final_tc_commodity is None
}

proof fn lemma_none_row_mono(rows: Seq<FinalPosting>, t: u32, a: int, b: int)
    requires
        none_row_before(rows, t, a),
        a <= b,
    ensures
        none_row_before(rows, t, b),
{
    let k = choose|k: int|
        0 <= k < a && (#[trigger] rows[k]).transaction_no == t
            && rows[k].final_tc_commodity is None;
    assert(0 <= k < b && rows[k].transaction_no == t && rows[k].final_tc_commodity is None);
}

#[verifier::rlimit(100)]
fn collect_errors(rows: &Vec<FinalPosting>) -> (errs: Vec<BalanceError>)
    requires
        rows@.len() <= ROW_LIMIT,
        forall|i: int|
            0 <= i < rows@.len() ==> ((#[trigger] rows@[i]).final_tc_quantity matches Some(q)
                ==> -FINAL_LIMIT <= q.cents <= FINAL_LIMIT),
    ensures
        forall|e: int|
            0 <= e < errs@.len() ==> (#[trigger] errs@[e]).totals.cents == sum_final_tc(
                rows@,
                errs@[e].transaction_no,
                ov(errs@[e].commodity),
            ),
        forall|e: int|
            0 <= e < errs@.len() && (#[trigger] errs@[e]).commodity is Some
                ==> errs@[e].totals.cents != 0,
        forall|t: u32, c: Seq<char>|
            #[trigger] sum_final_tc(rows@, t, Some(c)) != 0 ==> exists|e: int|
                0 <= e < errs@.len() && (#[trigger] errs@[e]).transaction_no == t && ov(
                    errs@[e].commodity,
                ) == Some(c),
        forall|i: int|
            0 <= i < rows@.len() && (#[trigger] rows@[i]).final_tc_commodity is None ==> exists|
                e: int,
            |
                0 <= e < errs@.len() && (#[trigger] errs@[e]).transaction_no == rows@[i].transaction_no && errs@[e].commodity is None,
        forall|e1: int, e2: int|
            0 <= e1 < e2 < errs@.len() ==> !((#[trigger] errs@[e1]).transaction_no == (
            #[trigger] errs@[e2]).transaction_no && ov(errs@[e1].commodity) == ov(
                errs@[e2].commodity,
            )),
        forall|e: int|
            0 <= e < errs@.len() && (#[trigger] errs@[e]).commodity is None ==> none_row_before(
                rows@,
                errs@[e].transaction_no,
                rows@.len() as int,
            ),
{
    let n = rows.len();
    let mut groups: Vec<BalanceError> = Vec::new();
    let mut i: usize = 0;
    while i < n
        invariant
            n == rows@.len(),
            n <= ROW_LIMIT,
            i <= n,
            forall|k: int|
                0 <= k < rows@.len() ==> ((#[trigger] rows@[k]).final_tc_quantity matches Some(q)
                    ==> -FINAL_LIMIT <= q.cents <= FINAL_LIMIT),
            forall|g: int|
                0 <= g < groups@.len() ==> (#[trigger] groups@[g]).totals.cents == sum_final_tc(
                    rows@.subrange(0, i as int),
                    groups@[g].transaction_no,
                    ov(groups@[g].commodity),
                ),
            forall|g: int, h: int|
                0 <= g < h < groups@.len() ==> !((#[trigger] groups@[g]).transaction_no == (
                #[trigger] groups@[h]).transaction_no && ov(groups@[g].commodity) == ov(
                    groups@[h].commodity,
                )),
            forall|t: u32, c: Option<Seq<char>>|
                #[trigger] sum_final_tc(rows@.subrange(0, i as int), t, c) != 0 ==> exists|g: int|
                    0 <= g < groups@.len() && (#[trigger] groups@[g]).transaction_no == t && ov(
                        groups@[g].commodity,
                    ) == c,
            forall|k: int|
                0 <= k < i && (#[trigger] rows@[k]).final_tc_commodity is None ==> exists|g: int|
                    0 <= g < groups@.len() && (#[trigger] groups@[g]).transaction_no == rows@[k].transaction_no && groups@[g].commodity is None,
            forall|g: int|
                0 <= g < groups@.len() ==> -(i as int) * FINAL_LIMIT <= (
                #[trigger] groups@[g]).totals.cents <= (i as int) * FINAL_LIMIT,
            forall|g: int|
                0 <= g < groups@.len() && (#[trigger] groups@[g]).commodity is None
                    ==> none_row_before(rows@, groups@[g].transaction_no, i as int),
        decreases n - i,
    {
        let ghost pre = rows@.subrange(0, i as int);
        let row = &rows[i];
        let qc: i128 = match row.final_tc_quantity {
            Some(q) => q.cents,
            None => 0,
        };
        // find the group keyed by (transaction_no, commodity)
        let mut g: usize = 0;
        while g < groups.len() && !(groups[g].transaction_no == row.transaction_no && opt_com_eq(
            &groups[g].commodity,
            &row.final_tc_commodity,
        ))
            invariant
                g <= groups@.len(),
                forall|k: int|
                    0 <= k < g ==> !((#[trigger] groups@[k]).transaction_no == row.transaction_no
                        && ov(groups@[k].commodity) == ov(row.final_tc_commodity)),
            decreases groups@.len() - g,
        {
            g = g + 1;
        }
        let found = g < groups.len();
        proof {
            lemma_sum_final_bound(pre, row.transaction_no, ov(row.final_tc_commodity));
            assert((i as int) * FINAL_LIMIT <= (ROW_LIMIT as int) * FINAL_LIMIT)
                by (nonlinear_arith)
                requires
                    0 <= i as int <= ROW_LIMIT as int,
            ;
        }
        let ghost pre_groups = groups@;
        let ghost gw: int = if found {
            g as int
        } else {
            groups@.len() as int
        };
        if found {
            let new_total = groups[g].totals.cents + qc;
            let com2 = match &groups[g].commodity {
                Some(c) => Some(c.clone()),
                None => None,
            };
            groups.set(
                g,
                BalanceError {
                    transaction_no: row.transaction_no,
                    commodity: com2,
                    totals: Amount { cents: new_total },
                },
            );
        } else {
            let com2 = match &row.final_tc_commodity {
                Some(c) => Some(c.clone()),
                None => None,
            };
            groups.push(
                BalanceError {
                    transaction_no: row.transaction_no,
                    commodity: com2,
                    totals: Amount { cents: qc },
                },
            );
        }
        proof {
            assert(0 <= gw < groups@.len() && groups@[gw].transaction_no == row.transaction_no
                && ov(groups@[gw].commodity) == ov(row.final_tc_commodity));
            assert forall|g2: int| 0 <= g2 < groups@.len() implies (
            #[trigger] groups@[g2]).totals.cents == sum_final_tc(
                rows@.subrange(0, i + 1),
                groups@[g2].transaction_no,
                ov(groups@[g2].commodity),
            ) by {
                lemma_sum_final_extend(
                    rows@,
                    i as int,
                    groups@[g2].transaction_no,
                    ov(groups@[g2].commodity),
                );
            }
            assert forall|t: u32, c: Option<Seq<char>>|
                #[trigger] sum_final_tc(rows@.subrange(0, i + 1), t, c) != 0 implies exists|
                g2: int,
            |
                0 <= g2 < groups@.len() && (#[trigger] groups@[g2]).transaction_no == t && ov(
                    groups@[g2].commodity,
                ) == c by {
                lemma_sum_final_extend(rows@, i as int, t, c);
                if sum_final_tc(pre, t, c) != 0 {
                    let g3 = choose|g3: int|
                        0 <= g3 < pre_groups.len() && (#[trigger] pre_groups[g3]).transaction_no
                            == t && ov(pre_groups[g3].commodity) == c;
                    if found && g3 == gw {
                        assert(groups@[gw].transaction_no == t && ov(groups@[gw].commodity) == c);
                    } else {
                        assert(groups@[g3].transaction_no == t && ov(groups@[g3].commodity) == c);
                    }
                } else {
                    assert(final_contrib(rows@[i as int], t, c) != 0);
                    assert(groups@[gw].transaction_no == t && ov(groups@[gw].commodity) == c);
                }
            }
            assert forall|k: int|
                0 <= k < i + 1 && (#[trigger] rows@[k]).final_tc_commodity is None implies exists|
                g2: int,
            |
                0 <= g2 < groups@.len() && (#[trigger] groups@[g2]).transaction_no == rows@[k].transaction_no && groups@[g2].commodity is None by {
                if k < i {
                    let g3 = choose|g3: int|
                        0 <= g3 < pre_groups.len() && (#[trigger] pre_groups[g3]).transaction_no
                            == rows@[k].transaction_no && pre_groups[g3].commodity is None;
                    if found && g3 == gw {
                        assert(groups@[gw].commodity is None);
                    } else {
                        assert(groups@[g3].transaction_no == rows@[k].transaction_no
                            && groups@[g3].commodity is None);
                    }
                } else {
                    assert(ov(groups@[gw].commodity) == ov(rows@[k].final_tc_commodity));
                }
            }
            assert forall|g2: int| 0 <= g2 < groups@.len() implies -(i + 1) * FINAL_LIMIT <= (
            #[trigger] groups@[g2]).totals.cents <= (i + 1) * FINAL_LIMIT by {
                let gg = groups@[g2];
                lemma_sum_final_bound(
                    rows@.subrange(0, i + 1),
                    gg.transaction_no,
                    ov(gg.commodity),
                );
            }
            assert forall|g2: int|
                0 <= g2 < groups@.len() && (#[trigger] groups@[g2]).commodity is None implies
                none_row_before(rows@, groups@[g2].transaction_no, i + 1) by {
                if g2 == gw {
                    if found {
                        assert(pre_groups[gw].commodity is None);
                        assert(none_row_before(rows@, pre_groups[gw].transaction_no, i as int));
                        lemma_none_row_mono(rows@, pre_groups[gw].transaction_no, i as int, i + 1);
                        assert(pre_groups[gw].transaction_no == groups@[gw].transaction_no);
                    } else {
                        assert(ov(rows@[i as int].final_tc_commodity) == ov(groups@[gw].commodity));
                        assert(rows@[i as int].transaction_no == groups@[g2].transaction_no
                            && rows@[i as int].final_tc_commodity is None);
                    }
                } else {
                    assert(groups@[g2] == pre_groups[g2]);
                    assert(none_row_before(rows@, pre_groups[g2].transaction_no, i as int));
                    lemma_none_row_mono(rows@, pre_groups[g2].transaction_no, i as int, i + 1);
                }
            }
        }
        i = i + 1;
    }
    proof {
        assert(rows@.subrange(0, n as int) =~= rows@);
    }
    // keep the out-of-balance and the commodity-less groups
    let mut errs: Vec<BalanceError> = Vec::new();
    let mut k: usize = 0;
    while k < groups.len()
        invariant
            k <= groups@.len(),
            forall|g: int|
                0 <= g < groups@.len() ==> (#[trigger] groups@[g]).totals.cents == sum_final_tc(
                    rows@,
                    groups@[g].transaction_no,
                    ov(groups@[g].commodity),
                ),
            forall|e: int|
                0 <= e < errs@.len() ==> (#[trigger] errs@[e]).totals.cents == sum_final_tc(
                    rows@,
                    errs@[e].transaction_no,
                    ov(errs@[e].commodity),
                ),
            forall|e: int|
                0 <= e < errs@.len() && (#[trigger] errs@[e]).commodity is Some
                    ==> errs@[e].totals.cents != 0,
            forall|g: int|
                0 <= g < k && ((#[trigger] groups@[g]).totals.cents != 0 || groups@[g].commodity is None) ==> exists|e: int|
                    0 <= e < errs@.len() && (#[trigger] errs@[e]).transaction_no == groups@[g].transaction_no && ov(errs@[e].commodity) == ov(groups@[g].commodity),
            forall|g: int, h: int|
                0 <= g < h < groups@.len() ==> !((#[trigger] groups@[g]).transaction_no == (
                #[trigger] groups@[h]).transaction_no && ov(groups@[g].commodity) == ov(
                    groups@[h].commodity,
                )),
            forall|g: int|
                0 <= g < groups@.len() && (#[trigger] groups@[g]).commodity is None
                    ==> none_row_before(rows@, groups@[g].transaction_no, rows@.len() as int),
            forall|e: int|
                0 <= e < errs@.len() ==> exists|g: int|
                    0 <= g < k && (#[trigger] errs@[e]).transaction_no == (
                    #[trigger] groups@[g]).transaction_no && ov(errs@[e].commodity) == ov(
                        groups@[g].commodity,
                    ),
            forall|e1: int, e2: int|
                0 <= e1 < e2 < errs@.len() ==> !((#[trigger] errs@[e1]).transaction_no == (
                #[trigger] errs@[e2]).transaction_no && ov(errs@[e1].commodity) == ov(
                    errs@[e2].commodity,
                )),
            forall|e: int|
                0 <= e < errs@.len() && (#[trigger] errs@[e]).commodity is None
                    ==> none_row_before(rows@, errs@[e].transaction_no, rows@.len() as int),
        decreases groups@.len() - k,
    {
        let ghost pre_errs = errs@;
        let keep = groups[k].totals.cents != 0 || groups[k].commodity.is_none();
        if keep {
            let com2 = match &groups[k].commodity {
                Some(c) => Some(c.clone()),
                None => None,
            };
            errs.push(
                BalanceError {
                    transaction_no: groups[k].transaction_no,
                    commodity: com2,
                    totals: groups[k].totals,
                },
            );
        }
        proof {
            assert forall|g: int|
                0 <= g < k + 1 && ((#[trigger] groups@[g]).totals.cents != 0 || groups@[g].commodity is None) implies exists|e: int|
                0 <= e < errs@.len() && (#[trigger] errs@[e]).transaction_no == groups@[g].transaction_no && ov(errs@[e].commodity) == ov(groups@[g].commodity) by {
                if g < k {
                    let e3 = choose|e3: int|
                        0 <= e3 < pre_errs.len() && (#[trigger] pre_errs[e3]).transaction_no
                            == groups@[g].transaction_no && ov(pre_errs[e3].commodity) == ov(
                            groups@[g].commodity,
                        );
                    assert(errs@[e3].transaction_no == groups@[g].transaction_no && ov(
                        errs@[e3].commodity,
                    ) == ov(groups@[g].commodity));
                } else {
                    assert(errs@[errs@.len() - 1].transaction_no == groups@[g].transaction_no
                        && ov(errs@[errs@.len() - 1].commodity) == ov(groups@[g].commodity));
                }
            }
            assert forall|e: int|
                0 <= e < errs@.len() implies exists|g: int|
                0 <= g < k + 1 && (#[trigger] errs@[e]).transaction_no == (
                #[trigger] groups@[g]).transaction_no && ov(errs@[e].commodity) == ov(
                    groups@[g].commodity,
                ) by {
                if e < pre_errs.len() {
                    let g3 = choose|g3: int|
                        0 <= g3 < k && (#[trigger] pre_errs[e]).transaction_no == (
                        #[trigger] groups@[g3]).transaction_no && ov(pre_errs[e].commodity) == ov(
                            groups@[g3].commodity,
                        );
                    assert(errs@[e] == pre_errs[e]);
                    assert(errs@[e].transaction_no == groups@[g3].transaction_no && ov(
                        errs@[e].commodity,
                    ) == ov(groups@[g3].commodity));
                } else {
                    assert(errs@[e].transaction_no == groups@[k as int].transaction_no && ov(
                        errs@[e].commodity,
                    ) == ov(groups@[k as int].commodity));
                }
            }
            assert forall|e1: int, e2: int|
                0 <= e1 < e2 < errs@.len() implies !((#[trigger] errs@[e1]).transaction_no == (
                #[trigger] errs@[e2]).transaction_no && ov(errs@[e1].commodity) == ov(
                    errs@[e2].commodity,
                )) by {
                if e2 == errs@.len() - 1 && e2 >= pre_errs.len() {
                    let g3 = choose|g3: int|
                        0 <= g3 < k && (#[trigger] pre_errs[e1]).transaction_no == (
                        #[trigger] groups@[g3]).transaction_no && ov(pre_errs[e1].commodity) == ov(
                            groups@[g3].commodity,
                        );
                    assert(errs@[e1] == pre_errs[e1]);
                    assert(errs@[e2].transaction_no == groups@[k as int].transaction_no && ov(
                        errs@[e2].commodity,
                    ) == ov(groups@[k as int].commodity));
                    assert(!(groups@[g3].transaction_no == groups@[k as int].transaction_no && ov(
                        groups@[g3].commodity,
                    ) == ov(groups@[k as int].commodity)));
                }
            }
            assert forall|e: int|
                0 <= e < errs@.len() && (#[trigger] errs@[e]).commodity is None implies
                none_row_before(rows@, errs@[e].transaction_no, rows@.len() as int) by {
                if e < pre_errs.len() {
                    assert(errs@[e] == pre_errs[e]);
                    assert(none_row_before(rows@, pre_errs[e].transaction_no, rows@.len() as int));
                } else {
                    assert(ov(errs@[e].commodity) == ov(groups@[k as int].commodity));
                    assert(groups@[k as int].commodity is None);
                    assert(none_row_before(
                        rows@,
                        groups@[k as int].transaction_no,
                        rows@.len() as int,
                    ));
                    assert(errs@[e].transaction_no == groups@[k as int].transaction_no);
                }
            }
        }
        k = k + 1;
    }
    proof {
        assert forall|t: u32, c: Seq<char>|
            #[trigger] sum_final_tc(rows@, t, Some(c)) != 0 implies exists|e: int|
            0 <= e < errs@.len() && (#[trigger] errs@[e]).transaction_no == t && ov(
                errs@[e].commodity,
            ) == Some(c) by {
            let g3 = choose|g3: int|
                0 <= g3 < groups@.len() && (#[trigger] groups@[g3]).transaction_no == t && ov(
                    groups@[g3].commodity,
                ) == Some(c);
            assert(groups@[g3].totals.cents != 0);
        }
        assert forall|i2: int|
            0 <= i2 < rows@.len() && (#[trigger] rows@[i2]).final_tc_commodity is None implies
            exists|e: int|
            0 <= e < errs@.len() && (#[trigger] errs@[e]).transaction_no == rows@[i2].transaction_no && errs@[e].commodity is None by {
            let g3 = choose|g3: int|
                0 <= g3 < groups@.len() && (#[trigger] groups@[g3]).transaction_no == rows@[i2].transaction_no && groups@[g3].commodity is None;
            let e3 = choose|e3: int|
                0 <= e3 < errs@.len() && (#[trigger] errs@[e3]).transaction_no == groups@[g3].transaction_no && ov(errs@[e3].commodity) == ov(groups@[g3].commodity);
            assert(errs@[e3].commodity is None);
        }
    }
    errs
}

pub proof fn lemma_sum_final_bound(s: Seq<FinalPosting>, t: u32, c: Option<Seq<char>>)
    requires
        forall|i: int|
            0 <= i < s.len() ==> ((#[trigger] s[i]).final_tc_quantity matches Some(q)
                ==> -FINAL_LIMIT <= q.cents <= FINAL_LIMIT),
    ensures
        -(s.len() as int) * FINAL_LIMIT <= sum_final_tc(s, t, c) <= (s.len() as int) * FINAL_LIMIT,
    decreases s.len(),
{
    if s.len() > 0 {
        assert(forall|i: int|
            0 <= i < s.drop_last().len() ==> ((#[trigger] s.drop_last()[i]).final_tc_quantity
                matches Some(q) ==> -FINAL_LIMIT <= q.cents <= FINAL_LIMIT));
        lemma_sum_final_bound(s.drop_last(), t, c);
        assert((s.len() as int) * FINAL_LIMIT == (s.len() - 1) as int * FINAL_LIMIT + FINAL_LIMIT)
            by (nonlinear_arith);
    }
}

/// The balancer: from the raw postings, the `final_postings` table in
/// which every leg the residual could supply is filled, and the table of
/// remaining imbalances.
pub fn balance(postings: &Vec<PostingParams>) -> (r: BalanceResult)
    requires
        postings@.len() <= ROW_LIMIT,
        forall|i: int|
            0 <= i < postings@.len() ==> (#[trigger] postings@[i]).quantities_in_limit(),
    ensures
        r.final_postings@.len() == postings@.len(),
        forall|i: int|
            0 <= i < postings@.len() ==> final_row_ok(
                postings@,
                postings@[i],
                #[trigger] r.final_postings@[i],
            ),
        forall|e: int|
            0 <= e < r.errors@.len() ==> (#[trigger] r.errors@[e]).totals.cents == sum_final_tc(
                r.final_postings@,
                r.errors@[e].transaction_no,
                ov(r.errors@[e].commodity),
            ),
        forall|e: int|
            0 <= e < r.errors@.len() && (#[trigger] r.errors@[e]).commodity is Some
                ==> r.errors@[e].totals.cents != 0,
        forall|t: u32, c: Seq<char>|
            #[trigger] sum_final_tc(r.final_postings@, t, Some(c)) != 0 ==> exists|e: int|
                0 <= e < r.errors@.len() && (#[trigger] r.errors@[e]).transaction_no == t && ov(
                    r.errors@[e].commodity,
                ) == Some(c),
        forall|i: int|
            0 <= i < r.final_postings@.len() && (
            #[trigger] r.final_postings@[i]).final_tc_commodity is None ==> exists|e: int|
                0 <= e < r.errors@.len() && (#[trigger] r.errors@[e]).transaction_no
                    == r.final_postings@[i].transaction_no && r.errors@[e].commodity is None,
        forall|e1: int, e2: int|
            0 <= e1 < e2 < r.errors@.len() ==> !((#[trigger] r.errors@[e1]).transaction_no == (
            #[trigger] r.errors@[e2]).transaction_no && ov(r.errors@[e1].commodity) == ov(
                r.errors@[e2].commodity,
            )),
        forall|e: int|
            0 <= e < r.errors@.len() && (#[trigger] r.errors@[e]).commodity is None
                ==> none_row_before(
                r.final_postings@,
                r.errors@[e].transaction_no,
                r.final_postings@.len() as int,
            ),
{
    let groups = tc_groups(postings);
    proof {
        assert forall|g: int| 0 <= g < groups@.len() implies -(ROW_LIMIT as int) * AMOUNT_LIMIT
            <= (#[trigger] groups@[g]).total <= (ROW_LIMIT as int) * AMOUNT_LIMIT by {
            let gg = groups@[g];
            lemma_sum_tc_bound(postings@, gg.t, gg.com@);
            assert((postings@.len() as int) * AMOUNT_LIMIT <= (ROW_LIMIT as int) * AMOUNT_LIMIT)
                by (nonlinear_arith)
                requires
                    0 <= postings@.len() as int <= ROW_LIMIT as int,
            ;
        }
    }
    let res = select_residuals(&groups, Ghost(postings@));
    let final_postings = build_final(postings, &res);
    let errors = collect_errors(&final_postings);
    BalanceResult { final_postings, errors }
}

impl crate::state::LedgerState {
    /// Balance the collected postings, yielding the final table and the
    /// diagnosed imbalances.
    pub fn verify(&self) -> (r: BalanceResult)
        requires
            self.postings@.len() <= ROW_LIMIT,
            forall|i: int|
                0 <= i < self.postings@.len() ==> (
                #[trigger] self.postings@[i]).quantities_in_limit(),
        ensures
            r.final_postings@.len() == self.postings@.len(),
            forall|i: int|
                0 <= i < self.postings@.len() ==> final_row_ok(
                    self.postings@,
                    self.postings@[i],
                    #[trigger] r.final_postings@[i],
                ),
            forall|t: u32, c: Seq<char>|
                #[trigger] sum_final_tc(r.final_postings@, t, Some(c)) != 0 ==> exists|e: int|
                    0 <= e < r.errors@.len() && (#[trigger] r.errors@[e]).transaction_no == t
                        && ov(r.errors@[e].commodity) == Some(c),
            forall|e: int|
                0 <= e < r.errors@.len() ==> (#[trigger] r.errors@[e]).totals.cents
                    == sum_final_tc(
                    r.final_postings@,
                    r.errors@[e].transaction_no,
                    ov(r.errors@[e].commodity),
                ),
            forall|e: int|
                0 <= e < r.errors@.len() && (#[trigger] r.errors@[e]).commodity is Some
                    ==> r.errors@[e].totals.cents != 0,
            forall|i: int|
                0 <= i < r.final_postings@.len() && (
                #[trigger] r.final_postings@[i]).final_tc_commodity is None ==> exists|e: int|
                    0 <= e < r.errors@.len() && (#[trigger] r.errors@[e]).transaction_no
                        == r.final_postings@[i].transaction_no && r.errors@[e].commodity is None,
            forall|e1: int, e2: int|
                0 <= e1 < e2 < r.errors@.len() ==> !((#[trigger] r.errors@[e1]).transaction_no
                    == (#[trigger] r.errors@[e2]).transaction_no && ov(r.errors@[e1].commodity)
                    == ov(r.errors@[e2].commodity)),
            forall|e: int|
                0 <= e < r.errors@.len() && (#[trigger] r.errors@[e]).commodity is None
                    ==> none_row_before(
                    r.final_postings@,
                    r.errors@[e].transaction_no,
                    r.final_postings@.len() as int,
                ),
    {
        balance(&self.postings)
    }
}

/// Law: a transaction-and-commodity group of the final table sums to zero
/// unless the balancer reported it as an error.
pub proof fn lemma_sum_zero_unless_error(
    rows: Seq<FinalPosting>,
    errs: Seq<BalanceError>,
    t: u32,
    c: Seq<char>,
)
    requires
        forall|t2: u32, c2: Seq<char>|
            #[trigger] sum_final_tc(rows, t2, Some(c2)) != 0 ==> exists|e: int|
                0 <= e < errs.len() && (#[trigger] errs[e]).transaction_no == t2 && ov(
                    errs[e].commodity,
                ) == Some(c2),
        forall|e: int|
            0 <= e < errs.len() ==> !((#[trigger] errs[e]).transaction_no == t && ov(
                errs[e].commodity,
            ) == Some(c)),
    ensures
        sum_final_tc(rows, t, Some(c)) == 0,
{
    if sum_final_tc(rows, t, Some(c)) != 0 {
        let e = choose|e: int|
            0 <= e < errs.len() && (#[trigger] errs[e]).transaction_no == t && ov(
                errs[e].commodity,
            ) == Some(c);
        assert(false);
    }
}

/// Law: when the balancer reports no error, and no raw posting names a
/// total cost without a held position, every final row carries both
/// commodities.
pub proof fn lemma_no_error_no_missing_commodity(
    ps: Seq<PostingParams>,
    rows: Seq<FinalPosting>,
    errs: Seq<BalanceError>,
    i: int,
)
    requires
        rows.len() == ps.len(),
        forall|k: int| 0 <= k < ps.len() ==> final_row_ok(ps, ps[k], #[trigger] rows[k]),
        forall|k: int|
            0 <= k < rows.len() && (#[trigger] rows[k]).final_tc_commodity is None ==> exists|
                e: int,
            |
                0 <= e < errs.len() && (#[trigger] errs[e]).transaction_no == rows[k].transaction_no && errs[e].commodity is None,
        errs.len() == 0,
        forall|k: int|
            0 <= k < ps.len() && (#[trigger] ps[k]).cp_commodity is None ==> ps[k].tc_commodity is None,
        0 <= i < rows.len(),
    ensures
        rows[i].final_cp_commodity is Some,
        rows[i].final_tc_commodity is Some,
{
    assert(final_row_ok(ps, ps[i], rows[i]));
    if rows[i].final_tc_commodity is None {
        let e = choose|e: int|
            0 <= e < errs.len() && (#[trigger] errs[e]).transaction_no == rows[i].transaction_no && errs[e].commodity is None;
        assert(false);
    }
    if rows[i].final_cp_commodity is None {
        assert(ps[i].cp_commodity is None);
        assert(ps[i].tc_commodity is None);
        let fc = rows[i].final_tc_commodity->Some_0;
        assert(is_designated(ps, ps[i].transaction_no, fc@));
        assert(sum_tc(ps, ps[i].transaction_no, fc@) == 0);
        assert(false);
    }
}

/// Law: a posting whose two legs are fully specified passes through the
/// balancer unchanged.
pub proof fn lemma_fully_specified_unchanged(ps: Seq<PostingParams>, rows: Seq<FinalPosting>, i: int)
    requires
        rows.len() == ps.len(),
        forall|k: int| 0 <= k < ps.len() ==> final_row_ok(ps, ps[k], #[trigger] rows[k]),
        0 <= i < ps.len(),
        ps[i].cp_quantity is Some,
        ps[i].cp_commodity is Some,
        ps[i].tc_quantity is Some,
        ps[i].tc_commodity is Some,
    ensures
        rows[i].statement_no == ps[i].statement_no,
        rows[i].transaction_no == ps[i].transaction_no,
        rows[i].account@ == ps[i].account@,
        rows[i].final_cp_quantity == ps[i].cp_quantity,
        ov(rows[i].final_cp_commodity) == ov(ps[i].cp_commodity),
        rows[i].final_tc_quantity == ps[i].tc_quantity,
        ov(rows[i].final_tc_commodity) == ov(ps[i].tc_commodity),
{
    assert(final_row_ok(ps, ps[i], rows[i]));
}

/// Rows of a transaction that carry no trade-cost commodity.
pub open spec fn null_tc_count(s: Seq<PostingParams>, t: u32) -> int
    decreases s.len(),
{
    if s.len() == 0 {
        0
    } else {
        null_tc_count(s.drop_last(), t) + (if s.last().transaction_no == t
            && s.last().tc_commodity is None {
            1int
        } else {
            0int
        })
    }
}

/// Both trade-cost fields of a posting are present or absent together.
pub open spec fn tc_fields_coupled(s: Seq<PostingParams>) -> bool {
    forall|k: int|
        0 <= k < s.len() ==> ((#[trigger] s[k]).tc_commodity is None <==> s[k].tc_quantity is None)
}

/// Over rows filled against the designated commodity `cstar` of `t`, the
/// final sum is the raw sum plus one residual per commodity-less row.
proof fn lemma_final_sum_split(
    ps0: Seq<PostingParams>,
    ps: Seq<PostingParams>,
    rows: Seq<FinalPosting>,
    t: u32,
    cstar: Seq<char>,
)
    requires
        rows.len() == ps.len(),
        forall|k: int| 0 <= k < ps.len() ==> final_row_ok(ps0, ps[k], #[trigger] rows[k]),
        tc_fields_coupled(ps),
        is_designated(ps0, t, cstar),
    ensures
        sum_final_tc(rows, t, Some(cstar)) == sum_tc(ps, t, cstar) + null_tc_count(ps, t) * (-sum_tc(
            ps0,
            t,
            cstar,
        )),
    decreases ps.len(),
{
    let r = -sum_tc(ps0, t, cstar);
    if ps.len() == 0 {
    } else {
        assert(forall|k: int|
            0 <= k < ps.drop_last().len() ==> final_row_ok(
                ps0,
                ps.drop_last()[k],
                #[trigger] rows.drop_last()[k],
            ));
        assert(tc_fields_coupled(ps.drop_last()));
        lemma_final_sum_split(ps0, ps.drop_last(), rows.drop_last(), t, cstar);
        let p = ps.last();
        let f = rows.last();
        assert(final_row_ok(ps0, p, f)) by {
            assert(rows[rows.len() - 1] == f);
        }
        assert(p.tc_commodity is None <==> p.tc_quantity is None) by {
            assert(ps[ps.len() - 1] == p);
        }
        if p.transaction_no == t && p.tc_commodity is None {
            let fc = f.final_tc_commodity;
            assert(fc is Some) by {
                if fc is None {
                    assert(sum_tc(ps0, t, cstar) == 0);
                }
            }
            lemma_designated_unique(ps0, t, fc->Some_0@, cstar);
            let a = f.final_tc_quantity->Some_0;
            let c3 = choose|c3: Seq<char>|
                is_designated(ps0, t, c3) && a.cents == -(#[trigger] sum_tc(ps0, t, c3));
            lemma_designated_unique(ps0, t, c3, cstar);
            assert(final_contrib(f, t, Some(cstar)) == r);
            assert((null_tc_count(ps.drop_last(), t) + 1) * r == null_tc_count(
                ps.drop_last(),
                t,
            ) * r + r) by (nonlinear_arith);
        } else {
            assert(final_contrib(f, t, Some(cstar)) == tc_contrib(p, t, cstar));
        }
    }
}

/// Over commodities other than the designated one, filling changes no
/// sum: the filled rows carry the designated commodity.
proof fn lemma_final_sum_other(
    ps0: Seq<PostingParams>,
    ps: Seq<PostingParams>,
    rows: Seq<FinalPosting>,
    t: u32,
    cstar: Seq<char>,
    c: Seq<char>,
)
    requires
        rows.len() == ps.len(),
        forall|k: int| 0 <= k < ps.len() ==> final_row_ok(ps0, ps[k], #[trigger] rows[k]),
        tc_fields_coupled(ps),
        is_designated(ps0, t, cstar),
        c != cstar,
    ensures
        sum_final_tc(rows, t, Some(c)) == sum_tc(ps, t, c),
    decreases ps.len(),
{
    if ps.len() > 0 {
        assert(forall|k: int|
            0 <= k < ps.drop_last().len() ==> final_row_ok(
                ps0,
                ps.drop_last()[k],
                #[trigger] rows.drop_last()[k],
            ));
        assert(tc_fields_coupled(ps.drop_last()));
        lemma_final_sum_other(ps0, ps.drop_last(), rows.drop_last(), t, cstar, c);
        let p = ps.last();
        let f = rows.last();
        assert(final_row_ok(ps0, p, f)) by {
            assert(rows[rows.len() - 1] == f);
        }
        assert(p.tc_commodity is None <==> p.tc_quantity is None) by {
            assert(ps[ps.len() - 1] == p);
        }
        if p.transaction_no == t && p.tc_commodity is None {
            if f.final_tc_commodity is Some {
                lemma_designated_unique(ps0, t, f.final_tc_commodity->Some_0@, cstar);
            }
            assert(final_contrib(f, t, Some(c)) == 0);
        } else {
            assert(final_contrib(f, t, Some(c)) == tc_contrib(p, t, c));
        }
    }
}

/// Law: a transaction with exactly one posting lacking its trade-cost
/// leg, whose other commodities all balance, is filled from the residual
/// and contributes no row to the error table.
pub proof fn lemma_single_hole_not_reported(
    ps: Seq<PostingParams>,
    rows: Seq<FinalPosting>,
    errs: Seq<BalanceError>,
    t: u32,
    cstar: Seq<char>,
)
    requires
        rows.len() == ps.len(),
        forall|k: int| 0 <= k < ps.len() ==> final_row_ok(ps, ps[k], #[trigger] rows[k]),
        tc_fields_coupled(ps),
        forall|e: int|
            0 <= e < errs.len() ==> (#[trigger] errs[e]).totals.cents == sum_final_tc(
                rows,
                errs[e].transaction_no,
                ov(errs[e].commodity),
            ),
        forall|e: int|
            0 <= e < errs.len() && (#[trigger] errs[e]).commodity is Some ==> errs[e].totals.cents
                != 0,
        forall|e: int|
            0 <= e < errs.len() && (#[trigger] errs[e]).commodity is None ==> none_row_before(
                rows,
                errs[e].transaction_no,
                rows.len() as int,
            ),
        sum_tc(ps, t, cstar) != 0,
        forall|c: Seq<char>| c != cstar ==> #[trigger] sum_tc(ps, t, c) == 0,
        null_tc_count(ps, t) == 1,
    ensures
        forall|e: int| 0 <= e < errs.len() ==> (#[trigger] errs[e]).transaction_no != t,
{
    assert(is_designated(ps, t, cstar));
    assert forall|c: Seq<char>| #[trigger] sum_final_tc(rows, t, Some(c)) == 0 by {
        if c == cstar {
            lemma_final_sum_split(ps, ps, rows, t, cstar);
            assert(sum_final_tc(rows, t, Some(cstar)) == sum_tc(ps, t, cstar) + 1 * (-sum_tc(
                ps,
                t,
                cstar,
            )));
        } else {
            lemma_final_sum_other(ps, ps, rows, t, cstar, c);
        }
    }
    assert forall|i: int|
        0 <= i < rows.len() && (#[trigger] rows[i]).transaction_no == t implies rows[i].final_tc_commodity is Some by {
        assert(final_row_ok(ps, ps[i], rows[i]));
        if rows[i].final_tc_commodity is None {
            assert(sum_tc(ps, t, cstar) == 0);
        }
    }
    lemma_balanced_transaction_not_reported(rows, errs, t);
}

/// Law: a transaction whose commodities all sum to zero and whose final
/// rows all carry a commodity contributes no row to the error table.
pub proof fn lemma_balanced_transaction_not_reported(
    rows: Seq<FinalPosting>,
    errs: Seq<BalanceError>,
    t: u32,
)
    requires
        forall|e: int|
            0 <= e < errs.len() ==> (#[trigger] errs[e]).totals.cents == sum_final_tc(
                rows,
                errs[e].transaction_no,
                ov(errs[e].commodity),
            ),
        forall|e: int|
            0 <= e < errs.len() && (#[trigger] errs[e]).commodity is Some ==> errs[e].totals.cents
                != 0,
        forall|e: int|
            0 <= e < errs.len() && (#[trigger] errs[e]).commodity is None ==> none_row_before(
                rows,
                errs[e].transaction_no,
                rows.len() as int,
            ),
        forall|c: Seq<char>| #[trigger] sum_final_tc(rows, t, Some(c)) == 0,
        forall|i: int|
            0 <= i < rows.len() && (#[trigger] rows[i]).transaction_no == t ==> rows[i].final_tc_commodity is Some,
    ensures
        forall|e: int| 0 <= e < errs.len() ==> (#[trigger] errs[e]).transaction_no != t,
{
    assert forall|e: int| 0 <= e < errs.len() implies (#[trigger] errs[e]).transaction_no != t by {
        if errs[e].transaction_no == t {
            match errs[e].commodity {
                Some(c) => {
                    assert(sum_final_tc(rows, t, Some(c@)) == 0);
                    assert(errs[e].totals.cents == 0);
                },
                None => {
                    assert(none_row_before(rows, t, rows.len() as int));
                    let k = choose|k: int|
                        0 <= k < rows.len() && (#[trigger] rows[k]).transaction_no == t && rows[k].final_tc_commodity is None;
                    assert(rows[k].final_tc_commodity is Some);
                },
            }
        }
    }
}

/// Law: a posting without a trade-cost leg is only admissible when no
/// other posting of its transaction lacks one too; with two such rows the
/// balancer reports the transaction.
pub proof fn lemma_second_unfilled_leg_is_reported(
    ps: Seq<PostingParams>,
    rows: Seq<FinalPosting>,
    errs: Seq<BalanceError>,
    i: int,
    j: int,
)
    requires
        rows.len() == ps.len(),
        forall|k: int| 0 <= k < ps.len() ==> final_row_ok(ps, ps[k], #[trigger] rows[k]),
        forall|t2: u32, c2: Seq<char>|
            #[trigger] sum_final_tc(rows, t2, Some(c2)) != 0 ==> exists|e: int|
                0 <= e < errs.len() && (#[trigger] errs[e]).transaction_no == t2 && ov(
                    errs[e].commodity,
                ) == Some(c2),
        forall|k: int|
            0 <= k < rows.len() && (#[trigger] rows[k]).final_tc_commodity is None ==> exists|
                e: int,
            |
                0 <= e < errs.len() && (#[trigger] errs[e]).transaction_no == rows[k].transaction_no && errs[e].commodity is None,
        tc_fields_coupled(ps),
        0 <= i < j < ps.len(),
        ps[i].transaction_no == ps[j].transaction_no,
        ps[i].tc_commodity is None,
        ps[j].tc_commodity is None,
    ensures
        exists|e: int| 0 <= e < errs.len() && (#[trigger] errs[e]).transaction_no == ps[i].transaction_no,
{
    let t = ps[i].transaction_no;
    assert(final_row_ok(ps, ps[i], rows[i]));
    match rows[i].final_tc_commodity {
        None => {
            let e = choose|e: int|
                0 <= e < errs.len() && (#[trigger] errs[e]).transaction_no == rows[i].transaction_no && errs[e].commodity is None;
            assert(errs[e].transaction_no == t);
        },
        Some(fc) => {
            let cstar = fc@;
            assert(is_designated(ps, t, cstar));
            let s0 = sum_tc(ps, t, cstar);
            assert(s0 != 0);
            lemma_final_sum_split(ps, ps, rows, t, cstar);
            let n = null_tc_count(ps, t);
            assert(n >= 2) by {
                lemma_null_count_pair(ps, t, i, j);
            }
            assert(sum_final_tc(rows, t, Some(cstar)) == s0 + n * (-s0));
            assert(s0 + n * (-s0) != 0) by (nonlinear_arith)
                requires
                    s0 != 0,
                    n >= 2,
            ;
            let e = choose|e: int|
                0 <= e < errs.len() && (#[trigger] errs[e]).transaction_no == t && ov(
                    errs[e].commodity,
                ) == Some(cstar);
            assert(errs[e].transaction_no == t);
        },
    }
}

/// Two distinct commodity-less rows put the null count at two or more.
proof fn lemma_null_count_pair(ps: Seq<PostingParams>, t: u32, i: int, j: int)
    requires
        0 <= i < j < ps.len(),
        ps[i].transaction_no == t,
        ps[j].transaction_no == t,
        ps[i].tc_commodity is None,
        ps[j].tc_commodity is None,
    ensures
        null_tc_count(ps, t) >= 2,
    decreases ps.len(),
{
    lemma_null_count_one(ps.drop_last(), t, i);
    if j == ps.len() - 1 {
        assert(ps.last() == ps[j]);
    } else {
        lemma_null_count_pair(ps.drop_last(), t, i, j);
        lemma_null_count_nonneg(ps.drop_last(), t);
        assert(null_tc_count(ps, t) >= null_tc_count(ps.drop_last(), t));
    }
}

proof fn lemma_null_count_one(ps: Seq<PostingParams>, t: u32, i: int)
    requires
        0 <= i < ps.len(),
        ps[i].transaction_no == t,
        ps[i].tc_commodity is None,
    ensures
        null_tc_count(ps, t) >= 1,
    decreases ps.len(),
{
    if i == ps.len() - 1 {
        lemma_null_count_nonneg(ps.drop_last(), t);
        assert(ps.last() == ps[i]);
    } else {
        lemma_null_count_one(ps.drop_last(), t, i);
    }
}

proof fn lemma_null_count_nonneg(ps: Seq<PostingParams>, t: u32)
    ensures
        null_tc_count(ps, t) >= 0,
    decreases ps.len(),
{
    if ps.len() > 0 {
        lemma_null_count_nonneg(ps.drop_last(), t);
    }
}

} // verus!
