use vstd::prelude::*;
use crate::amount::{amount_str, Amount};
use crate::balance::{FinalPosting, ov, FINAL_LIMIT, ROW_LIMIT};
use crate::date::{date_str, Date};
use crate::records::{HeaderParams, VerificationParams, BALANCE_ACTION};
use crate::text::{is_prefix, lex_le, lex_lt, str_is_prefix, chars_vec, sort_strings};
use crate::text::lemma_lex_lt_asym;
use crate::accounts::contains_str;
use vstd::string::StringExecFns;

verus! {

broadcast use vstd::string::group_string_axioms;

/// One row of a balance report: an ancestor account, a commodity and the
/// summed quantity.
pub struct BalanceRow {
    pub account: String,
    pub commodity: String,
    pub total: Amount,
}

/// Contribution of one final row to the report cell `(a, c)`: counted when
/// the row's account starts with `a` and its chosen leg carries `c`.
pub open spec fn leg_contrib(p: FinalPosting, use_tc: bool, a: Seq<char>, c: Seq<char>) -> int {
    let com = if use_tc {
        ov(p.final_tc_commodity)
    } else {
        ov(p.final_cp_commodity)
    };
    let qty = if use_tc {
        p.final_tc_quantity
    } else {
        p.final_cp_quantity
    };
    if is_prefix(a, p.account@) && com == Some(c) && qty is Some {
        qty->Some_0.cents as int
    } else {
        0
    }
}

pub open spec fn sum_leg(s: Seq<FinalPosting>, use_tc: bool, a: Seq<char>, c: Seq<char>) -> int
    decreases s.len(),
{
    if s.len() == 0 {
        0
    } else {
        sum_leg(s.drop_last(), use_tc, a, c) + leg_contrib(s.last(), use_tc, a, c)
    }
}

/// Some final row matches the report cell `(a, c)`.
pub open spec fn has_match(s: Seq<FinalPosting>, use_tc: bool, a: Seq<char>, c: Seq<char>) -> bool {
    exists|i: int|
        0 <= i < s.len() && is_prefix(a, (#[trigger] s[i]).account@) && (if use_tc {
            ov(s[i].final_tc_commodity)
        } else {
            ov(s[i].final_cp_commodity)
        }) == Some(c)
}

/// Order of report rows: by account, then by commodity.
pub open spec fn row_key_lt(x: BalanceRow, y: BalanceRow) -> bool {
    lex_lt(x.account@, y.account@) || (x.account@ == y.account@ && lex_lt(
        x.commodity@,
        y.commodity@,
    ))
}

/// Scan the final rows for one report cell.
fn cell_sum(
    rows: &Vec<FinalPosting>,
    use_tc: bool,
    a: &String,
    c: &String,
) -> (r: (i128, bool))
    requires
        rows@.len() <= ROW_LIMIT,
        forall|i: int|
            0 <= i < rows@.len() ==> ((#[trigger] rows@[i]).final_tc_quantity matches Some(q)
                ==> -FINAL_LIMIT <= q.cents <= FINAL_LIMIT),
        forall|i: int|
            0 <= i < rows@.len() ==> ((#[trigger] rows@[i]).final_cp_quantity matches Some(q)
                ==> -FINAL_LIMIT <= q.cents <= FINAL_LIMIT),
    ensures
        r.0 == sum_leg(rows@, use_tc, a@, c@),
        r.1 == has_match(rows@, use_tc, a@, c@),
{
    let n = rows.len();
    let mut total: i128 = 0;
    let mut matched = false;
    let mut i: usize = 0;
    while i < n
        invariant
            n == rows@.len(),
            n <= ROW_LIMIT,
            i <= n,
            forall|k: int|
                0 <= k < rows@.len() ==> ((#[trigger] rows@[k]).final_tc_quantity matches Some(q)
                    ==> -FINAL_LIMIT <= q.cents <= FINAL_LIMIT),
            forall|k: int|
                0 <= k < rows@.len() ==> ((#[trigger] rows@[k]).final_cp_quantity matches Some(q)
                    ==> -FINAL_LIMIT <= q.cents <= FINAL_LIMIT),
            total == sum_leg(rows@.subrange(0, i as int), use_tc, a@, c@),
            matched == has_match(rows@.subrange(0, i as int), use_tc, a@, c@),
            -(i as int) * FINAL_LIMIT <= total <= (i as int) * FINAL_LIMIT,
        decreases n - i,
    {
        let ghost pre = rows@.subrange(0, i as int);
        let row = &rows[i];
        let com_matches = if use_tc {
            match (&row.final_tc_commodity, c) {
                (Some(x), y) => x.eq(y),
                _ => false,
            }
        } else {
            match (&row.final_cp_commodity, c) {
                (Some(x), y) => x.eq(y),
                _ => false,
            }
        };
        let pref = str_is_prefix(a.as_str(), row.account.as_str());
        proof {
            assert(rows@.subrange(0, i + 1).drop_last() =~= pre);
            assert(rows@.subrange(0, i + 1).last() == rows@[i as int]);
            lemma_sum_leg_bound(pre, use_tc, a@, c@);
            assert((i as int) * FINAL_LIMIT <= (ROW_LIMIT as int) * FINAL_LIMIT)
                by (nonlinear_arith)
                requires
                    0 <= i as int <= ROW_LIMIT as int,
            ;
        }
        if pref && com_matches {
            let q: i128 = if use_tc {
                match row.final_tc_quantity {
                    Some(q) => q.cents,
                    None => 0,
                }
            } else {
                match row.final_cp_quantity {
                    Some(q) => q.cents,
                    None => 0,
                }
            };
            total = total + q;
            matched = true;
            proof {
                assert(has_match(rows@.subrange(0, i + 1), use_tc, a@, c@)) by {
                    assert(is_prefix(a@, rows@.subrange(0, i + 1)[i as int].account@));
                }
            }
        } else {
            proof {
                assert(leg_contrib(rows@[i as int], use_tc, a@, c@) == 0);
                if has_match(rows@.subrange(0, i + 1), use_tc, a@, c@) {
                    let w = choose|w: int|
                        0 <= w < i + 1 && is_prefix(
                            a@,
                            (#[trigger] rows@.subrange(0, i + 1)[w]).account@,
                        ) && (if use_tc {
                            ov(rows@.subrange(0, i + 1)[w].final_tc_commodity)
                        } else {
                            ov(rows@.subrange(0, i + 1)[w].final_cp_commodity)
                        }) == Some(c@);
                    if w < i {
                        assert(is_prefix(a@, pre[w].account@));
                        assert(has_match(pre, use_tc, a@, c@));
                    }
                }
                assert(has_match(rows@.subrange(0, i + 1), use_tc, a@, c@) == matched);
            }
        }
        i = i + 1;
    }
    proof {
        assert(rows@.subrange(0, n as int) =~= rows@);
    }
    (total, matched)
}

pub proof fn lemma_sum_leg_bound(s: Seq<FinalPosting>, use_tc: bool, a: Seq<char>, c: Seq<char>)
    requires
        forall|i: int|
            0 <= i < s.len() ==> ((#[trigger] s[i]).final_tc_quantity matches Some(q)
                ==> -FINAL_LIMIT <= q.cents <= FINAL_LIMIT),
        forall|i: int|
            0 <= i < s.len() ==> ((#[trigger] s[i]).final_cp_quantity matches Some(q)
                ==> -FINAL_LIMIT <= q.cents <= FINAL_LIMIT),
    ensures
        -(s.len() as int) * FINAL_LIMIT <= sum_leg(s, use_tc, a, c) <= (s.len() as int)
            * FINAL_LIMIT,
    decreases s.len(),
{
    if s.len() > 0 {
        assert(forall|i: int|
            0 <= i < s.drop_last().len() ==> ((#[trigger] s.drop_last()[i]).final_tc_quantity
                matches Some(q) ==> -FINAL_LIMIT <= q.cents <= FINAL_LIMIT));
        assert(forall|i: int|
            0 <= i < s.drop_last().len() ==> ((#[trigger] s.drop_last()[i]).final_cp_quantity
                matches Some(q) ==> -FINAL_LIMIT <= q.cents <= FINAL_LIMIT));
        lemma_sum_leg_bound(s.drop_last(), use_tc, a, c);
        assert((s.len() as int) * FINAL_LIMIT == (s.len() - 1) as int * FINAL_LIMIT + FINAL_LIMIT)
            by (nonlinear_arith);
    }
}

/// Every present row sorts strictly before the cell `(a, c)`.
pub open spec fn cell_bound(row: BalanceRow, a: Seq<char>, c: Seq<char>) -> bool {
    lex_lt(row.account@, a) || (row.account@ == a && lex_lt(row.commodity@, c))
}

/// The balance report on one leg: for every ancestor of the closure and
/// commodity with at least one matching row, the summed quantity, sorted
/// by account then commodity.
#[verifier::rlimit(100)]
pub fn get_balances(
    rows: &Vec<FinalPosting>,
    closure: &Vec<String>,
    commodities: &Vec<String>,
    use_tc: bool,
) -> (out: Vec<BalanceRow>)
    requires
        rows@.len() <= ROW_LIMIT,
        forall|i: int|
            0 <= i < rows@.len() ==> ((#[trigger] rows@[i]).final_tc_quantity matches Some(q)
                ==> -FINAL_LIMIT <= q.cents <= FINAL_LIMIT),
        forall|i: int|
            0 <= i < rows@.len() ==> ((#[trigger] rows@[i]).final_cp_quantity matches Some(q)
                ==> -FINAL_LIMIT <= q.cents <= FINAL_LIMIT),
        forall|i: int, j: int|
            0 <= i < j < closure@.len() ==> lex_lt(
                (#[trigger] closure@[i])@,
                (#[trigger] closure@[j])@,
            ),
        forall|i: int, j: int|
            0 <= i < j < commodities@.len() ==> lex_lt(
                (#[trigger] commodities@[i])@,
                (#[trigger] commodities@[j])@,
            ),
    ensures
        forall|r: int, r2: int|
            0 <= r < r2 < out@.len() ==> row_key_lt(#[trigger] out@[r], #[trigger] out@[r2]),
        forall|r: int|
            0 <= r < out@.len() ==> (#[trigger] out@[r]).total.cents == sum_leg(
                rows@,
                use_tc,
                out@[r].account@,
                out@[r].commodity@,
            ) && has_match(rows@, use_tc, out@[r].account@, out@[r].commodity@) && contains_str(
                closure@,
                out@[r].account@,
            ),
        forall|j: int, c: int|
            0 <= j < closure@.len() && 0 <= c < commodities@.len() && has_match(
                rows@,
                use_tc,
                (#[trigger] closure@[j])@,
                (#[trigger] commodities@[c])@,
            ) ==> exists|r: int|
                0 <= r < out@.len() && (#[trigger] out@[r]).account@ == closure@[j]@
                    && out@[r].commodity@ == commodities@[c]@,
{
    let mut out: Vec<BalanceRow> = Vec::new();
    let nj = closure.len();
    let nc = commodities.len();
    let mut j: usize = 0;
    while j < nj
        invariant
            nj == closure@.len(),
            nc == commodities@.len(),
            j <= nj,
            rows@.len() <= ROW_LIMIT,
            forall|i: int|
                0 <= i < rows@.len() ==> ((#[trigger] rows@[i]).final_tc_quantity matches Some(q)
                    ==> -FINAL_LIMIT <= q.cents <= FINAL_LIMIT),
            forall|i: int|
                0 <= i < rows@.len() ==> ((#[trigger] rows@[i]).final_cp_quantity matches Some(q)
                    ==> -FINAL_LIMIT <= q.cents <= FINAL_LIMIT),
            forall|a: int, b: int|
                0 <= a < b < closure@.len() ==> lex_lt(
                    (#[trigger] closure@[a])@,
                    (#[trigger] closure@[b])@,
                ),
            forall|a: int, b: int|
                0 <= a < b < commodities@.len() ==> lex_lt(
                    (#[trigger] commodities@[a])@,
                    (#[trigger] commodities@[b])@,
                ),
            forall|r: int, r2: int|
                0 <= r < r2 < out@.len() ==> row_key_lt(#[trigger] out@[r], #[trigger] out@[r2]),
            forall|r: int|
                0 <= r < out@.len() ==> (#[trigger] out@[r]).total.cents == sum_leg(
                    rows@,
                    use_tc,
                    out@[r].account@,
                    out@[r].commodity@,
                ) && has_match(rows@, use_tc, out@[r].account@, out@[r].commodity@)
                    && contains_str(closure@, out@[r].account@),
            j < nj ==> forall|r: int|
                0 <= r < out@.len() ==> lex_lt((#[trigger] out@[r]).account@, closure@[j as int]@),
            forall|j2: int, c2: int|
                0 <= j2 < j && 0 <= c2 < commodities@.len() && has_match(
                    rows@,
                    use_tc,
                    (#[trigger] closure@[j2])@,
                    (#[trigger] commodities@[c2])@,
                ) ==> exists|r: int|
                    0 <= r < out@.len() && (#[trigger] out@[r]).account@ == closure@[j2]@
                        && out@[r].commodity@ == commodities@[c2]@,
        decreases nj - j,
    {
        let ghost out_at_j = out@;
        let mut c: usize = 0;
        while c < nc
            invariant
                nj == closure@.len(),
                j < nj,
                nc == commodities@.len(),
                c <= nc,
                rows@.len() <= ROW_LIMIT,
                forall|i: int|
                    0 <= i < rows@.len() ==> ((#[trigger] rows@[i]).final_tc_quantity matches Some(
                        q,
                    ) ==> -FINAL_LIMIT <= q.cents <= FINAL_LIMIT),
                forall|i: int|
                    0 <= i < rows@.len() ==> ((#[trigger] rows@[i]).final_cp_quantity matches Some(
                        q,
                    ) ==> -FINAL_LIMIT <= q.cents <= FINAL_LIMIT),
                forall|a: int, b: int|
                    0 <= a < b < closure@.len() ==> lex_lt(
                        (#[trigger] closure@[a])@,
                        (#[trigger] closure@[b])@,
                    ),
                forall|a: int, b: int|
                    0 <= a < b < commodities@.len() ==> lex_lt(
                        (#[trigger] commodities@[a])@,
                        (#[trigger] commodities@[b])@,
                    ),
                forall|r: int, r2: int|
                    0 <= r < r2 < out@.len() ==> row_key_lt(
                        #[trigger] out@[r],
                        #[trigger] out@[r2],
                    ),
                forall|r: int|
                    0 <= r < out@.len() ==> (#[trigger] out@[r]).total.cents == sum_leg(
                        rows@,
                        use_tc,
                        out@[r].account@,
                        out@[r].commodity@,
                    ) && has_match(rows@, use_tc, out@[r].account@, out@[r].commodity@)
                        && contains_str(closure@, out@[r].account@),
                c < nc ==> forall|r: int|
                    0 <= r < out@.len() ==> cell_bound(
                        #[trigger] out@[r],
                        closure@[j as int]@,
                        commodities@[c as int]@,
                    ),
                forall|r: int|
                    0 <= r < out@.len() ==> lex_lt(
                        (#[trigger] out@[r]).account@,
                        closure@[j as int]@,
                    ) || out@[r].account@ == closure@[j as int]@,
                forall|j2: int, c2: int|
                    0 <= j2 < j && 0 <= c2 < commodities@.len() && has_match(
                        rows@,
                        use_tc,
                        (#[trigger] closure@[j2])@,
                        (#[trigger] commodities@[c2])@,
                    ) ==> exists|r: int|
                        0 <= r < out@.len() && (#[trigger] out@[r]).account@ == closure@[j2]@
                            && out@[r].commodity@ == commodities@[c2]@,
                forall|c2: int|
                    0 <= c2 < c && has_match(
                        rows@,
                        use_tc,
                        closure@[j as int]@,
                        (#[trigger] commodities@[c2])@,
                    ) ==> exists|r: int|
                        0 <= r < out@.len() && (#[trigger] out@[r]).account@
                            == closure@[j as int]@ && out@[r].commodity@ == commodities@[c2]@,
            decreases nc - c,
        {
            let ghost pre_out = out@;
            let (total, matched) = cell_sum(rows, use_tc, &closure[j], &commodities[c]);
            if matched {
                out.push(
                    BalanceRow {
                        account: closure[j].clone(),
                        commodity: commodities[c].clone(),
                        total: Amount { cents: total },
                    },
                );
                proof {
                    let newr = out@.last();
                    assert(newr.account@ == closure@[j as int]@);
                    assert(newr.commodity@ == commodities@[c as int]@);
                    assert(contains_str(closure@, newr.account@)) by {
                        assert(closure@[j as int]@ == newr.account@);
                    }
                    assert forall|r: int, r2: int|
                        0 <= r < r2 < out@.len() implies row_key_lt(
                        #[trigger] out@[r],
                        #[trigger] out@[r2],
                    ) by {
                        if r2 == out@.len() - 1 {
                            assert(out@[r] == pre_out[r]);
                            assert(cell_bound(out@[r], closure@[j as int]@, commodities@[c as int]@));
                        }
                    }
                    assert forall|j2: int, c2: int|
                        0 <= j2 < j && 0 <= c2 < commodities@.len() && has_match(
                            rows@,
                            use_tc,
                            (#[trigger] closure@[j2])@,
                            (#[trigger] commodities@[c2])@,
                        ) implies exists|r: int|
                        0 <= r < out@.len() && (#[trigger] out@[r]).account@ == closure@[j2]@
                            && out@[r].commodity@ == commodities@[c2]@ by {
                        let rw = choose|rw: int|
                            0 <= rw < pre_out.len() && (#[trigger] pre_out[rw]).account@
                                == closure@[j2]@ && pre_out[rw].commodity@ == commodities@[c2]@;
                        assert(out@[rw] == pre_out[rw]);
                        assert(out@[rw].account@ == closure@[j2]@ && out@[rw].commodity@
                            == commodities@[c2]@);
                    }
                    assert forall|c2: int|
                        0 <= c2 < c + 1 && has_match(
                            rows@,
                            use_tc,
                            closure@[j as int]@,
                            (#[trigger] commodities@[c2])@,
                        ) implies exists|r: int|
                        0 <= r < out@.len() && (#[trigger] out@[r]).account@
                            == closure@[j as int]@ && out@[r].commodity@ == commodities@[c2]@ by {
                        if c2 == c {
                            assert(out@[out@.len() - 1].account@ == closure@[j as int]@
                                && out@[out@.len() - 1].commodity@ == commodities@[c2]@);
                        } else {
                            let rw = choose|rw: int|
                                0 <= rw < pre_out.len() && (#[trigger] pre_out[rw]).account@
                                    == closure@[j as int]@ && pre_out[rw].commodity@
                                    == commodities@[c2]@;
                            assert(out@[rw] == pre_out[rw]);
                            assert(out@[rw].account@ == closure@[j as int]@ && out@[rw].commodity@
                                == commodities@[c2]@);
                        }
                    }
                }
            }
            proof {
                if c + 1 < nc {
                    assert forall|r: int|
                        0 <= r < out@.len() implies cell_bound(
                        #[trigger] out@[r],
                        closure@[j as int]@,
                        commodities@[c + 1]@,
                    ) by {
                        assert(lex_lt(commodities@[c as int]@, commodities@[c + 1]@));
                        if r < pre_out.len() {
                            assert(out@[r] == pre_out[r]);
                            assert(cell_bound(out@[r], closure@[j as int]@, commodities@[c as int]@));
                            if out@[r].account@ == closure@[j as int]@ {
                                if lex_lt(out@[r].account@, closure@[j as int]@) {
                                    lemma_lex_lt_asym(
                                        out@[r].account@,
                                        closure@[j as int]@,
                                    );
                                }
                                crate::text::lemma_lex_lt_trans(
                                    out@[r].commodity@,
                                    commodities@[c as int]@,
                                    commodities@[c + 1]@,
                                );
                            }
                        }
                    }
                }
            }
            c = c + 1;
        }
        proof {
            if j + 1 < nj {
                assert forall|r: int|
                    0 <= r < out@.len() implies lex_lt(
                    (#[trigger] out@[r]).account@,
                    closure@[j + 1]@,
                ) by {
                    assert(lex_lt(closure@[j as int]@, closure@[j + 1]@));
                    if lex_lt(out@[r].account@, closure@[j as int]@) {
                        crate::text::lemma_lex_lt_trans(
                            out@[r].account@,
                            closure@[j as int]@,
                            closure@[j + 1]@,
                        );
                    }
                }
            }
        }
        j = j + 1;
    }
    out
}

/// Some row carries commodity `c` on the chosen leg.
pub open spec fn commodity_on_rows(rows: Seq<FinalPosting>, use_tc: bool, c: Seq<char>) -> bool {
    exists|i: int|
        0 <= i < rows.len() && (if use_tc {
            ov((#[trigger] rows[i]).final_tc_commodity)
        } else {
            ov(rows[i].final_cp_commodity)
        }) == Some(c)
}

/// Sorted distinct commodities on one leg of the final rows.
pub fn distinct_commodities(rows: &Vec<FinalPosting>, use_tc: bool) -> (out: Vec<String>)
    ensures
        forall|i: int, j: int|
            0 <= i < j < out@.len() ==> lex_lt((#[trigger] out@[i])@, (#[trigger] out@[j])@),
        forall|i: int|
            0 <= i < rows@.len() ==> ((if use_tc {
                ov((#[trigger] rows@[i]).final_tc_commodity)
            } else {
                ov(rows@[i].final_cp_commodity)
            }) matches Some(cv) ==> contains_str(out@, cv)),
        forall|j: int|
            0 <= j < out@.len() ==> commodity_on_rows(rows@, use_tc, (#[trigger] out@[j])@),
{
    let n = rows.len();
    let mut gathered: Vec<String> = Vec::new();
    let mut i: usize = 0;
    while i < n
        invariant
            n == rows@.len(),
            i <= n,
            forall|k: int|
                0 <= k < i ==> ((if use_tc {
                    ov((#[trigger] rows@[k]).final_tc_commodity)
                } else {
                    ov(rows@[k].final_cp_commodity)
                }) matches Some(cv) ==> contains_str(gathered@, cv)),
            forall|j: int|
                0 <= j < gathered@.len() ==> commodity_on_rows(
                    rows@,
                    use_tc,
                    (#[trigger] gathered@[j])@,
                ),
        decreases n - i,
    {
        let ghost pre = gathered@;
        let com = if use_tc {
            &rows[i].final_tc_commodity
        } else {
            &rows[i].final_cp_commodity
        };
        let ghost pre_g = gathered@;
        match com {
            Some(cs) => {
                gathered.push(cs.clone());
                proof {
                    assert(gathered@[gathered@.len() - 1]@ == cs@);
                    assert forall|j: int|
                        0 <= j < gathered@.len() implies commodity_on_rows(
                        rows@,
                        use_tc,
                        (#[trigger] gathered@[j])@,
                    ) by {
                        if j < pre_g.len() {
                            assert(gathered@[j] == pre_g[j]);
                            assert(commodity_on_rows(rows@, use_tc, pre_g[j]@));
                        } else {
                            assert((if use_tc {
                                ov(rows@[i as int].final_tc_commodity)
                            } else {
                                ov(rows@[i as int].final_cp_commodity)
                            }) == Some(gathered@[j]@));
                        }
                    }
                }
            },
            None => {},
        }
        proof {
            assert forall|k: int|
                0 <= k < i + 1 implies ((if use_tc {
                ov((#[trigger] rows@[k]).final_tc_commodity)
            } else {
                ov(rows@[k].final_cp_commodity)
            }) matches Some(cv) ==> contains_str(gathered@, cv)) by {
                let cvo = if use_tc {
                    ov(rows@[k].final_tc_commodity)
                } else {
                    ov(rows@[k].final_cp_commodity)
                };
                if k < i && cvo is Some {
                    assert(contains_str(pre, cvo->Some_0));
                    let w = choose|w: int|
                        0 <= w < pre.len() && (#[trigger] pre[w])@ == cvo->Some_0;
                    assert(gathered@[w] == pre[w]);
                    assert(gathered@[w]@ == cvo->Some_0);
                }
            }
        }
        i = i + 1;
    }
    let sorted = sort_strings(gathered);
    proof {
        crate::accounts::lemma_multiset_membership(gathered@, sorted@);
    }
    let out = crate::accounts::dedup_sorted(sorted);
    proof {
        assert forall|i2: int|
            0 <= i2 < rows@.len() implies ((if use_tc {
            ov((#[trigger] rows@[i2]).final_tc_commodity)
        } else {
            ov(rows@[i2].final_cp_commodity)
        }) matches Some(cv) ==> contains_str(out@, cv)) by {
            let cvo = if use_tc {
                ov(rows@[i2].final_tc_commodity)
            } else {
                ov(rows@[i2].final_cp_commodity)
            };
            if cvo is Some {
                assert(contains_str(gathered@, cvo->Some_0));
            }
        }
        assert forall|j: int|
            0 <= j < out@.len() implies commodity_on_rows(
            rows@,
            use_tc,
            (#[trigger] out@[j])@,
        ) by {
            assert(contains_str(out@, out@[j]@)) by {
                assert(out@[j]@ == out@[j]@);
            }
            assert(contains_str(gathered@, out@[j]@));
            let w = choose|w: int|
                0 <= w < gathered@.len() && (#[trigger] gathered@[w])@ == out@[j]@;
            assert(commodity_on_rows(rows@, use_tc, gathered@[w]@));
        }
    }
    out
}

/// The trade-cost balance report, sorted by account then commodity.
pub fn tc_balances(rows: &Vec<FinalPosting>, closure: &Vec<String>) -> (out: Vec<BalanceRow>)
    requires
        rows@.len() <= ROW_LIMIT,
        forall|i: int|
            0 <= i < rows@.len() ==> ((#[trigger] rows@[i]).final_tc_quantity matches Some(q)
                ==> -FINAL_LIMIT <= q.cents <= FINAL_LIMIT),
        forall|i: int|
            0 <= i < rows@.len() ==> ((#[trigger] rows@[i]).final_cp_quantity matches Some(q)
                ==> -FINAL_LIMIT <= q.cents <= FINAL_LIMIT),
        forall|i: int, j: int|
            0 <= i < j < closure@.len() ==> lex_lt(
                (#[trigger] closure@[i])@,
                (#[trigger] closure@[j])@,
            ),
    ensures
        forall|r: int, r2: int|
            0 <= r < r2 < out@.len() ==> row_key_lt(#[trigger] out@[r], #[trigger] out@[r2]),
        forall|r: int|
            0 <= r < out@.len() ==> (#[trigger] out@[r]).total.cents == sum_leg(
                rows@,
                true,
                out@[r].account@,
                out@[r].commodity@,
            ) && has_match(rows@, true, out@[r].account@, out@[r].commodity@) && contains_str(
                closure@,
                out@[r].account@,
            ),
        forall|j: int, c: Seq<char>|
            0 <= j < closure@.len() && #[trigger] has_match(rows@, true, closure@[j]@, c)
                ==> exists|r2: int|
                0 <= r2 < out@.len() && (#[trigger] out@[r2]).account@ == closure@[j]@
                    && out@[r2].commodity@ == c,
{
    let commodities = distinct_commodities(rows, true);
    let out = get_balances(rows, closure, &commodities, true);
    proof {
        assert forall|j: int, c: Seq<char>|
            0 <= j < closure@.len() && #[trigger] has_match(
                rows@,
                true,
                closure@[j]@,
                c,
            ) implies exists|r2: int|
            0 <= r2 < out@.len() && (#[trigger] out@[r2]).account@ == closure@[j]@
                && out@[r2].commodity@ == c by {
            let i = choose|i: int|
                0 <= i < rows@.len() && is_prefix(closure@[j]@, (#[trigger] rows@[i]).account@)
                    && (if true {
                    ov(rows@[i].final_tc_commodity)
                } else {
                    ov(rows@[i].final_cp_commodity)
                }) == Some(c);
            assert(contains_str(commodities@, c));
            let ci = choose|ci: int|
                0 <= ci < commodities@.len() && (#[trigger] commodities@[ci])@ == c;
            assert(has_match(rows@, true, (closure@[j])@, (commodities@[ci])@));
        }
    }
    out
}


/// The cost-price balance report, sorted by account then commodity.
pub fn cp_balances(rows: &Vec<FinalPosting>, closure: &Vec<String>) -> (out: Vec<BalanceRow>)
    requires
        rows@.len() <= ROW_LIMIT,
        forall|i: int|
            0 <= i < rows@.len() ==> ((#[trigger] rows@[i]).final_tc_quantity matches Some(q)
                ==> -FINAL_LIMIT <= q.cents <= FINAL_LIMIT),
        forall|i: int|
            0 <= i < rows@.len() ==> ((#[trigger] rows@[i]).final_cp_quantity matches Some(q)
                ==> -FINAL_LIMIT <= q.cents <= FINAL_LIMIT),
        forall|i: int, j: int|
            0 <= i < j < closure@.len() ==> lex_lt(
                (#[trigger] closure@[i])@,
                (#[trigger] closure@[j])@,
            ),
    ensures
        forall|r: int, r2: int|
            0 <= r < r2 < out@.len() ==> row_key_lt(#[trigger] out@[r], #[trigger] out@[r2]),
        forall|r: int|
            0 <= r < out@.len() ==> (#[trigger] out@[r]).total.cents == sum_leg(
                rows@,
                false,
                out@[r].account@,
                out@[r].commodity@,
            ) && has_match(rows@, false, out@[r].account@, out@[r].commodity@) && contains_str(
                closure@,
                out@[r].account@,
            ),
        forall|j: int, c: Seq<char>|
            0 <= j < closure@.len() && #[trigger] has_match(rows@, false, closure@[j]@, c)
                ==> exists|r2: int|
                0 <= r2 < out@.len() && (#[trigger] out@[r2]).account@ == closure@[j]@
                    && out@[r2].commodity@ == c,
{
    let commodities = distinct_commodities(rows, false);
    let out = get_balances(rows, closure, &commodities, false);
    proof {
        assert forall|j: int, c: Seq<char>|
            0 <= j < closure@.len() && #[trigger] has_match(
                rows@,
                false,
                closure@[j]@,
                c,
            ) implies exists|r2: int|
            0 <= r2 < out@.len() && (#[trigger] out@[r2]).account@ == closure@[j]@
                && out@[r2].commodity@ == c by {
            let i = choose|i: int|
                0 <= i < rows@.len() && is_prefix(closure@[j]@, (#[trigger] rows@[i]).account@)
                    && (if false {
                    ov(rows@[i].final_tc_commodity)
                } else {
                    ov(rows@[i].final_cp_commodity)
                }) == Some(c);
            assert(contains_str(commodities@, c));
            let ci = choose|ci: int|
                0 <= ci < commodities@.len() && (#[trigger] commodities@[ci])@ == c;
            assert(has_match(rows@, false, (closure@[j])@, (commodities@[ci])@));
        }
    }
    out
}


/// The printed form of one `balance` assertion.
pub open spec fn balance_line_str(v: VerificationParams) -> Seq<char> {
    date_str(v.date) + " balance "@ + v.account@ + " "@ + amount_str(
        v.quantity->Some_0.cents as int,
    ) + " "@ + v.commodity->Some_0@
}

/// Whether a verification is printed by the balance writer.
pub open spec fn is_balance_row(v: VerificationParams) -> bool {
    v.action == BALANCE_ACTION && v.quantity is Some && v.commodity is Some
}

pub open spec fn render_balances_spec(s: Seq<VerificationParams>) -> Seq<Seq<char>>
    decreases s.len(),
{
    if s.len() == 0 {
        Seq::empty()
    } else {
        render_balances_spec(s.drop_last()) + (if is_balance_row(s.last()) {
            seq![balance_line_str(s.last())]
        } else {
            Seq::empty()
        })
    }
}

/// The lines the balance writer prints: one per `balance` verification,
/// in emission order.
pub fn render_balances(vs: &Vec<VerificationParams>) -> (out: Vec<String>)
    requires
        forall|i: int|
            0 <= i < vs@.len() ==> ((#[trigger] vs@[i]).quantity matches Some(q) ==> q.cents
                != i128::MIN),
        forall|i: int| 0 <= i < vs@.len() ==> (#[trigger] vs@[i]).date.valid(),
    ensures
        out@.map_values(|s: String| s@) == render_balances_spec(vs@),
{
    let n = vs.len();
    let mut out: Vec<String> = Vec::new();
    let mut i: usize = 0;
    while i < n
        invariant
            n == vs@.len(),
            i <= n,
            forall|k: int|
                0 <= k < vs@.len() ==> ((#[trigger] vs@[k]).quantity matches Some(q) ==> q.cents
                    != i128::MIN),
            forall|k: int| 0 <= k < vs@.len() ==> (#[trigger] vs@[k]).date.valid(),
            out@.map_values(|s: String| s@) == render_balances_spec(vs@.subrange(0, i as int)),
        decreases n - i,
    {
        let v = &vs[i];
        proof {
            assert(vs@.subrange(0, i + 1).drop_last() =~= vs@.subrange(0, i as int));
            assert(vs@.subrange(0, i + 1).last() == vs@[i as int]);
        }
        let printed = v.action == BALANCE_ACTION && v.quantity.is_some() && v.commodity.is_some();
        if printed {
            let q = match v.quantity {
                Some(q) => q,
                None => Amount { cents: 0 },
            };
            let com = match &v.commodity {
                Some(c) => c.clone(),
                None => String::new(),
            };
            let mut line = v.date.format();
            proof {
                reveal_strlit(" balance ");
                reveal_strlit(" ");
            }
            line.append(" balance ");
            line.append(v.account.as_str());
            line.append(" ");
            let qs = q.format();
            line.append(qs.as_str());
            line.append(" ");
            line.append(com.as_str());
            proof {
                assert(line@ =~= balance_line_str(vs@[i as int]));
            }
            out.push(line);
            proof {
                assert(out@.map_values(|s: String| s@) =~= render_balances_spec(
                    vs@.subrange(0, i + 1),
                ));
            }
        } else {
            proof {
                assert(out@.map_values(|s: String| s@) =~= render_balances_spec(
                    vs@.subrange(0, i + 1),
                ));
            }
        }
        i = i + 1;
    }
    proof {
        assert(vs@.subrange(0, n as int) =~= vs@);
    }
    out
}

/// Order of printed transactions: by date, then by statement number.
pub open spec fn header_le(a: HeaderParams, b: HeaderParams) -> bool {
    if a.date != b.date {
        a.date.spec_le(b.date)
    } else {
        a.statement_no <= b.statement_no
    }
}

/// Sort transaction headers for printing, keeping multiplicity.
pub fn sort_transactions(v: Vec<HeaderParams>) -> (r: Vec<HeaderParams>)
    ensures
        r@.to_multiset() == v@.to_multiset(),
        forall|i: int, j: int| 0 <= i < j < r@.len() ==> header_le(#[trigger] r@[i], #[trigger] r@[j]),
{
    let mut src = v;
    let mut out: Vec<HeaderParams> = Vec::new();
    proof {
        broadcast use vstd::seq_lib::group_to_multiset_ensures;

        assert(out@.to_multiset().add(src@.to_multiset()) =~= v@.to_multiset());
    }
    loop
        invariant
            out@.to_multiset().add(src@.to_multiset()) == v@.to_multiset(),
            forall|i: int, j: int|
                0 <= i < j < out@.len() ==> header_le(#[trigger] out@[i], #[trigger] out@[j]),
            forall|i: int, j: int|
                0 <= i < out@.len() && 0 <= j < src@.len() ==> header_le(
                    #[trigger] out@[i],
                    #[trigger] src@[j],
                ),
        decreases src@.len(),
    {
        if src.len() == 0 {
            proof {
                broadcast use vstd::seq_lib::group_to_multiset_ensures;

                assert(out@.to_multiset() =~= v@.to_multiset());
            }
            return out;
        }
        let mut min_i: usize = 0;
        let mut j: usize = 1;
        while j < src.len()
            invariant
                src@.len() > 0,
                min_i < j,
                j <= src@.len(),
                forall|k: int| 0 <= k < j ==> header_le(src@[min_i as int], #[trigger] src@[k]),
            decreases src@.len() - j,
        {
            let a = &src[j];
            let b = &src[min_i];
            let smaller = if !(a.date.year == b.date.year && a.date.month == b.date.month
                && a.date.day == b.date.day) {
                a.date.le(b.date) && !b.date.le(a.date)
            } else {
                a.statement_no < b.statement_no
            };
            if smaller {
                min_i = j;
            }
            j = j + 1;
        }
        let ghost old_src = src@;
        let ghost old_out = out@;
        let picked = src.remove(min_i);
        out.push(picked);
        proof {
            broadcast use vstd::seq_lib::group_to_multiset_ensures;

            let p = old_src.subrange(0, min_i as int);
            let q = old_src.subrange(min_i + 1, old_src.len() as int);
            let mid = seq![picked];
            assert(old_src =~= p + (mid + q));
            assert(src@ =~= p + q);
            vstd::seq_lib::lemma_multiset_commutative(p, mid + q);
            vstd::seq_lib::lemma_multiset_commutative(mid, q);
            vstd::seq_lib::lemma_multiset_commutative(p, q);
            assert(out@ =~= old_out + mid);
            vstd::seq_lib::lemma_multiset_commutative(old_out, mid);
            assert(out@.to_multiset().add(src@.to_multiset()) =~= v@.to_multiset());
        }
    }
}

/// The printed header line of one transaction.
pub open spec fn header_line_str(t: HeaderParams) -> Seq<char> {
    let head = crate::amount::dec_digits_of(t.statement_no as int) + ": "@ + date_str(t.date)
        + " * \""@ + t.narration@ + "\" "@;
    match t.tags {
        Some(tg) => head + tg@,
        None => head,
    }
}

/// The printed line of one final posting: the single leg when both legs
/// agree, the `@@` form otherwise, and a placeholder when a leg is
/// missing.
pub open spec fn posting_line_str(p: FinalPosting) -> Seq<char> {
    if p.final_cp_quantity is Some && p.final_cp_commodity is Some && p.final_tc_quantity is Some
        && p.final_tc_commodity is Some {
        if p.final_cp_commodity->Some_0@ == p.final_tc_commodity->Some_0@ {
            "  "@ + p.account@ + " "@ + amount_str(p.final_cp_quantity->Some_0.cents as int) + " "@
                + p.final_cp_commodity->Some_0@
        } else {
            "  "@ + p.account@ + " "@ + amount_str(p.final_cp_quantity->Some_0.cents as int) + " "@
                + p.final_cp_commodity->Some_0@ + " @@ "@ + amount_str(
                p.final_tc_quantity->Some_0.cents as int,
            ) + " "@ + p.final_tc_commodity->Some_0@
        }
    } else {
        "Nothing"@
    }
}

pub open spec fn posting_lines_spec(fs: Seq<FinalPosting>, tno: u32) -> Seq<Seq<char>>
    decreases fs.len(),
{
    if fs.len() == 0 {
        Seq::empty()
    } else {
        posting_lines_spec(fs.drop_last(), tno) + (if fs.last().transaction_no == tno {
            seq![posting_line_str(fs.last())]
        } else {
            Seq::empty()
        })
    }
}

/// All printed lines: for each header in order, its line then the lines of
/// its postings.
pub open spec fn render_txns_spec(ts: Seq<HeaderParams>, fs: Seq<FinalPosting>) -> Seq<Seq<char>>
    decreases ts.len(),
{
    if ts.len() == 0 {
        Seq::empty()
    } else {
        render_txns_spec(ts.drop_last(), fs) + seq![header_line_str(ts.last())]
            + posting_lines_spec(fs, ts.last().statement_no)
    }
}

/// Render one transaction's posting lines.
fn render_postings_of(fs: &Vec<FinalPosting>, tno: u32, out: &mut Vec<String>)
    requires
        forall|i: int|
            0 <= i < fs@.len() ==> ((#[trigger] fs@[i]).final_cp_quantity matches Some(q)
                ==> q.cents != i128::MIN),
        forall|i: int|
            0 <= i < fs@.len() ==> ((#[trigger] fs@[i]).final_tc_quantity matches Some(q)
                ==> q.cents != i128::MIN),
    ensures
        final(out)@.map_values(|s: String| s@) == old(out)@.map_values(|s: String| s@)
            + posting_lines_spec(fs@, tno),
{
    let n = fs.len();
    let mut i: usize = 0;
    while i < n
        invariant
            n == fs@.len(),
            i <= n,
            forall|k: int|
                0 <= k < fs@.len() ==> ((#[trigger] fs@[k]).final_cp_quantity matches Some(q)
                    ==> q.cents != i128::MIN),
            forall|k: int|
                0 <= k < fs@.len() ==> ((#[trigger] fs@[k]).final_tc_quantity matches Some(q)
                    ==> q.cents != i128::MIN),
            out@.map_values(|s: String| s@) == old(out)@.map_values(|s: String| s@)
                + posting_lines_spec(fs@.subrange(0, i as int), tno),
        decreases n - i,
    {
        let p = &fs[i];
        proof {
            assert(fs@.subrange(0, i + 1).drop_last() =~= fs@.subrange(0, i as int));
            assert(fs@.subrange(0, i + 1).last() == fs@[i as int]);
        }
        if p.transaction_no == tno {
            let complete = p.final_cp_quantity.is_some() && p.final_cp_commodity.is_some()
                && p.final_tc_quantity.is_some() && p.final_tc_commodity.is_some();
            let mut line = String::new();
            proof {
                reveal_strlit("  ");
                reveal_strlit(" ");
                reveal_strlit(" @@ ");
                reveal_strlit("Nothing");
            }
            if complete {
                let cp_q = match p.final_cp_quantity {
                    Some(q) => q,
                    None => Amount { cents: 0 },
                };
                let tc_q = match p.final_tc_quantity {
                    Some(q) => q,
                    None => Amount { cents: 0 },
                };
                let cp_c = match &p.final_cp_commodity {
                    Some(c) => c.clone(),
                    None => String::new(),
                };
                let tc_c = match &p.final_tc_commodity {
                    Some(c) => c.clone(),
                    None => String::new(),
                };
                line.append("  ");
                line.append(p.account.as_str());
                line.append(" ");
                let qs = cp_q.format();
                line.append(qs.as_str());
                line.append(" ");
                line.append(cp_c.as_str());
                if !cp_c.eq(&tc_c) {
                    line.append(" @@ ");
                    let qs2 = tc_q.format();
                    line.append(qs2.as_str());
                    line.append(" ");
                    line.append(tc_c.as_str());
                }
                proof {
                    assert(line@ =~= posting_line_str(fs@[i as int]));
                }
            } else {
                line.append("Nothing");
                proof {
                    assert(line@ =~= posting_line_str(fs@[i as int]));
                }
            }
            let ghost pre_vec = out@;
            out.push(line);
            proof {
                assert(out@ =~= pre_vec.push(line));
                assert(out@.map_values(|s: String| s@) =~= pre_vec.map_values(
                    |s: String| s@,
                ).push(line@));
                assert(out@.map_values(|s: String| s@) =~= old(out)@.map_values(|s: String| s@)
                    + posting_lines_spec(fs@.subrange(0, i + 1), tno));
            }
        } else {
            proof {
                assert(out@.map_values(|s: String| s@) =~= old(out)@.map_values(|s: String| s@)
                    + posting_lines_spec(fs@.subrange(0, i + 1), tno));
            }
        }
        i = i + 1;
    }
    proof {
        assert(fs@.subrange(0, n as int) =~= fs@);
    }
}

/// The transaction writer's lines: headers in the given order, each
/// followed by its posting lines.
pub fn render_transactions(ts: &Vec<HeaderParams>, fs: &Vec<FinalPosting>) -> (out: Vec<String>)
    requires
        forall|i: int| 0 <= i < ts@.len() ==> (#[trigger] ts@[i]).date.valid(),
        forall|i: int|
            0 <= i < fs@.len() ==> ((#[trigger] fs@[i]).final_cp_quantity matches Some(q)
                ==> q.cents != i128::MIN),
        forall|i: int|
            0 <= i < fs@.len() ==> ((#[trigger] fs@[i]).final_tc_quantity matches Some(q)
                ==> q.cents != i128::MIN),
    ensures
        out@.map_values(|s: String| s@) == render_txns_spec(ts@, fs@),
{
    let n = ts.len();
    let mut out: Vec<String> = Vec::new();
    let mut i: usize = 0;
    while i < n
        invariant
            n == ts@.len(),
            i <= n,
            forall|k: int| 0 <= k < ts@.len() ==> (#[trigger] ts@[k]).date.valid(),
            forall|k: int|
                0 <= k < fs@.len() ==> ((#[trigger] fs@[k]).final_cp_quantity matches Some(q)
                    ==> q.cents != i128::MIN),
            forall|k: int|
                0 <= k < fs@.len() ==> ((#[trigger] fs@[k]).final_tc_quantity matches Some(q)
                    ==> q.cents != i128::MIN),
            out@.map_values(|s: String| s@) == render_txns_spec(ts@.subrange(0, i as int), fs@),
        decreases n - i,
    {
        let t = &ts[i];
        proof {
            assert(ts@.subrange(0, i + 1).drop_last() =~= ts@.subrange(0, i as int));
            assert(ts@.subrange(0, i + 1).last() == ts@[i as int]);
        }
        let mut line = String::new();
        crate::amount::push_uint(&mut line, t.statement_no as i128);
        proof {
            reveal_strlit(": ");
            reveal_strlit(" * \"");
            reveal_strlit("\" ");
        }
        line.append(": ");
        let ds = t.date.format();
        line.append(ds.as_str());
        line.append(" * \"");
        line.append(t.narration.as_str());
        line.append("\" ");
        match &t.tags {
            Some(tg) => {
                line.append(tg.as_str());
            },
            None => {},
        }
        proof {
            assert(line@ =~= header_line_str(ts@[i as int]));
        }
        let ghost pre_vec = out@;
        out.push(line);
        proof {
            assert(out@ =~= pre_vec.push(line));
            assert(out@.map_values(|s: String| s@) =~= pre_vec.map_values(|s: String| s@).push(
                line@,
            ));
        }
        let ghost mid = out@;
        render_postings_of(fs, t.statement_no, &mut out);
        proof {
            assert(out@.map_values(|s: String| s@) =~= render_txns_spec(
                ts@.subrange(0, i + 1),
                fs@,
            ));
        }
        i = i + 1;
    }
    proof {
        assert(ts@.subrange(0, n as int) =~= ts@);
    }
    out
}

/// The date of the header a transaction number names, if any.
pub open spec fn spec_date_of(ts: Seq<HeaderParams>, tno: u32) -> Option<Date> {
    if exists|i: int| 0 <= i < ts.len() && (#[trigger] ts[i]).statement_no == tno {
        Some(ts[choose|i: int| 0 <= i < ts.len() && (#[trigger] ts[i]).statement_no == tno].date)
    } else {
        None
    }
}

/// Two final rows agree on the columns the comparison joins on: their
/// transaction dates, accounts and both legs.
pub open spec fn rows_agree(
    x: FinalPosting,
    dx: Option<Date>,
    y: FinalPosting,
    dy: Option<Date>,
) -> bool {
    &&& dx == dy
    &&& x.account@ == y.account@
    &&& ov(x.final_cp_commodity) == ov(y.final_cp_commodity)
    &&& x.final_cp_quantity == y.final_cp_quantity
    &&& ov(x.final_tc_commodity) == ov(y.final_tc_commodity)
    &&& x.final_tc_quantity == y.final_tc_quantity
}

/// Look up the date of the header a row belongs to.
fn date_of(ts: &Vec<HeaderParams>, tno: u32) -> (r: Option<Date>)
    requires
        forall|i: int, j: int|
            0 <= i < j < ts@.len() ==> (#[trigger] ts@[i]).statement_no != (
            #[trigger] ts@[j]).statement_no,
    ensures
        r == spec_date_of(ts@, tno),
{
    let n = ts.len();
    let mut i: usize = 0;
    while i < n
        invariant
            n == ts@.len(),
            i <= n,
            forall|a: int, b: int|
                0 <= a < b < ts@.len() ==> (#[trigger] ts@[a]).statement_no != (
                #[trigger] ts@[b]).statement_no,
            forall|k: int| 0 <= k < i ==> (#[trigger] ts@[k]).statement_no != tno,
        decreases n - i,
    {
        if ts[i].statement_no == tno {
            proof {
                let w = choose|w: int| 0 <= w < ts@.len() && (#[trigger] ts@[w]).statement_no == tno;
                assert(w == i);
            }
            return Some(ts[i].date);
        }
        i = i + 1;
    }
    proof {
        if exists|w: int| 0 <= w < ts@.len() && (#[trigger] ts@[w]).statement_no == tno {
            let w = choose|w: int| 0 <= w < ts@.len() && (#[trigger] ts@[w]).statement_no == tno;
            assert(ts@[w].statement_no != tno);
        }
    }
    None
}

/// Indices of the rows of one run that no row of the other run matches
/// on date, account and both legs: the comparison's left difference.
pub fn compare_postings(
    a_rows: &Vec<FinalPosting>,
    a_ts: &Vec<HeaderParams>,
    b_rows: &Vec<FinalPosting>,
    b_ts: &Vec<HeaderParams>,
) -> (out: Vec<usize>)
    requires
        forall|i: int, j: int|
            0 <= i < j < a_ts@.len() ==> (#[trigger] a_ts@[i]).statement_no != (
            #[trigger] a_ts@[j]).statement_no,
        forall|i: int, j: int|
            0 <= i < j < b_ts@.len() ==> (#[trigger] b_ts@[i]).statement_no != (
            #[trigger] b_ts@[j]).statement_no,
    ensures
        forall|k: int|
            0 <= k < out@.len() ==> (#[trigger] out@[k]) < a_rows@.len() && !exists|j: int|
                0 <= j < b_rows@.len() && rows_agree(
                    a_rows@[out@[k] as int],
                    spec_date_of(a_ts@, a_rows@[out@[k] as int].transaction_no),
                    #[trigger] b_rows@[j],
                    spec_date_of(b_ts@, b_rows@[j].transaction_no),
                ),
        forall|i: int|
            0 <= i < a_rows@.len() && !(exists|j: int|
                0 <= j < b_rows@.len() && rows_agree(
                    (#[trigger] a_rows@[i]),
                    spec_date_of(a_ts@, a_rows@[i].transaction_no),
                    #[trigger] b_rows@[j],
                    spec_date_of(b_ts@, b_rows@[j].transaction_no),
                )) ==> out@.contains(i as usize),
{
    let na = a_rows.len();
    let nb = b_rows.len();
    let mut out: Vec<usize> = Vec::new();
    let mut i: usize = 0;
    while i < na
        invariant
            na == a_rows@.len(),
            nb == b_rows@.len(),
            i <= na,
            forall|x: int, y: int|
                0 <= x < y < a_ts@.len() ==> (#[trigger] a_ts@[x]).statement_no != (
                #[trigger] a_ts@[y]).statement_no,
            forall|x: int, y: int|
                0 <= x < y < b_ts@.len() ==> (#[trigger] b_ts@[x]).statement_no != (
                #[trigger] b_ts@[y]).statement_no,
            forall|k: int|
                0 <= k < out@.len() ==> (#[trigger] out@[k]) < a_rows@.len() && !exists|j: int|
                    0 <= j < b_rows@.len() && rows_agree(
                        a_rows@[out@[k] as int],
                        spec_date_of(a_ts@, a_rows@[out@[k] as int].transaction_no),
                        #[trigger] b_rows@[j],
                        spec_date_of(b_ts@, b_rows@[j].transaction_no),
                    ),
            forall|i2: int|
                0 <= i2 < i && !(exists|j: int|
                    0 <= j < b_rows@.len() && rows_agree(
                        (#[trigger] a_rows@[i2]),
                        spec_date_of(a_ts@, a_rows@[i2].transaction_no),
                        #[trigger] b_rows@[j],
                        spec_date_of(b_ts@, b_rows@[j].transaction_no),
                    )) ==> out@.contains(i2 as usize),
        decreases na - i,
    {
        let ghost pre = out@;
        let arow = &a_rows[i];
        let da = date_of(a_ts, arow.transaction_no);
        let mut found = false;
        let mut j: usize = 0;
        while j < nb
            invariant
                nb == b_rows@.len(),
                j <= nb,
                i < na == a_rows@.len(),
                *arow == a_rows@[i as int],
                da == spec_date_of(a_ts@, a_rows@[i as int].transaction_no),
                forall|x: int, y: int|
                    0 <= x < y < b_ts@.len() ==> (#[trigger] b_ts@[x]).statement_no != (
                    #[trigger] b_ts@[y]).statement_no,
                found ==> exists|j2: int|
                    0 <= j2 < b_rows@.len() && rows_agree(
                        a_rows@[i as int],
                        spec_date_of(a_ts@, a_rows@[i as int].transaction_no),
                        #[trigger] b_rows@[j2],
                        spec_date_of(b_ts@, b_rows@[j2].transaction_no),
                    ),
                !found ==> forall|j2: int|
                    0 <= j2 < j ==> !rows_agree(
                        a_rows@[i as int],
                        spec_date_of(a_ts@, a_rows@[i as int].transaction_no),
                        #[trigger] b_rows@[j2],
                        spec_date_of(b_ts@, b_rows@[j2].transaction_no),
                    ),
            decreases nb - j,
        {
            if !found {
                let brow = &b_rows[j];
                let db = date_of(b_ts, brow.transaction_no);
                let dates_eq = match (da, db) {
                    (Some(x), Some(y)) => x.year == y.year && x.month == y.month && x.day == y.day,
                    (None, None) => true,
                    _ => false,
                };
                let agree = dates_eq && arow.account.eq(&brow.account)
                    && crate::balance::opt_com_eq(&arow.final_cp_commodity, &brow.final_cp_commodity)
                    && opt_amt_eq(&arow.final_cp_quantity, &brow.final_cp_quantity)
                    && crate::balance::opt_com_eq(&arow.final_tc_commodity, &brow.final_tc_commodity)
                    && opt_amt_eq(&arow.final_tc_quantity, &brow.final_tc_quantity);
                if agree {
                    found = true;
                    proof {
                        assert(da == db);
                        assert(arow.account@ == brow.account@);
                        assert(ov(arow.final_cp_commodity) == ov(brow.final_cp_commodity));
                        assert(arow.final_cp_quantity == brow.final_cp_quantity);
                        assert(ov(arow.final_tc_commodity) == ov(brow.final_tc_commodity));
                        assert(arow.final_tc_quantity == brow.final_tc_quantity);
                        assert(*arow == a_rows@[i as int]);
                        assert(*brow == b_rows@[j as int]);
                        assert(rows_agree(
                            a_rows@[i as int],
                            spec_date_of(a_ts@, a_rows@[i as int].transaction_no),
                            b_rows@[j as int],
                            spec_date_of(b_ts@, b_rows@[j as int].transaction_no),
                        ));
                    }
                }
            }
            j = j + 1;
        }
        if !found {
            out.push(i);
            proof {
                assert(out@.last() == i as usize);
                assert forall|i2: int|
                    0 <= i2 < i + 1 && !(exists|j2: int|
                        0 <= j2 < b_rows@.len() && rows_agree(
                            (#[trigger] a_rows@[i2]),
                            spec_date_of(a_ts@, a_rows@[i2].transaction_no),
                            #[trigger] b_rows@[j2],
                            spec_date_of(b_ts@, b_rows@[j2].transaction_no),
                        )) implies out@.contains(i2 as usize) by {
                    if i2 < i {
                        assert(pre.contains(i2 as usize));
                        let w = choose|w: int| 0 <= w < pre.len() && pre[w] == i2 as usize;
                        assert(out@[w] == i2 as usize);
                    } else {
                        assert(out@[out@.len() - 1] == i2 as usize);
                    }
                }
            }
        } else {
            proof {
                assert forall|i2: int|
                    0 <= i2 < i + 1 && !(exists|j2: int|
                        0 <= j2 < b_rows@.len() && rows_agree(
                            (#[trigger] a_rows@[i2]),
                            spec_date_of(a_ts@, a_rows@[i2].transaction_no),
                            #[trigger] b_rows@[j2],
                            spec_date_of(b_ts@, b_rows@[j2].transaction_no),
                        )) implies out@.contains(i2 as usize) by {
                    if i2 < i {
                        assert(pre.contains(i2 as usize));
                    } else {
                        assert(false);
                    }
                }
            }
        }
        i = i + 1;
    }
    out
}

/// Equality of optional quantities.
fn opt_amt_eq(a: &Option<Amount>, b: &Option<Amount>) -> (r: bool)
    ensures
        r == (a == b),
{
    match (a, b) {
        (Some(x), Some(y)) => x.cents == y.cents,
        (None, None) => true,
        _ => false,
    }
}

} // verus!
