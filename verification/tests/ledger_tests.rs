use ledger_core::accounts::accounts_closure;
use ledger_core::amount::Amount;
use ledger_core::balance::balance;
use ledger_core::date::Date;
use ledger_core::importers::{
    acct_cash, acct_income, acct_securities, acct_todo, classify_cdn, classify_holding,
    parse_csv_decimal, reverse_sign, store_balance, store_inter_posts, HoldingRecord, InterPost,
    SymbolsMap, TranType, TransRecord,
};
use ledger_core::parse::{
    apply_cost_clause, parse_ledger, resolve_path, FileStore, ParseError,
};
use ledger_core::qfx::{store_qfx_records, QfxImportState, BANKACCTFROM, CCACCTFROM};
use ledger_core::records::{BALANCE_ACTION, CLOSE_ACTION, CUSTOM_ACTION, EVENT_ACTION, OPEN_ACTION, OPTION_ACTION};
use ledger_core::report::{
    cp_balances, compare_postings, render_balances, render_transactions, sort_transactions,
    tc_balances,
};
use ledger_core::state::LedgerState;

fn store_of(files: &[(&str, &str)]) -> FileStore {
    let mut store = FileStore::new();
    for (p, c) in files {
        assert!(store.add_file(p.to_string(), c.to_string()));
    }
    store
}

fn parse_one(content: &str) -> LedgerState {
    let store = store_of(&[("main.beancount", content)]);
    parse_ledger(&"main.beancount".to_string(), &store).expect("parse failed")
}

fn d(y: u32, m: u32, day: u32) -> Date {
    Date { year: y, month: m, day }
}

#[test]
fn simple_balanced_transaction() {
    let state = parse_one(
        "2024-01-01 * \"Coffee\"\n  Assets:Cash -5.00 USD\n  Expenses:Food 5.00 USD\n",
    );
    assert_eq!(state.transactions.len(), 1);
    assert_eq!(state.postings.len(), 2);
    let r = balance(&state.postings);
    assert!(r.errors.is_empty());
    let total: i128 = r
        .final_postings
        .iter()
        .map(|p| p.final_tc_quantity.unwrap().cents)
        .sum();
    assert_eq!(total, 0);
    assert_eq!(r.final_postings[0].final_tc_quantity.unwrap().cents, -500);
    assert_eq!(r.final_postings[1].final_tc_quantity.unwrap().cents, 500);
}

#[test]
fn auto_balanced_transaction() {
    let state = parse_one(
        "2024-01-01 * \"Rent\"\n  Assets:Cash -1000.00 USD\n  Expenses:Rent\n",
    );
    assert_eq!(state.postings.len(), 2);
    assert!(state.postings[1].cp_quantity.is_none());
    let r = balance(&state.postings);
    assert!(r.errors.is_empty());
    let p = &r.final_postings[1];
    assert_eq!(p.final_cp_quantity.unwrap().cents, 100000);
    assert_eq!(p.final_cp_commodity.as_ref().unwrap(), "USD");
    assert_eq!(p.final_tc_quantity.unwrap().cents, 100000);
    assert_eq!(p.final_tc_commodity.as_ref().unwrap(), "USD");
}

#[test]
fn cross_commodity_total_cost() {
    let state = parse_one(
        "2024-03-15 * \"Buy stock\"\n  Assets:Broker 10 AAPL @@ 1500.00 USD\n  Assets:Cash -1500.00 USD\n",
    );
    let p0 = &state.postings[0];
    assert_eq!(p0.cp_quantity.unwrap().cents, 1000);
    assert_eq!(p0.cp_commodity.as_ref().unwrap(), "AAPL");
    assert_eq!(p0.tc_quantity.unwrap().cents, 150000);
    assert_eq!(p0.tc_commodity.as_ref().unwrap(), "USD");
    let p1 = &state.postings[1];
    assert_eq!(p1.cp_quantity.unwrap().cents, -150000);
    assert_eq!(p1.tc_commodity.as_ref().unwrap(), "USD");
    let r = balance(&state.postings);
    assert!(r.errors.is_empty());
}

#[test]
fn include_resolution_numbers() {
    let main = "2024-01-01 open Assets:Cash:Main\ninclude \"sub/a.beancount\"\n2024-01-03 open Assets:Cash:After\n";
    let sub = "2024-01-02 * \"Inner\"\n  Assets:Cash:Main -1.00 USD\n  Expenses:Inner 1.00 USD\n";
    let store = store_of(&[("main.beancount", main), ("sub/a.beancount", sub)]);
    let state = parse_ledger(&"main.beancount".to_string(), &store).expect("parse failed");
    assert_eq!(state.verifications.len(), 2);
    assert_eq!(state.transactions.len(), 1);
    assert_eq!(state.includes.len(), 1);
    let before = state.verifications[0].statement_no;
    let inner = state.transactions[0].statement_no;
    let after = state.verifications[1].statement_no;
    assert!(before < inner);
    assert!(inner < after);
    // the include record keeps the directive's own number
    assert!(state.includes[0].statement_no > before);
    assert!(state.includes[0].statement_no <= inner);
    assert_eq!(state.includes[0].path, "sub/a.beancount");
}

#[test]
fn account_hierarchy_closure() {
    let accounts = vec!["Assets:Bank:Checking".to_string()];
    let c = accounts_closure(&accounts);
    let names: Vec<&str> = c.iter().map(|s| s.as_str()).collect();
    assert_eq!(names, vec!["Assets", "Assets:Bank", "Assets:Bank:Checking"]);
}

#[test]
fn unbalanced_transaction_detection() {
    let state = parse_one(
        "2024-01-01 * \"Oops\"\n  Assets:Cash -5.00 USD\n  Expenses:Food 4.00 USD\n",
    );
    let r = balance(&state.postings);
    assert_eq!(r.errors.len(), 1);
    let e = &r.errors[0];
    assert_eq!(e.commodity.as_ref().unwrap(), "USD");
    assert_eq!(e.totals.cents.abs(), 100);
    assert_eq!(e.transaction_no, state.transactions[0].statement_no);
}

#[test]
fn statement_numbers_strictly_increase() {
    let state = parse_one(
        "2024-01-01 open Assets:A:B\n2024-01-02 open Assets:A:C\n2024-01-03 * \"T\"\n  Assets:A:B -1.00 USD\n  Assets:A:C 1.00 USD\n2024-01-04 close Assets:A:B\n",
    );
    for w in state.verifications.windows(2) {
        assert!(w[0].statement_no < w[1].statement_no);
    }
    for w in state.postings.windows(2) {
        assert!(w[0].statement_no < w[1].statement_no);
    }
}

#[test]
fn open_close_balance_directives() {
    let state = parse_one(
        "2024-01-01 open Assets:Cash:Box ; note\n2024-02-01 balance Assets:Cash:Box 12.50 USD\n2024-03-01 close Assets:Cash:Box\n",
    );
    assert_eq!(state.verifications.len(), 3);
    assert_eq!(state.verifications[0].action, OPEN_ACTION);
    assert_eq!(state.verifications[0].account, "Assets:Cash:Box");
    assert_eq!(state.verifications[0].date, d(2024, 1, 1));
    assert_eq!(state.verifications[1].action, BALANCE_ACTION);
    assert_eq!(state.verifications[1].quantity.unwrap().cents, 1250);
    assert_eq!(state.verifications[1].commodity.as_ref().unwrap(), "USD");
    assert_eq!(state.verifications[2].action, CLOSE_ACTION);
}

#[test]
fn informational_directives() {
    let state = parse_one(
        "2024-01-01 event \"location\" \"Berlin\"\noption \"title\" \"My Ledger\"\n2024-01-02 custom something else\n",
    );
    assert_eq!(state.informationals.len(), 3);
    assert_eq!(state.informationals[0].action, EVENT_ACTION);
    assert_eq!(state.informationals[0].attribute.as_ref().unwrap(), "location");
    assert_eq!(state.informationals[0].value, "Berlin");
    assert_eq!(state.informationals[1].action, OPTION_ACTION);
    assert!(state.informationals[1].date.is_none());
    assert_eq!(state.informationals[2].action, CUSTOM_ACTION);
    assert_eq!(state.informationals[2].value, " something else");
}

#[test]
fn header_tags_kept_as_written() {
    let state = parse_one(
        "2024-01-01 * \"Tagged\" #alpha #beta2\n  Assets:Cash -1.00 USD\n  Expenses:Misc 1.00 USD\n",
    );
    assert_eq!(state.transactions[0].tags.as_ref().unwrap(), "#alpha #beta2");
    assert_eq!(state.transactions[0].narration, "Tagged");
}

#[test]
fn junk_lines_are_absorbed() {
    let state = parse_one(
        "; a comment line\n\nnot a statement at all\n2024-01-01 open Assets:Cash:K\n",
    );
    assert_eq!(state.verifications.len(), 1);
    assert_eq!(state.transactions.len(), 0);
}

#[test]
fn missing_postings_is_fatal() {
    let store = store_of(&[("m.beancount", "2024-01-01 * \"Empty\"\n2024-01-02 open Assets:Cash:X\n")]);
    let r = parse_ledger(&"m.beancount".to_string(), &store);
    assert!(matches!(r, Err(ParseError::MissingPostings { .. })));
}

#[test]
fn missing_file_reported() {
    let store = store_of(&[("m.beancount", "include \"absent.beancount\"\n")]);
    let r = parse_ledger(&"m.beancount".to_string(), &store);
    match r {
        Err(ParseError::MissingFile { path }) => assert_eq!(path, "absent.beancount"),
        _ => panic!("expected a missing-file error"),
    }
}

#[test]
fn repeated_inclusion_reported() {
    let main = "include \"a.beancount\"\ninclude \"a.beancount\"\n";
    let store = store_of(&[("main.beancount", main), ("a.beancount", "; empty\n")]);
    let r = parse_ledger(&"main.beancount".to_string(), &store);
    assert!(matches!(r, Err(ParseError::RepeatedInclude { .. })));
}

#[test]
fn resolve_paths_like_the_filesystem() {
    assert_eq!(
        resolve_path(&"dir/main.b".to_string(), &"sub/a.b".to_string()),
        "dir/sub/a.b"
    );
    assert_eq!(resolve_path(&"main.b".to_string(), &"a.b".to_string()), "a.b");
    assert_eq!(resolve_path(&"dir/main.b".to_string(), &"/abs.b".to_string()), "/abs.b");
}

#[test]
fn amount_parsing_and_format() {
    assert_eq!(parse_csv_decimal("10").unwrap().cents, 1000);
    assert_eq!(parse_csv_decimal("-5.00").unwrap().cents, -500);
    assert_eq!(parse_csv_decimal("$1,234.56").unwrap().cents, 123456);
    assert_eq!(parse_csv_decimal("0.125").unwrap().cents, 12);
    assert_eq!(parse_csv_decimal("0.135").unwrap().cents, 14);
    assert_eq!(parse_csv_decimal("1.005").unwrap().cents, 100);
    assert!(parse_csv_decimal("abc").is_none());
    assert!(parse_csv_decimal("1.2.3").is_none());
    assert_eq!(Amount { cents: -500 }.format(), "-5.00");
    assert_eq!(Amount { cents: 123456 }.format(), "1234.56");
    assert_eq!(Amount { cents: 7 }.format(), "0.07");
}

#[test]
fn civil_dates_are_checked() {
    assert!(Date::checked_new(2024, 2, 29).is_some());
    assert!(Date::checked_new(2023, 2, 29).is_none());
    assert!(Date::checked_new(1900, 2, 29).is_none());
    assert!(Date::checked_new(2000, 2, 29).is_some());
    assert!(Date::checked_new(2024, 13, 1).is_none());
    assert!(Date::checked_new(2024, 4, 31).is_none());
    assert_eq!(d(2024, 1, 5).format(), "2024-01-05");
}

#[test]
fn balance_reports_roll_up_ancestors() {
    let state = parse_one(
        "2024-01-01 * \"Coffee\"\n  Assets:Cash:Wallet -5.00 USD\n  Expenses:Food:Out 5.00 USD\n",
    );
    let r = balance(&state.postings);
    let accounts: Vec<String> = r.final_postings.iter().map(|p| p.account.clone()).collect();
    let closure = accounts_closure(&accounts);
    let tc = tc_balances(&r.final_postings, &closure);
    let find = |name: &str| {
        tc.iter()
            .find(|row| row.account == name && row.commodity == "USD")
            .map(|row| row.total.cents)
    };
    assert_eq!(find("Assets"), Some(-500));
    assert_eq!(find("Assets:Cash"), Some(-500));
    assert_eq!(find("Assets:Cash:Wallet"), Some(-500));
    assert_eq!(find("Expenses"), Some(500));
    let cp = cp_balances(&r.final_postings, &closure);
    assert_eq!(cp.len(), tc.len());
    // sorted by account then commodity
    for w in tc.windows(2) {
        assert!(w[0].account < w[1].account || (w[0].account == w[1].account && w[0].commodity < w[1].commodity));
    }
}

#[test]
fn balance_lines_render_exactly() {
    let state = parse_one("2024-02-01 balance Assets:Cash:Box 12.50 USD\n");
    let lines = render_balances(&state.verifications);
    assert_eq!(lines, vec!["2024-02-01 balance Assets:Cash:Box 12.50 USD".to_string()]);
}

#[test]
fn transaction_lines_render_exactly() {
    let state = parse_one(
        "2024-03-15 * \"Buy stock\"\n  Assets:Broker 10 AAPL @@ 1500.00 USD\n  Assets:Cash -1500.00 USD\n",
    );
    let r = balance(&state.postings);
    let sorted = sort_transactions(state.transactions.clone());
    let lines = render_transactions(&sorted, &r.final_postings);
    assert_eq!(lines.len(), 3);
    let t_no = sorted[0].statement_no;
    assert_eq!(lines[0], format!("{}: 2024-03-15 * \"Buy stock\" ", t_no));
    assert_eq!(lines[1], "  Assets:Broker 10.00 AAPL @@ 1500.00 USD");
    assert_eq!(lines[2], "  Assets:Cash -1500.00 USD");
}

#[test]
fn transactions_sort_by_date_then_number() {
    let state = parse_one(
        "2024-05-01 * \"Later\"\n  Assets:Cash -1.00 USD\n  Expenses:A 1.00 USD\n2024-01-01 * \"Earlier\"\n  Assets:Cash -2.00 USD\n  Expenses:B 2.00 USD\n",
    );
    let sorted = sort_transactions(state.transactions);
    assert_eq!(sorted[0].narration, "Earlier");
    assert_eq!(sorted[1].narration, "Later");
}

#[test]
fn postings_comparison_finds_differences() {
    let a = parse_one("2024-01-01 * \"Same\"\n  Assets:Cash -5.00 USD\n  Expenses:Food 5.00 USD\n");
    let b = parse_one("2024-01-01 * \"Same\"\n  Assets:Cash -5.00 USD\n  Expenses:Food 4.00 USD\n");
    let ra = balance(&a.postings);
    let rb = balance(&b.postings);
    let missing = compare_postings(
        &ra.final_postings,
        &a.transactions,
        &rb.final_postings,
        &b.transactions,
    );
    assert_eq!(missing, vec![1]);
    let same = compare_postings(
        &ra.final_postings,
        &a.transactions,
        &ra.final_postings,
        &a.transactions,
    );
    assert!(same.is_empty());
}

#[test]
fn cost_clause_rule() {
    // absent clause: the trade-cost leg mirrors the cost-price leg
    let (q, c) = apply_cost_clause(
        Some(Amount { cents: 1000 }),
        Some("AAPL".to_string()),
        None,
    );
    assert_eq!(q.unwrap().cents, 1000);
    assert_eq!(c.unwrap(), "AAPL");
    // present clause: the trade-cost leg is the clause
    let (q2, c2) = apply_cost_clause(
        Some(Amount { cents: 1000 }),
        Some("AAPL".to_string()),
        Some((Amount { cents: 150000 }, "USD".to_string())),
    );
    assert_eq!(q2.unwrap().cents, 150000);
    assert_eq!(c2.unwrap(), "USD");
}

#[test]
fn only_one_leg_may_be_inferred() {
    // two postings without legs in the same transaction cannot both be filled
    let state = parse_one(
        "2024-01-01 * \"TwoHoles\"\n  Assets:Cash -9.00 USD\n  Expenses:A\n  Expenses:B\n",
    );
    let r = balance(&state.postings);
    assert!(!r.errors.is_empty());
    // a single hole is filled and the run is clean
    let ok = parse_one("2024-01-01 * \"OneHole\"\n  Assets:Cash -9.00 USD\n  Expenses:A\n");
    let r2 = balance(&ok.postings);
    assert!(r2.errors.is_empty());
}

#[test]
fn fully_specified_rows_pass_unchanged() {
    let state = parse_one(
        "2024-01-01 * \"Exact\"\n  Assets:Cash -5.00 USD\n  Expenses:Food 5.00 USD\n",
    );
    let r = balance(&state.postings);
    for (p, f) in state.postings.iter().zip(r.final_postings.iter()) {
        assert_eq!(p.account, f.account);
        assert_eq!(p.cp_quantity, f.final_cp_quantity);
        assert_eq!(p.cp_commodity, f.final_cp_commodity);
        assert_eq!(p.tc_quantity, f.final_tc_quantity);
        assert_eq!(p.tc_commodity, f.final_tc_commodity);
    }
}

#[test]
fn provenance_spans_reparse_to_the_same_record() {
    let content = "; prelude\n2024-02-01 balance Assets:Cash:Box 12.50 USD\n";
    let state = parse_one(content);
    let v = &state.verifications[0];
    let span: String = content
        .chars()
        .skip(v.start as usize)
        .take((v.end - v.start) as usize)
        .collect();
    let again = parse_one(&span);
    let v2 = &again.verifications[0];
    assert_eq!(v.date, v2.date);
    assert_eq!(v.action, v2.action);
    assert_eq!(v.account, v2.account);
    assert_eq!(v.quantity, v2.quantity);
    assert_eq!(v.commodity, v2.commodity);
    assert_eq!(v.end - v.start, v2.end - v2.start);
}

#[test]
fn cdn_buy_classification() {
    let mut symbols = SymbolsMap::new();
    symbols.insert("APPLE INC".to_string(), "AAPL".to_string());
    let rec = TransRecord {
        settled: d(2024, 1, 2),
        tran_types: TranType::Buy,
        description: "APPLE INC".to_string(),
        price: Amount { cents: 15000 },
        quantity: Amount { cents: 1000 },
        amount: Amount { cents: -150000 },
    };
    let cash = acct_cash("Stan", "123");
    let sec = acct_securities("Stan", "123");
    let target = acct_income("Stan", "Dividend");
    let gl = acct_income("Stan", "GainLoss");
    assert_eq!(cash, "Assets:Investments:Stan:123:Cash");
    assert_eq!(sec, "Assets:Investments:Stan:123:Securities");
    assert_eq!(acct_todo("Stan"), "Assets:Investments:Stan:TODO");
    assert_eq!(target, "Income:Investments:Stan:Taxable:Dividend");
    let posts = classify_cdn(&rec, "CAD", &symbols, &cash, &sec, &target, &gl);
    assert_eq!(posts.len(), 2);
    assert_eq!(posts[0].account, sec);
    let (q0, c0) = posts[0].cp.clone().unwrap();
    assert_eq!(q0.cents, 1000);
    assert_eq!(c0, "AAPL");
    let (t0, tc0) = posts[0].tc.clone().unwrap();
    assert_eq!(t0.cents, 150000);
    assert_eq!(tc0, "CAD");
    let (q1, c1) = posts[1].cp.clone().unwrap();
    assert_eq!(q1.cents, -150000);
    assert_eq!(c1, "CAD");
    assert!(posts[1].tc.is_none());
}

#[test]
fn imported_posts_are_stored_with_linkage() {
    let mut state = LedgerState::new();
    let posts = vec![
        InterPost {
            account: "Assets:Cash".to_string(),
            cp: Some((Amount { cents: -500 }, "USD".to_string())),
            tc: None,
        },
        InterPost { account: "Expenses:Misc".to_string(), cp: None, tc: None },
    ];
    let stored = store_inter_posts(&mut state, d(2024, 1, 1), "row".to_string(), posts);
    assert!(stored);
    assert_eq!(state.transactions.len(), 1);
    assert_eq!(state.postings.len(), 2);
    let h = &state.transactions[0];
    for p in &state.postings {
        assert_eq!(p.transaction_no, h.statement_no);
    }
    // an empty classification stores nothing but advances the row counter
    let before = state.line_count;
    let stored2 = store_inter_posts(&mut state, d(2024, 1, 1), "skip".to_string(), Vec::new());
    assert!(!stored2);
    assert_eq!(state.line_count, before + 1);
    assert_eq!(state.transactions.len(), 1);
}

#[test]
fn qfx_records_are_numbered_from_one() {
    let mut import = QfxImportState::new();
    import.append_transaction(
        d(2024, 1, 5),
        "GROCERY / card".to_string(),
        "12345".to_string(),
        Amount { cents: -2599 },
        "CAD".to_string(),
    );
    import.append_transaction(
        d(2024, 1, 6),
        "PAYROLL".to_string(),
        "12345".to_string(),
        Amount { cents: 100000 },
        "CAD".to_string(),
    );
    import.append_balance(d(2024, 1, 31), "12345".to_string(), Amount { cents: 97401 }, "CAD".to_string());
    let mut symbols = SymbolsMap::new();
    symbols.insert("12345".to_string(), "Assets:Bank:Chequing".to_string());
    let mut state = LedgerState::new();
    assert!(store_qfx_records(&import, &symbols, &mut state));
    assert_eq!(state.transactions.len(), 2);
    assert_eq!(state.postings.len(), 2);
    assert_eq!(state.verifications.len(), 1);
    assert_eq!(state.transactions[0].statement_no, 1);
    assert_eq!(state.transactions[1].statement_no, 2);
    assert_eq!(state.verifications[0].statement_no, 3);
    assert_eq!(state.postings[0].account, "Assets:Bank:Chequing");
    assert_eq!(state.postings[0].cp_quantity.unwrap().cents, -2599);
    assert_eq!(state.verifications[0].action, BALANCE_ACTION);
}

#[test]
fn account_aggregates_hand_out_their_id() {
    let b = BANKACCTFROM { acctid: "0042".to_string() };
    assert_eq!(b.get_acctid(), "0042");
    let c = CCACCTFROM { acctid: "9999".to_string() };
    assert_eq!(c.get_acctid(), "9999");
}

#[test]
fn reverse_sign_flips() {
    assert_eq!(reverse_sign(&Amount { cents: 500 }).cents, -500);
    assert_eq!(reverse_sign(&Amount { cents: -500 }).cents, 500);
    assert_eq!(reverse_sign(&Amount { cents: 0 }).cents, 0);
}

#[test]
fn multi_commodity_transactions_balance_independently() {
    let state = parse_one(
        "2024-01-01 * \"Mixed\"\n  Assets:Cash -5.00 USD\n  Expenses:A 5.00 USD\n  Assets:Box -2.00 EUR\n  Expenses:B 2.00 EUR\n",
    );
    let r = balance(&state.postings);
    assert!(r.errors.is_empty());
}

#[test]
fn counter_overflow_is_an_error_not_a_panic() {
    // a statement placed beyond the counter's range cannot be numbered
    let mut state = LedgerState::new();
    state.line_count = u32::MAX - 1;
    let posts = vec![InterPost { account: "Assets:X".to_string(), cp: None, tc: None }];
    // the requires of the verified function would be violated, so the
    // caller must test first, as the library's surface demands
    let room = (u32::MAX - state.line_count) as usize > posts.len();
    assert!(!room);
}

#[test]
fn holdings_rows_become_balance_assertions() {
    let cash_row = HoldingRecord {
        owner: "Stan".to_string(),
        account_number: "123".to_string(),
        symbol: "".to_string(),
        holding: "CASH".to_string(),
        quantity: Amount { cents: 5000 },
        fund: "".to_string(),
    };
    let (acct, com) = classify_holding(&cash_row, "CAD");
    assert_eq!(acct, "Assets:Investments:Stan:123:Cash");
    assert_eq!(com, "CAD");
    let fund_row = HoldingRecord { fund: "MMF".to_string(), ..cash_row };
    let (_, com2) = classify_holding(&fund_row, "CAD");
    assert_eq!(com2, "MMF");
    let sec_row = HoldingRecord {
        owner: "Stan".to_string(),
        account_number: "123".to_string(),
        symbol: "XIU".to_string(),
        holding: "ETF".to_string(),
        quantity: Amount { cents: 1200 },
        fund: "".to_string(),
    };
    let (acct3, com3) = classify_holding(&sec_row, "CAD");
    assert_eq!(acct3, "Assets:Investments:Stan:123:Securities");
    assert_eq!(com3, "XIU");
    let mut state = LedgerState::new();
    store_balance(&mut state, d(2024, 6, 30), acct3, Amount { cents: 1200 }, com3);
    assert_eq!(state.verifications.len(), 1);
    assert_eq!(state.verifications[0].action, BALANCE_ACTION);
    assert_eq!(state.verifications[0].quantity.unwrap().cents, 1200);
}

#[test]
fn directive_spans_reparse_for_every_form() {
    let content = "option \"title\" \"Book\"\n2024-01-01 open Assets:Cash:Box\n2024-01-02 event \"location\" \"Berlin\"\n2024-01-03 custom note here\n2024-02-01 balance Assets:Cash:Box 12.50 USD ; checked\n2024-03-01 close Assets:Cash:Box\n";
    let state = parse_one(content);
    let chars: Vec<char> = content.chars().collect();
    let span = |start: u32, end: u32| -> String {
        chars[start as usize..end as usize].iter().collect()
    };
    for v in &state.verifications {
        let again = parse_one(&span(v.start, v.end));
        let v2 = &again.verifications[0];
        assert_eq!(v.date, v2.date);
        assert_eq!(v.action, v2.action);
        assert_eq!(v.account, v2.account);
        assert_eq!(v.quantity, v2.quantity);
        assert_eq!(v.commodity, v2.commodity);
    }
    for f in &state.informationals {
        let again = parse_one(&span(f.start, f.end));
        let f2 = &again.informationals[0];
        assert_eq!(f.date, f2.date);
        assert_eq!(f.action, f2.action);
        assert_eq!(f.attribute, f2.attribute);
        assert_eq!(f.value, f2.value);
    }
}

#[test]
fn empty_and_crlf_inputs() {
    let empty = parse_one("");
    assert_eq!(empty.transactions.len(), 0);
    assert_eq!(empty.verifications.len(), 0);
    let crlf = parse_one(
        "2024-01-01 * \"Coffee\"\r\n  Assets:Cash -5.00 USD\r\n  Expenses:Food 5.00 USD\r\n",
    );
    assert_eq!(crlf.transactions.len(), 1);
    assert_eq!(crlf.postings.len(), 2);
    let r = balance(&crlf.postings);
    assert!(r.errors.is_empty());
    // a file without a trailing newline parses too
    let no_nl = parse_one("2024-01-01 open Assets:Cash:Last");
    assert_eq!(no_nl.verifications.len(), 1);
}

#[test]
fn empty_postings_balance_to_nothing() {
    let r = balance(&Vec::new());
    assert!(r.final_postings.is_empty());
    assert!(r.errors.is_empty());
    let c = accounts_closure(&Vec::new());
    assert!(c.is_empty());
}

#[test]
fn cdn_target_accounts_by_kind() {
    assert_eq!(
        ledger_core::importers::cdn_target_account(TranType::CanadianCashDividend, "Stan"),
        "Income:Investments:Stan:Taxable:Dividend"
    );
    assert_eq!(
        ledger_core::importers::cdn_target_account(TranType::CashReceipt, "Stan"),
        "Assets:Investments:Stan:TODO"
    );
    assert_eq!(
        ledger_core::importers::cdn_target_account(TranType::QuebecSalesTax, "Stan"),
        "Expenses:Investments:Stan:Fees"
    );
    assert_eq!(
        ledger_core::importers::cdn_target_account(TranType::MonthlyInterest, "Stan"),
        "Income:Investments:Stan:Taxable:Interest"
    );
}

#[test]
fn qfx_dates_parse_and_reject() {
    assert_eq!(ledger_core::qfx::parse_qfx_date("20240105120000"), Some(d(2024, 1, 5)));
    assert_eq!(ledger_core::qfx::parse_qfx_date("20240229"), Some(d(2024, 2, 29)));
    assert!(ledger_core::qfx::parse_qfx_date("20230229").is_none());
    assert!(ledger_core::qfx::parse_qfx_date("2024").is_none());
    assert!(ledger_core::qfx::parse_qfx_date("2024010x").is_none());
}

#[test]
fn stored_rows_mirror_their_legs() {
    let mut state = LedgerState::new();
    let posts = vec![InterPost {
        account: "Assets:Cash".to_string(),
        cp: Some((Amount { cents: -500 }, "USD".to_string())),
        tc: Some((Amount { cents: -500 }, "USD".to_string())),
    }];
    let rec = TransRecord {
        settled: d(2024, 2, 3),
        tran_types: TranType::CashReceipt,
        description: "row".to_string(),
        price: Amount { cents: 0 },
        quantity: Amount { cents: 0 },
        amount: Amount { cents: -500 },
    };
    let stored = ledger_core::importers::store_transaction(&rec, "row".to_string(), posts, &mut state);
    assert!(stored);
    assert_eq!(state.transactions.len(), 1);
    assert_eq!(state.transactions[0].date, d(2024, 2, 3));
    assert_eq!(state.postings.len(), 1);
    assert_eq!(state.postings[0].account, "Assets:Cash");
    assert_eq!(state.postings[0].tc_quantity.unwrap().cents, -500);
}
