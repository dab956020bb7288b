use vstd::prelude::*;
use crate::amount::{
    dec_token_cents, digit_val, is_digit, lemma_digits_val_bound, lemma_pow10_pos, pow10, Amount,
    AMOUNT_LIMIT,
};
use crate::date::{four_digit_val, two_digit_val, Date};
use crate::text::chars_vec;
use crate::records::{
    HeaderParams, IncludeParams, InfoParams, PostingParams, VerificationParams, BALANCE_ACTION,
    CLOSE_ACTION, CUSTOM_ACTION, EVENT_ACTION, OPEN_ACTION, OPTION_ACTION,
};
use crate::state::LedgerState;
use vstd::string::StrSliceExecFns;
use vstd::string::StringExecFns;

verus! {

broadcast use vstd::string::group_string_axioms, vstd::std_specs::vec::axiom_spec_len;

// ---------------------------------------------------------------------------
// Character classes of the grammar's lexical tokens.
// ---------------------------------------------------------------------------
pub open spec fn is_space_char(c: char) -> bool {
    c == ' ' || c == '\t'
}

pub open spec fn is_line_end_char(c: char) -> bool {
    c == '\n' || c == '\r'
}

pub open spec fn is_acct_char(c: char) -> bool {
    ('A' <= c && c <= 'Z') || ('a' <= c && c <= 'z') || is_digit(c) || c == '-'
}

pub open spec fn is_commodity_char(c: char) -> bool {
    ('A' <= c && c <= 'Z') || is_digit(c) || c == '_'
}

pub open spec fn is_tag_char(c: char) -> bool {
    ('A' <= c && c <= 'Z') || ('a' <= c && c <= 'z') || is_digit(c)
}

pub open spec fn is_not_quote(c: char) -> bool {
    c != '"'
}

pub open spec fn is_not_line_end(c: char) -> bool {
    !is_line_end_char(c)
}

// ---------------------------------------------------------------------------
// Runs of characters from one class.
// ---------------------------------------------------------------------------
/// First position at or after `i` whose character fails `p` (or the end).
pub open spec fn run_end(s: Seq<char>, i: int, p: spec_fn(char) -> bool) -> int
    decreases s.len() - i when 0 <= i <= s.len()
{
    if i < s.len() && p(s[i]) {
        run_end(s, i + 1, p)
    } else {
        i
    }
}

pub proof fn lemma_run_end(s: Seq<char>, i: int, p: spec_fn(char) -> bool)
    requires
        0 <= i <= s.len(),
    ensures
        i <= run_end(s, i, p) <= s.len(),
        forall|k: int| i <= k < run_end(s, i, p) ==> p(#[trigger] s[k]),
        run_end(s, i, p) < s.len() ==> !p(s[run_end(s, i, p)]),
    decreases s.len() - i,
{
    if i < s.len() && p(s[i]) {
        lemma_run_end(s, i + 1, p);
    }
}

/// A run is bounded by any position whose character fails `p`.
pub proof fn lemma_run_end_stops(s: Seq<char>, i: int, p: spec_fn(char) -> bool, j: int)
    requires
        0 <= i <= j < s.len(),
        !p(s[j]),
        forall|k: int| i <= k < j ==> p(#[trigger] s[k]),
    ensures
        run_end(s, i, p) == j,
    decreases s.len() - i,
{
    if i < j {
        lemma_run_end_stops(s, i + 1, p, j);
    }
}

pub fn scan_spaces(cs: &Vec<char>, i: usize) -> (e: usize)
    requires
        i <= cs@.len(),
    ensures
        e == run_end(cs@, i as int, |c: char| is_space_char(c)),
        i <= e <= cs@.len(),
{
    proof {
        lemma_run_end(cs@, i as int, |c: char| is_space_char(c));
    }
    let mut j = i;
    loop
        invariant
            i <= j <= cs@.len(),
            run_end(cs@, i as int, |c: char| is_space_char(c)) == run_end(
                cs@,
                j as int,
                |c: char| is_space_char(c),
            ),
        decreases cs@.len() - j,
    {
        if j == cs.len() {
            return j;
        }
        let c = cs[j];
        if !(c == ' ' || c == '\t') {
            return j;
        }
        j = j + 1;
    }
}

pub fn scan_acct_chars(cs: &Vec<char>, i: usize) -> (e: usize)
    requires
        i <= cs@.len(),
    ensures
        e == run_end(cs@, i as int, |c: char| is_acct_char(c)),
        i <= e <= cs@.len(),
{
    proof {
        lemma_run_end(cs@, i as int, |c: char| is_acct_char(c));
    }
    let mut j = i;
    loop
        invariant
            i <= j <= cs@.len(),
            run_end(cs@, i as int, |c: char| is_acct_char(c)) == run_end(
                cs@,
                j as int,
                |c: char| is_acct_char(c),
            ),
        decreases cs@.len() - j,
    {
        if j == cs.len() {
            return j;
        }
        let c = cs[j];
        if !(('A' <= c && c <= 'Z') || ('a' <= c && c <= 'z') || ('0' <= c && c <= '9') || c == '-') {
            return j;
        }
        j = j + 1;
    }
}

pub fn scan_commodity_chars(cs: &Vec<char>, i: usize) -> (e: usize)
    requires
        i <= cs@.len(),
    ensures
        e == run_end(cs@, i as int, |c: char| is_commodity_char(c)),
        i <= e <= cs@.len(),
{
    proof {
        lemma_run_end(cs@, i as int, |c: char| is_commodity_char(c));
    }
    let mut j = i;
    loop
        invariant
            i <= j <= cs@.len(),
            run_end(cs@, i as int, |c: char| is_commodity_char(c)) == run_end(
                cs@,
                j as int,
                |c: char| is_commodity_char(c),
            ),
        decreases cs@.len() - j,
    {
        if j == cs.len() {
            return j;
        }
        let c = cs[j];
        if !(('A' <= c && c <= 'Z') || ('0' <= c && c <= '9') || c == '_') {
            return j;
        }
        j = j + 1;
    }
}

pub fn scan_tag_chars(cs: &Vec<char>, i: usize) -> (e: usize)
    requires
        i <= cs@.len(),
    ensures
        e == run_end(cs@, i as int, |c: char| is_tag_char(c)),
        i <= e <= cs@.len(),
{
    proof {
        lemma_run_end(cs@, i as int, |c: char| is_tag_char(c));
    }
    let mut j = i;
    loop
        invariant
            i <= j <= cs@.len(),
            run_end(cs@, i as int, |c: char| is_tag_char(c)) == run_end(
                cs@,
                j as int,
                |c: char| is_tag_char(c),
            ),
        decreases cs@.len() - j,
    {
        if j == cs.len() {
            return j;
        }
        let c = cs[j];
        if !(('A' <= c && c <= 'Z') || ('a' <= c && c <= 'z') || ('0' <= c && c <= '9')) {
            return j;
        }
        j = j + 1;
    }
}

pub fn scan_not_quote(cs: &Vec<char>, i: usize) -> (e: usize)
    requires
        i <= cs@.len(),
    ensures
        e == run_end(cs@, i as int, |c: char| is_not_quote(c)),
        i <= e <= cs@.len(),
{
    proof {
        lemma_run_end(cs@, i as int, |c: char| is_not_quote(c));
    }
    let mut j = i;
    loop
        invariant
            i <= j <= cs@.len(),
            run_end(cs@, i as int, |c: char| is_not_quote(c)) == run_end(
                cs@,
                j as int,
                |c: char| is_not_quote(c),
            ),
        decreases cs@.len() - j,
    {
        if j == cs.len() {
            return j;
        }
        let c = cs[j];
        if !(c != '"') {
            return j;
        }
        j = j + 1;
    }
}

pub fn scan_not_line_end(cs: &Vec<char>, i: usize) -> (e: usize)
    requires
        i <= cs@.len(),
    ensures
        e == run_end(cs@, i as int, |c: char| is_not_line_end(c)),
        i <= e <= cs@.len(),
{
    proof {
        lemma_run_end(cs@, i as int, |c: char| is_not_line_end(c));
    }
    let mut j = i;
    loop
        invariant
            i <= j <= cs@.len(),
            run_end(cs@, i as int, |c: char| is_not_line_end(c)) == run_end(
                cs@,
                j as int,
                |c: char| is_not_line_end(c),
            ),
        decreases cs@.len() - j,
    {
        if j == cs.len() {
            return j;
        }
        let c = cs[j];
        if !(!(c == '\n' || c == '\r')) {
            return j;
        }
        j = j + 1;
    }
}

/// Decide a class for one character, in executable code.
pub fn char_is_digit(c: char) -> (r: bool)
    ensures
        r == is_digit(c),
{
    '0' <= c && c <= '9'
}

pub fn char_is_space(c: char) -> (r: bool)
    ensures
        r == is_space_char(c),
{
    c == ' ' || c == '\t'
}

/// End of the run of decimal digits starting at `i`.
pub fn scan_digits(cs: &Vec<char>, i: usize) -> (e: usize)
    requires
        i <= cs@.len(),
    ensures
        e == run_end(cs@, i as int, |c: char| is_digit(c)),
        i <= e <= cs@.len(),
{
    proof {
        lemma_run_end(cs@, i as int, |c: char| is_digit(c));
    }
    let mut j = i;
    loop
        invariant
            i <= j <= cs@.len(),
            run_end(cs@, i as int, |c: char| is_digit(c)) == run_end(
                cs@,
                j as int,
                |c: char| is_digit(c),
            ),
        decreases cs@.len() - j,
    {
        if j == cs.len() {
            return j;
        }
        let c = cs[j];
        if !('0' <= c && c <= '9') {
            return j;
        }
        j = j + 1;
    }
}

// ---------------------------------------------------------------------------
// Composite tokens.
// ---------------------------------------------------------------------------
/// The literal `lit` occurs in `s` at position `i`.
pub open spec fn lit_at(s: Seq<char>, i: int, lit: Seq<char>) -> bool {
    0 <= i && i + lit.len() <= s.len() && s.subrange(i, i + lit.len()) == lit
}

/// Match a string literal at a character position.
pub fn match_lit(cs: &Vec<char>, i: usize, lit: &str) -> (r: bool)
    requires
        i <= cs@.len(),
    ensures
        r == lit_at(cs@, i as int, lit@),
{
    let lv = chars_vec(lit);
    if cs.len() - i < lv.len() {
        proof {
            assert(!lit_at(cs@, i as int, lit@));
        }
        return false;
    }
    let mut k: usize = 0;
    loop
        invariant
            lv@ == lit@,
            i + lv@.len() <= cs@.len(),
            cs@.len() <= usize::MAX,
            k <= lv@.len(),
            forall|t: int| 0 <= t < k ==> cs@[i + t] == lit@[t],
        decreases lv@.len() - k,
    {
        if k == lv.len() {
            proof {
                assert(cs@.subrange(i as int, i + lit@.len()) =~= lit@);
            }
            return true;
        }
        if cs[i + k] != lv[k] {
            proof {
                if lit_at(cs@, i as int, lit@) {
                    assert(cs@.subrange(i as int, i + lit@.len())[k as int] == lit@[k as int]);
                }
            }
            return false;
        }
        k = k + 1;
    }
}

/// A `DDDD-DD-DD` date token at `i`, when it names a valid civil date.
/// The token is always ten characters long.
pub open spec fn scan_date(s: Seq<char>, i: int) -> Option<Date> {
    if 0 <= i && i + 10 <= s.len() && is_digit(s[i]) && is_digit(s[i + 1]) && is_digit(s[i + 2])
        && is_digit(s[i + 3]) && s[i + 4] == '-' && is_digit(s[i + 5]) && is_digit(s[i + 6]) && s[i
        + 7] == '-' && is_digit(s[i + 8]) && is_digit(s[i + 9]) {
        let d = Date {
            year: four_digit_val(s, i) as u32,
            month: two_digit_val(s, i + 5) as u32,
            day: two_digit_val(s, i + 8) as u32,
        };
        if d.valid() {
            Some(d)
        } else {
            None
        }
    } else {
        None
    }
}

/// Numeric value of one digit character.
pub fn digit_of(c: char) -> (d: u32)
    requires
        is_digit(c),
    ensures
        d == digit_val(c),
{
    (c as u32) - ('0' as u32)
}

pub fn parse_date(cs: &Vec<char>, i: usize) -> (r: Option<Date>)
    requires
        i <= cs@.len(),
    ensures
        r == scan_date(cs@, i as int),
        r matches Some(d) ==> d.valid(),
{
    if cs.len() - i < 10 {
        return None;
    }
    let d0 = cs[i];
    let d1 = cs[i + 1];
    let d2 = cs[i + 2];
    let d3 = cs[i + 3];
    let m0 = cs[i + 5];
    let m1 = cs[i + 6];
    let y0 = cs[i + 8];
    let y1 = cs[i + 9];
    if !(char_is_digit(d0) && char_is_digit(d1) && char_is_digit(d2) && char_is_digit(d3)
        && cs[i + 4] == '-' && char_is_digit(m0) && char_is_digit(m1) && cs[i + 7] == '-'
        && char_is_digit(y0) && char_is_digit(y1)) {
        return None;
    }
    let year: u32 = digit_of(d0) * 1000 + digit_of(d1) * 100 + digit_of(d2) * 10 + digit_of(d3);
    let month: u32 = digit_of(m0) * 10 + digit_of(m1);
    let day: u32 = digit_of(y0) * 10 + digit_of(y1);
    Date::checked_new(year, month, day)
}

/// End of one of the five base-account literals at `i`, if present.
pub open spec fn scan_base_account(s: Seq<char>, i: int) -> Option<int> {
    if lit_at(s, i, "Assets"@) {
        Some(i + "Assets"@.len())
    } else if lit_at(s, i, "Liabilities"@) {
        Some(i + "Liabilities"@.len())
    } else if lit_at(s, i, "Equity"@) {
        Some(i + "Equity"@.len())
    } else if lit_at(s, i, "Income"@) {
        Some(i + "Income"@.len())
    } else if lit_at(s, i, "Expenses"@) {
        Some(i + "Expenses"@.len())
    } else {
        None
    }
}

pub fn parse_base_account(cs: &Vec<char>, i: usize) -> (r: Option<usize>)
    requires
        i <= cs@.len(),
    ensures
        match r {
            Some(e) => Some(e as int) == scan_base_account(cs@, i as int) && i <= e <= cs@.len(),
            None => scan_base_account(cs@, i as int) is None,
        },
{
    proof {
        reveal_strlit("Assets");
        reveal_strlit("Liabilities");
        reveal_strlit("Equity");
        reveal_strlit("Income");
        reveal_strlit("Expenses");
    }
    let total = cs.len();
    proof {
        assert(cs@.len() == total as int);
    }
    if match_lit(cs, i, "Assets") {
        proof {
            assert(i + 6 <= total);
        }
        Some(i + 6)
    } else if match_lit(cs, i, "Liabilities") {
        proof {
            assert(i + 11 <= total);
        }
        Some(i + 11)
    } else if match_lit(cs, i, "Equity") {
        proof {
            assert(i + 6 <= total);
        }
        Some(i + 6)
    } else if match_lit(cs, i, "Income") {
        proof {
            assert(i + 6 <= total);
        }
        Some(i + 6)
    } else if match_lit(cs, i, "Expenses") {
        proof {
            assert(i + 8 <= total);
        }
        Some(i + 8)
    } else {
        None
    }
}

/// End of `sub-account (":" sub-account)*` starting at `i`: at least one
/// segment of account characters, then greedily further `:`-joined segments.
pub open spec fn scan_subaccount(s: Seq<char>, i: int) -> Option<int>
    decreases s.len() - i when 0 <= i <= s.len() via scan_subaccount_dec
{
    let e = run_end(s, i, |c: char| is_acct_char(c));
    if e == i {
        None
    } else if e < s.len() && s[e] == ':' && e + 1 <= s.len() && scan_subaccount(s, e + 1) is Some {
        scan_subaccount(s, e + 1)
    } else {
        Some(e)
    }
}

#[via_fn]
proof fn scan_subaccount_dec(s: Seq<char>, i: int) {
    lemma_run_end(s, i, |c: char| is_acct_char(c));
}

pub fn parse_subaccount(cs: &Vec<char>, i: usize) -> (r: Option<usize>)
    requires
        i <= cs@.len(),
    ensures
        match r {
            Some(e) => Some(e as int) == scan_subaccount(cs@, i as int) && i <= e <= cs@.len(),
            None => scan_subaccount(cs@, i as int) is None,
        },
    decreases cs@.len() - i,
{
    let e = scan_acct_chars(cs, i);
    proof {
        lemma_run_end(cs@, i as int, |c: char| is_acct_char(c));
    }
    if e == i {
        return None;
    }
    if e < cs.len() && cs[e] == ':' {
        let deeper = parse_subaccount(cs, e + 1);
        match deeper {
            Some(d) => {
                return Some(d);
            }
            None => {
                return Some(e);
            }
        }
    }
    Some(e)
}

/// A full account token: base literal, `:`, sub-accounts.
pub open spec fn scan_account(s: Seq<char>, i: int) -> Option<int> {
    match scan_base_account(s, i) {
        Some(b) => {
            if b < s.len() && s[b] == ':' {
                scan_subaccount(s, b + 1)
            } else {
                None
            }
        },
        None => None,
    }
}

pub fn parse_account(cs: &Vec<char>, i: usize) -> (r: Option<usize>)
    requires
        i <= cs@.len(),
    ensures
        match r {
            Some(e) => Some(e as int) == scan_account(cs@, i as int) && i < e <= cs@.len(),
            None => scan_account(cs@, i as int) is None,
        },
{
    match parse_base_account(cs, i) {
        Some(b) => {
            if b < cs.len() && cs[b] == ':' {
                match parse_subaccount(cs, b + 1) {
                    Some(e) => {
                        proof {
                            reveal_strlit("Assets");
                            reveal_strlit("Liabilities");
                            reveal_strlit("Equity");
                            reveal_strlit("Income");
                            reveal_strlit("Expenses");
                        }
                        Some(e)
                    },
                    None => None,
                }
            } else {
                None
            }
        },
        None => None,
    }
}

/// A quoted string token: `"`, one or more non-quote characters, `"`.
/// Yields the position one past the closing quote; the content is the
/// subrange between the quotes.
pub open spec fn scan_quoted(s: Seq<char>, i: int) -> Option<int> {
    if 0 <= i < s.len() && s[i] == '"' {
        let e = run_end(s, i + 1, |c: char| is_not_quote(c));
        if e > i + 1 && e < s.len() {
            Some(e + 1)
        } else {
            None
        }
    } else {
        None
    }
}

pub fn parse_quoted(cs: &Vec<char>, i: usize) -> (r: Option<usize>)
    requires
        i <= cs@.len(),
    ensures
        match r {
            Some(e) => Some(e as int) == scan_quoted(cs@, i as int) && i + 2 < e <= cs@.len(),
            None => scan_quoted(cs@, i as int) is None,
        },
{
    if i < cs.len() && cs[i] == '"' {
        let e = scan_not_quote(cs, i + 1);
        if e > i + 1 && e < cs.len() {
            Some(e + 1)
        } else {
            None
        }
    } else {
        None
    }
}

/// A commodity token: one or more of `[A-Z0-9_]`.
pub open spec fn scan_commodity(s: Seq<char>, i: int) -> Option<int> {
    let e = run_end(s, i, |c: char| is_commodity_char(c));
    if e > i {
        Some(e)
    } else {
        None
    }
}

pub fn parse_commodity(cs: &Vec<char>, i: usize) -> (r: Option<usize>)
    requires
        i <= cs@.len(),
    ensures
        match r {
            Some(e) => Some(e as int) == scan_commodity(cs@, i as int) && i < e <= cs@.len(),
            None => scan_commodity(cs@, i as int) is None,
        },
{
    let e = scan_commodity_chars(cs, i);
    if e > i {
        Some(e)
    } else {
        None
    }
}

/// A comment token: `;` to end of line.
pub open spec fn scan_comment(s: Seq<char>, i: int) -> Option<int> {
    if 0 <= i < s.len() && s[i] == ';' {
        Some(run_end(s, i + 1, |c: char| is_not_line_end(c)))
    } else {
        None
    }
}

pub fn parse_comment(cs: &Vec<char>, i: usize) -> (r: Option<usize>)
    requires
        i <= cs@.len(),
    ensures
        match r {
            Some(e) => Some(e as int) == scan_comment(cs@, i as int) && i < e <= cs@.len(),
            None => scan_comment(cs@, i as int) is None,
        },
{
    if i < cs.len() && cs[i] == ';' {
        let e = scan_not_line_end(cs, i + 1);
        Some(e)
    } else {
        None
    }
}

/// Trailing spaces then an optional comment: the common statement tail.
/// Yields the end of the consumed span (after the comment when present,
/// else after the spaces).
pub open spec fn scan_tail(s: Seq<char>, i: int) -> int {
    let sp = run_end(s, i, |c: char| is_space_char(c));
    match scan_comment(s, sp) {
        Some(e) => e,
        None => sp,
    }
}

pub fn parse_tail(cs: &Vec<char>, i: usize) -> (e: usize)
    requires
        i <= cs@.len(),
    ensures
        e as int == scan_tail(cs@, i as int),
        i <= e <= cs@.len(),
{
    let sp = scan_spaces(cs, i);
    match parse_comment(cs, sp) {
        Some(e) => e,
        None => sp,
    }
}

/// A tag: `#` then one or more alphanumerics.
pub open spec fn scan_tag(s: Seq<char>, i: int) -> Option<int> {
    if 0 <= i < s.len() && s[i] == '#' {
        let e = run_end(s, i + 1, |c: char| is_tag_char(c));
        if e > i + 1 {
            Some(e)
        } else {
            None
        }
    } else {
        None
    }
}

/// Tags separated by single spaces, greedily.
pub open spec fn scan_tag_list(s: Seq<char>, i: int) -> Option<int>
    decreases s.len() - i when 0 <= i <= s.len() via scan_tag_list_dec
{
    match scan_tag(s, i) {
        Some(e) => {
            if e < s.len() && s[e] == ' ' && scan_tag(s, e + 1) is Some {
                scan_tag_list(s, e + 1)
            } else {
                Some(e)
            }
        },
        None => None,
    }
}

#[via_fn]
proof fn scan_tag_list_dec(s: Seq<char>, i: int) {
    if 0 <= i < s.len() && s[i] == '#' {
        lemma_run_end(s, i + 1, |c: char| is_tag_char(c));
    }
}

pub fn parse_tag(cs: &Vec<char>, i: usize) -> (r: Option<usize>)
    requires
        i <= cs@.len(),
    ensures
        match r {
            Some(e) => Some(e as int) == scan_tag(cs@, i as int) && i < e <= cs@.len(),
            None => scan_tag(cs@, i as int) is None,
        },
{
    if i < cs.len() && cs[i] == '#' {
        let e = scan_tag_chars(cs, i + 1);
        if e > i + 1 {
            Some(e)
        } else {
            None
        }
    } else {
        None
    }
}

pub fn parse_tag_list(cs: &Vec<char>, i: usize) -> (r: Option<usize>)
    requires
        i <= cs@.len(),
    ensures
        match r {
            Some(e) => Some(e as int) == scan_tag_list(cs@, i as int) && i < e <= cs@.len(),
            None => scan_tag_list(cs@, i as int) is None,
        },
    decreases cs@.len() - i,
{
    match parse_tag(cs, i) {
        Some(e) => {
            if e < cs.len() && cs[e] == ' ' {
                match parse_tag(cs, e + 1) {
                    Some(_) => parse_tag_list(cs, e + 1),
                    None => Some(e),
                }
            } else {
                Some(e)
            }
        },
        None => None,
    }
}

// ---------------------------------------------------------------------------
// Decimal tokens.
// ---------------------------------------------------------------------------
/// A decimal token: optional `-`, integer digits, optionally `.` and
/// fraction digits; yields its value in hundredths and its end. Tokens with
/// more than 13 integer or 9 fraction digits are rejected, which keeps
/// every stored quantity well inside the fixed-point range.
pub open spec fn scan_decimal(s: Seq<char>, i: int) -> Option<(int, int)> {
    if 0 <= i <= s.len() {
        let neg = i < s.len() && s[i] == '-';
        let j = if neg {
            i + 1
        } else {
            i
        };
        let ip_e = run_end(s, j, |c: char| is_digit(c));
        if ip_e == j || ip_e - j > 13 {
            None
        } else {
            let fp_e = if ip_e < s.len() && s[ip_e] == '.' {
                run_end(s, ip_e + 1, |c: char| is_digit(c))
            } else {
                ip_e
            };
            if ip_e < s.len() && s[ip_e] == '.' && fp_e > ip_e + 1 {
                if fp_e - ip_e - 1 > 9 {
                    None
                } else {
                    Some(
                        (
                            dec_token_cents(
                                neg,
                                s.subrange(j, ip_e),
                                s.subrange(ip_e + 1, fp_e),
                            ),
                            fp_e,
                        ),
                    )
                }
            } else {
                Some((dec_token_cents(neg, s.subrange(j, ip_e), Seq::<char>::empty()), ip_e))
            }
        }
    } else {
        None
    }
}

/// Value of the digit run `[lo, hi)`, accumulated left to right.
fn digits_value(cs: &Vec<char>, lo: usize, hi: usize) -> (v: i128)
    requires
        lo <= hi <= cs@.len(),
        hi - lo <= 13,
        forall|k: int| lo <= k < hi ==> is_digit(#[trigger] cs@[k]),
    ensures
        v == crate::amount::digits_val(cs@.subrange(lo as int, hi as int)),
        0 <= v < pow10((hi - lo) as nat),
{
    proof {
        lemma_digits_val_bound(cs@.subrange(lo as int, hi as int));
    }
    let mut v: i128 = 0;
    let mut k = lo;
    while k < hi
        invariant
            lo <= k <= hi <= cs@.len(),
            hi - lo <= 13,
            forall|t: int| lo <= t < hi ==> is_digit(#[trigger] cs@[t]),
            v == crate::amount::digits_val(cs@.subrange(lo as int, k as int)),
            0 <= v < pow10((k - lo) as nat),
        decreases hi - k,
    {
        proof {
            lemma_digits_val_bound(cs@.subrange(lo as int, k as int));
            assert(pow10(13) == 10000000000000) by {
                reveal_with_fuel(pow10, 14);
            }
            crate::parse::lemma_pow10_mono((k - lo) as nat, 13);
            assert(cs@.subrange(lo as int, k + 1).drop_last() =~= cs@.subrange(
                lo as int,
                k as int,
            ));
        }
        let c = cs[k];
        let d = digit_of(c) as i128;
        v = v * 10 + d;
        k = k + 1;
    }
    proof {
        assert(cs@.subrange(lo as int, hi as int) == cs@.subrange(lo as int, hi as int));
    }
    v
}

pub proof fn lemma_pow10_mono(a: nat, b: nat)
    requires
        a <= b,
    ensures
        pow10(a) <= pow10(b),
    decreases b,
{
    if a < b {
        lemma_pow10_mono(a, (b - 1) as nat);
        lemma_pow10_pos((b - 1) as nat);
    }
}

fn exec_pow10(k: usize) -> (r: i128)
    requires
        k <= 9,
    ensures
        r == pow10(k as nat),
{
    let mut r: i128 = 1;
    let mut t: usize = 0;
    while t < k
        invariant
            t <= k <= 9,
            r == pow10(t as nat),
            1 <= r,
        decreases k - t,
    {
        proof {
            assert(pow10(9) == 1000000000) by {
                reveal_with_fuel(pow10, 10);
            }
            lemma_pow10_mono(t as nat, 9);
            lemma_pow10_mono((t + 1) as nat, 9);
        }
        r = r * 10;
        t = t + 1;
    }
    r
}

pub fn parse_decimal(cs: &Vec<char>, i: usize) -> (r: Option<(Amount, usize)>)
    requires
        i <= cs@.len(),
    ensures
        match r {
            Some((a, e)) => {
                &&& scan_decimal(cs@, i as int) == Some((a.cents as int, e as int))
                &&& a.in_limit()
                &&& i < e <= cs@.len()
            },
            None => scan_decimal(cs@, i as int) is None,
        },
{
    let ghost s = cs@;
    let neg = i < cs.len() && cs[i] == '-';
    let j = if neg {
        i + 1
    } else {
        i
    };
    let ip_e = scan_digits(cs, j);
    if ip_e == j || ip_e - j > 13 {
        return None;
    }
    let has_frac = ip_e < cs.len() && cs[ip_e] == '.';
    let fp_e = if has_frac {
        scan_digits(cs, ip_e + 1)
    } else {
        ip_e
    };
    let frac_ok = has_frac && fp_e > ip_e + 1;
    if frac_ok && fp_e - ip_e - 1 > 9 {
        return None;
    }
    proof {
        lemma_run_end(s, j as int, |c: char| is_digit(c));
        if has_frac {
            lemma_run_end(s, ip_e + 1, |c: char| is_digit(c));
        }
    }
    let ip_val = digits_value(cs, j, ip_e);
    let fp_lo = if frac_ok {
        ip_e + 1
    } else {
        ip_e
    };
    let (fp_val, fp_len): (i128, usize) = if frac_ok {
        (digits_value(cs, fp_lo, fp_e), fp_e - fp_lo)
    } else {
        (0, 0)
    };
    let d = exec_pow10(fp_len);
    proof {
        lemma_pow10_pos(fp_len as nat);
        assert(pow10(13) == 10000000000000) by {
            reveal_with_fuel(pow10, 14);
        }
        assert(pow10(9) == 1000000000) by {
            reveal_with_fuel(pow10, 10);
        }
        lemma_pow10_mono(((ip_e - j)) as nat, 13);
        lemma_pow10_mono((fp_len) as nat, 9);
        assert(ip_val * d <= 10000000000000 * 1000000000) by (nonlinear_arith)
            requires
                0 <= ip_val <= 10000000000000,
                0 <= d <= 1000000000,
        ;
        assert(0 <= ip_val * d) by (nonlinear_arith)
            requires
                0 <= ip_val,
                0 <= d,
        ;
    }
    let num: i128 = ip_val * d + fp_val;
    let scaled: i128 = num * 100;
    let q: i128 = scaled / d;
    let rm: i128 = scaled % d;
    proof {
        vstd::arithmetic::div_mod::lemma_div_pos_is_pos(scaled as int, d as int);
        vstd::arithmetic::div_mod::lemma_mod_division_less_than_divisor(scaled as int, d as int);
        vstd::arithmetic::div_mod::lemma_fundamental_div_mod(scaled as int, d as int);
    }
    let rounded: i128 = if 2 * rm < d {
        q
    } else if 2 * rm > d {
        q + 1
    } else if q % 2 == 0 {
        q
    } else {
        q + 1
    };
    proof {
        let ip = s.subrange(j as int, ip_e as int);
        let fp = if frac_ok {
            s.subrange(fp_lo as int, fp_e as int)
        } else {
            Seq::<char>::empty()
        };
        assert(fp.len() == fp_len);
        assert(crate::amount::digits_val(Seq::<char>::empty()) == 0);
        // the rounded magnitude stays within the fixed-point range
        assert(scaled >= 0);
        assert(d >= 1);
        assert(q == scaled as int / d as int);
        let k: int = 100 * ip_val + 100;
        assert(scaled <= k * d - 1 && (k - 1) * d + (d - 1) == k * d - 1) by (nonlinear_arith)
            requires
                d >= 1,
                0 <= fp_val < d,
                num == ip_val * d + fp_val,
                scaled == num * 100,
                k == 100 * ip_val + 100,
                0 <= ip_val,
        ;
        vstd::arithmetic::div_mod::lemma_div_is_ordered(scaled as int, k * d - 1, d as int);
        vstd::arithmetic::div_mod::lemma_fundamental_div_mod_converse(
            k * d - 1,
            d as int,
            k - 1,
            d - 1,
        );
        assert(q <= k - 1);
        assert(rounded <= 100 * (ip_val + 1));
        assert(rounded >= 0);
    }
    let cents: i128 = if neg {
        -rounded
    } else {
        rounded
    };
    let e = if frac_ok {
        fp_e
    } else {
        ip_e
    };
    Some((Amount { cents }, e))
}

// ---------------------------------------------------------------------------
// Statement forms. Each spec function describes one alternative of the
// grammar, with the positions of its fields and the end of its span; the
// matching executable parser returns exactly the description's value.
// ---------------------------------------------------------------------------
/// One or more spaces, as the grammar's mandatory separator.
pub open spec fn space1_end(s: Seq<char>, i: int) -> Option<int> {
    let e = run_end(s, i, |c: char| is_space_char(c));
    if e > i {
        Some(e)
    } else {
        None
    }
}

pub fn parse_space1(cs: &Vec<char>, i: usize) -> (r: Option<usize>)
    requires
        i <= cs@.len(),
    ensures
        match r {
            Some(e) => Some(e as int) == space1_end(cs@, i as int) && i < e <= cs@.len(),
            None => space1_end(cs@, i as int) is None,
        },
{
    let e = scan_spaces(cs, i);
    if e > i {
        Some(e)
    } else {
        None
    }
}

/// `space1 decimal space1 commodity`: the quantity-and-commodity tail used
/// by balance directives, positions and total costs.
pub open spec fn scan_qty_com(s: Seq<char>, i: int) -> Option<(int, int, int)> {
    match space1_end(s, i) {
        Some(p) => match scan_decimal(s, p) {
            Some((q, de)) => match space1_end(s, de) {
                Some(p2) => match scan_commodity(s, p2) {
                    Some(ce) => Some((q, p2, ce)),
                    None => None,
                },
                None => None,
            },
            None => None,
        },
        None => None,
    }
}

pub fn parse_qty_com(cs: &Vec<char>, i: usize) -> (r: Option<(Amount, usize, usize)>)
    requires
        i <= cs@.len(),
    ensures
        match r {
            Some((a, com_s, com_e)) => {
                &&& scan_qty_com(cs@, i as int) == Some((a.cents as int, com_s as int, com_e as int))
                &&& a.in_limit()
                &&& i < com_s < com_e <= cs@.len()
            },
            None => scan_qty_com(cs@, i as int) is None,
        },
{
    match parse_space1(cs, i) {
        Some(p) => match parse_decimal(cs, p) {
            Some((a, de)) => match parse_space1(cs, de) {
                Some(p2) => match parse_commodity(cs, p2) {
                    Some(ce) => Some((a, p2, ce)),
                    None => None,
                },
                None => None,
            },
            None => None,
        },
        None => None,
    }
}

/// `date space1 keyword space1` prefix shared by the dated directives:
/// yields the date and the position after the separator.
pub open spec fn scan_dated_kw(s: Seq<char>, i: int, kw: Seq<char>) -> Option<(Date, int)> {
    match scan_date(s, i) {
        Some(d) => match space1_end(s, i + 10) {
            Some(sp) => {
                if lit_at(s, sp, kw) {
                    match space1_end(s, sp + kw.len()) {
                        Some(k) => Some((d, k)),
                        None => None,
                    }
                } else {
                    None
                }
            },
            None => None,
        },
        None => None,
    }
}

/// `date open ACCOUNT [;comment]` and `date close ACCOUNT [;comment]`:
/// the date, the account span and the statement end.
pub open spec fn scan_open_close(s: Seq<char>, i: int, kw: Seq<char>) -> Option<
    (Date, int, int, int),
> {
    match scan_dated_kw(s, i, kw) {
        Some((d, k)) => match scan_account(s, k) {
            Some(ae) => Some((d, k, ae, scan_tail(s, ae))),
            None => None,
        },
        None => None,
    }
}

/// `date balance ACCOUNT QTY COM [;comment]`.
pub open spec fn scan_balance(s: Seq<char>, i: int) -> Option<
    (Date, int, int, int, int, int, int),
> {
    match scan_dated_kw(s, i, "balance"@) {
        Some((d, k)) => match scan_account(s, k) {
            Some(ae) => match scan_qty_com(s, ae) {
                Some((q, com_s, com_e)) => Some((d, k, ae, q, com_s, com_e, scan_tail(s, com_e))),
                None => None,
            },
            None => None,
        },
        None => None,
    }
}

/// `include "PATH" [;comment]`: the path span and the statement end.
pub open spec fn scan_include(s: Seq<char>, i: int) -> Option<(int, int, int)> {
    if lit_at(s, i, "include"@) {
        match space1_end(s, i + "include"@.len()) {
            Some(sp) => match scan_quoted(s, sp) {
                Some(qe) => Some((sp + 1, qe - 1, scan_tail(s, qe))),
                None => None,
            },
            None => None,
        }
    } else {
        None
    }
}

/// `date * "NARRATION" [TAGS] [;comment]`: date, narration span, optional
/// tag-list span, statement end.
pub open spec fn scan_header(s: Seq<char>, i: int) -> Option<
    (Date, int, int, Option<(int, int)>, int),
> {
    match scan_dated_kw(s, i, "*"@) {
        Some((d, k)) => match scan_quoted(s, k) {
            Some(qe) => {
                let sp = run_end(s, qe, |c: char| is_space_char(c));
                if sp > qe && scan_tag_list(s, sp) is Some {
                    let te = scan_tag_list(s, sp)->Some_0;
                    Some((d, k + 1, qe - 1, Some((sp, te)), scan_tail(s, te)))
                } else {
                    Some((d, k + 1, qe - 1, None, scan_tail(s, qe)))
                }
            },
            None => None,
        },
        None => None,
    }
}

/// `date event "K" "V" [;comment]`.
pub open spec fn scan_event(s: Seq<char>, i: int) -> Option<(Date, int, int, int, int, int)> {
    match scan_dated_kw(s, i, "event"@) {
        Some((d, k)) => match scan_quoted(s, k) {
            Some(ae) => match space1_end(s, ae) {
                Some(sp) => match scan_quoted(s, sp) {
                    Some(ve) => Some((d, k + 1, ae - 1, sp + 1, ve - 1, scan_tail(s, ve))),
                    None => None,
                },
                None => None,
            },
            None => None,
        },
        None => None,
    }
}

/// `option "K" "V" [;comment]`.
pub open spec fn scan_option_stmt(s: Seq<char>, i: int) -> Option<(int, int, int, int, int)> {
    if lit_at(s, i, "option"@) {
        match space1_end(s, i + "option"@.len()) {
            Some(sp) => match scan_quoted(s, sp) {
                Some(ae) => match space1_end(s, ae) {
                    Some(sp2) => match scan_quoted(s, sp2) {
                        Some(ve) => Some((sp + 1, ae - 1, sp2 + 1, ve - 1, scan_tail(s, ve))),
                        None => None,
                    },
                    None => None,
                },
                None => None,
            },
            None => None,
        }
    } else {
        None
    }
}

/// `date custom ...` to end of line: the rest of the line is the value.
pub open spec fn scan_custom(s: Seq<char>, i: int) -> Option<(Date, int, int)> {
    match scan_date(s, i) {
        Some(d) => match space1_end(s, i + 10) {
            Some(sp) => {
                if lit_at(s, sp, "custom"@) {
                    let k = sp + "custom"@.len();
                    Some((d, k, run_end(s, k, |c: char| is_not_line_end(c))))
                } else {
                    None
                }
            },
            None => None,
        },
        None => None,
    }
}

/// A posting line: two spaces, an account, an optional position, an
/// optional `@@` total cost, then the statement tail.
pub open spec fn scan_posting(s: Seq<char>, i: int) -> Option<
    (int, int, Option<(int, int, int)>, Option<(int, int, int)>, int),
> {
    if 0 <= i && i + 2 <= s.len() && s[i] == ' ' && s[i + 1] == ' ' {
        match scan_account(s, i + 2) {
            Some(ae) => {
                let cp = scan_qty_com(s, ae);
                let pos_end = match cp {
                    Some((q, com_s, com_e)) => com_e,
                    None => ae,
                };
                let tc = scan_total_cost(s, pos_end);
                let tc_end = match tc {
                    Some((q, com_s, com_e)) => com_e,
                    None => pos_end,
                };
                Some((i + 2, ae, cp, tc, scan_tail(s, tc_end)))
            },
            None => None,
        }
    } else {
        None
    }
}

/// `space1 @@ space1 decimal space1 commodity`, the total-cost clause.
pub open spec fn scan_total_cost(s: Seq<char>, i: int) -> Option<(int, int, int)> {
    match space1_end(s, i) {
        Some(p) => {
            if lit_at(s, p, "@@"@) {
                scan_qty_com(s, p + "@@"@.len())
            } else {
                None
            }
        },
        None => None,
    }
}

pub fn parse_dated_kw(cs: &Vec<char>, i: usize, kw: &str) -> (r: Option<(Date, usize)>)
    requires
        i <= cs@.len(),
    ensures
        match r {
            Some((d, k)) => Some((d, k as int)) == scan_dated_kw(cs@, i as int, kw@) && i < k
                <= cs@.len(),
            None => scan_dated_kw(cs@, i as int, kw@) is None,
        },
{
    let total = cs.len();
    proof {
        assert(cs@.len() == total as int);
    }
    match parse_date(cs, i) {
        Some(d) => match parse_space1(cs, i + 10) {
            Some(sp) => {
                if match_lit(cs, sp, kw) {
                    let kl = chars_vec(kw).len();
                    match parse_space1(cs, sp + kl) {
                        Some(k) => Some((d, k)),
                        None => None,
                    }
                } else {
                    None
                }
            },
            None => None,
        },
        None => None,
    }
}

pub fn parse_open_close(cs: &Vec<char>, i: usize, kw: &str) -> (r: Option<
    (Date, usize, usize, usize),
>)
    requires
        i <= cs@.len(),
    ensures
        match r {
            Some((d, a_s, a_e, e)) => Some((d, a_s as int, a_e as int, e as int))
                == scan_open_close(cs@, i as int, kw@) && a_s <= a_e <= cs@.len() && i < e
                <= cs@.len(),
            None => scan_open_close(cs@, i as int, kw@) is None,
        },
{
    match parse_dated_kw(cs, i, kw) {
        Some((d, k)) => match parse_account(cs, k) {
            Some(ae) => {
                let e = parse_tail(cs, ae);
                Some((d, k, ae, e))
            },
            None => None,
        },
        None => None,
    }
}

pub fn parse_balance(cs: &Vec<char>, i: usize) -> (r: Option<
    (Date, usize, usize, Amount, usize, usize, usize),
>)
    requires
        i <= cs@.len(),
    ensures
        match r {
            Some((d, a_s, a_e, q, c_s, c_e, e)) => {
                &&& scan_balance(cs@, i as int) == Some(
                    (d, a_s as int, a_e as int, q.cents as int, c_s as int, c_e as int, e as int),
                )
                &&& q.in_limit()
                &&& a_s <= a_e <= cs@.len() && c_s <= c_e <= cs@.len() && i < e <= cs@.len()
            },
            None => scan_balance(cs@, i as int) is None,
        },
{
    match parse_dated_kw(cs, i, "balance") {
        Some((d, k)) => match parse_account(cs, k) {
            Some(ae) => match parse_qty_com(cs, ae) {
                Some((q, c_s, c_e)) => {
                    let e = parse_tail(cs, c_e);
                    Some((d, k, ae, q, c_s, c_e, e))
                },
                None => None,
            },
            None => None,
        },
        None => None,
    }
}

pub fn parse_include_stmt(cs: &Vec<char>, i: usize) -> (r: Option<(usize, usize, usize)>)
    requires
        i <= cs@.len(),
    ensures
        match r {
            Some((p_s, p_e, e)) => Some((p_s as int, p_e as int, e as int)) == scan_include(
                cs@,
                i as int,
            ) && p_s <= p_e <= cs@.len() && i < e <= cs@.len(),
            None => scan_include(cs@, i as int) is None,
        },
{
    let total = cs.len();
    proof {
        assert(cs@.len() == total as int);
        reveal_strlit("include");
    }
    if match_lit(cs, i, "include") {
        match parse_space1(cs, i + 7) {
            Some(sp) => match parse_quoted(cs, sp) {
                Some(qe) => {
                    let e = parse_tail(cs, qe);
                    Some((sp + 1, qe - 1, e))
                },
                None => None,
            },
            None => None,
        }
    } else {
        None
    }
}

pub fn parse_header_stmt(cs: &Vec<char>, i: usize) -> (r: Option<
    (Date, usize, usize, Option<(usize, usize)>, usize),
>)
    requires
        i <= cs@.len(),
    ensures
        match r {
            Some((d, n_s, n_e, tags, e)) => {
                &&& scan_header(cs@, i as int) == Some(
                    (
                        d,
                        n_s as int,
                        n_e as int,
                        match tags {
                            Some((t_s, t_e)) => Some((t_s as int, t_e as int)),
                            None => None,
                        },
                        e as int,
                    ),
                )
                &&& n_s <= n_e <= cs@.len() && i < e <= cs@.len()
                &&& (tags matches Some((t_s, t_e)) ==> t_s <= t_e <= cs@.len())
            },
            None => scan_header(cs@, i as int) is None,
        },
{
    match parse_dated_kw(cs, i, "*") {
        Some((d, k)) => match parse_quoted(cs, k) {
            Some(qe) => {
                let sp = scan_spaces(cs, qe);
                if sp > qe {
                    match parse_tag_list(cs, sp) {
                        Some(te) => {
                            let e = parse_tail(cs, te);
                            Some((d, k + 1, qe - 1, Some((sp, te)), e))
                        },
                        None => {
                            let e = parse_tail(cs, qe);
                            Some((d, k + 1, qe - 1, None, e))
                        },
                    }
                } else {
                    let e = parse_tail(cs, qe);
                    Some((d, k + 1, qe - 1, None, e))
                }
            },
            None => None,
        },
        None => None,
    }
}

pub fn parse_event_stmt(cs: &Vec<char>, i: usize) -> (r: Option<
    (Date, usize, usize, usize, usize, usize),
>)
    requires
        i <= cs@.len(),
    ensures
        match r {
            Some((d, a_s, a_e, v_s, v_e, e)) => Some(
                (d, a_s as int, a_e as int, v_s as int, v_e as int, e as int),
            ) == scan_event(cs@, i as int) && a_s <= a_e <= cs@.len() && v_s <= v_e <= cs@.len()
                && i < e <= cs@.len(),
            None => scan_event(cs@, i as int) is None,
        },
{
    match parse_dated_kw(cs, i, "event") {
        Some((d, k)) => match parse_quoted(cs, k) {
            Some(ae) => match parse_space1(cs, ae) {
                Some(sp) => match parse_quoted(cs, sp) {
                    Some(ve) => {
                        let e = parse_tail(cs, ve);
                        Some((d, k + 1, ae - 1, sp + 1, ve - 1, e))
                    },
                    None => None,
                },
                None => None,
            },
            None => None,
        },
        None => None,
    }
}

pub fn parse_option_stmt(cs: &Vec<char>, i: usize) -> (r: Option<
    (usize, usize, usize, usize, usize),
>)
    requires
        i <= cs@.len(),
    ensures
        match r {
            Some((a_s, a_e, v_s, v_e, e)) => Some(
                (a_s as int, a_e as int, v_s as int, v_e as int, e as int),
            ) == scan_option_stmt(cs@, i as int) && a_s <= a_e <= cs@.len() && v_s <= v_e
                <= cs@.len() && i < e <= cs@.len(),
            None => scan_option_stmt(cs@, i as int) is None,
        },
{
    let total = cs.len();
    proof {
        assert(cs@.len() == total as int);
        reveal_strlit("option");
    }
    if match_lit(cs, i, "option") {
        match parse_space1(cs, i + 6) {
            Some(sp) => match parse_quoted(cs, sp) {
                Some(ae) => match parse_space1(cs, ae) {
                    Some(sp2) => match parse_quoted(cs, sp2) {
                        Some(ve) => {
                            let e = parse_tail(cs, ve);
                            Some((sp + 1, ae - 1, sp2 + 1, ve - 1, e))
                        },
                        None => None,
                    },
                    None => None,
                },
                None => None,
            },
            None => None,
        }
    } else {
        None
    }
}

pub fn parse_custom_stmt(cs: &Vec<char>, i: usize) -> (r: Option<(Date, usize, usize)>)
    requires
        i <= cs@.len(),
    ensures
        match r {
            Some((d, v_s, v_e)) => Some((d, v_s as int, v_e as int)) == scan_custom(
                cs@,
                i as int,
            ) && v_s <= v_e <= cs@.len() && i < v_e,
            None => scan_custom(cs@, i as int) is None,
        },
{
    let total = cs.len();
    proof {
        assert(cs@.len() == total as int);
        reveal_strlit("custom");
    }
    match parse_date(cs, i) {
        Some(d) => match parse_space1(cs, i + 10) {
            Some(sp) => {
                if match_lit(cs, sp, "custom") {
                    let k = sp + 6;
                    let ve = scan_not_line_end(cs, k);
                    Some((d, k, ve))
                } else {
                    None
                }
            },
            None => None,
        },
        None => None,
    }
}

pub fn parse_total_cost(cs: &Vec<char>, i: usize) -> (r: Option<(Amount, usize, usize)>)
    requires
        i <= cs@.len(),
    ensures
        match r {
            Some((a, c_s, c_e)) => {
                &&& scan_total_cost(cs@, i as int) == Some(
                    (a.cents as int, c_s as int, c_e as int),
                )
                &&& a.in_limit()
                &&& i < c_s < c_e <= cs@.len()
            },
            None => scan_total_cost(cs@, i as int) is None,
        },
{
    let total = cs.len();
    proof {
        assert(cs@.len() == total as int);
        reveal_strlit("@@");
    }
    match parse_space1(cs, i) {
        Some(p) => {
            if match_lit(cs, p, "@@") {
                parse_qty_com(cs, p + 2)
            } else {
                None
            }
        },
        None => None,
    }
}

pub fn parse_posting_stmt(cs: &Vec<char>, i: usize) -> (r: Option<
    (usize, usize, Option<(Amount, usize, usize)>, Option<(Amount, usize, usize)>, usize),
>)
    requires
        i <= cs@.len(),
    ensures
        match r {
            Some((a_s, a_e, cp, tc, e)) => {
                &&& scan_posting(cs@, i as int) == Some(
                    (
                        a_s as int,
                        a_e as int,
                        match cp {
                            Some((q, c_s, c_e)) => Some((q.cents as int, c_s as int, c_e as int)),
                            None => None,
                        },
                        match tc {
                            Some((q, c_s, c_e)) => Some((q.cents as int, c_s as int, c_e as int)),
                            None => None,
                        },
                        e as int,
                    ),
                )
                &&& i < a_s <= a_e <= e <= cs@.len()
                &&& (cp matches Some((q, c_s, c_e)) ==> c_s <= c_e <= cs@.len() && q.in_limit())
                &&& (tc matches Some((q, c_s, c_e)) ==> c_s <= c_e <= cs@.len() && q.in_limit())
            },
            None => scan_posting(cs@, i as int) is None,
        },
{
    if i < cs.len() && i + 1 < cs.len() && cs[i] == ' ' && cs[i + 1] == ' ' {
        match parse_account(cs, i + 2) {
            Some(ae) => {
                let cp = parse_qty_com(cs, ae);
                let pos_end = match cp {
                    Some((_, _, c_e)) => c_e,
                    None => ae,
                };
                let tc = parse_total_cost(cs, pos_end);
                let tc_end = match tc {
                    Some((_, _, c_e)) => c_e,
                    None => pos_end,
                };
                let e = parse_tail(cs, tc_end);
                Some((i + 2, ae, cp, tc, e))
            },
            None => None,
        }
    } else {
        None
    }
}

// ---------------------------------------------------------------------------
// Files and errors.
// ---------------------------------------------------------------------------
/// One source file held in memory: its resolved path and its text.
pub struct FileEntry {
    pub path: String,
    pub content: String,
}

/// The set of source files the parser may descend into. The include
/// resolution looks files up here; reading bytes from disk stays with the
/// caller.
pub struct FileStore {
    pub files: Vec<FileEntry>,
}

impl FileStore {
    /// Paths are distinct, each file fits the provenance range, and the
    /// registry cannot run out of file numbers.
    pub open spec fn wf(self) -> bool {
        &&& self.files@.len() < u32::MAX
        &&& forall|i: int|
            0 <= i < self.files@.len() ==> (#[trigger] self.files@[i]).content@.len() <= u32::MAX
        &&& forall|i: int, j: int|
            0 <= i < j < self.files@.len() ==> (#[trigger] self.files@[i]).path@ != (
            #[trigger] self.files@[j]).path@
    }

    pub fn new() -> (r: FileStore)
        ensures
            r.files@.len() == 0,
            r.wf(),
    {
        FileStore { files: Vec::new() }
    }

    /// Add a file; refused when the path repeats, the text is too long for
    /// the provenance range, or the store is full.
    pub fn add_file(&mut self, path: String, content: String) -> (ok: bool)
        requires
            old(self).wf(),
        ensures
            final(self).wf(),
            ok ==> final(self).files@.len() == old(self).files@.len() + 1,
            ok ==> final(self).files@.last().path@ == path@,
            ok ==> final(self).files@.last().content@ == content@,
            ok ==> old(self).files@.is_prefix_of(final(self).files@),
            !ok ==> final(self).files@ == old(self).files@,
    {
        if self.files.len() + 1 >= u32::MAX as usize {
            return false;
        }
        let n = content.as_str().unicode_len();
        if n >= u32::MAX as usize {
            return false;
        }
        let mut i: usize = 0;
        while i < self.files.len()
            invariant
                *self == *old(self),
                old(self).wf(),
                i <= self.files@.len(),
                forall|k: int| 0 <= k < i ==> (#[trigger] self.files@[k]).path@ != path@,
            decreases self.files@.len() - i,
        {
            if self.files[i].path.eq(&path) {
                return false;
            }
            i = i + 1;
        }
        let ghost pre = self.files@;
        self.files.push(FileEntry { path, content });
        proof {
            assert(pre.is_prefix_of(self.files@)) by {
                assert(pre =~= self.files@.subrange(0, pre.len() as int));
            }
        }
        true
    }

    /// Index of the entry with the given path, if present.
    pub fn find(&self, path: &String) -> (r: Option<usize>)
        ensures
            match r {
                Some(i) => i < self.files@.len() && self.files@[i as int].path@ == path@,
                None => forall|k: int|
                    0 <= k < self.files@.len() ==> (#[trigger] self.files@[k]).path@ != path@,
            },
    {
        let mut i: usize = 0;
        while i < self.files.len()
            invariant
                i <= self.files@.len(),
                forall|k: int| 0 <= k < i ==> (#[trigger] self.files@[k]).path@ != path@,
        decreases self.files@.len() - i,
        {
            if self.files[i].path.eq(path) {
                return Some(i);
            }
            i = i + 1;
        }
        None
    }
}

/// A fatal condition met while parsing.
#[derive(Debug)]
pub enum ParseError {
    /// An included path was not among the loaded files.
    MissingFile { path: String },
    /// The same resolved path was included a second time.
    RepeatedInclude { path: String },
    /// A transaction header had no posting under it.
    MissingPostings { file_no: u32, pos: u32 },
    /// A parsed statement was not followed by a line ending.
    UnterminatedStatement { file_no: u32, pos: u32 },
    /// The statement counter left the provenance range.
    CounterOverflow,
}

// ---------------------------------------------------------------------------
// Path resolution for the include directive.
// ---------------------------------------------------------------------------
/// Index one past the last `/` of `s`, or zero when it has none.
pub open spec fn after_last_slash(s: Seq<char>) -> int
    decreases s.len(),
{
    if s.len() == 0 {
        0
    } else if s.last() == '/' {
        s.len() as int
    } else {
        after_last_slash(s.drop_last())
    }
}

/// An absolute path is used verbatim; a relative one is joined to the
/// directory of the including file.
pub open spec fn resolved_path_spec(current: Seq<char>, p: Seq<char>) -> Seq<char> {
    if p.len() > 0 && p[0] == '/' {
        p
    } else {
        current.subrange(0, after_last_slash(current)) + p
    }
}

proof fn lemma_after_last_slash(s: Seq<char>)
    ensures
        0 <= after_last_slash(s) <= s.len(),
        forall|k: int| after_last_slash(s) <= k < s.len() ==> #[trigger] s[k] != '/',
        after_last_slash(s) > 0 ==> s[after_last_slash(s) - 1] == '/',
    decreases s.len(),
{
    if s.len() > 0 && s.last() != '/' {
        lemma_after_last_slash(s.drop_last());
        assert forall|k: int| after_last_slash(s) <= k < s.len() implies #[trigger] s[k] != '/' by {
            if k < s.len() - 1 {
                assert(s[k] == s.drop_last()[k]);
            }
        }
    }
}

/// Position one past the last `/` of the vector's contents.
fn find_dir_cut(cv: &Vec<char>) -> (cut: usize)
    ensures
        cut as int == after_last_slash(cv@),
        cut <= cv@.len(),
{
    let mut cut: usize = cv.len();
    proof {
        lemma_after_last_slash(cv@);
    }
    loop
        invariant
            cut <= cv@.len(),
            forall|k: int| cut <= k < cv@.len() ==> #[trigger] cv@[k] != '/',
            after_last_slash(cv@) <= cut,
        decreases cut,
    {
        proof {
            lemma_after_last_slash(cv@);
        }
        if cut == 0 {
            return cut;
        }
        if cv[cut - 1] == '/' {
            return cut;
        }
        cut = cut - 1;
    }
}

/// Resolve an include path against the path of the including file.
pub fn resolve_path(current: &String, p: &String) -> (r: String)
    ensures
        r@ == resolved_path_spec(current@, p@),
{
    let pv = chars_vec(p.as_str());
    if pv.len() > 0 && pv[0] == '/' {
        return p.clone();
    }
    let cv = chars_vec(current.as_str());
    let cut = find_dir_cut(&cv);
    let prefix = current.as_str().substring_char(0, cut);
    let mut r = String::from_str(prefix);
    r.append(p.as_str());
    r
}

// ---------------------------------------------------------------------------
// The driver: statement loop, record emission, include recursion.
// ---------------------------------------------------------------------------
/// Every record emitted so far has a statement number below `bound`.
pub open spec fn records_below(st: LedgerState, bound: int) -> bool {
    &&& forall|i: int|
        0 <= i < st.transactions.len() ==> (#[trigger] st.transactions[i]).statement_no < bound
    &&& forall|i: int|
        0 <= i < st.postings.len() ==> (#[trigger] st.postings[i]).statement_no < bound
    &&& forall|i: int|
        0 <= i < st.verifications.len() ==> (#[trigger] st.verifications[i]).statement_no < bound
    &&& forall|i: int|
        0 <= i < st.informationals.len() ==> (#[trigger] st.informationals[i]).statement_no < bound
}

/// Every posting names the statement number of an already-emitted header.
/// Posting `i` names the nearest preceding header: some header carries
/// its transaction number, that number does not exceed the posting's
/// own, and no header numbered at or below the posting lies beyond it.
pub open spec fn posting_linked(st: LedgerState, i: int) -> bool {
    &&& exists|j: int|
        0 <= j < st.transactions.len() && (#[trigger] st.transactions[j]).statement_no
            == st.postings[i].transaction_no
    &&& st.postings[i].transaction_no <= st.postings[i].statement_no
    &&& forall|j: int|
        0 <= j < st.transactions.len() && (#[trigger] st.transactions[j]).statement_no
            <= st.postings[i].statement_no ==> st.transactions[j].statement_no <= st.postings[i].transaction_no
}

pub open spec fn linkage_ok(st: LedgerState) -> bool {
    forall|i: int| 0 <= i < st.postings.len() ==> #[trigger] posting_linked(st, i)
}

/// Linkage only reads the two record vectors, so it survives any other
/// change of the state.
proof fn lemma_linkage_same(a: LedgerState, b: LedgerState)
    requires
        linkage_ok(a),
        b.postings@ == a.postings@,
        b.transactions@ == a.transactions@,
    ensures
        linkage_ok(b),
{
    assert forall|i: int| 0 <= i < b.postings.len() implies #[trigger] posting_linked(b, i) by {
        assert(posting_linked(a, i));
    }
}

/// Header `k` has at least one posting naming its number.
pub open spec fn header_covered(st: LedgerState, k: int) -> bool {
    exists|p: int|
        0 <= p < st.postings@.len() && (#[trigger] st.postings@[p]).transaction_no
            == st.transactions@[k].statement_no
}

/// Every header has at least one posting.
pub open spec fn headers_have_postings(st: LedgerState) -> bool {
    forall|k: int| 0 <= k < st.transactions@.len() ==> #[trigger] header_covered(st, k)
}

/// Coverage survives anything that keeps the headers and only appends
/// postings.
proof fn lemma_covered_grow(a: LedgerState, b: LedgerState)
    requires
        headers_have_postings(a),
        b.transactions@ == a.transactions@,
        a.postings@.is_prefix_of(b.postings@),
    ensures
        headers_have_postings(b),
{
    assert forall|k: int|
        0 <= k < b.transactions@.len() implies #[trigger] header_covered(b, k) by {
        assert(header_covered(a, k));
        let p = choose|p: int|
            0 <= p < a.postings@.len() && (#[trigger] a.postings@[p]).transaction_no
                == a.transactions@[k].statement_no;
        assert(b.postings@[p] == a.postings@[p]);
    }
}

pub open spec fn postings_in_limit(st: LedgerState) -> bool {
    forall|i: int| 0 <= i < st.postings.len() ==> (#[trigger] st.postings[i]).quantities_in_limit()
}

/// The well-formedness that parsing preserves throughout.
pub open spec fn parser_inv(st: LedgerState) -> bool {
    &&& st.registry_ok()
    &&& st.numbering_ok()
    &&& st.emission_sorted()
    &&& linkage_ok(st)
    &&& postings_in_limit(st)
}

/// Every registered path names a file of the store.
pub open spec fn files_in_store(st: LedgerState, store: FileStore) -> bool {
    forall|i: int|
        0 <= i < st.input_files@.len() ==> exists|j: int|
            0 <= j < store.files@.len() && (#[trigger] st.input_files@[i])@ == (
            #[trigger] store.files@[j]).path@
}

/// Distinct registered paths all name store files, so the registry can
/// never outgrow the store.
proof fn lemma_registered_le_store(st: LedgerState, store: FileStore)
    requires
        st.registry_ok(),
        files_in_store(st, store),
    ensures
        st.input_files@.len() <= store.files@.len(),
{
    broadcast use vstd::seq_lib::seq_to_set_is_finite;

    let paths = st.input_files@.map_values(|f: String| f@);
    let pool = store.files@.map_values(|f: FileEntry| f.path@);
    assert(paths.no_duplicates());
    assert forall|x: Seq<char>| paths.to_set().contains(x) implies pool.to_set().contains(x) by {
        let i = choose|i: int| 0 <= i < paths.len() && paths[i] == x;
        let j = choose|j: int|
            0 <= j < store.files@.len() && (st.input_files@[i])@ == (store.files@[j]).path@;
        assert(pool[j] == x);
    }
    paths.unique_seq_to_set();
    pool.lemma_cardinality_of_set();
    vstd::set_lib::lemma_len_subset(paths.to_set(), pool.to_set());
}

/// The statement-boundary advance with its overflow check: yields the new
/// statement number, or nothing when the counter would leave `u32`.
fn advance_at(state: &mut LedgerState, pos: usize) -> (r: Option<u32>)
    requires
        old(state).registry_ok(),
        old(state).has_active_file(),
        old(state).active_prev() <= pos <= u32::MAX,
    ensures
        match r {
            Some(sno) => {
                &&& sno == old(state).statement_no + pos - old(state).active_prev()
                &&& final(state).statement_no == sno
                &&& final(state).active_prev() == pos
                &&& final(state).registry_ok()
                &&& final(state).has_active_file()
                &&& sno >= old(state).statement_no
                &&& final(state).input_files@ == old(state).input_files@
                &&& final(state).current_file_no@ == old(state).current_file_no@
                &&& final(state).current_filepath@ == old(state).current_filepath@
                &&& final(state).previous_position@ == old(state).previous_position@.update(old(state).current_file_no@.last() as int, pos as u32)
                &&& final(state).transaction_no == old(state).transaction_no
                &&& final(state).line_count == old(state).line_count
                &&& final(state).transactions@ == old(state).transactions@
                &&& final(state).postings@ == old(state).postings@
                &&& final(state).verifications@ == old(state).verifications@
                &&& final(state).includes@ == old(state).includes@
                &&& final(state).informationals@ == old(state).informationals@
            },
            None => *final(state) == *old(state),
        },
{
    let prev = state.active_prev_pos();
    let delta = pos as u32 - prev;
    if u32::MAX - state.statement_no < delta {
        return None;
    }
    let sno = state.statement_no(pos as u32);
    Some(sno)
}


/// Fields of the state that record emission never touches.
pub open spec fn emit_frame(pre: LedgerState, post: LedgerState) -> bool {
    &&& post.input_files@ == pre.input_files@
    &&& post.current_file_no@ == pre.current_file_no@
    &&& post.current_filepath@ == pre.current_filepath@
    &&& post.line_count == pre.line_count
    &&& post.statement_no >= pre.statement_no
    &&& post.previous_position@.len() == pre.previous_position@.len()
    &&& untouched_slots(pre, post)
    &&& post.includes@ == pre.includes@
}

/// Advance the counter to `pos` and append a verification record.
fn emit_verification(
    state: &mut LedgerState,
    pos: usize,
    end: u32,
    file_no: u32,
    date: Date,
    action: u32,
    account: String,
    quantity: Option<Amount>,
    commodity: Option<String>,
) -> (r: Result<(), ()>)
    requires
        parser_inv(*old(state)),
        old(state).has_active_file(),
        old(state).active_prev() <= pos <= u32::MAX,
        records_below(*old(state), old(state).statement_no + pos - old(state).active_prev()),
    ensures
        r is Err ==> *final(state) == *old(state),
        r is Ok ==> {
            &&& parser_inv(*final(state))
            &&& emit_frame(*old(state), *final(state))
            &&& final(state).active_prev() == pos
            &&& records_below(*final(state), final(state).statement_no + 1)
            &&& final(state).transactions@ == old(state).transactions@
            &&& final(state).postings@ == old(state).postings@
            &&& final(state).informationals@ == old(state).informationals@
            &&& final(state).transaction_no == old(state).transaction_no
            &&& final(state).verifications@ == old(state).verifications@.push(
                VerificationParams {
                    statement_no: final(state).statement_no,
                    file_no,
                    start: pos as u32,
                    end,
                    date,
                    action,
                    account,
                    quantity,
                    commodity,
                },
            )
        },
{
    let sno = match advance_at(state, pos) {
        Some(s) => s,
        None => {
            return Err(());
        },
    };
    state.verifications.push(
        VerificationParams {
            statement_no: sno,
            file_no,
            start: pos as u32,
            end,
            date,
            action,
            account,
            quantity,
            commodity,
        },
    );
    proof {
        lemma_linkage_same(*old(state), *state);
    }
    Ok(())
}

/// Advance the counter to `pos` and append an informational record.
fn emit_info(
    state: &mut LedgerState,
    pos: usize,
    end: u32,
    file_no: u32,
    date: Option<Date>,
    action: u32,
    attribute: Option<String>,
    value: String,
) -> (r: Result<(), ()>)
    requires
        parser_inv(*old(state)),
        old(state).has_active_file(),
        old(state).active_prev() <= pos <= u32::MAX,
        records_below(*old(state), old(state).statement_no + pos - old(state).active_prev()),
    ensures
        r is Err ==> *final(state) == *old(state),
        r is Ok ==> {
            &&& parser_inv(*final(state))
            &&& emit_frame(*old(state), *final(state))
            &&& final(state).active_prev() == pos
            &&& records_below(*final(state), final(state).statement_no + 1)
            &&& final(state).transactions@ == old(state).transactions@
            &&& final(state).postings@ == old(state).postings@
            &&& final(state).verifications@ == old(state).verifications@
            &&& final(state).transaction_no == old(state).transaction_no
            &&& final(state).informationals@ == old(state).informationals@.push(
                InfoParams {
                    statement_no: final(state).statement_no,
                    file_no,
                    start: pos as u32,
                    end,
                    date,
                    action,
                    attribute,
                    value,
                },
            )
        },
{
    let sno = match advance_at(state, pos) {
        Some(s) => s,
        None => {
            return Err(());
        },
    };
    state.informationals.push(
        InfoParams {
            statement_no: sno,
            file_no,
            start: pos as u32,
            end,
            date,
            action,
            attribute,
            value,
        },
    );
    proof {
        lemma_linkage_same(*old(state), *state);
    }
    Ok(())
}

/// Advance the counter to `pos`, append a transaction header and make it
/// the enclosing transaction of the postings that follow.
fn emit_header(
    state: &mut LedgerState,
    pos: usize,
    end: u32,
    file_no: u32,
    date: Date,
    narration: String,
    tags: Option<String>,
) -> (r: Result<(), ()>)
    requires
        parser_inv(*old(state)),
        old(state).has_active_file(),
        old(state).active_prev() <= pos <= u32::MAX,
        records_below(*old(state), old(state).statement_no + pos - old(state).active_prev()),
    ensures
        r is Err ==> *final(state) == *old(state),
        r is Ok ==> {
            &&& parser_inv(*final(state))
            &&& emit_frame(*old(state), *final(state))
            &&& final(state).active_prev() == pos
            &&& records_below(*final(state), final(state).statement_no + 1)
            &&& final(state).postings@ == old(state).postings@
            &&& final(state).verifications@ == old(state).verifications@
            &&& final(state).informationals@ == old(state).informationals@
            &&& final(state).transactions@.len() > 0
            &&& final(state).transactions@.last().statement_no == final(state).transaction_no
            &&& final(state).transaction_no == final(state).statement_no
            &&& final(state).transactions@ == old(state).transactions@.push(
                HeaderParams {
                    statement_no: final(state).statement_no,
                    file_no,
                    start: pos as u32,
                    end,
                    date,
                    narration,
                    tags,
                },
            )
        },
{
    let sno = match advance_at(state, pos) {
        Some(s) => s,
        None => {
            return Err(());
        },
    };
    state.transaction_no = sno;
    let ghost pre = *state;
    state.transactions.push(
        HeaderParams {
            statement_no: sno,
            file_no,
            start: pos as u32,
            end,
            date,
            narration,
            tags,
        },
    );
    proof {
        assert forall|i: int| 0 <= i < state.postings.len() implies #[trigger] posting_linked(
            *state,
            i,
        ) by {
            assert(posting_linked(*old(state), i));
            assert(posting_linked(pre, i));
            let j = choose|j: int|
                0 <= j < pre.transactions.len() && (#[trigger] pre.transactions[j]).statement_no
                    == pre.postings[i as int].transaction_no;
            assert(state.transactions[j].statement_no == state.postings[i].transaction_no);
            // the fresh header is numbered past every stored posting
            assert forall|j2: int|
                0 <= j2 < state.transactions.len() && (
                #[trigger] state.transactions[j2]).statement_no
                    <= state.postings[i].statement_no implies state.transactions[j2].statement_no
                <= state.postings[i].transaction_no by {
                if j2 < pre.transactions.len() {
                    assert(pre.transactions[j2].statement_no <= pre.postings[i].statement_no
                        ==> pre.transactions[j2].statement_no <= pre.postings[i].transaction_no);
                } else {
                    assert(state.transactions[j2].statement_no == sno);
                    assert(pre.postings[i].statement_no < sno);
                }
            }
        }
    }
    Ok(())
}

/// Advance the counter to `pos` and append one posting of the enclosing
/// transaction.
fn emit_posting(
    state: &mut LedgerState,
    pos: usize,
    end: u32,
    file_no: u32,
    account: String,
    cp_quantity: Option<Amount>,
    cp_commodity: Option<String>,
    tc_quantity: Option<Amount>,
    tc_commodity: Option<String>,
) -> (r: Result<(), ()>)
    requires
        parser_inv(*old(state)),
        old(state).has_active_file(),
        old(state).active_prev() <= pos <= u32::MAX,
        records_below(*old(state), old(state).statement_no + pos - old(state).active_prev()),
        old(state).transactions@.len() > 0,
        old(state).transactions@.last().statement_no == old(state).transaction_no,
        cp_quantity matches Some(q) ==> q.in_limit(),
        tc_quantity matches Some(q) ==> q.in_limit(),
    ensures
        r is Err ==> *final(state) == *old(state),
        r is Ok ==> {
            &&& parser_inv(*final(state))
            &&& emit_frame(*old(state), *final(state))
            &&& final(state).active_prev() == pos
            &&& records_below(*final(state), final(state).statement_no + 1)
            &&& final(state).transactions@ == old(state).transactions@
            &&& final(state).verifications@ == old(state).verifications@
            &&& final(state).informationals@ == old(state).informationals@
            &&& final(state).transaction_no == old(state).transaction_no
            &&& final(state).postings@ == old(state).postings@.push(
                PostingParams {
                    statement_no: final(state).statement_no,
                    transaction_no: old(state).transaction_no,
                    file_no,
                    start: pos as u32,
                    end,
                    account,
                    cp_quantity,
                    cp_commodity,
                    tc_quantity,
                    tc_commodity,
                },
            )
        },
{
    let sno = match advance_at(state, pos) {
        Some(s) => s,
        None => {
            return Err(());
        },
    };
    let ghost pre = *state;
    state.postings.push(
        PostingParams {
            statement_no: sno,
            transaction_no: state.transaction_no,
            file_no,
            start: pos as u32,
            end,
            account,
            cp_quantity,
            cp_commodity,
            tc_quantity,
            tc_commodity,
        },
    );
    proof {
        assert forall|i: int| 0 <= i < state.postings.len() implies #[trigger] posting_linked(
            *state,
            i,
        ) by {
            if i < pre.postings.len() {
                assert(posting_linked(*old(state), i));
                assert(posting_linked(pre, i));
                let j = choose|j: int|
                    0 <= j < pre.transactions.len()
                        && (#[trigger] pre.transactions[j]).statement_no
                        == pre.postings[i as int].transaction_no;
                assert(state.transactions[j].statement_no == state.postings[i].transaction_no);
            } else {
                let j = state.transactions.len() - 1;
                assert(state.transactions[j as int].statement_no
                    == state.postings[i].transaction_no);
                // headers are sorted, so none is numbered past the last
                assert forall|j2: int|
                    0 <= j2 < state.transactions.len() && (
                    #[trigger] state.transactions[j2]).statement_no
                        <= state.postings[i].statement_no implies state.transactions[j2].statement_no <= state.postings[i].transaction_no by {
                    if j2 < j {
                        assert(state.transactions[j2].statement_no
                            < state.transactions[j as int].statement_no);
                    }
                }
            }
        }
    }
    Ok(())
}

/// Consume a line ending at `e`: `\n` or `\r\n`.
fn advance_line(cs: &Vec<char>, e: usize) -> (r: Option<usize>)
    requires
        e < cs@.len(),
    ensures
        r matches Some(i2) ==> e < i2 <= cs@.len(),
{
    let ln = cs.len();
    if cs[e] == '\n' {
        Some(e + 1)
    } else if cs[e] == '\r' && e + 1 < ln && cs[e + 1] == '\n' {
        Some(e + 2)
    } else {
        None
    }
}

/// The numbering bound that holds when a file has been consumed to its end.
pub open spec fn fin_bound(st: LedgerState, content_len: int) -> int {
    st.statement_no + content_len - st.active_prev()
}

/// Recorded positions of files other than the active one are untouched.
pub open spec fn untouched_slots(pre: LedgerState, post: LedgerState) -> bool {
    forall|k: int|
        0 <= k < pre.previous_position@.len() && k != pre.current_file_no@.last()
            ==> post.previous_position@[k] == pre.previous_position@[k]
}

/// Index of the store entry holding `path`, unique when the store is
/// well formed.
pub open spec fn store_index_of(store: FileStore, path: Seq<char>) -> int {
    choose|j: int| 0 <= j < store.files@.len() && (#[trigger] store.files@[j]).path@ == path
}

/// The stored text of `path`.
pub open spec fn store_text(store: FileStore, path: Seq<char>) -> Seq<char> {
    store.files@[store_index_of(store, path)].content@
}

/// The stored text of the file a record's `file_no` names.
pub open spec fn rec_text(store: FileStore, st: LedgerState, file_no: u32) -> Seq<char> {
    store_text(store, st.input_files@[file_no as int]@)
}

proof fn lemma_rec_text(store: FileStore, st: LedgerState, file_no: u32, idx: int)
    requires
        store.wf(),
        0 <= idx < store.files@.len(),
        (file_no as int) < st.input_files@.len(),
        st.input_files@[file_no as int]@ == store.files@[idx].path@,
    ensures
        rec_text(store, st, file_no) == store.files@[idx].content@,
{
    let p = st.input_files@[file_no as int]@;
    assert(exists|j: int|
        0 <= j < store.files@.len() && (#[trigger] store.files@[j]).path@ == p) by {
        assert(store.files@[idx].path@ == p);
    }
    let j = store_index_of(store, p);
    if j != idx {
        assert(store.files@[j].path@ != store.files@[idx].path@);
    }
}

/// A stored verification reads back from its span: the scan of its text
/// at its start yields exactly its fields.
pub open spec fn verification_rec_matches(s: Seq<char>, v: VerificationParams) -> bool {
    if v.action == OPEN_ACTION || v.action == CLOSE_ACTION {
        let kw: Seq<char> = if v.action == OPEN_ACTION {
            "open"@
        } else {
            "close"@
        };
        &&& scan_open_close(s, v.start as int, kw) is Some
        &&& scan_open_close(s, v.start as int, kw)->Some_0.0 == v.date
        &&& scan_open_close(s, v.start as int, kw)->Some_0.3 == v.end as int
        &&& v.account@ == s.subrange(
            scan_open_close(s, v.start as int, kw)->Some_0.1,
            scan_open_close(s, v.start as int, kw)->Some_0.2,
        )
        &&& v.quantity is None
        &&& v.commodity is None
    } else if v.action == BALANCE_ACTION {
        &&& scan_balance(s, v.start as int) is Some
        &&& scan_balance(s, v.start as int)->Some_0.0 == v.date
        &&& scan_balance(s, v.start as int)->Some_0.6 == v.end as int
        &&& v.account@ == s.subrange(
            scan_balance(s, v.start as int)->Some_0.1,
            scan_balance(s, v.start as int)->Some_0.2,
        )
        &&& (v.quantity matches Some(a) && a.cents == scan_balance(s, v.start as int)->Some_0.3)
        &&& (v.commodity matches Some(c) && c@ == s.subrange(
            scan_balance(s, v.start as int)->Some_0.4,
            scan_balance(s, v.start as int)->Some_0.5,
        ))
    } else {
        false
    }
}

/// A stored transaction header reads back from its span.
pub open spec fn header_rec_matches(s: Seq<char>, h: HeaderParams) -> bool {
    &&& scan_header(s, h.start as int) is Some
    &&& scan_header(s, h.start as int)->Some_0.0 == h.date
    &&& scan_header(s, h.start as int)->Some_0.4 == h.end as int
    &&& h.narration@ == s.subrange(
        scan_header(s, h.start as int)->Some_0.1,
        scan_header(s, h.start as int)->Some_0.2,
    )
    &&& (match scan_header(s, h.start as int)->Some_0.3 {
        Some((t_s, t_e)) => h.tags matches Some(tg) && tg@ == s.subrange(t_s, t_e),
        None => h.tags is None,
    })
}

/// A stored posting reads back from its span, its trade-cost leg formed
/// by the emission rule.
pub open spec fn posting_rec_matches(s: Seq<char>, p: PostingParams) -> bool {
    &&& scan_posting(s, p.start as int) is Some
    &&& scan_posting(s, p.start as int)->Some_0.4 == p.end as int
    &&& p.account@ == s.subrange(
        scan_posting(s, p.start as int)->Some_0.0,
        scan_posting(s, p.start as int)->Some_0.1,
    )
    &&& (match scan_posting(s, p.start as int)->Some_0.2 {
        Some((q, c_s, c_e)) => (p.cp_quantity matches Some(a) && a.cents == q) && (
        p.cp_commodity matches Some(c) && c@ == s.subrange(c_s, c_e)),
        None => p.cp_quantity is None && p.cp_commodity is None,
    })
    &&& (match scan_posting(s, p.start as int)->Some_0.3 {
        Some((q, c_s, c_e)) => (p.tc_quantity matches Some(a) && a.cents == q) && (
        p.tc_commodity matches Some(c) && c@ == s.subrange(c_s, c_e)),
        None => p.tc_quantity == p.cp_quantity && (match (p.tc_commodity, p.cp_commodity) {
            (Some(a), Some(b)) => a@ == b@,
            (None, None) => true,
            _ => false,
        }),
    })
}

/// A stored informational reads back from its span.
pub open spec fn info_rec_matches(s: Seq<char>, f: InfoParams) -> bool {
    if f.action == EVENT_ACTION {
        &&& scan_event(s, f.start as int) is Some
        &&& (f.date matches Some(d) && d == scan_event(s, f.start as int)->Some_0.0)
        &&& scan_event(s, f.start as int)->Some_0.5 == f.end as int
        &&& (f.attribute matches Some(a) && a@ == s.subrange(
            scan_event(s, f.start as int)->Some_0.1,
            scan_event(s, f.start as int)->Some_0.2,
        ))
        &&& f.value@ == s.subrange(
            scan_event(s, f.start as int)->Some_0.3,
            scan_event(s, f.start as int)->Some_0.4,
        )
    } else if f.action == OPTION_ACTION {
        &&& scan_option_stmt(s, f.start as int) is Some
        &&& f.date is None
        &&& scan_option_stmt(s, f.start as int)->Some_0.4 == f.end as int
        &&& (f.attribute matches Some(a) && a@ == s.subrange(
            scan_option_stmt(s, f.start as int)->Some_0.0,
            scan_option_stmt(s, f.start as int)->Some_0.1,
        ))
        &&& f.value@ == s.subrange(
            scan_option_stmt(s, f.start as int)->Some_0.2,
            scan_option_stmt(s, f.start as int)->Some_0.3,
        )
    } else if f.action == CUSTOM_ACTION {
        &&& scan_custom(s, f.start as int) is Some
        &&& (f.date matches Some(d) && d == scan_custom(s, f.start as int)->Some_0.0)
        &&& scan_custom(s, f.start as int)->Some_0.2 == f.end as int
        &&& f.attribute is None
        &&& f.value@ == s.subrange(
            scan_custom(s, f.start as int)->Some_0.1,
            scan_custom(s, f.start as int)->Some_0.2,
        )
    } else {
        false
    }
}

/// A stored include record reads back from its span, with the path as
/// written.
pub open spec fn include_rec_matches(s: Seq<char>, inc: IncludeParams) -> bool {
    &&& scan_include(s, inc.start as int) is Some
    &&& scan_include(s, inc.start as int)->Some_0.2 == inc.end as int
    &&& inc.path@ == s.subrange(
        scan_include(s, inc.start as int)->Some_0.0,
        scan_include(s, inc.start as int)->Some_0.1,
    )
}

/// Record `k` of each accumulator names a registered file and reads back
/// from that file's stored text.
pub open spec fn hdr_emitted_ok(store: FileStore, st: LedgerState, k: int) -> bool {
    &&& (st.transactions@[k].file_no as int) < st.input_files@.len()
    &&& header_rec_matches(rec_text(store, st, st.transactions@[k].file_no), st.transactions@[k])
}

pub open spec fn pst_emitted_ok(store: FileStore, st: LedgerState, k: int) -> bool {
    &&& (st.postings@[k].file_no as int) < st.input_files@.len()
    &&& posting_rec_matches(rec_text(store, st, st.postings@[k].file_no), st.postings@[k])
}

pub open spec fn ver_emitted_ok(store: FileStore, st: LedgerState, k: int) -> bool {
    &&& (st.verifications@[k].file_no as int) < st.input_files@.len()
    &&& verification_rec_matches(
        rec_text(store, st, st.verifications@[k].file_no),
        st.verifications@[k],
    )
}

pub open spec fn inf_emitted_ok(store: FileStore, st: LedgerState, k: int) -> bool {
    &&& (st.informationals@[k].file_no as int) < st.input_files@.len()
    &&& info_rec_matches(rec_text(store, st, st.informationals@[k].file_no), st.informationals@[k])
}

pub open spec fn inc_emitted_ok(store: FileStore, st: LedgerState, k: int) -> bool {
    &&& (st.includes@[k].file_no as int) < st.input_files@.len()
    &&& include_rec_matches(rec_text(store, st, st.includes@[k].file_no), st.includes@[k])
}

/// Every record appended beyond the given marks reads back from its
/// file's stored text.
pub open spec fn records_match(
    store: FileStore,
    st: LedgerState,
    t0: int,
    p0: int,
    v0: int,
    f0: int,
    i0: int,
) -> bool {
    &&& forall|k: int| t0 <= k < st.transactions@.len() ==> #[trigger] hdr_emitted_ok(store, st, k)
    &&& forall|k: int| p0 <= k < st.postings@.len() ==> #[trigger] pst_emitted_ok(store, st, k)
    &&& forall|k: int| v0 <= k < st.verifications@.len() ==> #[trigger] ver_emitted_ok(store, st, k)
    &&& forall|k: int|
        f0 <= k < st.informationals@.len() ==> #[trigger] inf_emitted_ok(store, st, k)
    &&& forall|k: int| i0 <= k < st.includes@.len() ==> #[trigger] inc_emitted_ok(store, st, k)
}

/// Appending one record to `transactions` keeps every other record reading
/// back from its text.
proof fn lemma_rm_push_hdr(
    store: FileStore,
    pre: LedgerState,
    post: LedgerState,
    t0: int,
    p0: int,
    v0: int,
    f0: int,
    i0: int,
)
    requires
        0 <= t0 && 0 <= p0 && 0 <= v0 && 0 <= f0 && 0 <= i0,
        records_match(store, pre, t0, p0, v0, f0, i0),
        post.input_files@ == pre.input_files@,
        post.postings@ == pre.postings@,
        post.verifications@ == pre.verifications@,
        post.informationals@ == pre.informationals@,
        post.includes@ == pre.includes@,
        post.transactions@.len() == pre.transactions@.len() + 1,
        forall|i: int| 0 <= i < pre.transactions@.len() ==> post.transactions@[i] == pre.transactions@[i],
        hdr_emitted_ok(store, post, post.transactions@.len() - 1),
    ensures
        records_match(store, post, t0, p0, v0, f0, i0),
{
    let m_hdr = t0;
    let m_pst = p0;
    let m_ver = v0;
    let m_inf = f0;
    let m_inc = i0;
    assert forall|k: int| 0 <= k < post.transactions@.len() && k >= m_hdr implies #[trigger] hdr_emitted_ok(store, post, k) by {
        if k < pre.transactions@.len() {
            assert(hdr_emitted_ok(store, pre, k));
            assert(post.transactions@[k] == pre.transactions@[k]);
        }
    }
    assert forall|k: int| 0 <= k < post.postings@.len() && k >= m_pst implies #[trigger] pst_emitted_ok(store, post, k) by {
        assert(pst_emitted_ok(store, pre, k));
    }
    assert forall|k: int| 0 <= k < post.verifications@.len() && k >= m_ver implies #[trigger] ver_emitted_ok(store, post, k) by {
        assert(ver_emitted_ok(store, pre, k));
    }
    assert forall|k: int| 0 <= k < post.informationals@.len() && k >= m_inf implies #[trigger] inf_emitted_ok(store, post, k) by {
        assert(inf_emitted_ok(store, pre, k));
    }
    assert forall|k: int| 0 <= k < post.includes@.len() && k >= m_inc implies #[trigger] inc_emitted_ok(store, post, k) by {
        assert(inc_emitted_ok(store, pre, k));
    }
}

/// Appending one record to `postings` keeps every other record reading
/// back from its text.
proof fn lemma_rm_push_pst(
    store: FileStore,
    pre: LedgerState,
    post: LedgerState,
    t0: int,
    p0: int,
    v0: int,
    f0: int,
    i0: int,
)
    requires
        0 <= t0 && 0 <= p0 && 0 <= v0 && 0 <= f0 && 0 <= i0,
        records_match(store, pre, t0, p0, v0, f0, i0),
        post.input_files@ == pre.input_files@,
        post.transactions@ == pre.transactions@,
        post.verifications@ == pre.verifications@,
        post.informationals@ == pre.informationals@,
        post.includes@ == pre.includes@,
        post.postings@.len() == pre.postings@.len() + 1,
        forall|i: int| 0 <= i < pre.postings@.len() ==> post.postings@[i] == pre.postings@[i],
        pst_emitted_ok(store, post, post.postings@.len() - 1),
    ensures
        records_match(store, post, t0, p0, v0, f0, i0),
{
    let m_hdr = t0;
    let m_pst = p0;
    let m_ver = v0;
    let m_inf = f0;
    let m_inc = i0;
    assert forall|k: int| 0 <= k < post.postings@.len() && k >= m_pst implies #[trigger] pst_emitted_ok(store, post, k) by {
        if k < pre.postings@.len() {
            assert(pst_emitted_ok(store, pre, k));
            assert(post.postings@[k] == pre.postings@[k]);
        }
    }
    assert forall|k: int| 0 <= k < post.transactions@.len() && k >= m_hdr implies #[trigger] hdr_emitted_ok(store, post, k) by {
        assert(hdr_emitted_ok(store, pre, k));
    }
    assert forall|k: int| 0 <= k < post.verifications@.len() && k >= m_ver implies #[trigger] ver_emitted_ok(store, post, k) by {
        assert(ver_emitted_ok(store, pre, k));
    }
    assert forall|k: int| 0 <= k < post.informationals@.len() && k >= m_inf implies #[trigger] inf_emitted_ok(store, post, k) by {
        assert(inf_emitted_ok(store, pre, k));
    }
    assert forall|k: int| 0 <= k < post.includes@.len() && k >= m_inc implies #[trigger] inc_emitted_ok(store, post, k) by {
        assert(inc_emitted_ok(store, pre, k));
    }
}

/// Appending one record to `verifications` keeps every other record reading
/// back from its text.
proof fn lemma_rm_push_ver(
    store: FileStore,
    pre: LedgerState,
    post: LedgerState,
    t0: int,
    p0: int,
    v0: int,
    f0: int,
    i0: int,
)
    requires
        0 <= t0 && 0 <= p0 && 0 <= v0 && 0 <= f0 && 0 <= i0,
        records_match(store, pre, t0, p0, v0, f0, i0),
        post.input_files@ == pre.input_files@,
        post.transactions@ == pre.transactions@,
        post.postings@ == pre.postings@,
        post.informationals@ == pre.informationals@,
        post.includes@ == pre.includes@,
        post.verifications@.len() == pre.verifications@.len() + 1,
        forall|i: int| 0 <= i < pre.verifications@.len() ==> post.verifications@[i] == pre.verifications@[i],
        ver_emitted_ok(store, post, post.verifications@.len() - 1),
    ensures
        records_match(store, post, t0, p0, v0, f0, i0),
{
    let m_hdr = t0;
    let m_pst = p0;
    let m_ver = v0;
    let m_inf = f0;
    let m_inc = i0;
    assert forall|k: int| 0 <= k < post.verifications@.len() && k >= m_ver implies #[trigger] ver_emitted_ok(store, post, k) by {
        if k < pre.verifications@.len() {
            assert(ver_emitted_ok(store, pre, k));
            assert(post.verifications@[k] == pre.verifications@[k]);
        }
    }
    assert forall|k: int| 0 <= k < post.transactions@.len() && k >= m_hdr implies #[trigger] hdr_emitted_ok(store, post, k) by {
        assert(hdr_emitted_ok(store, pre, k));
    }
    assert forall|k: int| 0 <= k < post.postings@.len() && k >= m_pst implies #[trigger] pst_emitted_ok(store, post, k) by {
        assert(pst_emitted_ok(store, pre, k));
    }
    assert forall|k: int| 0 <= k < post.informationals@.len() && k >= m_inf implies #[trigger] inf_emitted_ok(store, post, k) by {
        assert(inf_emitted_ok(store, pre, k));
    }
    assert forall|k: int| 0 <= k < post.includes@.len() && k >= m_inc implies #[trigger] inc_emitted_ok(store, post, k) by {
        assert(inc_emitted_ok(store, pre, k));
    }
}

/// Appending one record to `informationals` keeps every other record reading
/// back from its text.
proof fn lemma_rm_push_inf(
    store: FileStore,
    pre: LedgerState,
    post: LedgerState,
    t0: int,
    p0: int,
    v0: int,
    f0: int,
    i0: int,
)
    requires
        0 <= t0 && 0 <= p0 && 0 <= v0 && 0 <= f0 && 0 <= i0,
        records_match(store, pre, t0, p0, v0, f0, i0),
        post.input_files@ == pre.input_files@,
        post.transactions@ == pre.transactions@,
        post.postings@ == pre.postings@,
        post.verifications@ == pre.verifications@,
        post.includes@ == pre.includes@,
        post.informationals@.len() == pre.informationals@.len() + 1,
        forall|i: int| 0 <= i < pre.informationals@.len() ==> post.informationals@[i] == pre.informationals@[i],
        inf_emitted_ok(store, post, post.informationals@.len() - 1),
    ensures
        records_match(store, post, t0, p0, v0, f0, i0),
{
    let m_hdr = t0;
    let m_pst = p0;
    let m_ver = v0;
    let m_inf = f0;
    let m_inc = i0;
    assert forall|k: int| 0 <= k < post.informationals@.len() && k >= m_inf implies #[trigger] inf_emitted_ok(store, post, k) by {
        if k < pre.informationals@.len() {
            assert(inf_emitted_ok(store, pre, k));
            assert(post.informationals@[k] == pre.informationals@[k]);
        }
    }
    assert forall|k: int| 0 <= k < post.transactions@.len() && k >= m_hdr implies #[trigger] hdr_emitted_ok(store, post, k) by {
        assert(hdr_emitted_ok(store, pre, k));
    }
    assert forall|k: int| 0 <= k < post.postings@.len() && k >= m_pst implies #[trigger] pst_emitted_ok(store, post, k) by {
        assert(pst_emitted_ok(store, pre, k));
    }
    assert forall|k: int| 0 <= k < post.verifications@.len() && k >= m_ver implies #[trigger] ver_emitted_ok(store, post, k) by {
        assert(ver_emitted_ok(store, pre, k));
    }
    assert forall|k: int| 0 <= k < post.includes@.len() && k >= m_inc implies #[trigger] inc_emitted_ok(store, post, k) by {
        assert(inc_emitted_ok(store, pre, k));
    }
}

/// Appending one record to `includes` keeps every other record reading
/// back from its text.
proof fn lemma_rm_push_inc(
    store: FileStore,
    pre: LedgerState,
    post: LedgerState,
    t0: int,
    p0: int,
    v0: int,
    f0: int,
    i0: int,
)
    requires
        0 <= t0 && 0 <= p0 && 0 <= v0 && 0 <= f0 && 0 <= i0,
        records_match(store, pre, t0, p0, v0, f0, i0),
        post.input_files@ == pre.input_files@,
        post.transactions@ == pre.transactions@,
        post.postings@ == pre.postings@,
        post.verifications@ == pre.verifications@,
        post.informationals@ == pre.informationals@,
        post.includes@.len() == pre.includes@.len() + 1,
        forall|i: int| 0 <= i < pre.includes@.len() ==> post.includes@[i] == pre.includes@[i],
        inc_emitted_ok(store, post, post.includes@.len() - 1),
    ensures
        records_match(store, post, t0, p0, v0, f0, i0),
{
    let m_hdr = t0;
    let m_pst = p0;
    let m_ver = v0;
    let m_inf = f0;
    let m_inc = i0;
    assert forall|k: int| 0 <= k < post.includes@.len() && k >= m_inc implies #[trigger] inc_emitted_ok(store, post, k) by {
        if k < pre.includes@.len() {
            assert(inc_emitted_ok(store, pre, k));
            assert(post.includes@[k] == pre.includes@[k]);
        }
    }
    assert forall|k: int| 0 <= k < post.transactions@.len() && k >= m_hdr implies #[trigger] hdr_emitted_ok(store, post, k) by {
        assert(hdr_emitted_ok(store, pre, k));
    }
    assert forall|k: int| 0 <= k < post.postings@.len() && k >= m_pst implies #[trigger] pst_emitted_ok(store, post, k) by {
        assert(pst_emitted_ok(store, pre, k));
    }
    assert forall|k: int| 0 <= k < post.verifications@.len() && k >= m_ver implies #[trigger] ver_emitted_ok(store, post, k) by {
        assert(ver_emitted_ok(store, pre, k));
    }
    assert forall|k: int| 0 <= k < post.informationals@.len() && k >= m_inf implies #[trigger] inf_emitted_ok(store, post, k) by {
        assert(inf_emitted_ok(store, pre, k));
    }
}

/// Records keep reading back when only counters and stacks change.
proof fn lemma_rm_frame(
    store: FileStore,
    pre: LedgerState,
    post: LedgerState,
    t0: int,
    p0: int,
    v0: int,
    f0: int,
    i0: int,
)
    requires
        0 <= t0 && 0 <= p0 && 0 <= v0 && 0 <= f0 && 0 <= i0,
        records_match(store, pre, t0, p0, v0, f0, i0),
        post.input_files@ == pre.input_files@,
        post.transactions@ == pre.transactions@,
        post.postings@ == pre.postings@,
        post.verifications@ == pre.verifications@,
        post.informationals@ == pre.informationals@,
        post.includes@ == pre.includes@,
    ensures
        records_match(store, post, t0, p0, v0, f0, i0),
{
    assert forall|k: int|
        t0 <= k < post.transactions@.len() implies #[trigger] hdr_emitted_ok(store, post, k) by {
        assert(hdr_emitted_ok(store, pre, k));
    }
    assert forall|k: int|
        p0 <= k < post.postings@.len() implies #[trigger] pst_emitted_ok(store, post, k) by {
        assert(pst_emitted_ok(store, pre, k));
    }
    assert forall|k: int|
        v0 <= k < post.verifications@.len() implies #[trigger] ver_emitted_ok(store, post, k) by {
        assert(ver_emitted_ok(store, pre, k));
    }
    assert forall|k: int|
        f0 <= k < post.informationals@.len() implies #[trigger] inf_emitted_ok(store, post, k) by {
        assert(inf_emitted_ok(store, pre, k));
    }
    assert forall|k: int|
        i0 <= k < post.includes@.len() implies #[trigger] inc_emitted_ok(store, post, k) by {
        assert(inc_emitted_ok(store, pre, k));
    }
}

/// Records keep reading back when a new file is registered: their file
/// numbers still name the same paths.
proof fn lemma_rm_input_grow(
    store: FileStore,
    pre: LedgerState,
    post: LedgerState,
    t0: int,
    p0: int,
    v0: int,
    f0: int,
    i0: int,
)
    requires
        0 <= t0 && 0 <= p0 && 0 <= v0 && 0 <= f0 && 0 <= i0,
        records_match(store, pre, t0, p0, v0, f0, i0),
        pre.input_files@.is_prefix_of(post.input_files@),
        post.transactions@ == pre.transactions@,
        post.postings@ == pre.postings@,
        post.verifications@ == pre.verifications@,
        post.informationals@ == pre.informationals@,
        post.includes@ == pre.includes@,
    ensures
        records_match(store, post, t0, p0, v0, f0, i0),
{
    assert forall|k: int|
        t0 <= k < post.transactions@.len() implies #[trigger] hdr_emitted_ok(store, post, k) by {
        assert(hdr_emitted_ok(store, pre, k));
        let fno = pre.transactions@[k].file_no;
        assert(post.input_files@[fno as int] == pre.input_files@[fno as int]);
    }
    assert forall|k: int|
        p0 <= k < post.postings@.len() implies #[trigger] pst_emitted_ok(store, post, k) by {
        assert(pst_emitted_ok(store, pre, k));
        let fno = pre.postings@[k].file_no;
        assert(post.input_files@[fno as int] == pre.input_files@[fno as int]);
    }
    assert forall|k: int|
        v0 <= k < post.verifications@.len() implies #[trigger] ver_emitted_ok(store, post, k) by {
        assert(ver_emitted_ok(store, pre, k));
        let fno = pre.verifications@[k].file_no;
        assert(post.input_files@[fno as int] == pre.input_files@[fno as int]);
    }
    assert forall|k: int|
        f0 <= k < post.informationals@.len() implies #[trigger] inf_emitted_ok(store, post, k) by {
        assert(inf_emitted_ok(store, pre, k));
        let fno = pre.informationals@[k].file_no;
        assert(post.input_files@[fno as int] == pre.input_files@[fno as int]);
    }
    assert forall|k: int|
        i0 <= k < post.includes@.len() implies #[trigger] inc_emitted_ok(store, post, k) by {
        assert(inc_emitted_ok(store, pre, k));
        let fno = pre.includes@[k].file_no;
        assert(post.input_files@[fno as int] == pre.input_files@[fno as int]);
    }
}

/// The active file's registered text is the store entry the driver is
/// reading.
proof fn lemma_active_text(store: FileStore, st: LedgerState, idx: int, file_no: u32)
    requires
        store.wf(),
        0 <= idx < store.files@.len(),
        st.registry_ok(),
        st.has_active_file(),
        st.current_filepath@.last()@ == store.files@[idx].path@,
        file_no == st.current_file_no@.last(),
    ensures
        (file_no as int) < st.input_files@.len(),
        rec_text(store, st, file_no) == store.files@[idx].content@,
{
    let li = st.current_file_no@.len() - 1;
    assert(st.current_filepath@[li]@ == st.input_files@[st.current_file_no@[li] as int]@);
    lemma_rec_text(store, st, file_no, idx);
}

/// Records read back across a nested parse: what the outer run had
/// emitted is untouched, and the inner run's records carry their own
/// guarantee.
proof fn lemma_rm_compose(
    store: FileStore,
    a: LedgerState,
    b: LedgerState,
    t0: int,
    p0: int,
    v0: int,
    f0: int,
    i0: int,
)
    requires
        0 <= t0 && 0 <= p0 && 0 <= v0 && 0 <= f0 && 0 <= i0,
        records_match(store, a, t0, p0, v0, f0, i0),
        records_match(
            store,
            b,
            a.transactions@.len() as int,
            a.postings@.len() as int,
            a.verifications@.len() as int,
            a.informationals@.len() as int,
            a.includes@.len() as int,
        ),
        a.input_files@.is_prefix_of(b.input_files@),
        a.transactions@.is_prefix_of(b.transactions@),
        a.postings@.is_prefix_of(b.postings@),
        a.verifications@.is_prefix_of(b.verifications@),
        a.informationals@.is_prefix_of(b.informationals@),
        a.includes@.is_prefix_of(b.includes@),
    ensures
        records_match(store, b, t0, p0, v0, f0, i0),
{
    assert forall|k: int|
        t0 <= k < b.transactions@.len() implies #[trigger] hdr_emitted_ok(store, b, k) by {
        if k < a.transactions@.len() {
            assert(hdr_emitted_ok(store, a, k));
            assert(b.transactions@[k] == a.transactions@[k]);
            let fno = a.transactions@[k].file_no;
            assert(b.input_files@[fno as int] == a.input_files@[fno as int]);
        }
    }
    assert forall|k: int|
        p0 <= k < b.postings@.len() implies #[trigger] pst_emitted_ok(store, b, k) by {
        if k < a.postings@.len() {
            assert(pst_emitted_ok(store, a, k));
            assert(b.postings@[k] == a.postings@[k]);
            let fno = a.postings@[k].file_no;
            assert(b.input_files@[fno as int] == a.input_files@[fno as int]);
        }
    }
    assert forall|k: int|
        v0 <= k < b.verifications@.len() implies #[trigger] ver_emitted_ok(store, b, k) by {
        if k < a.verifications@.len() {
            assert(ver_emitted_ok(store, a, k));
            assert(b.verifications@[k] == a.verifications@[k]);
            let fno = a.verifications@[k].file_no;
            assert(b.input_files@[fno as int] == a.input_files@[fno as int]);
        }
    }
    assert forall|k: int|
        f0 <= k < b.informationals@.len() implies #[trigger] inf_emitted_ok(store, b, k) by {
        if k < a.informationals@.len() {
            assert(inf_emitted_ok(store, a, k));
            assert(b.informationals@[k] == a.informationals@[k]);
            let fno = a.informationals@[k].file_no;
            assert(b.input_files@[fno as int] == a.input_files@[fno as int]);
        }
    }
    assert forall|k: int|
        i0 <= k < b.includes@.len() implies #[trigger] inc_emitted_ok(store, b, k) by {
        if k < a.includes@.len() {
            assert(inc_emitted_ok(store, a, k));
            assert(b.includes@[k] == a.includes@[k]);
            let fno = a.includes@[k].file_no;
            assert(b.input_files@[fno as int] == a.input_files@[fno as int]);
        }
    }
}

/// What must hold of the state between any two statements of a parse.
pub open spec fn parse_frame(st: LedgerState, entry: LedgerState, store: FileStore) -> bool {
    &&& parser_inv(st)
    &&& files_in_store(st, store)
    &&& st.input_files@.len() <= store.files@.len()
    &&& entry.input_files@.is_prefix_of(st.input_files@)
    &&& entry.transactions@.is_prefix_of(st.transactions@)
    &&& entry.postings@.is_prefix_of(st.postings@)
    &&& entry.verifications@.is_prefix_of(st.verifications@)
    &&& entry.informationals@.is_prefix_of(st.informationals@)
    &&& entry.includes@.is_prefix_of(st.includes@)
    &&& st.statement_no >= entry.statement_no
    &&& st.line_count == entry.line_count
}

/// Parse the whole content of the active file, recursing through its
/// include directives; every record emitted carries the numbering and
/// provenance the statement counter dictates.
#[verifier::rlimit(100)]
pub fn parse_file_rec(store: &FileStore, state: &mut LedgerState, idx: usize) -> (r: Result<
    (),
    ParseError,
>)
    requires
        store.wf(),
        idx < store.files@.len(),
        parser_inv(*old(state)),
        files_in_store(*old(state), *store),
        old(state).input_files@.len() <= store.files@.len(),
        old(state).has_active_file(),
        old(state).current_filepath@.last()@ == store.files@[idx as int].path@,
        old(state).active_prev() == 0,
        records_below(*old(state), old(state).statement_no as int),
        headers_have_postings(*old(state)),
    ensures
        parse_frame(*final(state), *old(state), *store),
        r is Ok ==> headers_have_postings(*final(state)),
        r is Ok ==> {
            &&& final(state).current_file_no@ == old(state).current_file_no@
            &&& final(state).current_filepath@ == old(state).current_filepath@
            &&& final(state).has_active_file()
            &&& final(state).active_prev() <= store.files@[idx as int].content@.len()
            &&& records_below(*final(state), fin_bound(*final(state), store.files@[idx as int].content@.len() as int))
            &&& untouched_slots(*old(state), *final(state))
            &&& records_match(
                *store,
                *final(state),
                old(state).transactions@.len() as int,
                old(state).postings@.len() as int,
                old(state).verifications@.len() as int,
                old(state).informationals@.len() as int,
                old(state).includes@.len() as int,
            )
        },
    decreases store.files@.len() - old(state).input_files@.len(),
{
    let src = store.files[idx].content.as_str();
    let cs = chars_vec(src);
    let n = cs.len();
    proof {
        assert(store.files@[idx as int].content@.len() <= u32::MAX);
    }
    let file_no = match state.get_file_no() {
        Some(f) => f,
        None => {
            proof {
                assert(false);
            }
            return Err(ParseError::CounterOverflow);
        },
    };
    let ghost t0 = old(state).transactions@.len() as int;
    let ghost p0 = old(state).postings@.len() as int;
    let ghost v0 = old(state).verifications@.len() as int;
    let ghost f0 = old(state).informationals@.len() as int;
    let ghost i0 = old(state).includes@.len() as int;
    let mut i: usize = 0;
    loop
        invariant
            store.wf(),
            idx < store.files@.len(),
            cs@ == src@,
            src@ == store.files@[idx as int].content@,
            n == cs@.len(),
            n <= u32::MAX,
            i <= n,
            parse_frame(*state, *old(state), *store),
            state.has_active_file(),
            state.current_file_no@ == old(state).current_file_no@,
            state.current_filepath@ == old(state).current_filepath@,
            state.current_filepath@.last()@ == store.files@[idx as int].path@,
            file_no == state.current_file_no@.last(),
            state.active_prev() <= i,
            records_below(*state, state.statement_no + i - state.active_prev()),
            untouched_slots(*old(state), *state),
            old(state).previous_position@.len() == old(state).input_files@.len(),
            old(state).previous_position@.len() <= state.previous_position@.len(),
            t0 == old(state).transactions@.len() && p0 == old(state).postings@.len() && v0 == old(
                state,
            ).verifications@.len() && f0 == old(state).informationals@.len() && i0 == old(
                state,
            ).includes@.len(),
            records_match(*store, *state, t0, p0, v0, f0, i0),
            headers_have_postings(*state),
        decreases n - i,
    {
        if i >= n {
            return Ok(());
        }
        let ghost istart = i;
        let ghost st0 = *state;
        let e2: usize;
        if let Some((d, a_s, a_e, e)) = parse_open_close(&cs, i, "open") {
            let account = String::from_str(src.substring_char(a_s, a_e));
            if let Err(_) = emit_verification(
                state,
                i,
                e as u32,
                file_no,
                d,
                OPEN_ACTION,
                account,
                None,
                None,
            ) {
                return Err(ParseError::CounterOverflow);
            }
            proof {
                lemma_active_text(*store, *state, idx as int, file_no);
                assert(verification_rec_matches(cs@, state.verifications@.last()));
                assert(ver_emitted_ok(*store, *state, state.verifications@.len() - 1));
                lemma_rm_push_ver(*store, st0, *state, t0, p0, v0, f0, i0);
                assert(st0.postings@.is_prefix_of(state.postings@)) by {
                    assert(st0.postings@ =~= state.postings@.subrange(
                        0,
                        st0.postings@.len() as int,
                    ));
                }
                lemma_covered_grow(st0, *state);
            }
            e2 = e;
        } else if let Some((d, a_s, a_e, e)) = parse_open_close(&cs, i, "close") {
            let account = String::from_str(src.substring_char(a_s, a_e));
            if let Err(_) = emit_verification(
                state,
                i,
                e as u32,
                file_no,
                d,
                CLOSE_ACTION,
                account,
                None,
                None,
            ) {
                return Err(ParseError::CounterOverflow);
            }
            proof {
                lemma_active_text(*store, *state, idx as int, file_no);
                assert(verification_rec_matches(cs@, state.verifications@.last()));
                assert(ver_emitted_ok(*store, *state, state.verifications@.len() - 1));
                lemma_rm_push_ver(*store, st0, *state, t0, p0, v0, f0, i0);
                assert(st0.postings@.is_prefix_of(state.postings@)) by {
                    assert(st0.postings@ =~= state.postings@.subrange(
                        0,
                        st0.postings@.len() as int,
                    ));
                }
                lemma_covered_grow(st0, *state);
            }
            e2 = e;
        } else if let Some((d, a_s, a_e, q, c_s, c_e, e)) = parse_balance(&cs, i) {
            let account = String::from_str(src.substring_char(a_s, a_e));
            let com = String::from_str(src.substring_char(c_s, c_e));
            if let Err(_) = emit_verification(
                state,
                i,
                e as u32,
                file_no,
                d,
                BALANCE_ACTION,
                account,
                Some(q),
                Some(com),
            ) {
                return Err(ParseError::CounterOverflow);
            }
            proof {
                lemma_active_text(*store, *state, idx as int, file_no);
                assert(verification_rec_matches(cs@, state.verifications@.last()));
                assert(ver_emitted_ok(*store, *state, state.verifications@.len() - 1));
                lemma_rm_push_ver(*store, st0, *state, t0, p0, v0, f0, i0);
                assert(st0.postings@.is_prefix_of(state.postings@)) by {
                    assert(st0.postings@ =~= state.postings@.subrange(
                        0,
                        st0.postings@.len() as int,
                    ));
                }
                lemma_covered_grow(st0, *state);
            }
            e2 = e;
        } else if let Some((p_s, p_e, e)) = parse_include_stmt(&cs, i) {
            let sno = match advance_at(state, i) {
                Some(s) => s,
                None => {
                    return Err(ParseError::CounterOverflow);
                },
            };
            proof {
                lemma_linkage_same(st0, *state);
            }
            let path_text = String::from_str(src.substring_char(p_s, p_e));
            let current_p = match state.get_current_filepath() {
                Some(p) => p,
                None => {
                    proof {
                        assert(false);
                    }
                    return Err(ParseError::CounterOverflow);
                },
            };
            let resolved = resolve_path(&current_p, &path_text);
            if let Some(_) = state.lookup_file(&resolved) {
                return Err(ParseError::RepeatedInclude { path: resolved });
            }
            let fidx = match store.find(&resolved) {
                Some(f) => f,
                None => {
                    return Err(ParseError::MissingFile { path: resolved });
                },
            };
            let ghost pre_insert = *state;
            state.insert(resolved);
            proof {
                lemma_registered_le_store(*state, *store);
                assert(state.current_filepath@.last()@ == store.files@[fidx as int].path@);
                assert(pre_insert.input_files@.is_prefix_of(state.input_files@)) by {
                    assert(pre_insert.input_files@ =~= state.input_files@.subrange(
                        0,
                        pre_insert.input_files@.len() as int,
                    ));
                }
                lemma_rm_frame(*store, st0, pre_insert, t0, p0, v0, f0, i0);
                lemma_rm_input_grow(*store, pre_insert, *state, t0, p0, v0, f0, i0);
                lemma_linkage_same(pre_insert, *state);
                assert(st0.postings@.is_prefix_of(state.postings@)) by {
                    assert(st0.postings@ =~= state.postings@.subrange(
                        0,
                        st0.postings@.len() as int,
                    ));
                }
                lemma_covered_grow(st0, *state);
            }
            let ghost pre_rec = *state;
            let rr = parse_file_rec(store, state, fidx);
            if let Err(err2) = rr {
                return Err(err2);
            }
            let inc_len = store.files[fidx].content.as_str().unicode_len();
            proof {
                assert(store.files@[fidx as int].content@.len() <= u32::MAX);
            }
            let prev2 = state.active_prev_pos();
            if u32::MAX - state.statement_no < inc_len as u32 - prev2 {
                return Err(ParseError::CounterOverflow);
            }
            let ghost pre_fin = *state;
            proof {
                lemma_rm_compose(*store, pre_rec, pre_fin, t0, p0, v0, f0, i0);
            }
            state.finished_include(inc_len as u32);
            proof {
                lemma_rm_frame(*store, pre_fin, *state, t0, p0, v0, f0, i0);
                lemma_linkage_same(pre_fin, *state);
                assert(pre_fin.postings@.is_prefix_of(state.postings@)) by {
                    assert(pre_fin.postings@ =~= state.postings@.subrange(
                        0,
                        pre_fin.postings@.len() as int,
                    ));
                }
                lemma_covered_grow(pre_fin, *state);
                assert(state.current_file_no@ =~= pre_insert.current_file_no@);
                assert(state.current_filepath@ =~= pre_insert.current_filepath@);
                let outer = pre_insert.current_file_no@.last() as int;
                let new_idx = pre_insert.input_files@.len() as int;
                assert(outer < new_idx);
                assert(pre_rec.current_file_no@.last() == new_idx);
                assert(pre_rec.previous_position@[outer] == i as u32);
                assert(pre_fin.previous_position@[outer] == i as u32);
                assert(state.previous_position@[outer] == i as u32);
                assert(state.active_prev() == i);
                assert(records_below(*state, state.statement_no as int));
                assert(untouched_slots(*old(state), *state)) by {
                    assert forall|k: int|
                        0 <= k < old(state).previous_position@.len() && k != old(
                            state,
                        ).current_file_no@.last() implies state.previous_position@[k] == old(
                        state,
                    ).previous_position@[k] by {
                        assert(k < new_idx);
                        assert(pre_insert.previous_position@[k] == old(
                            state,
                        ).previous_position@[k]);
                        assert(pre_rec.previous_position@[k] == pre_insert.previous_position@[k]);
                        assert(pre_fin.previous_position@[k] == pre_rec.previous_position@[k]);
                        assert(state.previous_position@[k] == pre_fin.previous_position@[k]);
                    }
                }
            }
            let out_file_no = match state.get_file_no() {
                Some(f) => f,
                None => {
                    proof {
                        assert(false);
                    }
                    return Err(ParseError::CounterOverflow);
                },
            };
            let ghost pre_push = *state;
            state.includes.push(
                IncludeParams {
                    statement_no: sno,
                    file_no: out_file_no,
                    start: i as u32,
                    end: e as u32,
                    path: path_text,
                },
            );
            proof {
                assert(out_file_no == file_no);
                lemma_active_text(*store, *state, idx as int, file_no);
                assert(include_rec_matches(cs@, state.includes@.last()));
                assert(inc_emitted_ok(*store, *state, state.includes@.len() - 1));
                lemma_rm_push_inc(*store, pre_push, *state, t0, p0, v0, f0, i0);
                lemma_linkage_same(pre_push, *state);
                assert(pre_push.postings@.is_prefix_of(state.postings@)) by {
                    assert(pre_push.postings@ =~= state.postings@.subrange(
                        0,
                        pre_push.postings@.len() as int,
                    ));
                }
                lemma_covered_grow(pre_push, *state);
            }
            e2 = e;
        } else if let Some((d, n_s, n_e, tags, e)) = parse_header_stmt(&cs, i) {
            let narration = String::from_str(src.substring_char(n_s, n_e));
            let tag_string = match tags {
                Some((t_s, t_e)) => Some(String::from_str(src.substring_char(t_s, t_e))),
                None => None,
            };
            if let Err(_) = emit_header(state, i, e as u32, file_no, d, narration, tag_string) {
                return Err(ParseError::CounterOverflow);
            }
            proof {
                lemma_active_text(*store, *state, idx as int, file_no);
                assert(header_rec_matches(cs@, state.transactions@.last()));
                assert(hdr_emitted_ok(*store, *state, state.transactions@.len() - 1));
                lemma_rm_push_hdr(*store, st0, *state, t0, p0, v0, f0, i0);
            }
            if e == n {
                return Err(ParseError::MissingPostings { file_no, pos: e as u32 });
            }
            match advance_line(&cs, e) {
                Some(i2) => {
                    i = i2;
                },
                None => {
                    return Err(ParseError::UnterminatedStatement { file_no, pos: e as u32 });
                },
            }
            proof {
                assert forall|k: int|
                    0 <= k < state.transactions@.len() - 1 implies #[trigger] header_covered(
                    *state,
                    k,
                ) by {
                    assert(header_covered(st0, k));
                    let p = choose|p: int|
                        0 <= p < st0.postings@.len() && (#[trigger] st0.postings@[p]).transaction_no == st0.transactions@[k].statement_no;
                    assert(state.postings@[p] == st0.postings@[p]);
                    assert(state.transactions@[k] == st0.transactions@[k]);
                }
            }
            let mut got_posting = false;
            let mut more = true;
            while more
                invariant
                    store.wf(),
                    idx < store.files@.len(),
                    cs@ == src@,
                    src@ == store.files@[idx as int].content@,
                    n == cs@.len(),
                    n <= u32::MAX,
                    istart < i <= n,
                    parse_frame(*state, *old(state), *store),
                    state.has_active_file(),
                    state.current_file_no@ == old(state).current_file_no@,
                    state.current_filepath@ == old(state).current_filepath@,
                    state.current_filepath@.last()@ == store.files@[idx as int].path@,
                    file_no == state.current_file_no@.last(),
                    state.active_prev() <= i,
                    records_below(*state, state.statement_no + i - state.active_prev()),
                    state.transactions@.len() > 0,
                    state.transactions@.last().statement_no == state.transaction_no,
                    untouched_slots(*old(state), *state),
                    old(state).previous_position@.len() == old(state).input_files@.len(),
                    old(state).previous_position@.len() <= state.previous_position@.len(),
                    t0 == old(state).transactions@.len() && p0 == old(state).postings@.len() && v0
                        == old(state).verifications@.len() && f0 == old(
                        state,
                    ).informationals@.len() && i0 == old(state).includes@.len(),
                    records_match(*store, *state, t0, p0, v0, f0, i0),
                    state.transactions@.len() > 0,
                    forall|k: int|
                        0 <= k < state.transactions@.len() - 1 ==> #[trigger] header_covered(
                            *state,
                            k,
                        ),
                    got_posting ==> header_covered(*state, state.transactions@.len() - 1),
                    !more ==> got_posting,
                decreases n - i + (if more {
                    1int
                } else {
                    0int
                }),
            {
                match parse_posting_stmt(&cs, i) {
                    None => {
                        if !got_posting {
                            return Err(ParseError::MissingPostings { file_no, pos: i as u32 });
                        }
                        more = false;
                    },
                    Some((a_s, a_e, cp, tc, pe)) => {
                        let ghost st1 = *state;
                        let account = String::from_str(src.substring_char(a_s, a_e));
                        let (cp_quantity, cp_commodity): (Option<Amount>, Option<String>) =
                            match cp {
                            Some((qv, cs_, ce_)) => (
                                Some(qv),
                                Some(String::from_str(src.substring_char(cs_, ce_))),
                            ),
                            None => (None, None),
                        };
                        let tc_clause: Option<(Amount, String)> = match tc {
                            Some((qv, cs_, ce_)) => Some(
                                (qv, String::from_str(src.substring_char(cs_, ce_))),
                            ),
                            None => None,
                        };
                        let (tc_quantity, tc_commodity): (Option<Amount>, Option<String>) =
                            apply_cost_clause(cp_quantity, cp_commodity.clone(), tc_clause);
                        if let Err(_) = emit_posting(
                            state,
                            i,
                            pe as u32,
                            file_no,
                            account,
                            cp_quantity,
                            cp_commodity,
                            tc_quantity,
                            tc_commodity,
                        ) {
                            return Err(ParseError::CounterOverflow);
                        }
                        proof {
                            lemma_active_text(*store, *state, idx as int, file_no);
                            assert(posting_rec_matches(cs@, state.postings@.last()));
                            assert(pst_emitted_ok(*store, *state, state.postings@.len() - 1));
                            lemma_rm_push_pst(*store, st1, *state, t0, p0, v0, f0, i0);
                            assert(header_covered(*state, state.transactions@.len() - 1)) by {
                                assert(state.postings@.last().transaction_no
                                    == state.transactions@.last().statement_no);
                            }
                            assert forall|k: int|
                                0 <= k < state.transactions@.len() - 1 implies
                                #[trigger] header_covered(*state, k) by {
                                assert(header_covered(st1, k));
                                let p = choose|p: int|
                                    0 <= p < st1.postings@.len() && (#[trigger] st1.postings@[p]).transaction_no == st1.transactions@[k].statement_no;
                                assert(state.postings@[p] == st1.postings@[p]);
                            }
                        }
                        got_posting = true;
                        if pe == n {
                            i = n;
                        } else {
                            match advance_line(&cs, pe) {
                                Some(i2) => {
                                    i = i2;
                                },
                                None => {
                                    return Err(
                                        ParseError::UnterminatedStatement {
                                            file_no,
                                            pos: pe as u32,
                                        },
                                    );
                                },
                            }
                        }
                    },
                }
            }
            proof {
                assert(headers_have_postings(*state)) by {
                    assert(header_covered(*state, state.transactions@.len() - 1));
                }
            }
            continue;
        } else if let Some((d, a_s, a_e, v_s, v_e, e)) = parse_event_stmt(&cs, i) {
            let attribute = String::from_str(src.substring_char(a_s, a_e));
            let value = String::from_str(src.substring_char(v_s, v_e));
            if let Err(_) = emit_info(
                state,
                i,
                e as u32,
                file_no,
                Some(d),
                EVENT_ACTION,
                Some(attribute),
                value,
            ) {
                return Err(ParseError::CounterOverflow);
            }
            proof {
                lemma_active_text(*store, *state, idx as int, file_no);
                assert(info_rec_matches(cs@, state.informationals@.last()));
                assert(inf_emitted_ok(*store, *state, state.informationals@.len() - 1));
                lemma_rm_push_inf(*store, st0, *state, t0, p0, v0, f0, i0);
                assert(st0.postings@.is_prefix_of(state.postings@)) by {
                    assert(st0.postings@ =~= state.postings@.subrange(
                        0,
                        st0.postings@.len() as int,
                    ));
                }
                lemma_covered_grow(st0, *state);
            }
            e2 = e;
        } else if let Some((a_s, a_e, v_s, v_e, e)) = parse_option_stmt(&cs, i) {
            let attribute = String::from_str(src.substring_char(a_s, a_e));
            let value = String::from_str(src.substring_char(v_s, v_e));
            if let Err(_) = emit_info(
                state,
                i,
                e as u32,
                file_no,
                None,
                OPTION_ACTION,
                Some(attribute),
                value,
            ) {
                return Err(ParseError::CounterOverflow);
            }
            proof {
                lemma_active_text(*store, *state, idx as int, file_no);
                assert(info_rec_matches(cs@, state.informationals@.last()));
                assert(inf_emitted_ok(*store, *state, state.informationals@.len() - 1));
                lemma_rm_push_inf(*store, st0, *state, t0, p0, v0, f0, i0);
                assert(st0.postings@.is_prefix_of(state.postings@)) by {
                    assert(st0.postings@ =~= state.postings@.subrange(
                        0,
                        st0.postings@.len() as int,
                    ));
                }
                lemma_covered_grow(st0, *state);
            }
            e2 = e;
        } else if let Some((d, v_s, v_e)) = parse_custom_stmt(&cs, i) {
            let value = String::from_str(src.substring_char(v_s, v_e));
            if let Err(_) = emit_info(
                state,
                i,
                v_e as u32,
                file_no,
                Some(d),
                CUSTOM_ACTION,
                None,
                value,
            ) {
                return Err(ParseError::CounterOverflow);
            }
            proof {
                lemma_active_text(*store, *state, idx as int, file_no);
                assert(info_rec_matches(cs@, state.informationals@.last()));
                assert(inf_emitted_ok(*store, *state, state.informationals@.len() - 1));
                lemma_rm_push_inf(*store, st0, *state, t0, p0, v0, f0, i0);
                assert(st0.postings@.is_prefix_of(state.postings@)) by {
                    assert(st0.postings@ =~= state.postings@.subrange(
                        0,
                        st0.postings@.len() as int,
                    ));
                }
                lemma_covered_grow(st0, *state);
            }
            e2 = v_e;
        } else {
            // a comment, blank or otherwise non-matching line is absorbed
            e2 = scan_not_line_end(&cs, i);
        }
        if e2 == n {
            i = n;
        } else {
            match advance_line(&cs, e2) {
                Some(i2) => {
                    i = i2;
                },
                None => {
                    return Err(ParseError::UnterminatedStatement { file_no, pos: e2 as u32 });
                },
            }
        }
    }
}

/// The posting emission rule for the two legs: without a total-cost
/// clause the trade-cost leg equals the cost-price leg, with one it is
/// the clause itself.
pub fn apply_cost_clause(
    cp_quantity: Option<Amount>,
    cp_commodity: Option<String>,
    tc_clause: Option<(Amount, String)>,
) -> (r: (Option<Amount>, Option<String>))
    ensures
        tc_clause is None ==> r.0 == cp_quantity && (match (r.1, cp_commodity) {
            (Some(a), Some(b)) => a@ == b@,
            (None, None) => true,
            _ => false,
        }),
        tc_clause matches Some((q, c)) ==> r.0 == Some(q) && (r.1 matches Some(rc) && rc@ == c@),
{
    match tc_clause {
        Some((q, c)) => (Some(q), Some(c)),
        None => (cp_quantity, cp_commodity),
    }
}

/// Parse the active file of the state from the store, as the root of a
/// parse or the target of an include.
pub fn parse_filename(f: &String, store: &FileStore, state: &mut LedgerState) -> (r: Result<
    (),
    ParseError,
>)
    requires
        store.wf(),
        parser_inv(*old(state)),
        files_in_store(*old(state), *store),
        old(state).input_files@.len() <= store.files@.len(),
        old(state).has_active_file(),
        old(state).current_filepath@.last()@ == f@,
        old(state).active_prev() == 0,
        records_below(*old(state), old(state).statement_no as int),
        headers_have_postings(*old(state)),
    ensures
        parse_frame(*final(state), *old(state), *store),
        r is Ok ==> headers_have_postings(*final(state)),
        r is Ok ==> records_match(
            *store,
            *final(state),
            old(state).transactions@.len() as int,
            old(state).postings@.len() as int,
            old(state).verifications@.len() as int,
            old(state).informationals@.len() as int,
            old(state).includes@.len() as int,
        ),
{
    match store.find(f) {
        Some(idx) => parse_file_rec(store, state, idx),
        None => Err(ParseError::MissingFile { path: f.clone() }),
    }
}

/// Parse a whole ledger: register the root file and descend through its
/// include forest. On success the returned state satisfies the parser's
/// invariants — in each accumulator the statement numbers strictly
/// increase in lexical order, every posting names an enclosing header,
/// every parsed quantity lies inside the fixed-point range — and every
/// emitted record reads back from its file's stored text: the scan of
/// that text at the record's start position yields exactly its fields.
pub fn parse_ledger(root: &String, store: &FileStore) -> (r: Result<LedgerState, ParseError>)
    requires
        store.wf(),
    ensures
        r matches Ok(st) ==> parser_inv(st),
        r matches Ok(st) ==> records_match(*store, st, 0, 0, 0, 0, 0),
        r matches Ok(st) ==> headers_have_postings(st),
{
    let mut state = LedgerState::new();
    match store.find(root) {
        None => Err(ParseError::MissingFile { path: root.clone() }),
        Some(idx) => {
            state.insert(root.clone());
            proof {
                lemma_registered_le_store(state, *store);
            }
            match parse_file_rec(store, &mut state, idx) {
                Ok(_) => Ok(state),
                Err(e) => Err(e),
            }
        },
    }
}

// ---------------------------------------------------------------------------
// Round-trip stability of provenance: a scan confined to `[lo, hi)`
// gives the same result on the cut-out text, shifted by `lo`.
// ---------------------------------------------------------------------------
proof fn lemma_run_end_local(s: Seq<char>, lo: int, hi: int, i: int, p: spec_fn(char) -> bool)
    requires
        0 <= lo <= i <= hi <= s.len(),
        run_end(s, i, p) <= hi,
    ensures
        run_end(s.subrange(lo, hi), i - lo, p) == run_end(s, i, p) - lo,
    decreases s.len() - i,
{
    lemma_run_end(s, i, p);
    let sub = s.subrange(lo, hi);
    if i < hi && p(s[i]) {
        assert(sub[i - lo] == s[i]);
        lemma_run_end_local(s, lo, hi, i + 1, p);
    } else if i == hi {
        assert(run_end(sub, i - lo, p) == i - lo);
    } else {
        assert(sub[i - lo] == s[i]);
        assert(run_end(sub, i - lo, p) == i - lo);
    }
}

proof fn lemma_lit_at_local(s: Seq<char>, lo: int, hi: int, i: int, lit: Seq<char>)
    requires
        0 <= lo <= i <= hi <= s.len(),
        i + lit.len() <= hi,
    ensures
        lit_at(s.subrange(lo, hi), i - lo, lit) == lit_at(s, i, lit),
{
    let sub = s.subrange(lo, hi);
    if lit_at(s, i, lit) {
        assert(sub.subrange(i - lo, i - lo + lit.len()) =~= s.subrange(i, i + lit.len()));
    }
    if lit_at(sub, i - lo, lit) {
        assert(s.subrange(i, i + lit.len()) =~= sub.subrange(i - lo, i - lo + lit.len()));
    }
}

proof fn lemma_scan_date_local(s: Seq<char>, lo: int, hi: int, i: int)
    requires
        0 <= lo <= i <= hi <= s.len(),
        i + 10 <= hi,
    ensures
        scan_date(s.subrange(lo, hi), i - lo) == scan_date(s, i),
{
    let sub = s.subrange(lo, hi);
    assert(sub[i - lo] == s[i]);
    assert(sub[i - lo + 1] == s[i + 1]);
    assert(sub[i - lo + 2] == s[i + 2]);
    assert(sub[i - lo + 3] == s[i + 3]);
    assert(sub[i - lo + 4] == s[i + 4]);
    assert(sub[i - lo + 5] == s[i + 5]);
    assert(sub[i - lo + 6] == s[i + 6]);
    assert(sub[i - lo + 7] == s[i + 7]);
    assert(sub[i - lo + 8] == s[i + 8]);
    assert(sub[i - lo + 9] == s[i + 9]);
    if scan_date(s, i) is Some || scan_date(sub, i - lo) is Some {
        assert(four_digit_val(sub, i - lo) == four_digit_val(s, i));
        assert(two_digit_val(sub, i - lo + 5) == two_digit_val(s, i + 5));
        assert(two_digit_val(sub, i - lo + 8) == two_digit_val(s, i + 8));
    }
}

proof fn lemma_space1_local(s: Seq<char>, lo: int, hi: int, i: int)
    requires
        0 <= lo <= i <= hi <= s.len(),
        (space1_end(s, i) matches Some(e) && e <= hi),
    ensures
        space1_end(s.subrange(lo, hi), i - lo) == Some(space1_end(s, i)->Some_0 - lo),
{
    lemma_run_end_local(s, lo, hi, i, |c: char| is_space_char(c));
}

proof fn lemma_scan_base_local(s: Seq<char>, lo: int, hi: int, i: int)
    requires
        0 <= lo <= i <= hi <= s.len(),
        (scan_base_account(s, i) matches Some(e) && e <= hi),
    ensures
        scan_base_account(s.subrange(lo, hi), i - lo) == Some(scan_base_account(s, i)->Some_0 - lo),
{
    reveal_strlit("Assets");
    reveal_strlit("Liabilities");
    reveal_strlit("Equity");
    reveal_strlit("Income");
    reveal_strlit("Expenses");
    let e = scan_base_account(s, i)->Some_0;
    if lit_at(s, i, "Assets"@) {
        lemma_lit_at_local(s, lo, hi, i, "Assets"@);
    } else if lit_at(s, i, "Liabilities"@) {
        lemma_lit_at_local(s, lo, hi, i, "Liabilities"@);
        if i + "Assets"@.len() <= hi {
            lemma_lit_at_local(s, lo, hi, i, "Assets"@);
        }
    } else if lit_at(s, i, "Equity"@) {
        lemma_lit_at_local(s, lo, hi, i, "Equity"@);
        if i + "Assets"@.len() <= hi {
            lemma_lit_at_local(s, lo, hi, i, "Assets"@);
        }
        if i + "Liabilities"@.len() <= hi {
            lemma_lit_at_local(s, lo, hi, i, "Liabilities"@);
        }
    } else if lit_at(s, i, "Income"@) {
        lemma_lit_at_local(s, lo, hi, i, "Income"@);
        if i + "Assets"@.len() <= hi {
            lemma_lit_at_local(s, lo, hi, i, "Assets"@);
        }
        if i + "Liabilities"@.len() <= hi {
            lemma_lit_at_local(s, lo, hi, i, "Liabilities"@);
        }
        if i + "Equity"@.len() <= hi {
            lemma_lit_at_local(s, lo, hi, i, "Equity"@);
        }
    } else {
        lemma_lit_at_local(s, lo, hi, i, "Expenses"@);
        if i + "Assets"@.len() <= hi {
            lemma_lit_at_local(s, lo, hi, i, "Assets"@);
        }
        if i + "Liabilities"@.len() <= hi {
            lemma_lit_at_local(s, lo, hi, i, "Liabilities"@);
        }
        if i + "Equity"@.len() <= hi {
            lemma_lit_at_local(s, lo, hi, i, "Equity"@);
        }
        if i + "Income"@.len() <= hi {
            lemma_lit_at_local(s, lo, hi, i, "Income"@);
        }
    }
}

proof fn lemma_subaccount_local(s: Seq<char>, lo: int, hi: int, i: int)
    requires
        0 <= lo <= i <= hi <= s.len(),
        (scan_subaccount(s, i) matches Some(e) && e <= hi),
        hi == s.len() || !is_acct_char(s[hi]) || hi == scan_subaccount(s, i)->Some_0,
    ensures
        scan_subaccount(s.subrange(lo, hi), i - lo) == Some(scan_subaccount(s, i)->Some_0 - lo),
    decreases s.len() - i,
{
    lemma_run_end(s, i, |c: char| is_acct_char(c));
    let e1 = run_end(s, i, |c: char| is_acct_char(c));
    let fin = scan_subaccount(s, i)->Some_0;
    let sub = s.subrange(lo, hi);
    if e1 < s.len() && s[e1] == ':' && scan_subaccount(s, e1 + 1) is Some {
        assert(fin == scan_subaccount(s, e1 + 1)->Some_0);
        assert(e1 + 1 <= fin) by {
            lemma_subaccount_grows(s, e1 + 1);
        }
        lemma_run_end_local(s, lo, hi, i, |c: char| is_acct_char(c));
        assert(sub[e1 - lo] == s[e1]);
        lemma_subaccount_local(s, lo, hi, e1 + 1);
    } else {
        assert(fin == e1);
        lemma_run_end_local(s, lo, hi, i, |c: char| is_acct_char(c));
        assert(fin == e1);
        if e1 - lo < sub.len() && sub[e1 - lo] == ':' {
            assert(s[e1] == ':');
            assert(!(scan_subaccount(s, e1 + 1) is Some));
            lemma_subaccount_none_local(s, lo, hi, e1 + 1);
        }
    }
}

/// A successful sub-account scan ends at or after its start.
proof fn lemma_subaccount_grows(s: Seq<char>, i: int)
    requires
        0 <= i <= s.len(),
        scan_subaccount(s, i) is Some,
    ensures
        i <= scan_subaccount(s, i)->Some_0 <= s.len(),
    decreases s.len() - i,
{
    lemma_run_end(s, i, |c: char| is_acct_char(c));
    let e1 = run_end(s, i, |c: char| is_acct_char(c));
    if e1 < s.len() && s[e1] == ':' && scan_subaccount(s, e1 + 1) is Some {
        lemma_subaccount_grows(s, e1 + 1);
    }
}

/// A failed sub-account scan stays failed on the cut-out text.
proof fn lemma_subaccount_none_local(s: Seq<char>, lo: int, hi: int, i: int)
    requires
        0 <= lo <= i <= hi <= s.len(),
        !(scan_subaccount(s, i) is Some),
    ensures
        !(scan_subaccount(s.subrange(lo, hi), i - lo) is Some),
    decreases s.len() - i,
{
    lemma_run_end(s, i, |c: char| is_acct_char(c));
    let e1 = run_end(s, i, |c: char| is_acct_char(c));
    assert(e1 == i);
    let sub = s.subrange(lo, hi);
    if i < hi {
        assert(sub[i - lo] == s[i]);
    }
    assert(run_end(sub, i - lo, |c: char| is_acct_char(c)) == i - lo);
}

proof fn lemma_scan_account_local(s: Seq<char>, lo: int, hi: int, i: int)
    requires
        0 <= lo <= i <= hi <= s.len(),
        (scan_account(s, i) matches Some(e) && e <= hi),
        hi == s.len() || !is_acct_char(s[hi]),
    ensures
        scan_account(s.subrange(lo, hi), i - lo) == Some(scan_account(s, i)->Some_0 - lo),
{
    let sub = s.subrange(lo, hi);
    let b = scan_base_account(s, i)->Some_0;
    let fin = scan_account(s, i)->Some_0;
    assert(b + 1 <= fin <= hi) by {
        lemma_subaccount_grows(s, b + 1);
    }
    lemma_scan_base_local(s, lo, hi, i);
    assert(sub[b - lo] == s[b]);
    lemma_subaccount_local(s, lo, hi, b + 1);
}

proof fn lemma_scan_tail_local(s: Seq<char>, lo: int, hi: int, i: int)
    requires
        0 <= lo <= i <= hi <= s.len(),
        scan_tail(s, i) == hi,
        hi == s.len() || is_line_end_char(s[hi]) || !is_space_char(s[hi]),
    ensures
        scan_tail(s.subrange(lo, hi), i - lo) == hi - lo,
{
    let sub = s.subrange(lo, hi);
    lemma_run_end(s, i, |c: char| is_space_char(c));
    let sp = run_end(s, i, |c: char| is_space_char(c));
    if sp < s.len() && s[sp] == ';' {
        assert(sp + 1 <= hi) by {
            lemma_run_end(s, sp + 1, |c: char| is_not_line_end(c));
        }
        lemma_run_end_local(s, lo, hi, i, |c: char| is_space_char(c));
        assert(sub[sp - lo] == s[sp]);
        lemma_run_end_local(s, lo, hi, sp + 1, |c: char| is_not_line_end(c));
    } else {
        assert(scan_tail(s, i) == sp);
        lemma_run_end_local(s, lo, hi, i, |c: char| is_space_char(c));
        assert(run_end(sub, i - lo, |c: char| is_space_char(c)) == hi - lo);
        assert(scan_comment(sub, hi - lo) is None);
    }
}

proof fn lemma_scan_dated_kw_local(s: Seq<char>, lo: int, hi: int, i: int, kw: Seq<char>)
    requires
        0 <= lo <= i <= hi <= s.len(),
        (scan_dated_kw(s, i, kw) matches Some((d, k)) && k <= hi),
    ensures
        scan_dated_kw(s.subrange(lo, hi), i - lo, kw) matches Some((d2, k2))
            && d2 == scan_dated_kw(s, i, kw)->Some_0.0 && k2 == scan_dated_kw(s, i, kw)->Some_0.1
            - lo,
{
    let sub = s.subrange(lo, hi);
    let sp = space1_end(s, i + 10)->Some_0;
    let k = scan_dated_kw(s, i, kw)->Some_0.1;
    assert(sp + kw.len() <= k) by {
        lemma_run_end(s, sp + kw.len(), |c: char| is_space_char(c));
    }
    lemma_scan_date_local(s, lo, hi, i);
    lemma_space1_local(s, lo, hi, i + 10);
    lemma_lit_at_local(s, lo, hi, sp, kw);
    lemma_space1_local(s, lo, hi, sp + kw.len());
}

/// Provenance round trip for `open` and `close` directives: the scan of
/// the span `[i, e)` cut from the source gives the same date, the same
/// account text and the same length.
pub proof fn lemma_open_close_span_reparse(s: Seq<char>, i: int, kw: Seq<char>)
    requires
        scan_open_close(s, i, kw) is Some,
        0 <= i,
        (scan_open_close(s, i, kw)->Some_0.3 == s.len() || is_line_end_char(
            s[scan_open_close(s, i, kw)->Some_0.3],
        )),
    ensures
        ({
            let (d, a_s, a_e, e) = scan_open_close(s, i, kw)->Some_0;
            &&& scan_open_close(s.subrange(i, e), 0, kw) == Some((d, a_s - i, a_e - i, e - i))
            &&& s.subrange(i, e).subrange(a_s - i, a_e - i) == s.subrange(a_s, a_e)
        }),
{
    let (d, a_s, a_e, e) = scan_open_close(s, i, kw)->Some_0;
    let k = scan_dated_kw(s, i, kw)->Some_0.1;
    // bounds of the intermediate positions, in scan order
    assert(i + 10 <= s.len());
    lemma_run_end(s, i + 10, |c: char| is_space_char(c));
    let sp1 = space1_end(s, i + 10)->Some_0;
    assert(sp1 + kw.len() <= s.len());
    lemma_run_end(s, sp1 + kw.len(), |c: char| is_space_char(c));
    assert(i <= k <= s.len());
    let b = scan_base_account(s, k)->Some_0;
    assert(b < s.len());
    lemma_subaccount_grows(s, b + 1);
    assert(k <= a_e <= s.len());
    lemma_run_end(s, a_e, |c: char| is_space_char(c));
    let sp2 = run_end(s, a_e, |c: char| is_space_char(c));
    if sp2 < s.len() && s[sp2] == ';' {
        lemma_run_end(s, sp2 + 1, |c: char| is_not_line_end(c));
    }
    assert(a_e <= e <= s.len());
    lemma_scan_dated_kw_local(s, i, e, i, kw);
    lemma_scan_account_local(s, i, e, k);
    lemma_scan_tail_local(s, i, e, a_e);
    assert(s.subrange(i, e).subrange(a_s - i, a_e - i) =~= s.subrange(a_s, a_e));
}

proof fn lemma_scan_quoted_local(s: Seq<char>, lo: int, hi: int, i: int)
    requires
        0 <= lo <= i <= hi <= s.len(),
        (scan_quoted(s, i) matches Some(e) && e <= hi),
    ensures
        scan_quoted(s.subrange(lo, hi), i - lo) == Some(scan_quoted(s, i)->Some_0 - lo),
{
    let sub = s.subrange(lo, hi);
    let e = scan_quoted(s, i)->Some_0;
    lemma_run_end(s, i + 1, |c: char| is_not_quote(c));
    assert(sub[i - lo] == s[i]);
    lemma_run_end_local(s, lo, hi, i + 1, |c: char| is_not_quote(c));
    assert(sub[e - 1 - lo] == s[e - 1]);
}

/// Provenance round trip for the include directive: the cut-out span
/// yields the same path text and the same length.
pub proof fn lemma_include_span_reparse(s: Seq<char>, i: int)
    requires
        scan_include(s, i) is Some,
        0 <= i,
        (scan_include(s, i)->Some_0.2 == s.len() || is_line_end_char(
            s[scan_include(s, i)->Some_0.2],
        )),
    ensures
        ({
            let (p_s, p_e, e) = scan_include(s, i)->Some_0;
            &&& scan_include(s.subrange(i, e), 0) == Some((p_s - i, p_e - i, e - i))
            &&& s.subrange(i, e).subrange(p_s - i, p_e - i) == s.subrange(p_s, p_e)
        }),
{
    reveal_strlit("include");
    let (p_s, p_e, e) = scan_include(s, i)->Some_0;
    assert(i + 7 <= s.len());
    lemma_run_end(s, i + 7, |c: char| is_space_char(c));
    let sp = space1_end(s, i + 7)->Some_0;
    assert(sp <= s.len());
    let qe = scan_quoted(s, sp)->Some_0;
    lemma_run_end(s, sp + 1, |c: char| is_not_quote(c));
    assert(sp < qe <= s.len());
    lemma_run_end(s, qe, |c: char| is_space_char(c));
    let sp2 = run_end(s, qe, |c: char| is_space_char(c));
    if sp2 < s.len() && s[sp2] == ';' {
        lemma_run_end(s, sp2 + 1, |c: char| is_not_line_end(c));
    }
    assert(qe <= e <= s.len());
    lemma_lit_at_local(s, i, e, i, "include"@);
    lemma_space1_local(s, i, e, i + 7);
    lemma_scan_quoted_local(s, i, e, sp);
    lemma_scan_tail_local(s, i, e, qe);
    assert(s.subrange(i, e).subrange(p_s - i, p_e - i) =~= s.subrange(p_s, p_e));
}

proof fn lemma_scan_decimal_local(s: Seq<char>, lo: int, hi: int, i: int)
    requires
        0 <= lo <= i <= hi <= s.len(),
        (scan_decimal(s, i) matches Some((v, e)) && e <= hi),
        hi == s.len() || !is_digit(s[hi]),
    ensures
        scan_decimal(s.subrange(lo, hi), i - lo) matches Some((v2, e2)) && v2 == scan_decimal(
            s,
            i,
        )->Some_0.0 && e2 == scan_decimal(s, i)->Some_0.1 - lo,
{
    let sub = s.subrange(lo, hi);
    let (v, e) = scan_decimal(s, i)->Some_0;
    let neg = i < s.len() && s[i] == '-';
    let j = if neg {
        i + 1
    } else {
        i
    };
    lemma_run_end(s, j, |c: char| is_digit(c));
    let ip_e = run_end(s, j, |c: char| is_digit(c));
    if neg {
        assert(sub[i - lo] == s[i]);
    } else {
        if i < hi {
            assert(sub[i - lo] == s[i]);
        }
    }
    assert(ip_e <= e);
    lemma_run_end_local(s, lo, hi, j, |c: char| is_digit(c));
    assert(s.subrange(j, ip_e) =~= sub.subrange(j - lo, ip_e - lo));
    if ip_e < s.len() && s[ip_e] == '.' {
        lemma_run_end(s, ip_e + 1, |c: char| is_digit(c));
        let fp_e = run_end(s, ip_e + 1, |c: char| is_digit(c));
        if fp_e > ip_e + 1 {
            // the fraction is part of the token, so it lies inside the span
            assert(e == fp_e);
            assert(sub[ip_e - lo] == s[ip_e]);
            lemma_run_end_local(s, lo, hi, ip_e + 1, |c: char| is_digit(c));
            assert(s.subrange(ip_e + 1, fp_e) =~= sub.subrange(ip_e + 1 - lo, fp_e - lo));
        } else {
            assert(e == ip_e);
            if ip_e < hi {
                assert(sub[ip_e - lo] == s[ip_e]);
                lemma_run_end_local(s, lo, hi, ip_e + 1, |c: char| is_digit(c));
            }
        }
    } else {
        assert(e == ip_e);
        if ip_e < hi {
            assert(sub[ip_e - lo] == s[ip_e]);
        }
    }
}

proof fn lemma_scan_qty_com_local(s: Seq<char>, lo: int, hi: int, i: int)
    requires
        0 <= lo <= i <= hi <= s.len(),
        (scan_qty_com(s, i) matches Some((v, c_s, c_e)) && c_e <= hi),
        hi == s.len() || !is_commodity_char(s[hi]),
    ensures
        scan_qty_com(s.subrange(lo, hi), i - lo) matches Some((v2, cs2, ce2)) && v2
            == scan_qty_com(s, i)->Some_0.0 && cs2 == scan_qty_com(s, i)->Some_0.1 - lo && ce2
            == scan_qty_com(s, i)->Some_0.2 - lo,
{
    let sub = s.subrange(lo, hi);
    let (v, c_s, c_e) = scan_qty_com(s, i)->Some_0;
    lemma_run_end(s, i, |c: char| is_space_char(c));
    let p = space1_end(s, i)->Some_0;
    let (dv, de) = scan_decimal(s, p)->Some_0;
    assert(p <= de) by {
        let j2: int = if p < s.len() && s[p] == '-' {
            p + 1
        } else {
            p
        };
        lemma_run_end(s, j2, |c: char| is_digit(c));
        let ip_e2 = run_end(s, j2, |c: char| is_digit(c));
        if ip_e2 < s.len() && s[ip_e2] == '.' {
            lemma_run_end(s, ip_e2 + 1, |c: char| is_digit(c));
        }
    }
    lemma_run_end(s, de, |c: char| is_space_char(c));
    lemma_run_end(s, c_s, |c: char| is_commodity_char(c));
    assert(de <= c_s <= c_e <= hi);
    lemma_space1_local(s, lo, hi, i);
    assert(de <= hi);
    assert(hi == s.len() || !is_digit(s[hi]) || hi < c_e) by {
        if hi < s.len() && is_digit(s[hi]) {
            assert(is_commodity_char(s[hi]));
        }
    }
    lemma_scan_decimal_local(s, lo, hi, p);
    lemma_space1_local(s, lo, hi, de);
    lemma_run_end_local(s, lo, hi, c_s, |c: char| is_commodity_char(c));
}

/// Provenance round trip for the balance directive.
pub proof fn lemma_balance_span_reparse(s: Seq<char>, i: int)
    requires
        scan_balance(s, i) is Some,
        0 <= i,
        (scan_balance(s, i)->Some_0.6 == s.len() || is_line_end_char(
            s[scan_balance(s, i)->Some_0.6],
        )),
    ensures
        ({
            let (d, a_s, a_e, v, c_s, c_e, e) = scan_balance(s, i)->Some_0;
            &&& scan_balance(s.subrange(i, e), 0) == Some(
                (d, a_s - i, a_e - i, v, c_s - i, c_e - i, e - i),
            )
            &&& s.subrange(i, e).subrange(a_s - i, a_e - i) == s.subrange(a_s, a_e)
            &&& s.subrange(i, e).subrange(c_s - i, c_e - i) == s.subrange(c_s, c_e)
        }),
{
    reveal_strlit("balance");
    let (d, a_s, a_e, v, c_s, c_e, e) = scan_balance(s, i)->Some_0;
    let k = scan_dated_kw(s, i, "balance"@)->Some_0.1;
    assert(i + 10 <= s.len());
    lemma_run_end(s, i + 10, |c: char| is_space_char(c));
    let sp1 = space1_end(s, i + 10)->Some_0;
    assert(sp1 + "balance"@.len() <= s.len());
    lemma_run_end(s, sp1 + "balance"@.len(), |c: char| is_space_char(c));
    assert(i <= k <= s.len());
    let b = scan_base_account(s, k)->Some_0;
    assert(b < s.len());
    lemma_subaccount_grows(s, b + 1);
    assert(k <= a_e <= s.len());
    lemma_run_end(s, a_e, |c: char| is_space_char(c));
    let p = space1_end(s, a_e)->Some_0;
    let (dv, de) = scan_decimal(s, p)->Some_0;
    assert(p <= de <= s.len()) by {
        let j2: int = if p < s.len() && s[p] == '-' {
            p + 1
        } else {
            p
        };
        lemma_run_end(s, j2, |c: char| is_digit(c));
        let ip_e2 = run_end(s, j2, |c: char| is_digit(c));
        if ip_e2 < s.len() && s[ip_e2] == '.' {
            lemma_run_end(s, ip_e2 + 1, |c: char| is_digit(c));
        }
    }
    lemma_run_end(s, de, |c: char| is_space_char(c));
    lemma_run_end(s, c_s, |c: char| is_commodity_char(c));
    assert(c_e <= s.len());
    lemma_run_end(s, c_e, |c: char| is_space_char(c));
    let sp2 = run_end(s, c_e, |c: char| is_space_char(c));
    if sp2 < s.len() && s[sp2] == ';' {
        lemma_run_end(s, sp2 + 1, |c: char| is_not_line_end(c));
    }
    assert(c_e <= e <= s.len());
    lemma_scan_dated_kw_local(s, i, e, i, "balance"@);
    lemma_scan_account_local(s, i, e, k);
    lemma_scan_qty_com_local(s, i, e, a_e);
    lemma_scan_tail_local(s, i, e, c_e);
    assert(s.subrange(i, e).subrange(a_s - i, a_e - i) =~= s.subrange(a_s, a_e));
    assert(s.subrange(i, e).subrange(c_s - i, c_e - i) =~= s.subrange(c_s, c_e));
}

/// Provenance round trip for the event directive.
pub proof fn lemma_event_span_reparse(s: Seq<char>, i: int)
    requires
        scan_event(s, i) is Some,
        0 <= i,
        (scan_event(s, i)->Some_0.5 == s.len() || is_line_end_char(
            s[scan_event(s, i)->Some_0.5],
        )),
    ensures
        ({
            let (d, a_s, a_e, v_s, v_e, e) = scan_event(s, i)->Some_0;
            &&& scan_event(s.subrange(i, e), 0) == Some(
                (d, a_s - i, a_e - i, v_s - i, v_e - i, e - i),
            )
            &&& s.subrange(i, e).subrange(a_s - i, a_e - i) == s.subrange(a_s, a_e)
            &&& s.subrange(i, e).subrange(v_s - i, v_e - i) == s.subrange(v_s, v_e)
        }),
{
    reveal_strlit("event");
    let (d, a_s, a_e, v_s, v_e, e) = scan_event(s, i)->Some_0;
    let k = scan_dated_kw(s, i, "event"@)->Some_0.1;
    assert(i + 10 <= s.len());
    lemma_run_end(s, i + 10, |c: char| is_space_char(c));
    let sp1 = space1_end(s, i + 10)->Some_0;
    assert(sp1 + "event"@.len() <= s.len());
    lemma_run_end(s, sp1 + "event"@.len(), |c: char| is_space_char(c));
    assert(i <= k <= s.len());
    let ae = scan_quoted(s, k)->Some_0;
    lemma_run_end(s, k + 1, |c: char| is_not_quote(c));
    assert(k < ae <= s.len());
    lemma_run_end(s, ae, |c: char| is_space_char(c));
    let sp = space1_end(s, ae)->Some_0;
    let ve = scan_quoted(s, sp)->Some_0;
    lemma_run_end(s, sp + 1, |c: char| is_not_quote(c));
    assert(sp < ve <= s.len());
    lemma_run_end(s, ve, |c: char| is_space_char(c));
    let sp2 = run_end(s, ve, |c: char| is_space_char(c));
    if sp2 < s.len() && s[sp2] == ';' {
        lemma_run_end(s, sp2 + 1, |c: char| is_not_line_end(c));
    }
    assert(ve <= e <= s.len());
    lemma_scan_dated_kw_local(s, i, e, i, "event"@);
    lemma_scan_quoted_local(s, i, e, k);
    lemma_space1_local(s, i, e, ae);
    lemma_scan_quoted_local(s, i, e, sp);
    lemma_scan_tail_local(s, i, e, ve);
    assert(s.subrange(i, e).subrange(a_s - i, a_e - i) =~= s.subrange(a_s, a_e));
    assert(s.subrange(i, e).subrange(v_s - i, v_e - i) =~= s.subrange(v_s, v_e));
}

/// Provenance round trip for the option directive.
pub proof fn lemma_option_span_reparse(s: Seq<char>, i: int)
    requires
        scan_option_stmt(s, i) is Some,
        0 <= i,
        (scan_option_stmt(s, i)->Some_0.4 == s.len() || is_line_end_char(
            s[scan_option_stmt(s, i)->Some_0.4],
        )),
    ensures
        ({
            let (a_s, a_e, v_s, v_e, e) = scan_option_stmt(s, i)->Some_0;
            &&& scan_option_stmt(s.subrange(i, e), 0) == Some(
                (a_s - i, a_e - i, v_s - i, v_e - i, e - i),
            )
            &&& s.subrange(i, e).subrange(a_s - i, a_e - i) == s.subrange(a_s, a_e)
            &&& s.subrange(i, e).subrange(v_s - i, v_e - i) == s.subrange(v_s, v_e)
        }),
{
    reveal_strlit("option");
    let (a_s, a_e, v_s, v_e, e) = scan_option_stmt(s, i)->Some_0;
    assert(i + 6 <= s.len());
    lemma_run_end(s, i + 6, |c: char| is_space_char(c));
    let sp = space1_end(s, i + 6)->Some_0;
    let ae = scan_quoted(s, sp)->Some_0;
    lemma_run_end(s, sp + 1, |c: char| is_not_quote(c));
    assert(sp < ae <= s.len());
    lemma_run_end(s, ae, |c: char| is_space_char(c));
    let sp2 = space1_end(s, ae)->Some_0;
    let ve = scan_quoted(s, sp2)->Some_0;
    lemma_run_end(s, sp2 + 1, |c: char| is_not_quote(c));
    assert(sp2 < ve <= s.len());
    lemma_run_end(s, ve, |c: char| is_space_char(c));
    let sp3 = run_end(s, ve, |c: char| is_space_char(c));
    if sp3 < s.len() && s[sp3] == ';' {
        lemma_run_end(s, sp3 + 1, |c: char| is_not_line_end(c));
    }
    assert(ve <= e <= s.len());
    lemma_lit_at_local(s, i, e, i, "option"@);
    lemma_space1_local(s, i, e, i + 6);
    lemma_scan_quoted_local(s, i, e, sp);
    lemma_space1_local(s, i, e, ae);
    lemma_scan_quoted_local(s, i, e, sp2);
    lemma_scan_tail_local(s, i, e, ve);
    assert(s.subrange(i, e).subrange(a_s - i, a_e - i) =~= s.subrange(a_s, a_e));
    assert(s.subrange(i, e).subrange(v_s - i, v_e - i) =~= s.subrange(v_s, v_e));
}

/// Provenance round trip for the custom directive: its span ends at the
/// line end, so the cut-out text scans to the same date and value.
pub proof fn lemma_custom_span_reparse(s: Seq<char>, i: int)
    requires
        scan_custom(s, i) is Some,
        0 <= i,
    ensures
        ({
            let (d, v_s, v_e) = scan_custom(s, i)->Some_0;
            &&& scan_custom(s.subrange(i, v_e), 0) == Some((d, v_s - i, v_e - i))
            &&& s.subrange(i, v_e).subrange(v_s - i, v_e - i) == s.subrange(v_s, v_e)
        }),
{
    reveal_strlit("custom");
    let (d, v_s, v_e) = scan_custom(s, i)->Some_0;
    assert(i + 10 <= s.len());
    lemma_run_end(s, i + 10, |c: char| is_space_char(c));
    let sp = space1_end(s, i + 10)->Some_0;
    assert(sp + "custom"@.len() == v_s <= s.len());
    lemma_run_end(s, v_s, |c: char| is_not_line_end(c));
    assert(v_s <= v_e <= s.len());
    lemma_scan_date_local(s, i, v_e, i);
    lemma_space1_local(s, i, v_e, i + 10);
    lemma_lit_at_local(s, i, v_e, sp, "custom"@);
    lemma_run_end_local(s, i, v_e, v_s, |c: char| is_not_line_end(c));
    assert(s.subrange(i, v_e).subrange(v_s - i, v_e - i) =~= s.subrange(v_s, v_e));
}

} // verus!
