use vstd::prelude::*;

verus! {

/// Largest magnitude, in hundredths, that a parsed quantity may have.
pub const AMOUNT_LIMIT: i128 = 1_000_000_000_000_000;

/// A fixed-point quantity stored as an integer count of hundredths,
/// the canonical scale of the ledger's stored decimals.
#[derive(Clone, Copy, PartialEq, Eq, Structural, Debug)]
pub struct Amount {
    pub cents: i128,
}

pub open spec fn is_digit(c: char) -> bool {
    '0' <= c && c <= '9'
}

pub open spec fn digit_val(c: char) -> int {
    c as int - '0' as int
}

pub open spec fn pow10(k: nat) -> int
    decreases k,
{
    if k == 0 {
        1
    } else {
        10 * pow10((k - 1) as nat)
    }
}

/// Numeric value of a run of decimal digit characters, most significant first.
pub open spec fn digits_val(s: Seq<char>) -> int
    decreases s.len(),
{
    if s.len() == 0 {
        0
    } else {
        digits_val(s.drop_last()) * 10 + digit_val(s.last())
    }
}

/// Round `n / d` to the nearest integer, ties to the even neighbour
/// (`n >= 0`, `d > 0`).
pub open spec fn round_half_even(n: int, d: int) -> int {
    let q = n / d;
    let r = n % d;
    if 2 * r < d {
        q
    } else if 2 * r > d {
        q + 1
    } else if q % 2 == 0 {
        q
    } else {
        q + 1
    }
}

/// Value, in hundredths, of a decimal token with optional sign, integer
/// digits `ip` and fraction digits `fp`; fractions beyond two digits are
/// rounded half-to-even.
pub open spec fn dec_token_cents(neg: bool, ip: Seq<char>, fp: Seq<char>) -> int {
    let mag = round_half_even(
        (digits_val(ip) * pow10(fp.len()) + digits_val(fp)) * 100,
        pow10(fp.len()),
    );
    if neg {
        -mag
    } else {
        mag
    }
}

pub proof fn lemma_pow10_pos(k: nat)
    ensures
        pow10(k) >= 1,
    decreases k,
{
    if k > 0 {
        lemma_pow10_pos((k - 1) as nat);
    }
}

pub proof fn lemma_digits_val_bound(s: Seq<char>)
    requires
        forall|i: int| 0 <= i < s.len() ==> is_digit(#[trigger] s[i]),
    ensures
        0 <= digits_val(s) < pow10(s.len()),
    decreases s.len(),
{
    if s.len() > 0 {
        lemma_digits_val_bound(s.drop_last());
    }
}

impl Amount {
    pub open spec fn in_limit(self) -> bool {
        -AMOUNT_LIMIT <= self.cents <= AMOUNT_LIMIT
    }

    pub fn zero() -> (r: Amount)
        ensures
            r.cents == 0,
    {
        Amount { cents: 0 }
    }

    pub fn new(cents: i128) -> (r: Amount)
        ensures
            r.cents == cents,
    {
        Amount { cents }
    }

    pub fn neg(self) -> (r: Amount)
        requires
            self.cents != i128::MIN,
        ensures
            r.cents == -self.cents,
    {
        Amount { cents: -self.cents }
    }

    /// Magnitude, as `Decimal::set_sign_positive(true)` produces.
    pub fn abs(self) -> (r: Amount)
        requires
            self.cents != i128::MIN,
        ensures
            r.cents == if self.cents < 0 {
                -(self.cents as int)
            } else {
                self.cents as int
            },
    {
        if self.cents < 0 {
            Amount { cents: -self.cents }
        } else {
            self
        }
    }

    pub fn add(self, other: Amount) -> (r: Amount)
        requires
            i128::MIN <= self.cents + other.cents <= i128::MAX,
        ensures
            r.cents == self.cents + other.cents,
    {
        Amount { cents: self.cents + other.cents }
    }

    pub fn is_zero(self) -> (r: bool)
        ensures
            r == (self.cents == 0),
    {
        self.cents == 0
    }
}

/// Product of a price and a quantity, both in hundredths, rounded
/// half-to-even back to hundredths.
pub open spec fn spec_mul_cents(a: int, b: int) -> int {
    let p = a * b;
    if p >= 0 {
        round_half_even(p, 100)
    } else {
        -round_half_even(-p, 100)
    }
}

pub fn mul_rounded(a: Amount, b: Amount) -> (r: Amount)
    requires
        a.in_limit(),
        b.in_limit(),
    ensures
        r.cents == spec_mul_cents(a.cents as int, b.cents as int),
{
    proof {
        assert((-AMOUNT_LIMIT) * AMOUNT_LIMIT <= a.cents * b.cents <= AMOUNT_LIMIT * AMOUNT_LIMIT)
            by (nonlinear_arith)
            requires
                -AMOUNT_LIMIT <= a.cents <= AMOUNT_LIMIT,
                -AMOUNT_LIMIT <= b.cents <= AMOUNT_LIMIT,
        ;
    }
    let p: i128 = a.cents * b.cents;
    let mag: i128 = if p >= 0 {
        p
    } else {
        -p
    };
    let q: i128 = mag / 100;
    let r: i128 = mag % 100;
    let rounded: i128 = if 2 * r < 100 {
        q
    } else if 2 * r > 100 {
        q + 1
    } else if q % 2 == 0 {
        q
    } else {
        q + 1
    };
    if p >= 0 {
        Amount { cents: rounded }
    } else {
        Amount { cents: -rounded }
    }
}

/// The canonical two-decimal rendering of `cents`, e.g. `-5.00`.
pub open spec fn digit_char(d: int) -> char {
    if d == 0 {
        '0'
    } else if d == 1 {
        '1'
    } else if d == 2 {
        '2'
    } else if d == 3 {
        '3'
    } else if d == 4 {
        '4'
    } else if d == 5 {
        '5'
    } else if d == 6 {
        '6'
    } else if d == 7 {
        '7'
    } else if d == 8 {
        '8'
    } else {
        '9'
    }
}

pub open spec fn dec_digits_of(n: int) -> Seq<char>
    decreases n,
{
    if n < 10 {
        seq![digit_char(n)]
    } else {
        dec_digits_of(n / 10) + seq![digit_char(n % 10)]
    }
}

pub open spec fn amount_str(cents: int) -> Seq<char> {
    let mag = if cents < 0 {
        -cents
    } else {
        cents
    };
    let sign: Seq<char> = if cents < 0 {
        seq!['-']
    } else {
        Seq::<char>::empty()
    };
    sign + dec_digits_of(mag / 100) + seq!['.'] + seq![digit_char(mag / 10 % 10)] + seq![
        digit_char(mag % 10),
    ]
}

pub fn push_digit(s: &mut String, d: i128)
    requires
        0 <= d <= 9,
    ensures
        final(s)@ == old(s)@ + seq![digit_char(d as int)],
{
    proof {
        reveal_strlit("0");
        reveal_strlit("1");
        reveal_strlit("2");
        reveal_strlit("3");
        reveal_strlit("4");
        reveal_strlit("5");
        reveal_strlit("6");
        reveal_strlit("7");
        reveal_strlit("8");
        reveal_strlit("9");
    }
    if d == 0 {
        s.append("0");
        assert(s@ =~= old(s)@ + seq![digit_char(d as int)]);
    } else if d == 1 {
        s.append("1");
        assert(s@ =~= old(s)@ + seq![digit_char(d as int)]);
    } else if d == 2 {
        s.append("2");
        assert(s@ =~= old(s)@ + seq![digit_char(d as int)]);
    } else if d == 3 {
        s.append("3");
        assert(s@ =~= old(s)@ + seq![digit_char(d as int)]);
    } else if d == 4 {
        s.append("4");
        assert(s@ =~= old(s)@ + seq![digit_char(d as int)]);
    } else if d == 5 {
        s.append("5");
        assert(s@ =~= old(s)@ + seq![digit_char(d as int)]);
    } else if d == 6 {
        s.append("6");
        assert(s@ =~= old(s)@ + seq![digit_char(d as int)]);
    } else if d == 7 {
        s.append("7");
        assert(s@ =~= old(s)@ + seq![digit_char(d as int)]);
    } else if d == 8 {
        s.append("8");
        assert(s@ =~= old(s)@ + seq![digit_char(d as int)]);
    } else {
        s.append("9");
        assert(s@ =~= old(s)@ + seq![digit_char(d as int)]);
    }
}

pub fn push_uint(s: &mut String, n: i128)
    requires
        n >= 0,
    ensures
        final(s)@ == old(s)@ + dec_digits_of(n as int),
    decreases n,
{
    if n < 10 {
        push_digit(s, n);
    } else {
        push_uint(s, n / 10);
        push_digit(s, n % 10);
        assert(s@ =~= old(s)@ + dec_digits_of(n as int));
    }
}

impl Amount {
    /// Render as a signed decimal with exactly two fraction digits.
    pub fn format(self) -> (r: String)
        requires
            self.cents != i128::MIN,
        ensures
            r@ == amount_str(self.cents as int),
    {
        let mut s = String::new();
        if self.cents < 0 {
            proof {
                reveal_strlit("-");
            }
            s.append("-");
            assert(s@ =~= seq!['-']);
        }
        let mag: i128 = if self.cents < 0 {
            -self.cents
        } else {
            self.cents
        };
        push_uint(&mut s, mag / 100);
        proof {
            reveal_strlit(".");
        }
        s.append(".");
        push_digit(&mut s, mag / 10 % 10);
        push_digit(&mut s, mag % 10);
        proof {
            assert(s@ =~= amount_str(self.cents as int));
        }
        s
    }
}

} // verus!
