//! Numeric fields of the geometry text: decimal numbers and signed integers,
//! held as integers.
use vstd::prelude::*;

verus! {

/// Every mantissa read from text stays below this bound: 18 decimal digits.
pub const DIGIT_LIMIT: u64 = 1_000_000_000_000_000_000;

/// How many significant digits a number read from text keeps.
pub const KEPT_DIGITS: u32 = 18;

/// Largest scale a `Decimal` read from text gets. At this scale an 18-digit
/// mantissa is worth under `10^-46`, which single precision rounds to zero,
/// so a value with a larger scale is given this one.
pub const MAX_SCALE: i32 = 64;

/// Smallest scale a `Decimal` read from text gets. At this scale a nonzero
/// mantissa is worth at least `10^40`, past the single-precision range, so a
/// value with a smaller scale is given this one.
pub const MIN_SCALE: i32 = -40;

pub open spec fn is_digit(c: u8) -> bool {
    48 <= c && c <= 57
}

pub open spec fn is_sign(c: u8) -> bool {
    c == 43 || c == 45
}

/// Value of a run of decimal digits, most significant first.
pub open spec fn digits_value(s: Seq<u8>) -> nat
    decreases s.len(),
{
    if s.len() == 0 {
        0
    } else {
        digits_value(s.drop_last()) * 10 + (s.last() - 48) as nat
    }
}

/// First index at or after `i` that does not hold a digit.
pub open spec fn digit_run_end(s: Seq<u8>, i: int) -> int
    decreases s.len() - i,
{
    if 0 <= i && i < s.len() && is_digit(s[i]) {
        digit_run_end(s, i + 1)
    } else {
        i
    }
}

/// Length of an optional leading sign at `i`.
pub open spec fn sign_len(s: Seq<u8>, i: int) -> int {
    if 0 <= i && i < s.len() && is_sign(s[i]) {
        1
    } else {
        0
    }
}

pub open spec fn pow10(n: nat) -> nat
    decreases n,
{
    if n == 0 {
        1
    } else {
        10 * pow10((n - 1) as nat)
    }
}

/// A decimal number: `mantissa / 10^scale` (for a negative scale,
/// `mantissa * 10^-scale`).
#[derive(Clone, Copy, Debug, PartialEq, Eq)]
pub struct Decimal {
    pub mantissa: i64,
    pub scale: i32,
}

impl Decimal {
    /// What every number read from text satisfies.
    pub open spec fn wf(self) -> bool {
        &&& MIN_SCALE <= self.scale <= MAX_SCALE
        &&& -DIGIT_LIMIT < self.mantissa < DIGIT_LIMIT
    }

    /// The number zero.
    pub fn zero() -> (r: Decimal)
        ensures
            r.mantissa == 0,
            r.scale == 0,
    {
        Decimal { mantissa: 0, scale: 0 }
    }

    /// The number one.
    pub fn one() -> (r: Decimal)
        ensures
            r.mantissa == 1,
            r.scale == 0,
    {
        Decimal { mantissa: 1, scale: 0 }
    }

    /// `1 - self` (see `flip`).
    pub fn one_minus(&self) -> (r: Decimal)
        requires
            self.wf(),
        ensures
            r == flip(*self),
    {
        let m = self.mantissa;
        if self.scale < 0 {
            Decimal { mantissa: -m, scale: self.scale }
        } else if self.scale <= KEPT_DIGITS as i32 {
            let p = pow10_exec(self.scale as u32);
            Decimal { mantissa: p as i64 - m, scale: self.scale }
        } else {
            let k = (self.scale - KEPT_DIGITS as i32) as u32;
            let am: u64 = if m < 0 {
                (-m) as u64
            } else {
                m as u64
            };
            let q: u64 = if k <= KEPT_DIGITS {
                let p = pow10_exec(k);
                proof {
                    lemma_pow10_positive(k as nat);
                }
                am / p
            } else {
                proof {
                    lemma_pow10_limit();
                    lemma_pow10_monotone(KEPT_DIGITS as nat, k as nat);
                    assert(am as nat / pow10(k as nat) == 0) by (nonlinear_arith)
                        requires
                            am < DIGIT_LIMIT,
                            pow10(k as nat) >= DIGIT_LIMIT,
                    ;
                }
                0
            };
            let tq: i64 = if m < 0 {
                -(q as i64)
            } else {
                q as i64
            };
            proof {
                lemma_pow10_limit();
            }
            Decimal { mantissa: DIGIT_LIMIT as i64 - tq, scale: KEPT_DIGITS as i32 }
        }
    }
}

/// `m / q` rounded toward zero.
pub open spec fn div_toward_zero(m: int, q: nat) -> int {
    if m >= 0 {
        m / (q as int)
    } else {
        -((-m) / (q as int))
    }
}

/// `1 - d`, exact where the result fits the digits `d` keeps. A negative
/// scale means a magnitude of `10^18` or more, whose digits stop above the
/// units: the 1 vanishes. A scale above 18 is first cut, toward zero, to 18
/// decimal places.
pub open spec fn flip(d: Decimal) -> Decimal {
    if d.scale < 0 {
        Decimal { mantissa: (-d.mantissa) as i64, scale: d.scale }
    } else if d.scale <= KEPT_DIGITS {
        Decimal { mantissa: (pow10(d.scale as nat) - d.mantissa) as i64, scale: d.scale }
    } else {
        Decimal {
            mantissa: (DIGIT_LIMIT - div_toward_zero(
                d.mantissa as int,
                pow10((d.scale - KEPT_DIGITS) as nat),
            )) as i64,
            scale: KEPT_DIGITS as i32,
        }
    }
}

/// The first 18 significant digits of `x`, and how many digits follow them.
pub open spec fn trim(x: nat) -> (nat, nat)
    decreases x,
{
    if x < DIGIT_LIMIT {
        (x, 0)
    } else {
        let t = trim(x / 10);
        (t.0, t.1 + 1)
    }
}

pub open spec fn clamp_scale(s: int) -> int {
    if s > MAX_SCALE {
        MAX_SCALE as int
    } else if s < MIN_SCALE {
        MIN_SCALE as int
    } else {
        s
    }
}

/// The `Decimal` worth `d * 10^p`, negated if `neg`, for `d < 10^18`: at
/// scale 0 where that fits, else at scale `-p`, clamped to
/// `MIN_SCALE..=MAX_SCALE`.
pub open spec fn decimal_from(neg: bool, d: nat, p: int) -> Decimal {
    if d == 0 {
        Decimal { mantissa: 0, scale: 0 }
    } else if p >= 0 && d * pow10(p as nat) < DIGIT_LIMIT {
        let m: int = (d * pow10(p as nat)) as int;
        Decimal { mantissa: (if neg { -m } else { m }) as i64, scale: 0 }
    } else {
        Decimal { mantissa: (if neg { -d } else { d as int }) as i64, scale: clamp_scale(-p) as i32 }
    }
}

/// The power of ten given by the exponent that starts at `d`: none at the end
/// of the text, else `e` or `E`, an optional sign and one digit or more that
/// end the text. Exponents past `10^18` count as `10^18`.
pub open spec fn exponent_of(s: Seq<u8>, d: int) -> Option<int> {
    if d == s.len() {
        Some(0)
    } else if s[d] == 101 || s[d] == 69 {
        let ea = d + 1 + sign_len(s, d + 1);
        let eb = digit_run_end(s, ea);
        let v = digits_value(s.subrange(ea, eb));
        let ev = if v >= DIGIT_LIMIT { DIGIT_LIMIT as nat } else { v };
        if eb != s.len() || eb == ea {
            None
        } else if s[d + 1] == 45 {
            Some(-ev)
        } else {
            Some(ev as int)
        }
    } else {
        None
    }
}

/// A decimal number in text: an optional sign, digits with an optional
/// fraction (at least one digit in all), then an optional exponent
/// (`exponent_of`). `None` exactly where the text is not of that form. The
/// value keeps its first 18 significant digits (cut toward zero).
pub open spec fn decimal_of(s: Seq<u8>) -> Option<Decimal> {
    let neg = s.len() > 0 && s[0] == 45;
    let a = sign_len(s, 0);
    let b = digit_run_end(s, a);
    let c = if b < s.len() && s[b] == 46 { b + 1 } else { b };
    let d = digit_run_end(s, c);
    let digits = s.subrange(a, b) + s.subrange(c, d);
    let t = trim(digits_value(digits));
    if digits.len() == 0 {
        None
    } else {
        match exponent_of(s, d) {
            None => None,
            Some(e) => Some(decimal_from(neg, t.0, e - (d - c) + t.1)),
        }
    }
}

/// A signed decimal integer in text: an optional sign and one digit or more.
/// Magnitudes of `10^18` or more count as `10^18`: no table is that long.
pub open spec fn integer_of(s: Seq<u8>) -> Option<i64> {
    let a = sign_len(s, 0);
    let b = digit_run_end(s, a);
    let v = digits_value(s.subrange(a, b));
    let m: int = if v >= DIGIT_LIMIT { DIGIT_LIMIT as int } else { v as int };
    if b != s.len() || b == a {
        None
    } else if s[0] == 45 {
        Some((-m) as i64)
    } else {
        Some(m as i64)
    }
}

proof fn lemma_pow10_positive(n: nat)
    ensures
        pow10(n) >= 1,
    decreases n,
{
    if n > 0 {
        lemma_pow10_positive((n - 1) as nat);
    }
}

proof fn lemma_digit_run_bounds(s: Seq<u8>, i: int)
    requires
        0 <= i <= s.len(),
    ensures
        i <= digit_run_end(s, i) <= s.len(),
        forall|k: int| i <= k < digit_run_end(s, i) ==> is_digit(#[trigger] s[k]),
    decreases s.len() - i,
{
    if i < s.len() && is_digit(s[i]) {
        lemma_digit_run_bounds(s, i + 1);
    }
}

proof fn lemma_pow10_limit()
    ensures
        pow10(KEPT_DIGITS as nat) == DIGIT_LIMIT,
{
    assert(pow10(0) == 1);
    assert(pow10(1) == 10);
    assert(pow10(2) == 100);
    assert(pow10(3) == 1000);
    assert(pow10(4) == 10000);
    assert(pow10(5) == 100000);
    assert(pow10(6) == 1000000);
    assert(pow10(7) == 10000000);
    assert(pow10(8) == 100000000);
    assert(pow10(9) == 1000000000);
    assert(pow10(10) == 10000000000);
    assert(pow10(11) == 100000000000);
    assert(pow10(12) == 1000000000000);
    assert(pow10(13) == 10000000000000);
    assert(pow10(14) == 100000000000000);
    assert(pow10(15) == 1000000000000000);
    assert(pow10(16) == 10000000000000000);
    assert(pow10(17) == 100000000000000000);
    assert(pow10(18) == 1000000000000000000);
}

fn pow10_exec(n: u32) -> (r: u64)
    requires
        n <= KEPT_DIGITS,
    ensures
        r == pow10(n as nat),
        r <= DIGIT_LIMIT,
{
    let mut r: u64 = 1;
    let mut i: u32 = 0;
    proof {
        lemma_pow10_limit();
    }
    while i < n
        invariant
            i <= n <= KEPT_DIGITS,
            r == pow10(i as nat),
            pow10(i as nat) * pow10((KEPT_DIGITS - i) as nat) == DIGIT_LIMIT,
        decreases n - i,
    {
        proof {
            lemma_pow10_positive((KEPT_DIGITS - i - 1) as nat);
            assert(pow10((KEPT_DIGITS - i) as nat) == 10 * pow10((KEPT_DIGITS - i - 1) as nat));
            assert(pow10((i + 1) as nat) == 10 * pow10(i as nat));
            assert(pow10((i + 1) as nat) * pow10((KEPT_DIGITS - i - 1) as nat) == DIGIT_LIMIT)
                by (nonlinear_arith)
                requires
                    pow10((i + 1) as nat) == 10 * pow10(i as nat),
                    pow10((KEPT_DIGITS - i) as nat) == 10 * pow10((KEPT_DIGITS - i - 1) as nat),
                    pow10(i as nat) * pow10((KEPT_DIGITS - i) as nat) == DIGIT_LIMIT,
            ;
            assert(pow10((i + 1) as nat) <= DIGIT_LIMIT) by (nonlinear_arith)
                requires
                    pow10((i + 1) as nat) * pow10((KEPT_DIGITS - i - 1) as nat) == DIGIT_LIMIT,
                    pow10((KEPT_DIGITS - i - 1) as nat) >= 1,
            ;
        }
        r = r * 10;
        i = i + 1;
    }
    proof {
        lemma_pow10_positive((KEPT_DIGITS - n) as nat);
        assert(r <= DIGIT_LIMIT) by (nonlinear_arith)
            requires
                r * pow10((KEPT_DIGITS - n) as nat) == DIGIT_LIMIT,
                pow10((KEPT_DIGITS - n) as nat) >= 1,
        ;
    }
    r
}


proof fn lemma_pow10_monotone(a: nat, b: nat)
    requires
        a <= b,
    ensures
        pow10(a) <= pow10(b),
    decreases b - a,
{
    if a < b {
        lemma_pow10_monotone(a, (b - 1) as nat);
        lemma_pow10_positive((b - 1) as nat);
    }
}

/// Reads the digit run of `s` that starts at `start`, continuing the digits
/// `prefix` read before it, whose first 18 significant digits are `acc` with
/// `dropped` digits after them. Returns where the run ends, and the same two
/// for all digits.
fn scan_digits(
    s: &[u8],
    start: usize,
    Ghost(prefix): Ghost<Seq<u8>>,
    acc: u64,
    dropped: usize,
) -> (r: (usize, u64, usize))
    requires
        start <= s@.len(),
        dropped <= start,
        acc < DIGIT_LIMIT,
        trim(digits_value(prefix)) == (acc as nat, dropped as nat),
    ensures
        r.0 == digit_run_end(s@, start as int),
        r.2 <= r.0,
        r.1 < DIGIT_LIMIT,
        trim(digits_value(prefix + s@.subrange(start as int, r.0 as int))) == (
            r.1 as nat,
            r.2 as nat,
        ),
{
    let mut i: usize = start;
    let mut acc = acc;
    let mut dropped = dropped;
    proof {
        assert(prefix + s@.subrange(start as int, start as int) =~= prefix);
    }
    while i < s.len() && 48 <= s[i] && s[i] <= 57
        invariant
            start <= i <= s@.len(),
            dropped <= i,
            digit_run_end(s@, start as int) == digit_run_end(s@, i as int),
            acc < DIGIT_LIMIT,
            trim(digits_value(prefix + s@.subrange(start as int, i as int))) == (
                acc as nat,
                dropped as nat,
            ),
        decreases s@.len() - i,
    {
        let d = (s[i] - 48) as u64;
        let ghost x = prefix + s@.subrange(start as int, i as int);
        let ghost y = prefix + s@.subrange(start as int, i + 1);
        proof {
            assert(y.drop_last() =~= x);
            assert(y.last() == s@[i as int]);
            let xv = digits_value(x);
            assert(digits_value(y) == xv * 10 + d);
            assert((xv * 10 + d) / 10 == xv) by (nonlinear_arith)
                requires
                    d < 10,
            ;
        }
        if dropped == 0 && acc * 10 + d < DIGIT_LIMIT {
            acc = acc * 10 + d;
        } else {
            dropped = dropped + 1;
        }
        i = i + 1;
    }
    (i, acc, dropped)
}

/// `d * 10^p` where that stays below `DIGIT_LIMIT`.
fn scale_up(d: u64, p: i128) -> (r: Option<u64>)
    requires
        1 <= d < DIGIT_LIMIT,
        p >= 0,
    ensures
        r matches Some(m) ==> m == d * pow10(p as nat) && m < DIGIT_LIMIT,
        r is None ==> d * pow10(p as nat) >= DIGIT_LIMIT,
{
    let mut m: u64 = d;
    let mut k: i128 = 0;
    proof {
        assert(pow10(k as nat) == 1);
        assert(d * pow10(k as nat) == d * 1);
    }
    while k < p
        invariant
            0 <= k <= p,
            1 <= d < DIGIT_LIMIT,
            m == d * pow10(k as nat),
            m < DIGIT_LIMIT,
        decreases p - k,
    {
        proof {
            assert(pow10((k + 1) as nat) == 10 * pow10(k as nat));
            assert(d * pow10((k + 1) as nat) == 10 * m) by (nonlinear_arith)
                requires
                    pow10((k + 1) as nat) == 10 * pow10(k as nat),
                    m == d * pow10(k as nat),
            ;
        }
        if m >= DIGIT_LIMIT / 10 {
            proof {
                lemma_pow10_monotone((k + 1) as nat, p as nat);
                assert(d * pow10(p as nat) >= d * pow10((k + 1) as nat)) by (nonlinear_arith)
                    requires
                        pow10(p as nat) >= pow10((k + 1) as nat),
                        d >= 1,
                ;
            }
            return None;
        }
        m = m * 10;
        k = k + 1;
    }
    Some(m)
}

/// The `Decimal` worth `d * 10^p`, negated if `neg` (see `decimal_from`).
fn make_decimal(neg: bool, d: u64, p: i128) -> (r: Decimal)
    requires
        d < DIGIT_LIMIT,
    ensures
        r == decimal_from(neg, d as nat, p as int),
        r.wf(),
{
    if d == 0 {
        return Decimal { mantissa: 0, scale: 0 };
    }
    if p >= 0 {
        if let Some(m) = scale_up(d, p) {
            let v = m as i64;
            return Decimal { mantissa: if neg { -v } else { v }, scale: 0 };
        }
    }
    let scale: i32 = if p < -(MAX_SCALE as i128) {
        MAX_SCALE
    } else if p > -(MIN_SCALE as i128) {
        MIN_SCALE
    } else {
        (-p) as i32
    };
    let v = d as i64;
    Decimal { mantissa: if neg { -v } else { v }, scale }
}

/// Reads a decimal number (see `decimal_of`).
pub fn parse_decimal(s: &[u8]) -> (r: Option<Decimal>)
    ensures
        r == decimal_of(s@),
        r matches Some(d) ==> d.wf(),
{
    let neg = s.len() > 0 && s[0] == 45;
    let a: usize = if s.len() > 0 && (s[0] == 43 || s[0] == 45) {
        1
    } else {
        0
    };
    proof {
        assert(digits_value(Seq::<u8>::empty()) == 0);
        assert(Seq::<u8>::empty() + s@.subrange(a as int, a as int) =~= Seq::<u8>::empty());
    }
    let (b, acc, dropped) = scan_digits(s, a, Ghost(Seq::empty()), 0, 0);
    proof {
        lemma_digit_run_bounds(s@, a as int);
        assert(Seq::<u8>::empty() + s@.subrange(a as int, b as int) =~= s@.subrange(
            a as int,
            b as int,
        ));
    }
    let c: usize = if b < s.len() && s[b] == 46 {
        b + 1
    } else {
        b
    };
    let (d, acc, dropped) = scan_digits(s, c, Ghost(s@.subrange(a as int, b as int)), acc, dropped);
    proof {
        lemma_digit_run_bounds(s@, c as int);
    }
    if b - a + (d - c) == 0 {
        return None;
    }
    let frac: usize = d - c;
    match parse_exponent(s, d) {
        None => None,
        Some(e) => Some(make_decimal(neg, acc, e - (frac as i128) + (dropped as i128))),
    }
}

/// Reads the exponent that starts at `d` (see `exponent_of`).
fn parse_exponent(s: &[u8], d: usize) -> (r: Option<i128>)
    requires
        d <= s@.len(),
    ensures
        r matches Some(e) ==> exponent_of(s@, d as int) == Some(e as int),
        r is None ==> exponent_of(s@, d as int) is None,
        r matches Some(e) ==> -DIGIT_LIMIT <= e <= DIGIT_LIMIT,
{
    if d == s.len() {
        return Some(0);
    }
    if s[d] == 101 || s[d] == 69 {
        let ea: usize = if d + 1 < s.len() && (s[d + 1] == 43 || s[d + 1] == 45) {
            d + 2
        } else {
            d + 1
        };
        proof {
            assert(digits_value(Seq::<u8>::empty()) == 0);
            assert(Seq::<u8>::empty() + s@.subrange(ea as int, ea as int) =~= Seq::<u8>::empty());
        }
        let (eb, acc, dropped) = scan_digits(s, ea, Ghost(Seq::empty()), 0, 0);
        proof {
            lemma_digit_run_bounds(s@, ea as int);
            assert(Seq::<u8>::empty() + s@.subrange(ea as int, eb as int) =~= s@.subrange(
                ea as int,
                eb as int,
            ));
        }
        if eb != s.len() || eb == ea {
            return None;
        }
        let e: i128 = if dropped > 0 {
            DIGIT_LIMIT as i128
        } else {
            acc as i128
        };
        if s[d + 1] == 45 {
            Some(0 - e)
        } else {
            Some(e)
        }
    } else {
        None
    }
}

/// Reads a signed decimal integer (see `integer_of`).
pub fn parse_integer(s: &[u8]) -> (r: Option<i64>)
    ensures
        r == integer_of(s@),
        r matches Some(v) ==> -DIGIT_LIMIT <= v <= DIGIT_LIMIT,
{
    let a: usize = if s.len() > 0 && (s[0] == 43 || s[0] == 45) {
        1
    } else {
        0
    };
    proof {
        assert(digits_value(Seq::<u8>::empty()) == 0);
        assert(Seq::<u8>::empty() + s@.subrange(a as int, a as int) =~= Seq::<u8>::empty());
    }
    let (b, acc, dropped) = scan_digits(s, a, Ghost(Seq::empty()), 0, 0);
    proof {
        lemma_digit_run_bounds(s@, a as int);
        assert(Seq::<u8>::empty() + s@.subrange(a as int, b as int) =~= s@.subrange(
            a as int,
            b as int,
        ));
    }
    if b != s.len() || b == a {
        return None;
    }
    let v: i64 = if dropped > 0 {
        DIGIT_LIMIT as i64
    } else {
        acc as i64
    };
    if s[0] == 45 {
        Some(-v)
    } else {
        Some(v)
    }
}

} // verus!
