//! Decimal number literals such as `2`, `1.5` or `3.`, read as exact ratios.

use vstd::prelude::*;
use vstd::string::*;

verus! {

/// An exact non-negative ratio `num / den`. A zero `den` stands for a
/// reciprocal of zero, which no conversion accepts.
#[derive(Clone, Copy, Debug, PartialEq, Eq, Structural)]
pub struct Ratio {
    pub num: u128,
    pub den: u128,
}

/// Why a number literal could not be read.
#[derive(Clone, Copy, Debug, PartialEq, Eq, Structural)]
pub enum NumberError {
    /// The text is not `digits` or `digits.digits` (the fraction may be empty).
    Malformed,
    /// The numerator or the denominator does not fit in 128 bits; `zero`
    /// tells whether the number's value is zero.
    OutOfRange { zero: bool },
}

pub open spec fn is_digit(c: char) -> bool {
    '0' <= c && c <= '9'
}

pub open spec fn digit_value(c: char) -> nat {
    (c as int - '0' as int) as nat
}

pub open spec fn all_digits(s: Seq<char>) -> bool {
    forall|i: int| 0 <= i < s.len() ==> is_digit(#[trigger] s[i])
}

/// The value of a run of decimal digits, most significant first.
pub open spec fn digits_value(s: Seq<char>) -> nat
    decreases s.len(),
{
    if s.len() == 0 {
        0
    } else {
        digits_value(s.drop_last()) * 10 + digit_value(s.last())
    }
}

pub open spec fn pow10(n: nat) -> nat
    decreases n,
{
    if n == 0 {
        1
    } else {
        10 * pow10((n - 1) as nat)
    }
}

/// Position of the first `a` or `b` at or after `i`, or the length when
/// there is none.
pub open spec fn first_of(s: Seq<char>, i: int, a: char, b: char) -> int
    decreases s.len() - i,
{
    if i >= s.len() {
        s.len() as int
    } else if s[i] == a || s[i] == b {
        i
    } else {
        first_of(s, i + 1, a, b)
    }
}

/// Where the exponent marker stands, or the length.
pub open spec fn exp_at(s: Seq<char>) -> int {
    first_of(s, 0, 'e', 'E')
}

/// The digits and the point, before any exponent.
pub open spec fn mantissa(s: Seq<char>) -> Seq<char> {
    s.subrange(0, exp_at(s))
}

pub open spec fn dot_at(m: Seq<char>) -> int {
    first_of(m, 0, '.', '.')
}

pub open spec fn integer_part(m: Seq<char>) -> Seq<char> {
    m.subrange(0, dot_at(m))
}

pub open spec fn fraction_part(m: Seq<char>) -> Seq<char> {
    if dot_at(m) < m.len() {
        m.subrange(dot_at(m) + 1, m.len() as int)
    } else {
        Seq::empty()
    }
}

/// What follows the exponent marker, sign included.
pub open spec fn exponent_text(s: Seq<char>) -> Seq<char> {
    if exp_at(s) < s.len() {
        s.subrange(exp_at(s) + 1, s.len() as int)
    } else {
        Seq::empty()
    }
}

pub open spec fn exponent_negative(s: Seq<char>) -> bool {
    exponent_text(s).len() > 0 && exponent_text(s)[0] == '-'
}

/// The exponent's digits, without its sign.
pub open spec fn exponent_digits(s: Seq<char>) -> Seq<char> {
    let x = exponent_text(s);
    if x.len() > 0 && (x[0] == '+' || x[0] == '-') {
        x.subrange(1, x.len() as int)
    } else {
        x
    }
}

/// `digits [ '.' digits ] [ ('e' | 'E') [ '+' | '-' ] digits ]`, where only
/// the digits after the point may be absent.
pub open spec fn well_formed_number(s: Seq<char>) -> bool {
    let m = mantissa(s);
    &&& integer_part(m).len() > 0
    &&& all_digits(integer_part(m))
    &&& all_digits(fraction_part(m))
    &&& exp_at(s) < s.len() ==> exponent_digits(s).len() > 0 && all_digits(exponent_digits(s))
}

/// Ten to the exponent's value (one when there is none).
pub open spec fn exponent_scale(s: Seq<char>) -> nat {
    pow10(digits_value(exponent_digits(s)))
}

/// Numerator of the literal's value: the mantissa's digits read as one
/// integer, times the scale of a positive exponent.
pub open spec fn number_num(s: Seq<char>) -> nat {
    let m = mantissa(s);
    digits_value(integer_part(m) + fraction_part(m)) * if exponent_negative(s) {
        1
    } else {
        exponent_scale(s)
    }
}

/// Denominator of the literal's value: ten to the number of fraction
/// digits, times the scale of a negative exponent.
pub open spec fn number_den(s: Seq<char>) -> nat {
    pow10(fraction_part(mantissa(s)).len()) * if exponent_negative(s) {
        exponent_scale(s)
    } else {
        1
    }
}

pub open spec fn fits_u128(x: nat) -> bool {
    x <= u128::MAX
}

pub proof fn lemma_pow10_positive(n: nat)
    ensures
        pow10(n) >= 1,
    decreases n,
{
    if n > 0 {
        lemma_pow10_positive((n - 1) as nat);
    }
}

pub proof fn lemma_pow10_add(a: nat, b: nat)
    ensures
        pow10(a + b) == pow10(a) * pow10(b),
    decreases b,
{
    if b > 0 {
        let b1 = (b - 1) as nat;
        lemma_pow10_add(a, b1);
        assert(pow10(a + b) == 10 * pow10(a + b1));
        assert(pow10(b) == 10 * pow10(b1));
        assert(pow10(a) * (10 * pow10(b1)) == 10 * (pow10(a) * pow10(b1))) by (nonlinear_arith);
    } else {
        assert(pow10(0) == 1);
        assert(a + b == a);
        assert(pow10(a) * 1 == pow10(a));
    }
}

/// Reading `a` followed by `b` shifts `a` left by the length of `b`.
pub proof fn lemma_digits_concat(a: Seq<char>, b: Seq<char>)
    ensures
        digits_value(a + b) == digits_value(a) * pow10(b.len()) + digits_value(b),
    decreases b.len(),
{
    if b.len() == 0 {
        assert(a + b =~= a);
        assert(pow10(0) == 1);
    } else {
        let b0 = b.drop_last();
        lemma_digits_concat(a, b0);
        assert((a + b).drop_last() =~= a + b0);
        assert((a + b).last() == b.last());
        assert(digits_value(a + b) == digits_value(a + b0) * 10 + digit_value(b.last()));
        let p = pow10(b0.len());
        assert(pow10(b.len()) == 10 * p);
        assert((digits_value(a) * p + digits_value(b0)) * 10 + digit_value(b.last())
            == digits_value(a) * (10 * p) + (digits_value(b0) * 10 + digit_value(b.last())))
            by (nonlinear_arith);
    }
}

proof fn lemma_first_of_bounds(s: Seq<char>, i: int, a: char, b: char)
    requires
        0 <= i <= s.len(),
    ensures
        i <= first_of(s, i, a, b) <= s.len(),
        first_of(s, i, a, b) < s.len() ==> s[first_of(s, i, a, b)] == a || s[first_of(s, i, a, b)] == b,
    decreases s.len() - i,
{
    if i < s.len() && s[i] != a && s[i] != b {
        lemma_first_of_bounds(s, i + 1, a, b);
    }
}

/// Ten to the `n` is more than `n`.
/// A well-formed literal's denominator is never zero.
pub proof fn lemma_number_den_positive(s: Seq<char>)
    ensures
        number_den(s) >= 1,
{
    let f = pow10(fraction_part(mantissa(s)).len());
    let x = exponent_scale(s);
    lemma_pow10_positive(fraction_part(mantissa(s)).len());
    lemma_pow10_positive(digits_value(exponent_digits(s)));
    assert(f * x >= 1 && f * 1 >= 1) by (nonlinear_arith)
        requires
            f >= 1,
            x >= 1,
    ;
}

pub proof fn lemma_pow10_exceeds(n: nat)
    ensures
        pow10(n) > n,
    decreases n,
{
    if n > 0 {
        lemma_pow10_exceeds((n - 1) as nat);
    }
}

/// Reads the digits `s[lo..hi]` after `acc`: `acc * 10^(hi - lo)` plus their
/// value, or `None` when that exceeds 128 bits.
fn read_digits(s: &str, lo: usize, hi: usize, acc: u128) -> (r: Option<u128>)
    requires
        lo <= hi <= s@.len(),
        all_digits(s@.subrange(lo as int, hi as int)),
    ensures
        ({
            let v = (acc * pow10((hi - lo) as nat) + digits_value(s@.subrange(lo as int, hi as int))) as nat;
            match r {
                Some(x) => x == v,
                None => !fits_u128(v),
            }
        }),
{
    let ghost total = acc * pow10((hi - lo) as nat) + digits_value(s@.subrange(lo as int, hi as int));
    let mut cur: u128 = acc;
    let mut i: usize = lo;
    while i < hi
        invariant
            lo <= i <= hi <= s@.len(),
            all_digits(s@.subrange(lo as int, hi as int)),
            total == acc * pow10((hi - lo) as nat) + digits_value(s@.subrange(lo as int, hi as int)),
            total == cur * pow10((hi - i) as nat) + digits_value(s@.subrange(i as int, hi as int)),
        decreases hi - i,
    {
        let c = s.get_char(i);
        assert(s@.subrange(lo as int, hi as int)[i - lo] == c);
        let d = (c as u32 - '0' as u32) as u128;
        let ghost rest = s@.subrange(i as int + 1, hi as int);
        proof {
            let head = s@.subrange(i as int, i as int + 1);
            assert(s@.subrange(i as int, hi as int) =~= head + rest);
            lemma_digits_concat(head, rest);
            assert(head.drop_last() =~= Seq::<char>::empty());
            assert(head.last() == c);
            assert(digits_value(head.drop_last()) == 0);
            assert(digits_value(head) == d);
            assert(pow10((hi - i) as nat) == 10 * pow10((hi - i - 1) as nat));
            let p = pow10((hi - i - 1) as nat);
            assert(cur * (10 * p) + (d * p + digits_value(rest)) == (cur * 10 + d) * p
                + digits_value(rest)) by (nonlinear_arith);
            lemma_pow10_positive((hi - i - 1) as nat);
            assert((cur * 10 + d) * p >= cur * 10 + d) by (nonlinear_arith)
                requires
                    p >= 1,
            ;
        }
        if cur > (u128::MAX - d) / 10 {
            return None;
        }
        cur = cur * 10 + d;
        i = i + 1;
    }
    assert(s@.subrange(i as int, hi as int) =~= Seq::<char>::empty());
    assert(digits_value(s@.subrange(i as int, hi as int)) == 0);
    assert(pow10(0) == 1);
    assert(pow10((hi - i) as nat) == 1);
    let ghost p = pow10((hi - i) as nat);
    assert(cur * p == cur) by (nonlinear_arith)
        requires
            p == 1,
    ;
    assert(total == cur);
    Some(cur)
}

/// Position of the first `a` or `b` in `s[0..hi]`, or `hi`.
fn find_either(s: &str, hi: usize, a: char, b: char) -> (r: usize)
    requires
        hi <= s@.len(),
    ensures
        r == first_of(s@.subrange(0, hi as int), 0, a, b),
{
    let ghost m = s@.subrange(0, hi as int);
    let mut i: usize = 0;
    while i < hi
        invariant
            hi <= s@.len(),
            m == s@.subrange(0, hi as int),
            i <= hi,
            first_of(m, 0, a, b) == first_of(m, i as int, a, b),
        decreases hi - i,
    {
        let c = s.get_char(i);
        assert(m[i as int] == c);
        if c == a || c == b {
            return i;
        }
        i = i + 1;
    }
    i
}

/// Whether `s[lo..hi]` is all decimal digits.
fn check_digits(s: &str, lo: usize, hi: usize) -> (r: bool)
    requires
        lo <= hi <= s@.len(),
    ensures
        r == all_digits(s@.subrange(lo as int, hi as int)),
{
    let mut i: usize = lo;
    while i < hi
        invariant
            lo <= i <= hi <= s@.len(),
            forall|j: int| lo <= j < i ==> is_digit(#[trigger] s@[j]),
        decreases hi - i,
    {
        let c = s.get_char(i);
        if !('0' <= c && c <= '9') {
            assert(s@.subrange(lo as int, hi as int)[i - lo] == c);
            return false;
        }
        i = i + 1;
    }
    assert forall|j: int| 0 <= j < hi - lo implies is_digit(
        #[trigger] s@.subrange(lo as int, hi as int)[j],
    ) by {
        assert(s@.subrange(lo as int, hi as int)[j] == s@[lo + j]);
    }
    true
}

/// Ten to the `n`, or `None` when it exceeds 128 bits.
fn pow10_u128(n: u128) -> (r: Option<u128>)
    ensures
        match r {
            Some(x) => x == pow10(n as nat),
            None => !fits_u128(pow10(n as nat)),
        },
{
    let mut x: u128 = 1;
    let mut i: u128 = 0;
    while i < n
        invariant
            i <= n,
            x == pow10(i as nat),
        decreases n - i,
    {
        if x > u128::MAX / 10 {
            proof {
                lemma_pow10_add((i + 1) as nat, (n - i - 1) as nat);
                lemma_pow10_positive((n - i - 1) as nat);
                assert(pow10((i + 1) as nat) == 10 * x);
                let p = pow10((n - i - 1) as nat);
                assert(10 * x * p >= 10 * x) by (nonlinear_arith)
                    requires
                        p >= 1,
                ;
            }
            return None;
        }
        x = x * 10;
        i = i + 1;
    }
    Some(x)
}

/// Reads a decimal literal as the exact ratio of its digits over a power of
/// ten, scaled by its exponent: `1.5` is `15 / 10`, `2` is `2 / 1`, `25e-1`
/// is `25 / 10`.
#[verifier::rlimit(50)]
pub fn parse_number(s: &str) -> (r: Result<Ratio, NumberError>)
    ensures
        !well_formed_number(s@) <==> r == Err::<Ratio, NumberError>(NumberError::Malformed),
        well_formed_number(s@) ==> match r {
            Ok(q) => q.num == number_num(s@) && q.den == number_den(s@),
            Err(e) => (!fits_u128(number_num(s@)) || !fits_u128(number_den(s@))) && e == (
            NumberError::OutOfRange { zero: number_num(s@) == 0 }),
        },
{
    let ghost ss = s@;
    let n = s.unicode_len();
    let e = find_either(s, n, 'e', 'E');
    proof {
        assert(ss.subrange(0, n as int) =~= ss);
        lemma_first_of_bounds(ss, 0, 'e', 'E');
    }
    let ghost m = mantissa(ss);
    let d = find_either(s, e, '.', '.');
    proof {
        lemma_first_of_bounds(m, 0, '.', '.');
    }
    let frac_lo: usize = if d < e {
        d + 1
    } else {
        e
    };
    let exp_sign: bool = n - e > 1 && {
        let c = s.get_char(e + 1);
        c == '+' || c == '-'
    };
    let negative: bool = n - e > 1 && s.get_char(e + 1) == '-';
    let exp_lo: usize = if e == n {
        n
    } else if exp_sign {
        e + 2
    } else {
        e + 1
    };
    proof {
        assert(ss.subrange(0, d as int) =~= integer_part(m));
        assert(ss.subrange(frac_lo as int, e as int) =~= fraction_part(m));
        assert(ss.subrange(exp_lo as int, n as int) =~= exponent_digits(ss));
        assert(negative == exponent_negative(ss));
    }
    if d == 0 || !check_digits(s, 0, d) || !check_digits(s, frac_lo, e) {
        return Err(NumberError::Malformed);
    }
    if e < n && (exp_lo == n || !check_digits(s, exp_lo, n)) {
        return Err(NumberError::Malformed);
    }
    proof {
        if e == n {
            assert(exponent_digits(ss) =~= Seq::<char>::empty());
        }
    }
    let ghost ip = integer_part(m);
    let ghost fp = fraction_part(m);
    let ghost mv = digits_value(ip + fp);
    let ghost scale = exponent_scale(ss);
    proof {
        lemma_digits_concat(ip, fp);
        lemma_pow10_positive(fp.len());
        lemma_pow10_positive(digits_value(exponent_digits(ss)));
        assert(mv * 1 == mv && 1 * mv == mv);
        assert(mv * scale >= mv) by (nonlinear_arith)
            requires
                scale >= 1,
        ;
        assert(pow10(fp.len()) * scale >= pow10(fp.len())) by (nonlinear_arith)
            requires
                scale >= 1,
        ;
        assert(pow10(fp.len()) * 1 == pow10(fp.len()));
    }
    let int_value = match read_digits(s, 0, d, 0) {
        Some(x) => x,
        None => {
            proof {
                let a = digits_value(ip);
                let b = digits_value(fp);
                let p10 = pow10(fp.len());
                assert(a * p10 + b >= a) by (nonlinear_arith)
                    requires
                        p10 >= 1,
                ;
            }
            return Err(NumberError::OutOfRange { zero: false });
        },
    };
    let mnum = match read_digits(s, frac_lo, e, int_value) {
        Some(x) => x,
        None => {
            return Err(NumberError::OutOfRange { zero: false });
        },
    };
    let zero = mnum == 0;
    proof {
        assert(mv == 0 ==> mv * scale == 0);
        assert(mv >= 1 ==> mv * scale >= 1) by (nonlinear_arith)
            requires
                scale >= 1,
        ;
    }
    let den0 = match pow10_u128((e - frac_lo) as u128) {
        Some(x) => x,
        None => {
            return Err(NumberError::OutOfRange { zero });
        },
    };
    assert(mnum == mv);
    let exp_value = read_digits(s, exp_lo, n, 0);
    proof {
        assert(0 * pow10((n - exp_lo) as nat) == 0);
    }
    if !negative && mnum == 0 {
        assert(0 * scale == 0);
        return Ok(Ratio { num: 0, den: den0 });
    }
    let x = match exp_value {
        Some(x) => x,
        None => {
            proof {
                lemma_pow10_exceeds(digits_value(exponent_digits(ss)));
                assert(mv >= 1 ==> mv * scale >= scale) by (nonlinear_arith);
                assert(den0 * scale >= scale) by (nonlinear_arith)
                    requires
                        den0 >= 1,
                ;
            }
            return Err(NumberError::OutOfRange { zero });
        },
    };
    let p = match pow10_u128(x) {
        Some(p) => p,
        None => {
            proof {
                assert(mv >= 1 ==> mv * scale >= scale) by (nonlinear_arith);
                assert(den0 * scale >= scale) by (nonlinear_arith)
                    requires
                        den0 >= 1,
                ;
            }
            return Err(NumberError::OutOfRange { zero });
        },
    };
    if negative {
        match den0.checked_mul(p) {
            Some(den) => Ok(Ratio { num: mnum, den }),
            None => Err(NumberError::OutOfRange { zero }),
        }
    } else {
        match mnum.checked_mul(p) {
            Some(num) => Ok(Ratio { num, den: den0 }),
            None => Err(NumberError::OutOfRange { zero }),
        }
    }
}

} // verus!
