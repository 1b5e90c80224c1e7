//! Duration literals: a duration text with an optional `* n` or `/ n`
//! modifier, converted to whole seconds and nanoseconds.
//!
//! The modifier's number is read as an exact ratio and the scaled duration
//! is rounded to the nearest nanosecond (a half rounds up). Extreme
//! magnitudes are refused rather than widened: a non-zero duration is scaled
//! only where the product of its nanosecond count and the ratio's numerator,
//! and the ratio's denominator, fit in 128 bits.
//!
//! The duration text holds at most eleven decimal digits: humantime's parser
//! panics on some texts whose total reaches `u64::MAX` seconds, and with
//! eleven digits the total stays below a fifth of that.

use vstd::prelude::*;
use crate::error::{fails_with, matches_outcome, ErrorKind, Expected, LitError};
use crate::number::{
    is_digit, lemma_number_den_positive, number_den, number_num, parse_number, well_formed_number,
    NumberError, Ratio,
};
use crate::token::{is_number, is_operator, token_text, Token};

verus! {

/// What humantime's duration parser gives for a text: whole seconds and
/// nanoseconds, or its error message.
pub uninterp spec fn humantime_duration(s: Seq<char>) -> Result<(u64, u32), Seq<char>>;

/// How many decimal digits a text holds.
pub open spec fn digit_count(s: Seq<char>) -> nat
    decreases s.len(),
{
    if s.len() == 0 {
        0
    } else {
        digit_count(s.drop_last()) + if is_digit(s.last()) { 1nat } else { 0nat }
    }
}

/// The duration texts that are handed to the parser: at most eleven digits.
pub open spec fn bounded_duration_text(s: Seq<char>) -> bool {
    digit_count(s) <= 11
}

/// Decides `bounded_duration_text`.
pub fn duration_text_is_bounded(text: &str) -> (r: bool)
    ensures
        r == bounded_duration_text(text@),
{
    let n = text.unicode_len();
    let mut count: usize = 0;
    let mut i: usize = 0;
    while i < n
        invariant
            n == text@.len(),
            i <= n,
            count == digit_count(text@.subrange(0, i as int)),
            count <= 11,
        decreases n - i,
    {
        let c = text.get_char(i);
        assert(text@.subrange(0, i as int + 1).drop_last() =~= text@.subrange(0, i as int));
        assert(text@.subrange(0, i as int + 1).last() == c);
        if '0' <= c && c <= '9' {
            count = count + 1;
            if count > 11 {
                proof {
                    lemma_digit_count_prefix(text@, i as int + 1);
                }
                return false;
            }
        }
        i = i + 1;
    }
    assert(text@.subrange(0, n as int) =~= text@);
    true
}

/// A text holds at least as many digits as any of its prefixes.
proof fn lemma_digit_count_prefix(s: Seq<char>, i: int)
    requires
        0 <= i <= s.len(),
    ensures
        digit_count(s.subrange(0, i)) <= digit_count(s),
    decreases s.len() - i,
{
    if i < s.len() {
        lemma_digit_count_prefix(s, i + 1);
        assert(s.subrange(0, i + 1).drop_last() =~= s.subrange(0, i));
    } else {
        assert(s.subrange(0, i) =~= s);
    }
}

/// Relies on `humantime::parse_duration`, read through `Duration::as_secs`
/// and `Duration::subsec_nanos` (below one second), and on its error's
/// `Display`, whose every message is non-empty.
#[verifier::external_body]
fn parse_human_duration(s: &str) -> (r: Result<(u64, u32), String>)
    requires
        bounded_duration_text(s@),
    ensures
        match r {
            Ok(v) => humantime_duration(s@) == Ok::<(u64, u32), Seq<char>>(v) && v.1 < 1_000_000_000,
            Err(m) => humantime_duration(s@) == Err::<(u64, u32), Seq<char>>(m@) && m@.len() > 0,
        },
{
    match humantime::parse_duration(s) {
        Ok(d) => Ok((d.as_secs(), d.subsec_nanos())),
        Err(e) => Err(e.to_string()),
    }
}

pub open spec fn nanos_per_sec() -> nat {
    1_000_000_000
}

/// A duration as a count of nanoseconds.
pub open spec fn total_nanos(v: (u64, u32)) -> nat {
    v.0 as nat * nanos_per_sec() + v.1 as nat
}

/// Whether a count of nanoseconds has at most `u64::MAX` whole seconds.
pub open spec fn fits_duration(x: nat) -> bool {
    x / nanos_per_sec() <= u64::MAX
}

/// A count of nanoseconds as whole seconds and the nanoseconds left over.
pub open spec fn split_nanos(x: nat) -> (u64, u32) {
    ((x / nanos_per_sec()) as u64, (x % nanos_per_sec()) as u32)
}

/// `t * num / den`, rounded to the nearest integer, a half rounding up.
pub open spec fn scaled_nanos(t: nat, num: nat, den: nat) -> nat {
    let p = t * num;
    p / den + if 2 * (p % den) >= den { 1nat } else { 0nat }
}

/// A duration scaled by `num / den` (with `den > 0`). A zero duration stays
/// zero. Otherwise `None` when the product `t * num` or `den` exceeds 128 bits,
/// or the result leaves the range of a duration.
pub open spec fn scale_outcome(v: (u64, u32), num: nat, den: nat) -> Option<(u64, u32)> {
    let t = total_nanos(v);
    let x = scaled_nanos(t, num, den);
    if t == 0 {
        Some((0, 0))
    } else if t * num > u128::MAX || den > u128::MAX || !fits_duration(x) {
        None
    } else {
        Some(split_nanos(x))
    }
}

/// The operator of a modifier.
#[derive(Clone, Copy, Debug, PartialEq, Eq, Structural)]
pub enum Operator {
    Multiply,
    Divide,
}

/// A modifier `* number` or `/ number`; `number` holds the literal's base-10
/// digits, as a `Token` carries them.
#[derive(Debug)]
pub struct Modifier {
    pub op: Operator,
    pub number: String,
}

/// A modifier by its operator and the text of its number.
pub open spec fn modifier_view(m: Option<Modifier>) -> Option<(Operator, Seq<char>)> {
    match m {
        Some(m) => Some((m.op, m.number@)),
        None => None,
    }
}

/// The parsed input of a duration literal: the duration text, and the
/// modifier that follows it, if any.
#[derive(Debug)]
pub struct DurationMacroInput {
    pub duration: String,
    pub modifier: Option<Modifier>,
}

pub open spec fn operator_of(t: Token) -> Operator {
    if t == Token::Punct('*') {
        Operator::Multiply
    } else {
        Operator::Divide
    }
}

/// The grammar `string [ ('*' | '/') number ]`: the text and modifier, or
/// the kind and position of the first error. The number's magnitude is no
/// concern of the grammar.
pub open spec fn duration_input(tokens: Seq<Token>) -> Result<(Seq<char>, Option<(Operator, Seq<char>)>), (ErrorKind, nat)> {
    if tokens.len() == 0 || !(tokens[0] is Str) {
        Err((ErrorKind::Syntax(Expected::StringLiteral), 0))
    } else if tokens.len() == 1 {
        Ok((token_text(tokens[0]), None))
    } else if !is_operator(tokens[1]) {
        Err((ErrorKind::Syntax(Expected::MulOrDiv), 1))
    } else if tokens.len() == 2 || !is_number(tokens[2]) || !well_formed_number(
        token_text(tokens[2]),
    ) {
        Err((ErrorKind::Syntax(Expected::NumberLiteral), 2))
    } else if tokens.len() > 3 {
        Err((ErrorKind::Syntax(Expected::End), 3))
    } else {
        Ok((token_text(tokens[0]), Some((operator_of(tokens[1]), token_text(tokens[2])))))
    }
}

impl DurationMacroInput {
    /// Parses `string [ ('*' | '/') number ]`.
    pub fn parse(tokens: &Vec<Token>) -> (r: Result<DurationMacroInput, LitError>)
        ensures
            match duration_input(tokens@) {
                Ok((s, m)) => r matches Ok(d) && d.duration@ == s && modifier_view(d.modifier) == m,
                Err((k, p)) => fails_with(r, k, p, Seq::empty(), Seq::empty()),
            },
            tokens@.len() >= 2 && tokens@[0] is Str && !is_operator(tokens@[1]) ==> fails_with(
                r,
                ErrorKind::Syntax(Expected::MulOrDiv),
                1,
                Seq::empty(),
                Seq::empty(),
            ),
    {
        if tokens.len() == 0 {
            return Err(LitError::syntax(Expected::StringLiteral, 0));
        }
        let text = match &tokens[0] {
            Token::Str(s) => s,
            _ => {
                return Err(LitError::syntax(Expected::StringLiteral, 0));
            },
        };
        if tokens.len() == 1 {
            return Ok(DurationMacroInput { duration: text.clone(), modifier: None });
        }
        let op = match &tokens[1] {
            Token::Punct(c) => {
                if *c == '*' {
                    Operator::Multiply
                } else if *c == '/' {
                    Operator::Divide
                } else {
                    return Err(LitError::syntax(Expected::MulOrDiv, 1));
                }
            },
            _ => {
                return Err(LitError::syntax(Expected::MulOrDiv, 1));
            },
        };
        if tokens.len() == 2 {
            return Err(LitError::syntax(Expected::NumberLiteral, 2));
        }
        let digits = match &tokens[2] {
            Token::Int(s) => s,
            Token::Float(s) => s,
            _ => {
                return Err(LitError::syntax(Expected::NumberLiteral, 2));
            },
        };
        if let Err(NumberError::Malformed) = parse_number(digits.as_str()) {
            return Err(LitError::syntax(Expected::NumberLiteral, 2));
        }
        if tokens.len() > 3 {
            return Err(LitError::syntax(Expected::End, 3));
        }
        Ok(DurationMacroInput { duration: text.clone(), modifier: Some(Modifier { op, number: digits.clone() }) })
    }
}

/// Scales a duration by `scalar`, rounding to the nearest nanosecond.
pub fn scale_duration(v: (u64, u32), scalar: Ratio) -> (r: Option<(u64, u32)>)
    requires
        v.1 < 1_000_000_000,
        scalar.den > 0,
    ensures
        r == scale_outcome(v, scalar.num as nat, scalar.den as nat),
{
    let t: u128 = v.0 as u128 * 1_000_000_000 + v.1 as u128;
    assert(t == total_nanos(v));
    if t == 0 {
        return Some((0, 0));
    }
    let p = match t.checked_mul(scalar.num) {
        Some(p) => p,
        None => {
            return None;
        },
    };
    let den = scalar.den;
    let q = p / den;
    let rem = p % den;
    let x: u128 = if rem >= den - rem {
        assert(den >= 2);
        assert(q <= p / 2) by {
            vstd::arithmetic::div_mod::lemma_div_is_ordered_by_denominator(p as int, 2, den as int);
        }
        q + 1
    } else {
        q
    };
    assert(x == scaled_nanos(t as nat, scalar.num as nat, den as nat));
    if x / 1_000_000_000 > u64::MAX as u128 {
        return None;
    }
    Some(((x / 1_000_000_000) as u64, (x % 1_000_000_000) as u32))
}

/// The factor that a modifier scales by, as numerator and denominator: the
/// number itself after `*`, its reciprocal after `/`, one without modifier.
pub open spec fn modifier_ratio(m: Option<(Operator, Seq<char>)>) -> (nat, nat) {
    match m {
        None => (1, 1),
        Some((Operator::Multiply, n)) => (number_num(n), number_den(n)),
        Some((Operator::Divide, n)) => (number_den(n), number_num(n)),
    }
}

/// The cause given for a division by zero.
pub open spec fn non_finite_cause() -> Seq<char> {
    "division by zero gives a non-finite result"@
}

/// What converting the duration text `text` with the modifier `m` gives:
/// whole seconds and nanoseconds, or the error's kind and cause.
pub open spec fn duration_result(text: Seq<char>, m: Option<(Operator, Seq<char>)>) -> Result<(u64, u32), (ErrorKind, Seq<char>)> {
    match humantime_duration(text) {
        Err(c) => Err((ErrorKind::DurationParse, c)),
        Ok(v) => {
            let (num, den) = modifier_ratio(m);
            if den == 0 {
                Err((ErrorKind::NonFinite, non_finite_cause()))
            } else {
                match scale_outcome(v, num, den) {
                    Some(w) => Ok(w),
                    None => Err((ErrorKind::DurationOverflow, Seq::empty())),
                }
            }
        },
    }
}

/// Converts a duration text, scaled by the modifier, to whole seconds and
/// nanoseconds. Without a modifier the parser's value comes back as it is; a
/// rejected text carries the parser's non-empty message.
pub fn convert_duration(text: &str, modifier: &Option<Modifier>) -> (r: Result<(u64, u32), LitError>)
    requires
        bounded_duration_text(text@),
        modifier_view(*modifier) matches Some((_, n)) ==> well_formed_number(n),
    ensures
        matches_outcome(r, duration_result(text@, modifier_view(*modifier)), text@),
        humantime_duration(text@) matches Err(m) ==> m.len() > 0,
        modifier is None ==> match humantime_duration(text@) {
            Ok(v) => r == Ok::<(u64, u32), LitError>(v),
            Err(_) => r is Err,
        },
{
    let v = match parse_human_duration(text) {
        Ok(v) => v,
        Err(m) => {
            return Err(LitError::conversion(ErrorKind::DurationParse, text, m));
        },
    };
    proof {
        lemma_unit_scalar_keeps_duration(v);
    }
    let (op, digits) = match modifier {
        None => {
            return Ok(v);
        },
        Some(m) => (m.op, &m.number),
    };
    proof {
        lemma_number_den_positive(digits@);
    }
    let scalar = match parse_number(digits.as_str()) {
        Ok(q) => match op {
            Operator::Multiply => q,
            Operator::Divide => Ratio { num: q.den, den: q.num },
        },
        Err(NumberError::OutOfRange { zero }) => {
            if zero && op == Operator::Divide {
                return Err(LitError::conversion(ErrorKind::NonFinite, text, "division by zero gives a non-finite result".to_owned()));
            }
            if v.0 == 0 && v.1 == 0 {
                return Ok((0, 0));
            }
            proof {
                let (num, den) = modifier_ratio(modifier_view(*modifier));
                let t = total_nanos(v);
                assert(t >= 1);
                assert(t * num >= num) by (nonlinear_arith)
                    requires
                        t >= 1,
                ;
            }
            return Err(LitError::conversion(ErrorKind::DurationOverflow, text, String::new()));
        },
        Err(NumberError::Malformed) => {
            return Err(LitError::syntax(Expected::NumberLiteral, 2));
        },
    };
    if scalar.den == 0 {
        return Err(LitError::conversion(ErrorKind::NonFinite, text, "division by zero gives a non-finite result".to_owned()));
    }
    match scale_duration(v, scalar) {
        Some(w) => Ok(w),
        None => Err(LitError::conversion(ErrorKind::DurationOverflow, text, String::new())),
    }
}

/// Scaling by one gives the duration back unchanged.
pub proof fn lemma_unit_scalar_keeps_duration(v: (u64, u32))
    requires
        v.1 < 1_000_000_000,
    ensures
        scale_outcome(v, 1, 1) == Some(v),
{
    let t = total_nanos(v);
    if t == 0 {
        assert(v.0 == 0 && v.1 == 0);
        assert(v == (0u64, 0u32));
    }
    assert(t * 1 == t);
    assert(t / 1 == t && t % 1 == 0);
    assert(t / nanos_per_sec() == v.0 && t % nanos_per_sec() == v.1) by {
        vstd::arithmetic::div_mod::lemma_fundamental_div_mod_converse(
            t as int,
            nanos_per_sec() as int,
            v.0 as int,
            v.1 as int,
        );
    }
}

} // verus!

verus! {

/// Multiplying a duration by a whole number `k` gives `k` copies of it added
/// together, wherever that sum is still a duration.
pub proof fn lemma_multiply_is_repeated_sum(v: (u64, u32), k: nat)
    requires
        v.1 < 1_000_000_000,
        total_nanos(v) * k <= u128::MAX,
        fits_duration(total_nanos(v) * k),
    ensures
        scale_outcome(v, k, 1) matches Some(w) && total_nanos(w) == k * total_nanos(v),
{
    if total_nanos(v) == 0 {
        assert(k * 0 == 0);
        return;
    }
    let t = total_nanos(v) * k;
    assert(t / 1 == t && t % 1 == 0);
    assert(scaled_nanos(total_nanos(v), k, 1) == t);
    let w = split_nanos(t);
    assert(t == nanos_per_sec() * (t / nanos_per_sec()) + t % nanos_per_sec()) by {
        vstd::arithmetic::div_mod::lemma_fundamental_div_mod(t as int, nanos_per_sec() as int);
    }
    assert(total_nanos(w) == t);
    let tv = total_nanos(v);
    assert(k * tv == tv * k) by (nonlinear_arith);
}

/// Dividing by `k` undoes multiplying by `k`: scaling a duration by `k / 1`
/// and the result by `1 / k` gives the duration back.
pub proof fn lemma_divide_undoes_multiply(v: (u64, u32), k: nat)
    requires
        v.1 < 1_000_000_000,
        k > 0,
        scale_outcome(v, k, 1) is Some,
    ensures
        scale_outcome(v, k, 1) matches Some(w) && scale_outcome(w, 1, k) == Some(v),
{
    if total_nanos(v) == 0 {
        assert(v.0 == 0 && v.1 == 0);
        assert(v == (0u64, 0u32));
        return;
    }
    let tv = total_nanos(v);
    assert(tv * k >= k) by (nonlinear_arith)
        requires
            tv >= 1,
    ;
    let t = total_nanos(v) * k;
    assert(t / 1 == t && t % 1 == 0);
    assert(scaled_nanos(total_nanos(v), k, 1) == t);
    let w = split_nanos(t);
    assert(t == nanos_per_sec() * (t / nanos_per_sec()) + t % nanos_per_sec()) by {
        vstd::arithmetic::div_mod::lemma_fundamental_div_mod(t as int, nanos_per_sec() as int);
    }
    assert(total_nanos(w) == t);
    assert(total_nanos(w) * 1 == t);
    assert(t / k == total_nanos(v) && t % k == 0) by {
        vstd::arithmetic::div_mod::lemma_fundamental_div_mod_converse(
            t as int,
            k as int,
            total_nanos(v) as int,
            0,
        );
    }
    assert(scaled_nanos(total_nanos(w), 1, k) == total_nanos(v));
    assert(total_nanos(w) * 1 <= u128::MAX);
    lemma_unit_scalar_keeps_duration(v);
}

} // verus!
