//! Errors of every conversion, anchored to the token that caused them.

use vstd::prelude::*;

verus! {

/// The token that a malformed input lacked.
#[derive(Clone, Copy, Debug, PartialEq, Eq, Structural)]
pub enum Expected {
    /// A string literal.
    StringLiteral,
    /// The operator `*` or `/`.
    MulOrDiv,
    /// An integer or floating-point literal.
    NumberLiteral,
    /// The end of the input: a token followed a complete literal.
    End,
}

/// What went wrong.
#[derive(Clone, Copy, Debug, PartialEq, Eq, Structural)]
pub enum ErrorKind {
    /// The tokens do not follow the input grammar.
    Syntax(Expected),
    /// The duration parser rejected the text.
    DurationParse,
    /// The modifier divides by zero.
    NonFinite,
    /// The scaled duration leaves the range of a duration, or the modifier's
    /// exact ratio is beyond 128-bit arithmetic for a non-zero duration.
    DurationOverflow,
    /// The timestamp parser rejected the text.
    TimestampParse,
    /// The timestamp parser gave an instant before the Unix epoch.
    EpochUnderflow,
    /// The byte-size parser rejected the text.
    ByteSizeParse,
    /// The byte count `value` needs `needed` bits, more than the `bits`
    /// requested.
    ByteSizeOverflow { value: u64, bits: u32, needed: u32 },
}

/// An error, anchored to the token at `position` of the input; `text` is the
/// literal's text where one was read, `cause` the outside parser's message
/// where one was given (both empty otherwise).
#[derive(Debug)]
pub struct LitError {
    pub kind: ErrorKind,
    pub position: usize,
    pub text: String,
    pub cause: String,
}

impl LitError {
    pub open spec fn is(&self, kind: ErrorKind, position: nat, text: Seq<char>, cause: Seq<char>) -> bool {
        &&& self.kind == kind
        &&& self.position == position
        &&& self.text@ == text
        &&& self.cause@ == cause
    }

    /// A syntax error at the token `position`.
    pub fn syntax(expected: Expected, position: usize) -> (r: LitError)
        ensures
            r.is(ErrorKind::Syntax(expected), position as nat, Seq::empty(), Seq::empty()),
    {
        LitError { kind: ErrorKind::Syntax(expected), position, text: String::new(), cause: String::new() }
    }

    /// An error of `kind` on the literal `text`, which stands first in the input.
    pub fn conversion(kind: ErrorKind, text: &str, cause: String) -> (r: LitError)
        ensures
            r.is(kind, 0, text@, cause@),
    {
        LitError { kind, position: 0, text: text.to_owned(), cause }
    }
}

/// `r` is an error of `kind` at `position`, with `text` and `cause`.
pub open spec fn fails_with<T>(
    r: Result<T, LitError>,
    kind: ErrorKind,
    position: nat,
    text: Seq<char>,
    cause: Seq<char>,
) -> bool {
    r matches Err(e) && e.is(kind, position, text, cause)
}

/// `r` is the outcome `o` of a conversion of the literal `text`: its value,
/// or an error of the kind and cause that `o` gives, anchored to the literal.
pub open spec fn matches_outcome<T>(
    r: Result<T, LitError>,
    o: Result<T, (ErrorKind, Seq<char>)>,
    text: Seq<char>,
) -> bool {
    match o {
        Ok(v) => r matches Ok(w) && w == v,
        Err((k, c)) => fails_with(r, k, 0, text, c),
    }
}

} // verus!
