//! The closed set of lexical categories, the lexical error, and the
//! disambiguation priority among categories.

use vstd::prelude::*;

verus! {

/// A lexical category of the STEP physical-file syntax.  Each variant names
/// the shape of the lexemes it classifies; the exact patterns are the spec
/// predicates in `pattern`.
#[derive(Debug, Clone, Copy, PartialEq, Eq, Structural)]
pub enum Token {
    /// `!` followed by an uppercase alphanumeric identifier.
    UserDefinedKeyword,
    /// An uppercase alphanumeric identifier.
    StandardKeyword,
    /// An optional sign followed by a digit run.
    Integer,
    /// A signed decimal number with a mandatory fractional part and an
    /// optional exponent.
    Real,
    /// A single-quoted literal; a backslash escapes the following character.
    String,
    /// `#` followed by a digit run.
    EntityInstanceName,
    /// `@` followed by a digit run.
    ValueInstanceName,
    /// `#` followed by an uppercase alphanumeric identifier.
    ConstantEntityName,
    /// `@` followed by an uppercase alphanumeric identifier.
    ConstantValueName,
    /// `<` ... `>` around a nonempty run drawn from a URI-like character set.
    Resource,
    /// `.` + uppercase alphanumeric identifier + `.`.
    Enumeration,
    /// `""` + hexadecimal digits + `""`.
    Binary,
    /// A nonempty run of base64-alphabet characters; the lowest-priority
    /// catch-all.
    SignatureContent,
}

/// The single kind of lexical error: no category matches at the carried byte
/// offset.  The offset makes the failure locatable; the stream continues past
/// it.
#[derive(Debug, Clone, Copy, PartialEq, Eq, Structural)]
pub enum LexicalError {
    NoMatch(usize),
}

/// The disambiguation rank applied when several categories match the same
/// maximal lexeme.  `Integer` and `StandardKeyword` are elevated above the
/// categories they can tie with; `SignatureContent`, whose character class
/// overlaps nearly everything, ranks below all others; the remaining
/// categories share the default rank and never tie with one another.
pub open spec fn priority(k: Token) -> int {
    match k {
        Token::Integer => 3,
        Token::StandardKeyword => 3,
        Token::SignatureContent => 1,
        _ => 2,
    }
}

} // verus!
