//! Byte classes of the lexical grammar.
//!
//! All patterns of the syntax are pure ASCII, so the classes are predicates
//! on single bytes of the input buffer, written with their ASCII codes.
//! Bytes outside ASCII belong to no class and can only appear inside a
//! `String` lexeme or surface as lexical errors.

use vstd::prelude::*;

verus! {

/// Insignificant whitespace between tokens: space, tab, newline, form feed.
pub open spec fn is_ws(c: u8) -> bool {
    c == 0x20 || c == 0x09 || c == 0x0a || c == 0x0c
}

/// An uppercase letter `A`..`Z`.
pub open spec fn is_upper(c: u8) -> bool {
    0x41 <= c && c <= 0x5a
}

/// A lowercase letter `a`..`z`.
pub open spec fn is_lower(c: u8) -> bool {
    0x61 <= c && c <= 0x7a
}

/// A decimal digit `0`..`9`.
pub open spec fn is_digit(c: u8) -> bool {
    0x30 <= c && c <= 0x39
}

/// A character of an identifier after its leading letter.
pub open spec fn is_upper_alnum(c: u8) -> bool {
    is_upper(c) || is_digit(c)
}

/// A numeric sign, `+` or `-`.
pub open spec fn is_sign(c: u8) -> bool {
    c == 0x2b || c == 0x2d
}

/// The exponent marker of a `Real`, `e` or `E`.
pub open spec fn is_exp_mark(c: u8) -> bool {
    c == 0x65 || c == 0x45
}

/// An uppercase hexadecimal digit, as allowed inside a `Binary` lexeme.
pub open spec fn is_hex_digit(c: u8) -> bool {
    is_digit(c) || (0x41 <= c && c <= 0x46)
}

/// A character of the base64 alphabet (`+`, `/`, `=`, letters, digits), the
/// class of `SignatureContent`.
pub open spec fn is_sig_char(c: u8) -> bool {
    is_lower(c) || is_upper(c) || is_digit(c) || c == 0x2b || c == 0x2f || c == 0x3d
}

/// A character allowed between the angle brackets of a `Resource`:
/// letters, digits, and `: / ? # [ ] @ ! $ & ' ( ) * + , ; = . % -`.
pub open spec fn is_res_char(c: u8) -> bool {
    is_lower(c) || is_upper(c) || is_digit(c) || c == 0x3a || c == 0x2f || c == 0x3f || c == 0x23
        || c == 0x5b || c == 0x5d || c == 0x40 || c == 0x21 || c == 0x24 || c == 0x26 || c == 0x27
        || c == 0x28 || c == 0x29 || c == 0x2a || c == 0x2b || c == 0x2c || c == 0x3b || c == 0x3d
        || c == 0x2e || c == 0x25 || c == 0x2d
}

} // verus!
