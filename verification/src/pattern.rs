//! The lexical patterns: for each category, a spec predicate saying exactly
//! which byte sequences are lexemes of that category.
//!
//! Every predicate speaks about a whole sequence `s`, understood as the exact
//! text of one candidate lexeme.  The classifier applies them to windows
//! `input[pos..end]` of the buffer and picks the longest match.

use vstd::prelude::*;

use crate::chars::is_digit;
use crate::chars::is_exp_mark;
use crate::chars::is_hex_digit;
use crate::chars::is_res_char;
use crate::chars::is_sig_char;
use crate::chars::is_sign;
use crate::chars::is_upper;
use crate::chars::is_upper_alnum;
use crate::token::Token;

verus! {

/// `[A-Z][A-Z0-9]*` — the shape of `StandardKeyword`, also the tail of the
/// other keyword-like categories.
pub open spec fn keyword_matches(s: Seq<u8>) -> bool {
    &&& s.len() >= 1
    &&& is_upper(s[0])
    &&& forall|j: int| 1 <= j < s.len() ==> is_upper_alnum(#[trigger] s[j])
}

/// `![A-Z][A-Z0-9]*` — `UserDefinedKeyword`.
pub open spec fn udk_matches(s: Seq<u8>) -> bool {
    &&& s.len() >= 2
    &&& s[0] == 0x21
    &&& is_upper(s[1])
    &&& forall|j: int| 2 <= j < s.len() ==> is_upper_alnum(#[trigger] s[j])
}

/// The index where the digits of a numeric lexeme begin: 1 after a leading
/// sign, else 0.
pub open spec fn num_start(s: Seq<u8>) -> int {
    if s.len() > 0 && is_sign(s[0]) {
        1
    } else {
        0
    }
}

/// `[+-]?[0-9]+` — `Integer`.
pub open spec fn int_matches(s: Seq<u8>) -> bool {
    &&& num_start(s) < s.len()
    &&& forall|j: int| num_start(s) <= j < s.len() ==> is_digit(#[trigger] s[j])
}

/// The optional exponent of a `Real`, starting at index `j`: `[eE][+-]?[0-9]+`
/// reaching exactly to the end of `s`.
pub open spec fn real_exp_shape(s: Seq<u8>, j: int) -> bool {
    &&& 0 <= j < s.len()
    &&& is_exp_mark(s[j])
    &&& {
        let b2 = if j + 1 < s.len() && is_sign(s[j + 1]) {
            j + 2
        } else {
            j + 1
        };
        &&& b2 < s.len()
        &&& forall|t: int| b2 <= t < s.len() ==> is_digit(#[trigger] s[t])
    }
}

/// One decomposition of `s` as a `Real`: the decimal point stands at `i`, the
/// fractional digits fill `(i, j)`, and `j` is either the end of `s` or the
/// start of an exponent that reaches the end.
pub open spec fn real_shape(s: Seq<u8>, i: int, j: int) -> bool {
    &&& num_start(s) < i
    &&& i + 1 < j <= s.len()
    &&& s[i] == 0x2e
    &&& forall|t: int| num_start(s) <= t < i ==> is_digit(#[trigger] s[t])
    &&& forall|t: int| i < t < j ==> is_digit(#[trigger] s[t])
    &&& (j == s.len() || real_exp_shape(s, j))
}

/// `[+-]?[0-9]+\.[0-9]+([eE][+-]?[0-9]+)?` — `Real`.
pub open spec fn real_matches(s: Seq<u8>) -> bool {
    exists|i: int, j: int| real_shape(s, i, j)
}

/// Where a single-quoted literal opened just before index `p` ends: the spec
/// scanner walks `s` below `lim`, treating a backslash and its following
/// character as one unit, and returns the index one past the terminating
/// quote, or `-1` if no unescaped quote arrives before `lim`.
pub open spec fn string_end(s: Seq<u8>, p: int, lim: int) -> int
    decreases lim - p,
{
    if p < 0 || p >= lim || lim > s.len() {
        -1
    } else if s[p] == 0x27 {
        p + 1
    } else if s[p] == 0x5c {
        if p + 1 >= lim {
            -1
        } else {
            string_end(s, p + 2, lim)
        }
    } else {
        string_end(s, p + 1, lim)
    }
}

/// `'([^'\\]|\\.)*'` — `String`: an opening quote whose matching unescaped
/// quote stands exactly at the end of `s`.
pub open spec fn string_matches(s: Seq<u8>) -> bool {
    &&& s.len() >= 2
    &&& s[0] == 0x27
    &&& string_end(s, 1, s.len() as int) == s.len()
}

/// `#[0-9]+` — `EntityInstanceName`.
pub open spec fn ein_matches(s: Seq<u8>) -> bool {
    &&& s.len() >= 2
    &&& s[0] == 0x23
    &&& forall|j: int| 1 <= j < s.len() ==> is_digit(#[trigger] s[j])
}

/// `@[0-9]+` — `ValueInstanceName`.
pub open spec fn vin_matches(s: Seq<u8>) -> bool {
    &&& s.len() >= 2
    &&& s[0] == 0x40
    &&& forall|j: int| 1 <= j < s.len() ==> is_digit(#[trigger] s[j])
}

/// `#[A-Z][A-Z0-9]*` — `ConstantEntityName`.
pub open spec fn cen_matches(s: Seq<u8>) -> bool {
    &&& s.len() >= 2
    &&& s[0] == 0x23
    &&& is_upper(s[1])
    &&& forall|j: int| 2 <= j < s.len() ==> is_upper_alnum(#[trigger] s[j])
}

/// `@[A-Z][A-Z0-9]*` — `ConstantValueName`.
pub open spec fn cvn_matches(s: Seq<u8>) -> bool {
    &&& s.len() >= 2
    &&& s[0] == 0x40
    &&& is_upper(s[1])
    &&& forall|j: int| 2 <= j < s.len() ==> is_upper_alnum(#[trigger] s[j])
}

/// `<` + a nonempty run of resource characters + `>` — `Resource`.
pub open spec fn res_matches(s: Seq<u8>) -> bool {
    &&& s.len() >= 3
    &&& s[0] == 0x3c
    &&& s[s.len() - 1] == 0x3e
    &&& forall|j: int| 1 <= j < s.len() - 1 ==> is_res_char(#[trigger] s[j])
}

/// `.[A-Z][A-Z0-9]*.` — `Enumeration`.
pub open spec fn enum_matches(s: Seq<u8>) -> bool {
    &&& s.len() >= 3
    &&& s[0] == 0x2e
    &&& is_upper(s[1])
    &&& s[s.len() - 1] == 0x2e
    &&& forall|j: int| 2 <= j < s.len() - 1 ==> is_upper_alnum(#[trigger] s[j])
}

/// `""` + hexadecimal digits + `""` — `Binary`.  (An optional leading width
/// digit `0`..`3` is itself a hexadecimal digit, so the interior is exactly a
/// possibly empty hexadecimal run.)
pub open spec fn bin_matches(s: Seq<u8>) -> bool {
    &&& s.len() >= 4
    &&& s[0] == 0x22
    &&& s[1] == 0x22
    &&& s[s.len() - 2] == 0x22
    &&& s[s.len() - 1] == 0x22
    &&& forall|j: int| 2 <= j < s.len() - 2 ==> is_hex_digit(#[trigger] s[j])
}

/// `[a-zA-Z0-9+/=]+` — `SignatureContent`.
pub open spec fn sig_matches(s: Seq<u8>) -> bool {
    &&& s.len() >= 1
    &&& forall|j: int| 0 <= j < s.len() ==> is_sig_char(#[trigger] s[j])
}

/// `s` is exactly one lexeme of category `k`.
pub open spec fn cat_matches(k: Token, s: Seq<u8>) -> bool {
    match k {
        Token::UserDefinedKeyword => udk_matches(s),
        Token::StandardKeyword => keyword_matches(s),
        Token::Integer => int_matches(s),
        Token::Real => real_matches(s),
        Token::String => string_matches(s),
        Token::EntityInstanceName => ein_matches(s),
        Token::ValueInstanceName => vin_matches(s),
        Token::ConstantEntityName => cen_matches(s),
        Token::ConstantValueName => cvn_matches(s),
        Token::Resource => res_matches(s),
        Token::Enumeration => enum_matches(s),
        Token::Binary => bin_matches(s),
        Token::SignatureContent => sig_matches(s),
    }
}

/// Wherever a window of the buffer starting at `p` reads as a `Real`, its
/// decimal point stands exactly where the buffer's leading digit run ends.
pub proof fn lemma_real_dot_at(i: Seq<u8>, p: int, e: int, b: int, d1: int, ii: int, jj: int)
    requires
        0 <= p < e <= i.len(),
        p <= b <= d1 <= i.len(),
        b == p + num_start(i.subrange(p, e)),
        forall|t: int| b <= t < d1 ==> is_digit(#[trigger] i[t]),
        d1 == i.len() || !is_digit(i[d1]),
        real_shape(i.subrange(p, e), ii, jj),
    ensures
        p + ii == d1,
        d1 < e,
        i[d1] == 0x2e,
{
    let w = i.subrange(p, e);
    if p + ii < d1 {
        assert(w[ii] == i[p + ii]);
        assert(is_digit(i[p + ii]));
    }
    if p + ii > d1 && d1 < i.len() {
        assert(w[d1 - p] == i[d1]);
        assert(is_digit(w[d1 - p]));
    }
    assert(w[ii] == i[p + ii]);
}

/// Wherever a window of the buffer starting at `p` reads as a `Real` whose
/// decimal point stands at `d1`, its fractional digits end exactly where the
/// buffer's digit run after the point ends — unless the window itself ends
/// first.
pub proof fn lemma_real_frac_end(i: Seq<u8>, p: int, e: int, d1: int, d2: int, ii: int, jj: int)
    requires
        0 <= p < e <= i.len(),
        real_shape(i.subrange(p, e), ii, jj),
        p + ii == d1,
        d1 + 1 <= d2 <= i.len(),
        forall|t: int| d1 + 1 <= t < d2 ==> is_digit(#[trigger] i[t]),
        d2 == i.len() || !is_digit(i[d2]),
    ensures
        p + jj == d2 || (jj == e - p && e <= d2),
{
    let w = i.subrange(p, e);
    if p + jj > d2 {
        assert(w[d2 - p] == i[d2]);
        assert(is_digit(w[d2 - p]));
    }
    if p + jj < d2 && jj < e - p {
        assert(w[jj] == i[p + jj]);
        assert(is_digit(i[p + jj]));
    }
}

/// Digits, a decimal point, and a nonempty fractional digit run make a
/// `Real` lexeme reaching the end of the fractional run.
pub proof fn lemma_real_base_match(i: Seq<u8>, p: int, b: int, d1: int, d2: int)
    requires
        0 <= p,
        p <= b < d1,
        d1 + 1 < d2 <= i.len(),
        b == p + num_start(i.subrange(p, d2)),
        forall|t: int| b <= t < d1 ==> is_digit(#[trigger] i[t]),
        i[d1] == 0x2e,
        forall|t: int| d1 + 1 <= t < d2 ==> is_digit(#[trigger] i[t]),
    ensures
        real_matches(i.subrange(p, d2)),
{
    let s = i.subrange(p, d2);
    assert(s[d1 - p] == i[d1]);
    assert forall|t: int| num_start(s) <= t < d1 - p implies is_digit(s[t]) by {
        assert(s[t] == i[p + t]);
    }
    assert forall|t: int| d1 - p < t < d2 - p implies is_digit(s[t]) by {
        assert(s[t] == i[p + t]);
    }
    assert(real_shape(s, d1 - p, d2 - p));
}

/// The scanner answers `-1` or an index inside `(p, lim]`.
pub proof fn lemma_string_end_bounds(s: Seq<u8>, p: int, lim: int)
    requires
        0 <= p,
        lim <= s.len(),
    ensures
        string_end(s, p, lim) == -1 || p < string_end(s, p, lim) <= lim,
    decreases lim - p,
{
    if p < lim {
        if s[p] == 0x27 {
        } else if s[p] == 0x5c {
            if p + 1 < lim {
                lemma_string_end_bounds(s, p + 2, lim);
            }
        } else {
            lemma_string_end_bounds(s, p + 1, lim);
        }
    }
}

/// Raising the limit keeps a found end; a scan that failed under the smaller
/// limit can only succeed past it.
pub proof fn lemma_string_end_limits(s: Seq<u8>, p: int, lim1: int, lim2: int)
    requires
        0 <= p,
        lim1 <= lim2 <= s.len(),
    ensures
        string_end(s, p, lim1) >= 0 ==> string_end(s, p, lim2) == string_end(s, p, lim1),
        string_end(s, p, lim1) == -1 ==> string_end(s, p, lim2) == -1 || string_end(s, p, lim2)
            > lim1,
    decreases lim2 - p,
{
    if p >= lim1 {
        lemma_string_end_bounds(s, p, lim2);
    } else {
        if s[p] == 0x27 {
        } else if s[p] == 0x5c {
            if p + 1 < lim1 {
                lemma_string_end_limits(s, p + 2, lim1, lim2);
            } else {
                if p + 1 < lim2 {
                    lemma_string_end_bounds(s, p + 2, lim2);
                }
            }
        } else {
            lemma_string_end_limits(s, p + 1, lim1, lim2);
        }
    }
}

/// Scanning a window of the buffer is the shifted scan of the buffer itself,
/// limited to the window's end.
pub proof fn lemma_string_end_shift(s: Seq<u8>, a: int, m: int, p: int)
    requires
        0 <= a,
        0 <= p <= m,
        a + m <= s.len(),
    ensures
        ({
            let e = string_end(s, a + p, a + m);
            let we = string_end(s.subrange(a, a + m), p, m);
            if e == -1 {
                we == -1
            } else {
                we == e - a
            }
        }),
    decreases m - p,
{
    let w = s.subrange(a, a + m);
    if p < m {
        assert(w[p] == s[a + p]);
        if s[a + p] == 0x27 {
        } else if s[a + p] == 0x5c {
            if p + 1 < m {
                lemma_string_end_shift(s, a, m, p + 2);
            }
        } else {
            lemma_string_end_shift(s, a, m, p + 1);
        }
    }
}

/// A quote never closed before the end of the buffer opens no `String`
/// lexeme, whatever window is tried.
pub proof fn lemma_string_unterminated(i: Seq<u8>, p: int)
    requires
        0 <= p < i.len(),
        i[p] == 0x27,
        string_end(i, p + 1, i.len() as int) == -1,
    ensures
        forall|e: int| p < e <= i.len() ==> !string_matches(#[trigger] i.subrange(p, e)),
{
    assert forall|e: int| p < e <= i.len() implies !string_matches(i.subrange(p, e)) by {
        if e - p >= 2 {
            lemma_string_end_shift(i, p, e - p, 1);
            lemma_string_end_limits(i, p + 1, e, i.len() as int);
        }
    }
}

/// A quote closed at `q` marks the one `String` lexeme starting at `p`: the
/// window up to `q + 1` is a lexeme and no longer window is.
pub proof fn lemma_string_terminated(i: Seq<u8>, p: int, q: int)
    requires
        0 <= p,
        p + 1 <= q < i.len(),
        i[p] == 0x27,
        string_end(i, p + 1, i.len() as int) == q + 1,
    ensures
        string_matches(i.subrange(p, q + 1)),
        forall|e: int| q + 1 < e <= i.len() ==> !string_matches(#[trigger] i.subrange(p, e)),
{
    let s = i.subrange(p, q + 1);
    assert(s[0] == i[p]);
    lemma_string_end_shift(i, p, q + 1 - p, 1);
    lemma_string_end_limits(i, p + 1, q + 1, i.len() as int);
    lemma_string_end_bounds(i, p + 1, q + 1);
    assert(string_end(i, p + 1, q + 1) == q + 1);
    assert(i.subrange(p, p + (q + 1 - p)) == s);
    assert(string_end(s, 1, q + 1 - p) == q + 1 - p);
    assert(string_matches(s));
    assert forall|e: int| q + 1 < e <= i.len() implies !string_matches(i.subrange(p, e)) by {
        lemma_string_end_shift(i, p, e - p, 1);
        lemma_string_end_limits(i, p + 1, e, i.len() as int);
    }
}

/// No byte sequence is a lexeme of two categories at once, except that a
/// `SignatureContent` lexeme may also read as an `Integer` or as a
/// `StandardKeyword` — the two elevated-priority categories.  Every other
/// pair of categories is told apart by its leading bytes (or, for
/// `Integer` versus `Real`, by the decimal point).
pub proof fn lemma_overlap(s: Seq<u8>, k1: Token, k2: Token)
    requires
        cat_matches(k1, s),
        cat_matches(k2, s),
        k1 != k2,
    ensures
        (k1 == Token::SignatureContent && (k2 == Token::Integer || k2 == Token::StandardKeyword))
            || (k2 == Token::SignatureContent && (k1 == Token::Integer
            || k1 == Token::StandardKeyword)),
{
    if real_matches(s) {
        let (i, j) = choose|i: int, j: int| real_shape(s, i, j);
        assert(real_shape(s, i, j));
        assert(s[i] == 0x2e);
        assert(!int_matches(s));
        assert(!sig_matches(s));
    }
}

/// Every lexeme is nonempty.
pub proof fn lemma_lexeme_nonempty(k: Token, s: Seq<u8>)
    requires
        cat_matches(k, s),
    ensures
        s.len() >= 1,
{
    if real_matches(s) {
        let (i, j) = choose|i: int, j: int| real_shape(s, i, j);
        assert(real_shape(s, i, j));
    }
}

} // verus!
