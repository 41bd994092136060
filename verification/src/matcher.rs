//! Maximal match lengths, category by category.
//!
//! For each category there is a function that, given the buffer and a start
//! offset, returns the length of the longest lexeme of that category starting
//! there (`0` if none).  Each carries the same two-part contract: a positive
//! result marks a lexeme, and no window reaching past the result is one.

use vstd::prelude::*;

use crate::chars::is_digit;
use crate::chars::is_hex_digit;
use crate::chars::is_res_char;
use crate::chars::is_sig_char;
use crate::chars::is_upper_alnum;
use crate::pattern::bin_matches;
use crate::pattern::cen_matches;
use crate::pattern::cvn_matches;
use crate::pattern::ein_matches;
use crate::pattern::enum_matches;
use crate::pattern::int_matches;
use crate::pattern::keyword_matches;
use crate::pattern::lemma_real_base_match;
use crate::pattern::lemma_real_dot_at;
use crate::pattern::lemma_real_frac_end;
use crate::pattern::lemma_string_terminated;
use crate::pattern::lemma_string_unterminated;
use crate::pattern::num_start;
use crate::pattern::real_exp_shape;
use crate::pattern::real_matches;
use crate::pattern::real_shape;
use crate::pattern::res_matches;
use crate::pattern::sig_matches;
use crate::pattern::string_end;
use crate::pattern::string_matches;
use crate::pattern::udk_matches;
use crate::pattern::vin_matches;

verus! {

/// First index at or after `from` holding a byte that is not a decimal digit.
pub(crate) fn scan_digits(input: &[u8], from: usize) -> (r: usize)
    requires
        from <= input@.len(),
    ensures
        from <= r <= input@.len(),
        forall|j: int| from <= j < r ==> is_digit(#[trigger] input@[j]),
        r < input@.len() ==> !is_digit(input@[r as int]),
{
    let mut q = from;
    while q < input.len() && 0x30 <= input[q] && input[q] <= 0x39
        invariant
            from <= q <= input@.len(),
            forall|j: int| from <= j < q ==> is_digit(#[trigger] input@[j]),
        decreases input@.len() - q,
    {
        q = q + 1;
    }
    q
}

/// First index at or after `from` holding a byte that is neither an uppercase
/// letter nor a digit.
pub(crate) fn scan_upper_alnum(input: &[u8], from: usize) -> (r: usize)
    requires
        from <= input@.len(),
    ensures
        from <= r <= input@.len(),
        forall|j: int| from <= j < r ==> is_upper_alnum(#[trigger] input@[j]),
        r < input@.len() ==> !is_upper_alnum(input@[r as int]),
{
    let mut q = from;
    while q < input.len() && ((0x41 <= input[q] && input[q] <= 0x5a) || (0x30 <= input[q]
        && input[q] <= 0x39))
        invariant
            from <= q <= input@.len(),
            forall|j: int| from <= j < q ==> is_upper_alnum(#[trigger] input@[j]),
        decreases input@.len() - q,
    {
        q = q + 1;
    }
    q
}

/// First index at or after `from` holding a byte outside the base64 alphabet.
pub(crate) fn scan_sig(input: &[u8], from: usize) -> (r: usize)
    requires
        from <= input@.len(),
    ensures
        from <= r <= input@.len(),
        forall|j: int| from <= j < r ==> is_sig_char(#[trigger] input@[j]),
        r < input@.len() ==> !is_sig_char(input@[r as int]),
{
    let mut q = from;
    while q < input.len() && ((0x61 <= input[q] && input[q] <= 0x7a) || (0x41 <= input[q]
        && input[q] <= 0x5a) || (0x30 <= input[q] && input[q] <= 0x39) || input[q] == 0x2b
        || input[q] == 0x2f || input[q] == 0x3d)
        invariant
            from <= q <= input@.len(),
            forall|j: int| from <= j < q ==> is_sig_char(#[trigger] input@[j]),
        decreases input@.len() - q,
    {
        q = q + 1;
    }
    q
}

/// Whether `c` may stand between the angle brackets of a `Resource`.
fn res_char(c: u8) -> (r: bool)
    ensures
        r == is_res_char(c),
{
    (0x61 <= c && c <= 0x7a) || (0x41 <= c && c <= 0x5a) || (0x30 <= c && c <= 0x39) || c == 0x3a
        || c == 0x2f || c == 0x3f || c == 0x23 || c == 0x5b || c == 0x5d || c == 0x40 || c == 0x21
        || c == 0x24 || c == 0x26 || c == 0x27 || c == 0x28 || c == 0x29 || c == 0x2a || c == 0x2b
        || c == 0x2c || c == 0x3b || c == 0x3d || c == 0x2e || c == 0x25 || c == 0x2d
}

/// First index at or after `from` holding a byte outside the `Resource`
/// interior class.
pub(crate) fn scan_res(input: &[u8], from: usize) -> (r: usize)
    requires
        from <= input@.len(),
    ensures
        from <= r <= input@.len(),
        forall|j: int| from <= j < r ==> is_res_char(#[trigger] input@[j]),
        r < input@.len() ==> !is_res_char(input@[r as int]),
{
    let mut q = from;
    loop
        invariant
            from <= q <= input@.len(),
            forall|j: int| from <= j < q ==> is_res_char(#[trigger] input@[j]),
        decreases input@.len() - q,
    {
        if q >= input.len() {
            return q;
        }
        if !res_char(input[q]) {
            return q;
        }
        q = q + 1;
    }
}

/// First index at or after `from` holding a byte that is not an uppercase
/// hexadecimal digit.
pub(crate) fn scan_hex(input: &[u8], from: usize) -> (r: usize)
    requires
        from <= input@.len(),
    ensures
        from <= r <= input@.len(),
        forall|j: int| from <= j < r ==> is_hex_digit(#[trigger] input@[j]),
        r < input@.len() ==> !is_hex_digit(input@[r as int]),
{
    let mut q = from;
    while q < input.len() && ((0x30 <= input[q] && input[q] <= 0x39) || (0x41 <= input[q]
        && input[q] <= 0x46))
        invariant
            from <= q <= input@.len(),
            forall|j: int| from <= j < q ==> is_hex_digit(#[trigger] input@[j]),
        decreases input@.len() - q,
    {
        q = q + 1;
    }
    q
}

/// Longest `StandardKeyword` lexeme starting at `pos`.
pub(crate) fn sk_len(input: &[u8], pos: usize) -> (n: usize)
    requires
        pos < input@.len(),
    ensures
        n > 0 ==> (pos as int + n as int) <= input@.len() && keyword_matches(
            input@.subrange(pos as int, pos as int + n as int),
        ),
        forall|e: int| (pos as int + n as int) < e && e <= input@.len() ==> !keyword_matches(
            #[trigger] input@.subrange(pos as int, e),
        ),
{
    let ghost i = input@;
    let ghost p = pos as int;
    if 0x41 <= input[pos] && input[pos] <= 0x5a {
        let r = scan_upper_alnum(input, pos + 1);
        let n = r - pos;
        proof {
            let s = i.subrange(p, p + n);
            assert(s[0] == i[p]);
            assert forall|j: int| 1 <= j < s.len() implies is_upper_alnum(s[j]) by {
                assert(s[j] == i[p + j]);
            }
            assert(keyword_matches(s));
            assert forall|e: int| p + n < e && e <= i.len() implies !keyword_matches(
                i.subrange(p, e),
            ) by {
                let w = i.subrange(p, e);
                assert(w[p + n - p] == i[p + n]);
            }
        }
        n
    } else {
        proof {
            assert forall|e: int| p < e && e <= i.len() implies !keyword_matches(
                i.subrange(p, e),
            ) by {
                let w = i.subrange(p, e);
                assert(w[0] == i[p]);
            }
        }
        0
    }
}

/// Longest `UserDefinedKeyword` lexeme starting at `pos`.
pub(crate) fn udk_len(input: &[u8], pos: usize) -> (n: usize)
    requires
        pos < input@.len(),
    ensures
        n > 0 ==> (pos as int + n as int) <= input@.len() && udk_matches(
            input@.subrange(pos as int, pos as int + n as int),
        ),
        forall|e: int| (pos as int + n as int) < e && e <= input@.len() ==> !udk_matches(
            #[trigger] input@.subrange(pos as int, e),
        ),
{
    let ghost i = input@;
    let ghost p = pos as int;
    if input[pos] == 0x21 && pos + 1 < input.len() && 0x41 <= input[pos + 1] && input[pos + 1]
        <= 0x5a {
        let r = scan_upper_alnum(input, pos + 2);
        let n = r - pos;
        proof {
            let s = i.subrange(p, p + n);
            assert(s[0] == i[p]);
            assert(s[1] == i[p + 1]);
            assert forall|j: int| 2 <= j < s.len() implies is_upper_alnum(s[j]) by {
                assert(s[j] == i[p + j]);
            }
            assert(udk_matches(s));
            assert forall|e: int| p + n < e && e <= i.len() implies !udk_matches(
                i.subrange(p, e),
            ) by {
                let w = i.subrange(p, e);
                assert(w[p + n - p] == i[p + n]);
            }
        }
        n
    } else {
        proof {
            assert forall|e: int| p < e && e <= i.len() implies !udk_matches(
                i.subrange(p, e),
            ) by {
                let w = i.subrange(p, e);
                assert(w[0] == i[p]);
                if e - p >= 2 {
                    assert(w[1] == i[p + 1]);
                }
            }
        }
        0
    }
}

/// Longest `Integer` lexeme starting at `pos`.
pub(crate) fn int_len(input: &[u8], pos: usize) -> (n: usize)
    requires
        pos < input@.len(),
    ensures
        n > 0 ==> (pos as int + n as int) <= input@.len() && int_matches(
            input@.subrange(pos as int, pos as int + n as int),
        ),
        forall|e: int| (pos as int + n as int) < e && e <= input@.len() ==> !int_matches(
            #[trigger] input@.subrange(pos as int, e),
        ),
{
    let ghost i = input@;
    let ghost p = pos as int;
    let b = if input[pos] == 0x2b || input[pos] == 0x2d {
        pos + 1
    } else {
        pos
    };
    let r = scan_digits(input, b);
    if r == b {
        proof {
            assert forall|e: int| p < e && e <= i.len() implies !int_matches(
                i.subrange(p, e),
            ) by {
                let w = i.subrange(p, e);
                assert(w[0] == i[p]);
                assert(num_start(w) == b - p);
                if num_start(w) < e - p {
                    assert(w[b - p] == i[b as int]);
                }
            }
        }
        0
    } else {
        let n = r - pos;
        proof {
            let s = i.subrange(p, p + n);
            assert(s[0] == i[p]);
            assert(num_start(s) == b - p);
            assert forall|j: int| num_start(s) <= j < s.len() implies is_digit(s[j]) by {
                assert(s[j] == i[p + j]);
            }
            assert(int_matches(s));
            assert forall|e: int| p + n < e && e <= i.len() implies !int_matches(
                i.subrange(p, e),
            ) by {
                let w = i.subrange(p, e);
                assert(w[0] == i[p]);
                assert(num_start(w) == b - p);
                assert(w[p + n - p] == i[p + n]);
            }
        }
        n
    }
}

/// Longest `EntityInstanceName` lexeme starting at `pos`.
pub(crate) fn ein_len(input: &[u8], pos: usize) -> (n: usize)
    requires
        pos < input@.len(),
    ensures
        n > 0 ==> (pos as int + n as int) <= input@.len() && ein_matches(
            input@.subrange(pos as int, pos as int + n as int),
        ),
        forall|e: int| (pos as int + n as int) < e && e <= input@.len() ==> !ein_matches(
            #[trigger] input@.subrange(pos as int, e),
        ),
{
    let ghost i = input@;
    let ghost p = pos as int;
    if input[pos] == 0x23 {
        let r = scan_digits(input, pos + 1);
        if r == pos + 1 {
            proof {
                assert forall|e: int| p < e && e <= i.len() implies !ein_matches(
                    i.subrange(p, e),
                ) by {
                    let w = i.subrange(p, e);
                    if e - p >= 2 {
                        assert(w[1] == i[p + 1]);
                    }
                }
            }
            0
        } else {
            let n = r - pos;
            proof {
                let s = i.subrange(p, p + n);
                assert(s[0] == i[p]);
                assert forall|j: int| 1 <= j < s.len() implies is_digit(s[j]) by {
                    assert(s[j] == i[p + j]);
                }
                assert(ein_matches(s));
                assert forall|e: int| p + n < e && e <= i.len() implies !ein_matches(
                    i.subrange(p, e),
                ) by {
                    let w = i.subrange(p, e);
                    assert(w[p + n - p] == i[p + n]);
                }
            }
            n
        }
    } else {
        proof {
            assert forall|e: int| p < e && e <= i.len() implies !ein_matches(
                i.subrange(p, e),
            ) by {
                let w = i.subrange(p, e);
                assert(w[0] == i[p]);
            }
        }
        0
    }
}

/// Longest `ValueInstanceName` lexeme starting at `pos`.
pub(crate) fn vin_len(input: &[u8], pos: usize) -> (n: usize)
    requires
        pos < input@.len(),
    ensures
        n > 0 ==> (pos as int + n as int) <= input@.len() && vin_matches(
            input@.subrange(pos as int, pos as int + n as int),
        ),
        forall|e: int| (pos as int + n as int) < e && e <= input@.len() ==> !vin_matches(
            #[trigger] input@.subrange(pos as int, e),
        ),
{
    let ghost i = input@;
    let ghost p = pos as int;
    if input[pos] == 0x40 {
        let r = scan_digits(input, pos + 1);
        if r == pos + 1 {
            proof {
                assert forall|e: int| p < e && e <= i.len() implies !vin_matches(
                    i.subrange(p, e),
                ) by {
                    let w = i.subrange(p, e);
                    if e - p >= 2 {
                        assert(w[1] == i[p + 1]);
                    }
                }
            }
            0
        } else {
            let n = r - pos;
            proof {
                let s = i.subrange(p, p + n);
                assert(s[0] == i[p]);
                assert forall|j: int| 1 <= j < s.len() implies is_digit(s[j]) by {
                    assert(s[j] == i[p + j]);
                }
                assert(vin_matches(s));
                assert forall|e: int| p + n < e && e <= i.len() implies !vin_matches(
                    i.subrange(p, e),
                ) by {
                    let w = i.subrange(p, e);
                    assert(w[p + n - p] == i[p + n]);
                }
            }
            n
        }
    } else {
        proof {
            assert forall|e: int| p < e && e <= i.len() implies !vin_matches(
                i.subrange(p, e),
            ) by {
                let w = i.subrange(p, e);
                assert(w[0] == i[p]);
            }
        }
        0
    }
}

/// Longest `ConstantEntityName` lexeme starting at `pos`.
pub(crate) fn cen_len(input: &[u8], pos: usize) -> (n: usize)
    requires
        pos < input@.len(),
    ensures
        n > 0 ==> (pos as int + n as int) <= input@.len() && cen_matches(
            input@.subrange(pos as int, pos as int + n as int),
        ),
        forall|e: int| (pos as int + n as int) < e && e <= input@.len() ==> !cen_matches(
            #[trigger] input@.subrange(pos as int, e),
        ),
{
    let ghost i = input@;
    let ghost p = pos as int;
    if input[pos] == 0x23 && pos + 1 < input.len() && 0x41 <= input[pos + 1] && input[pos + 1]
        <= 0x5a {
        let r = scan_upper_alnum(input, pos + 2);
        let n = r - pos;
        proof {
            let s = i.subrange(p, p + n);
            assert(s[0] == i[p]);
            assert(s[1] == i[p + 1]);
            assert forall|j: int| 2 <= j < s.len() implies is_upper_alnum(s[j]) by {
                assert(s[j] == i[p + j]);
            }
            assert(cen_matches(s));
            assert forall|e: int| p + n < e && e <= i.len() implies !cen_matches(
                i.subrange(p, e),
            ) by {
                let w = i.subrange(p, e);
                assert(w[p + n - p] == i[p + n]);
            }
        }
        n
    } else {
        proof {
            assert forall|e: int| p < e && e <= i.len() implies !cen_matches(
                i.subrange(p, e),
            ) by {
                let w = i.subrange(p, e);
                assert(w[0] == i[p]);
                if e - p >= 2 {
                    assert(w[1] == i[p + 1]);
                }
            }
        }
        0
    }
}

/// Longest `ConstantValueName` lexeme starting at `pos`.
pub(crate) fn cvn_len(input: &[u8], pos: usize) -> (n: usize)
    requires
        pos < input@.len(),
    ensures
        n > 0 ==> (pos as int + n as int) <= input@.len() && cvn_matches(
            input@.subrange(pos as int, pos as int + n as int),
        ),
        forall|e: int| (pos as int + n as int) < e && e <= input@.len() ==> !cvn_matches(
            #[trigger] input@.subrange(pos as int, e),
        ),
{
    let ghost i = input@;
    let ghost p = pos as int;
    if input[pos] == 0x40 && pos + 1 < input.len() && 0x41 <= input[pos + 1] && input[pos + 1]
        <= 0x5a {
        let r = scan_upper_alnum(input, pos + 2);
        let n = r - pos;
        proof {
            let s = i.subrange(p, p + n);
            assert(s[0] == i[p]);
            assert(s[1] == i[p + 1]);
            assert forall|j: int| 2 <= j < s.len() implies is_upper_alnum(s[j]) by {
                assert(s[j] == i[p + j]);
            }
            assert(cvn_matches(s));
            assert forall|e: int| p + n < e && e <= i.len() implies !cvn_matches(
                i.subrange(p, e),
            ) by {
                let w = i.subrange(p, e);
                assert(w[p + n - p] == i[p + n]);
            }
        }
        n
    } else {
        proof {
            assert forall|e: int| p < e && e <= i.len() implies !cvn_matches(
                i.subrange(p, e),
            ) by {
                let w = i.subrange(p, e);
                assert(w[0] == i[p]);
                if e - p >= 2 {
                    assert(w[1] == i[p + 1]);
                }
            }
        }
        0
    }
}

/// Longest `Resource` lexeme starting at `pos`.
pub(crate) fn res_len(input: &[u8], pos: usize) -> (n: usize)
    requires
        pos < input@.len(),
    ensures
        n > 0 ==> (pos as int + n as int) <= input@.len() && res_matches(
            input@.subrange(pos as int, pos as int + n as int),
        ),
        forall|e: int| (pos as int + n as int) < e && e <= input@.len() ==> !res_matches(
            #[trigger] input@.subrange(pos as int, e),
        ),
{
    let ghost i = input@;
    let ghost p = pos as int;
    if input[pos] == 0x3c {
        let r = scan_res(input, pos + 1);
        if r > pos + 1 && r < input.len() && input[r] == 0x3e {
            let n = r + 1 - pos;
            proof {
                let s = i.subrange(p, p + n);
                assert(s[0] == i[p]);
                assert(s[s.len() - 1] == i[r as int]);
                assert forall|j: int| 1 <= j < s.len() - 1 implies is_res_char(s[j]) by {
                    assert(s[j] == i[p + j]);
                }
                assert(res_matches(s));
                assert forall|e: int| p + n < e && e <= i.len() implies !res_matches(
                    i.subrange(p, e),
                ) by {
                    let w = i.subrange(p, e);
                    // the closing angle bracket is inside the longer window's
                    // interior, and it is not a resource character
                    assert(w[r - p] == i[r as int]);
                }
            }
            n
        } else {
            proof {
                assert forall|e: int| p < e && e <= i.len() implies !res_matches(
                    i.subrange(p, e),
                ) by {
                    let w = i.subrange(p, e);
                    assert(w[e - p - 1] == i[e - 1]);
                    if e - 1 > r {
                        assert(w[r - p] == i[r as int]);
                    }
                    if r == p + 1 && e - p >= 3 {
                        assert(w[1] == i[p + 1]);
                    }
                }
            }
            0
        }
    } else {
        proof {
            assert forall|e: int| p < e && e <= i.len() implies !res_matches(
                i.subrange(p, e),
            ) by {
                let w = i.subrange(p, e);
                assert(w[0] == i[p]);
            }
        }
        0
    }
}

/// Longest `Enumeration` lexeme starting at `pos`.
pub(crate) fn enum_len(input: &[u8], pos: usize) -> (n: usize)
    requires
        pos < input@.len(),
    ensures
        n > 0 ==> (pos as int + n as int) <= input@.len() && enum_matches(
            input@.subrange(pos as int, pos as int + n as int),
        ),
        forall|e: int| (pos as int + n as int) < e && e <= input@.len() ==> !enum_matches(
            #[trigger] input@.subrange(pos as int, e),
        ),
{
    let ghost i = input@;
    let ghost p = pos as int;
    if input[pos] == 0x2e && pos + 1 < input.len() && 0x41 <= input[pos + 1] && input[pos + 1]
        <= 0x5a {
        let r = scan_upper_alnum(input, pos + 2);
        if r < input.len() && input[r] == 0x2e {
            let n = r + 1 - pos;
            proof {
                let s = i.subrange(p, p + n);
                assert(s[0] == i[p]);
                assert(s[1] == i[p + 1]);
                assert(s[s.len() - 1] == i[r as int]);
                assert forall|j: int| 2 <= j < s.len() - 1 implies is_upper_alnum(s[j]) by {
                    assert(s[j] == i[p + j]);
                }
                assert(enum_matches(s));
                assert forall|e: int| p + n < e && e <= i.len() implies !enum_matches(
                    i.subrange(p, e),
                ) by {
                    let w = i.subrange(p, e);
                    // the closing dot is inside the longer window's interior,
                    // and a dot is not upper-alphanumeric
                    assert(w[r - p] == i[r as int]);
                }
            }
            n
        } else {
            proof {
                assert forall|e: int| p < e && e <= i.len() implies !enum_matches(
                    i.subrange(p, e),
                ) by {
                    let w = i.subrange(p, e);
                    assert(w[e - p - 1] == i[e - 1]);
                    if e - 1 > r {
                        assert(w[r - p] == i[r as int]);
                    }
                }
            }
            0
        }
    } else {
        proof {
            assert forall|e: int| p < e && e <= i.len() implies !enum_matches(
                i.subrange(p, e),
            ) by {
                let w = i.subrange(p, e);
                assert(w[0] == i[p]);
                if e - p >= 2 {
                    assert(w[1] == i[p + 1]);
                }
            }
        }
        0
    }
}

/// Longest `Binary` lexeme starting at `pos`.
pub(crate) fn bin_len(input: &[u8], pos: usize) -> (n: usize)
    requires
        pos < input@.len(),
    ensures
        n > 0 ==> (pos as int + n as int) <= input@.len() && bin_matches(
            input@.subrange(pos as int, pos as int + n as int),
        ),
        forall|e: int| (pos as int + n as int) < e && e <= input@.len() ==> !bin_matches(
            #[trigger] input@.subrange(pos as int, e),
        ),
{
    let ghost i = input@;
    let ghost p = pos as int;
    if input[pos] == 0x22 && pos + 1 < input.len() && input[pos + 1] == 0x22 {
        let r = scan_hex(input, pos + 2);
        if r < input.len() && input[r] == 0x22 && r + 1 < input.len() && input[r + 1] == 0x22 {
            let n = r + 2 - pos;
            proof {
                let s = i.subrange(p, p + n);
                assert(s[0] == i[p]);
                assert(s[1] == i[p + 1]);
                assert(s[s.len() - 2] == i[r as int]);
                assert(s[s.len() - 1] == i[r + 1]);
                assert forall|j: int| 2 <= j < s.len() - 2 implies is_hex_digit(s[j]) by {
                    assert(s[j] == i[p + j]);
                }
                assert(bin_matches(s));
                assert forall|e: int| p + n < e && e <= i.len() implies !bin_matches(
                    i.subrange(p, e),
                ) by {
                    let w = i.subrange(p, e);
                    // the first closing quote is inside the longer window's
                    // interior, and a quote is not a hexadecimal digit
                    assert(w[r - p] == i[r as int]);
                }
            }
            n
        } else {
            proof {
                assert forall|e: int| p < e && e <= i.len() implies !bin_matches(
                    i.subrange(p, e),
                ) by {
                    let w = i.subrange(p, e);
                    if e - p >= 4 {
                        assert(w[e - p - 2] == i[e - 2]);
                        assert(w[e - p - 1] == i[e - 1]);
                        if e - 2 > r {
                            assert(w[r - p] == i[r as int]);
                        }
                    }
                }
            }
            0
        }
    } else {
        proof {
            assert forall|e: int| p < e && e <= i.len() implies !bin_matches(
                i.subrange(p, e),
            ) by {
                let w = i.subrange(p, e);
                assert(w[0] == i[p]);
                if e - p >= 2 {
                    assert(w[1] == i[p + 1]);
                }
            }
        }
        0
    }
}

/// Longest `Real` lexeme starting at `pos`.  The match must carry a decimal
/// point with digits on both sides; an exponent is taken only when complete,
/// so a trailing `E`, or `E` with a bare sign, is left out of the lexeme.
#[verifier::rlimit(60)]
pub(crate) fn real_len(input: &[u8], pos: usize) -> (n: usize)
    requires
        pos < input@.len(),
    ensures
        n > 0 ==> (pos as int + n as int) <= input@.len() && real_matches(
            input@.subrange(pos as int, pos as int + n as int),
        ),
        forall|e: int| (pos as int + n as int) < e && e <= input@.len() ==> !real_matches(
            #[trigger] input@.subrange(pos as int, e),
        ),
{
    let ghost i = input@;
    let ghost p = pos as int;
    let b = if input[pos] == 0x2b || input[pos] == 0x2d {
        pos + 1
    } else {
        pos
    };
    let d1 = scan_digits(input, b);
    proof {
        // every window starting at pos agrees on where its digits begin
        assert forall|e: int| p < e && e <= i.len() implies num_start(
            #[trigger] i.subrange(p, e),
        ) == b - p by {
            assert(i.subrange(p, e)[0] == i[p]);
        }
    }
    if d1 == b || d1 == input.len() || input[d1] != 0x2e {
        proof {
            assert forall|e: int| p < e && e <= i.len() implies !real_matches(
                i.subrange(p, e),
            ) by {
                let w = i.subrange(p, e);
                if real_matches(w) {
                    let (ii, jj) = choose|ii: int, jj: int| real_shape(w, ii, jj);
                    assert(real_shape(w, ii, jj));
                    if d1 == b {
                        assert(w[b - p] == i[b as int]);
                        assert(is_digit(w[b - p]));
                    } else {
                        lemma_real_dot_at(i, p, e, b as int, d1 as int, ii, jj);
                    }
                }
            }
        }
        return 0;
    }
    let d2 = scan_digits(input, d1 + 1);
    if d2 == d1 + 1 {
        proof {
            assert forall|e: int| p < e && e <= i.len() implies !real_matches(
                i.subrange(p, e),
            ) by {
                let w = i.subrange(p, e);
                if real_matches(w) {
                    let (ii, jj) = choose|ii: int, jj: int| real_shape(w, ii, jj);
                    assert(real_shape(w, ii, jj));
                    lemma_real_dot_at(i, p, e, b as int, d1 as int, ii, jj);
                    assert(w[ii + 1] == i[p + ii + 1]);
                    assert(is_digit(w[ii + 1]));
                }
            }
        }
        return 0;
    }
    if d2 < input.len() && (input[d2] == 0x65 || input[d2] == 0x45) {
        let b2 = if d2 + 1 < input.len() && (input[d2 + 1] == 0x2b || input[d2 + 1] == 0x2d) {
            d2 + 2
        } else {
            d2 + 1
        };
        let d3 = scan_digits(input, b2);
        if d3 > b2 {
            let n = d3 - pos;
            proof {
                let s = i.subrange(p, p + n);
                assert(s[0] == i[p]);
                assert(s[d1 - p] == i[d1 as int]);
                assert(s[d2 - p] == i[d2 as int]);
                assert(s[d2 + 1 - p] == i[d2 + 1]);
                assert forall|t: int| num_start(s) <= t < d1 - p implies is_digit(s[t]) by {
                    assert(s[t] == i[p + t]);
                }
                assert forall|t: int| d1 - p < t < d2 - p implies is_digit(s[t]) by {
                    assert(s[t] == i[p + t]);
                }
                assert forall|t: int| b2 - p <= t < s.len() implies is_digit(s[t]) by {
                    assert(s[t] == i[p + t]);
                }
                assert(real_exp_shape(s, d2 - p));
                assert(real_shape(s, d1 - p, d2 - p));
                assert(real_matches(s));
                assert forall|e: int| p + n < e && e <= i.len() implies !real_matches(
                    i.subrange(p, e),
                ) by {
                    let w = i.subrange(p, e);
                    if real_matches(w) {
                        let (ii, jj) = choose|ii: int, jj: int| real_shape(w, ii, jj);
                        assert(real_shape(w, ii, jj));
                        lemma_real_dot_at(i, p, e, b as int, d1 as int, ii, jj);
                        lemma_real_frac_end(i, p, e, d1 as int, d2 as int, ii, jj);
                        assert(p + jj == d2);
                        assert(real_exp_shape(w, jj));
                        assert(w[jj] == i[d2 as int]);
                        assert(w[jj + 1] == i[d2 + 1]);
                        assert(w[d3 - p] == i[d3 as int]);
                        assert(is_digit(w[d3 - p]));
                    }
                }
            }
            return n;
        }
        // an exponent marker without digits is not part of the lexeme
        let n = d2 - pos;
        proof {
            lemma_real_base_match(i, p, b as int, d1 as int, d2 as int);
            assert forall|e: int| p + n < e && e <= i.len() implies !real_matches(
                i.subrange(p, e),
            ) by {
                let w = i.subrange(p, e);
                if real_matches(w) {
                    let (ii, jj) = choose|ii: int, jj: int| real_shape(w, ii, jj);
                    assert(real_shape(w, ii, jj));
                    lemma_real_dot_at(i, p, e, b as int, d1 as int, ii, jj);
                    lemma_real_frac_end(i, p, e, d1 as int, d2 as int, ii, jj);
                    assert(p + jj == d2);
                    assert(real_exp_shape(w, jj));
                    assert(w[jj] == i[d2 as int]);
                    if jj + 1 < e - p {
                        assert(w[jj + 1] == i[d2 + 1]);
                    }
                    // the exponent digits would have to start where the scan
                    // found none
                    assert(w[b2 - p] == i[b2 as int]) by {
                        assert(b2 - p < e - p);
                    }
                    assert(is_digit(w[b2 - p]));
                }
            }
        }
        return n;
    }
    let n = d2 - pos;
    proof {
        lemma_real_base_match(i, p, b as int, d1 as int, d2 as int);
        assert forall|e: int| p + n < e && e <= i.len() implies !real_matches(
            i.subrange(p, e),
        ) by {
            let w = i.subrange(p, e);
            if real_matches(w) {
                let (ii, jj) = choose|ii: int, jj: int| real_shape(w, ii, jj);
                assert(real_shape(w, ii, jj));
                lemma_real_dot_at(i, p, e, b as int, d1 as int, ii, jj);
                lemma_real_frac_end(i, p, e, d1 as int, d2 as int, ii, jj);
                assert(p + jj == d2);
                assert(real_exp_shape(w, jj));
                assert(w[jj] == i[d2 as int]);
            }
        }
    }
    n
}

/// Longest `String` lexeme starting at `pos`.  The match ends one past the
/// first quote not consumed by a backslash escape; an unterminated literal
/// matches nothing at all.
pub(crate) fn string_len(input: &[u8], pos: usize) -> (n: usize)
    requires
        pos < input@.len(),
    ensures
        n > 0 ==> (pos as int + n as int) <= input@.len() && string_matches(
            input@.subrange(pos as int, pos as int + n as int),
        ),
        forall|e: int| (pos as int + n as int) < e && e <= input@.len() ==> !string_matches(
            #[trigger] input@.subrange(pos as int, e),
        ),
{
    let ghost i = input@;
    let ghost p = pos as int;
    if input[pos] != 0x27 {
        proof {
            assert forall|e: int| p < e && e <= i.len() implies !string_matches(
                i.subrange(p, e),
            ) by {
                let w = i.subrange(p, e);
                assert(w[0] == i[p]);
            }
        }
        return 0;
    }
    let mut q = pos + 1;
    loop
        invariant
            i == input@,
            pos < i.len(),
            i[p] == 0x27,
            p == pos as int,
            pos + 1 <= q <= i.len(),
            string_end(i, p + 1, i.len() as int) == string_end(i, q as int, i.len() as int),
        decreases i.len() - q,
    {
        if q >= input.len() {
            proof {
                lemma_string_unterminated(i, p);
            }
            return 0;
        }
        let c = input[q];
        if c == 0x27 {
            let n = q + 1 - pos;
            proof {
                lemma_string_terminated(i, p, q as int);
                assert(i.subrange(p, q as int + 1) == i.subrange(p, p + n as int));
            }
            return n;
        }
        if c == 0x5c {
            if q + 1 >= input.len() {
                proof {
                    lemma_string_unterminated(i, p);
                }
                return 0;
            }
            q = q + 2;
        } else {
            q = q + 1;
        }
    }
}

/// Longest `SignatureContent` lexeme starting at `pos`.
pub(crate) fn sig_len(input: &[u8], pos: usize) -> (n: usize)
    requires
        pos < input@.len(),
    ensures
        n > 0 ==> (pos as int + n as int) <= input@.len() && sig_matches(
            input@.subrange(pos as int, pos as int + n as int),
        ),
        forall|e: int| (pos as int + n as int) < e && e <= input@.len() ==> !sig_matches(
            #[trigger] input@.subrange(pos as int, e),
        ),
{
    let ghost i = input@;
    let ghost p = pos as int;
    let r = scan_sig(input, pos);
    let n = r - pos;
    proof {
        if n > 0 {
            let s = i.subrange(p, p + n);
            assert forall|j: int| 0 <= j < s.len() implies is_sig_char(s[j]) by {
                assert(s[j] == i[p + j]);
            }
            assert(sig_matches(s));
        }
        assert forall|e: int| p + n < e && e <= i.len() implies !sig_matches(
            i.subrange(p, e),
        ) by {
            let w = i.subrange(p, e);
            assert(w[p + n - p] == i[p + n]);
        }
    }
    n
}

} // verus!
