//! The classifier: maximal munch over all categories, with the fixed
//! priority ranking breaking ties at equal length.

use vstd::prelude::*;

use crate::matcher::bin_len;
use crate::matcher::cen_len;
use crate::matcher::cvn_len;
use crate::matcher::ein_len;
use crate::matcher::enum_len;
use crate::matcher::int_len;
use crate::matcher::real_len;
use crate::matcher::res_len;
use crate::matcher::sig_len;
use crate::matcher::sk_len;
use crate::matcher::string_len;
use crate::matcher::udk_len;
use crate::matcher::vin_len;
use crate::pattern::cat_matches;
use crate::pattern::lemma_overlap;
use crate::token::priority;
use crate::token::Token;

verus! {

/// `k` is the classification of the buffer at `pos`, ending at `end`: the
/// window up to `end` is a lexeme of `k`, no window reaching further is a
/// lexeme of any category, and every other category matching the same window
/// ranks strictly lower.
pub open spec fn classification(i: Seq<u8>, pos: int, k: Token, end: int) -> bool {
    &&& 0 <= pos < end <= i.len()
    &&& cat_matches(k, i.subrange(pos, end))
    &&& forall|k2: Token, e2: int|
        end < e2 <= i.len() ==> !(#[trigger] cat_matches(k2, i.subrange(pos, e2)))
    &&& forall|k2: Token|
        k2 != k && #[trigger] cat_matches(k2, i.subrange(pos, end)) ==> priority(k2) < priority(k)
}

/// No window starting at `pos` is a lexeme of any category.
pub open spec fn no_token_at(i: Seq<u8>, pos: int) -> bool {
    forall|k: Token, e: int|
        pos < e <= i.len() ==> !(#[trigger] cat_matches(k, i.subrange(pos, e)))
}

/// Classify the longest lexeme starting at `pos`, returning its category and
/// end offset, or `None` when no category matches there at all.
#[verifier::rlimit(100)]
pub fn classify(input: &[u8], pos: usize) -> (r: Option<(Token, usize)>)
    requires
        pos < input@.len(),
    ensures
        match r {
            Some(t) => classification(input@, pos as int, t.0, t.1 as int),
            None => no_token_at(input@, pos as int),
        },
{
    let ghost i = input@;
    let ghost p = pos as int;
    let n_udk = udk_len(input, pos);
    let n_sk = sk_len(input, pos);
    let n_int = int_len(input, pos);
    let n_real = real_len(input, pos);
    let n_str = string_len(input, pos);
    let n_ein = ein_len(input, pos);
    let n_vin = vin_len(input, pos);
    let n_cen = cen_len(input, pos);
    let n_cvn = cvn_len(input, pos);
    let n_res = res_len(input, pos);
    let n_enum = enum_len(input, pos);
    let n_bin = bin_len(input, pos);
    let n_sig = sig_len(input, pos);
    let mut best = n_udk;
    if n_sk > best {
        best = n_sk;
    }
    if n_int > best {
        best = n_int;
    }
    if n_real > best {
        best = n_real;
    }
    if n_str > best {
        best = n_str;
    }
    if n_ein > best {
        best = n_ein;
    }
    if n_vin > best {
        best = n_vin;
    }
    if n_cen > best {
        best = n_cen;
    }
    if n_cvn > best {
        best = n_cvn;
    }
    if n_res > best {
        best = n_res;
    }
    if n_enum > best {
        best = n_enum;
    }
    if n_bin > best {
        best = n_bin;
    }
    if n_sig > best {
        best = n_sig;
    }
    if best == 0 {
        proof {
            assert forall|k: Token, e: int| p < e && e <= i.len() implies !(cat_matches(
                k,
                i.subrange(p, e),
            )) by {
            }
        }
        return None;
    }
    let k = if n_int == best {
        Token::Integer
    } else if n_sk == best {
        Token::StandardKeyword
    } else if n_udk == best {
        Token::UserDefinedKeyword
    } else if n_real == best {
        Token::Real
    } else if n_str == best {
        Token::String
    } else if n_ein == best {
        Token::EntityInstanceName
    } else if n_vin == best {
        Token::ValueInstanceName
    } else if n_cen == best {
        Token::ConstantEntityName
    } else if n_cvn == best {
        Token::ConstantValueName
    } else if n_res == best {
        Token::Resource
    } else if n_enum == best {
        Token::Enumeration
    } else if n_bin == best {
        Token::Binary
    } else {
        proof {
            assert(n_sig == best);
        }
        Token::SignatureContent
    };
    let buf_len = input.len();
    proof {
        assert(pos as int + best as int <= buf_len as int);
    }
    let end = pos + best;
    proof {
        let s = i.subrange(p, p + best as int);
        assert(cat_matches(k, s));
        assert forall|k2: Token, e2: int| p + best < e2 && e2 <= i.len() implies !(cat_matches(
            k2,
            i.subrange(p, e2),
        )) by {
        }
        assert forall|k2: Token| k2 != k && cat_matches(k2, s) implies priority(k2) < priority(
            k,
        ) by {
            lemma_overlap(s, k, k2);
        }
        assert(classification(i, p, k, end as int));
    }
    Some((k, end))
}

} // verus!
