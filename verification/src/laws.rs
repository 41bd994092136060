//! General laws of the tokenizer, stated over the spec model and proved for
//! all inputs.

use vstd::prelude::*;

use crate::chars::is_ws;
use crate::classify::classification;
use crate::classify::no_token_at;
use crate::lexer::ws_skip_to;
use crate::pattern::cat_matches;
use crate::pattern::int_matches;
use crate::pattern::keyword_matches;
use crate::pattern::lemma_lexeme_nonempty;
use crate::pattern::lemma_overlap;
use crate::token::priority;
use crate::token::Token;

verus! {

/// A valid lexeme classified in isolation yields exactly one token of its
/// own category spanning the whole input.  This holds for every category but
/// `SignatureContent`, whose lexemes may also read as an `Integer` or a
/// `StandardKeyword` and then classify as those (see
/// `lemma_isolated_signature`).
pub proof fn lemma_isolated_lexeme(s: Seq<u8>, k: Token)
    requires
        cat_matches(k, s),
        k != Token::SignatureContent,
    ensures
        classification(s, 0, k, s.len() as int),
{
    lemma_lexeme_nonempty(k, s);
    assert(s.subrange(0, s.len() as int) =~= s);
    assert forall|k2: Token|
        k2 != k && cat_matches(k2, s.subrange(0, s.len() as int)) implies priority(k2) < priority(
        k,
    ) by {
        lemma_overlap(s, k, k2);
    }
}

/// A `SignatureContent` lexeme that reads neither as an `Integer` nor as a
/// `StandardKeyword` classifies in isolation as `SignatureContent` spanning
/// the whole input.
pub proof fn lemma_isolated_signature(s: Seq<u8>)
    requires
        cat_matches(Token::SignatureContent, s),
        !int_matches(s),
        !keyword_matches(s),
    ensures
        classification(s, 0, Token::SignatureContent, s.len() as int),
{
    assert(s.subrange(0, s.len() as int) =~= s);
    assert forall|k2: Token|
        k2 != Token::SignatureContent && cat_matches(k2, s.subrange(0, s.len() as int))
        implies priority(k2) < priority(Token::SignatureContent) by {
        lemma_overlap(s, Token::SignatureContent, k2);
    }
}

/// Self-consistency of emitted tokens: reclassifying the exact text of a
/// token in isolation yields the same category over the same width.
pub proof fn lemma_token_self_consistent(i: Seq<u8>, pos: int, k: Token, end: int)
    requires
        classification(i, pos, k, end),
    ensures
        classification(i.subrange(pos, end), 0, k, end - pos),
{
    let w = i.subrange(pos, end);
    assert(w.subrange(0, w.len() as int) =~= w);
    assert forall|k2: Token|
        k2 != k && cat_matches(k2, w.subrange(0, w.len() as int)) implies priority(k2) < priority(
        k,
    ) by {
        assert(cat_matches(k2, w));
    }
}

/// Determinism of classification: the buffer and the cursor fix the yielded
/// category and end offset completely, so re-lexing the same buffer from the
/// start repeats the identical output sequence.
pub proof fn lemma_classification_unique(
    i: Seq<u8>,
    pos: int,
    k1: Token,
    e1: int,
    k2: Token,
    e2: int,
)
    requires
        classification(i, pos, k1, e1),
        classification(i, pos, k2, e2),
    ensures
        k1 == k2,
        e1 == e2,
{
    if e1 < e2 {
        assert(cat_matches(k2, i.subrange(pos, e2)));
    }
    if e2 < e1 {
        assert(cat_matches(k1, i.subrange(pos, e1)));
    }
}

/// A position that yields a token is no classification failure.  Together
/// with the uniqueness lemmas this pins every pull's outcome — end of input,
/// one specific token, or one specific error — so the stream over a buffer
/// is a function of the buffer alone.
pub proof fn lemma_token_excludes_failure(i: Seq<u8>, pos: int, k: Token, end: int)
    requires
        classification(i, pos, k, end),
    ensures
        !no_token_at(i, pos),
{
    assert(cat_matches(k, i.subrange(pos, end)));
}

/// Determinism of the whitespace skip: the stop position is unique, so the
/// gap a pull leaves behind is the same on every run.
pub proof fn lemma_ws_skip_unique(i: Seq<u8>, from: int, s1: int, s2: int)
    requires
        ws_skip_to(i, from, s1),
        ws_skip_to(i, from, s2),
    ensures
        s1 == s2,
{
    if s1 < s2 {
        assert(is_ws(i[s1]));
    }
    if s2 < s1 {
        assert(is_ws(i[s2]));
    }
}

} // verus!
