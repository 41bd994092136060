//! Tests of the stream as a whole: whitespace handling, error recovery,
//! priorities, maximal munch, determinism, and boundary inputs.

use step_lexer::Lexer;
use step_lexer::LexicalError;
use step_lexer::Token;

#[test]
fn test_whitespace_not_emitted() {
    let input = "!HELLO 12345";
    let mut lex = Lexer::new(input);
    assert_eq!(lex.next(), Some(Ok((0, Token::UserDefinedKeyword, 6))));
    assert_eq!(lex.next(), Some(Ok((7, Token::Integer, 12))));
    assert_eq!(lex.next(), None);
}

#[test]
fn test_all_whitespace_kinds_skipped() {
    let input = "12 \t\n\u{c}34";
    let mut lex = Lexer::new(input);
    assert_eq!(lex.next(), Some(Ok((0, Token::Integer, 2))));
    assert_eq!(lex.next(), Some(Ok((6, Token::Integer, 8))));
    assert_eq!(lex.next(), None);
}

#[test]
fn test_error_recovery_continues() {
    let input = "!HELLO @12345 @@123";
    let mut lex = Lexer::new(input);
    assert_eq!(lex.next(), Some(Ok((0, Token::UserDefinedKeyword, 6))));
    assert_eq!(lex.next(), Some(Ok((7, Token::ValueInstanceName, 13))));
    assert_eq!(lex.next(), Some(Err(LexicalError::NoMatch(14))));
    assert_eq!(lex.next(), Some(Ok((15, Token::ValueInstanceName, 19))));
    assert_eq!(lex.next(), None);
}

#[test]
fn test_idempotent_relex() {
    let input = "!HELLO 12345 123.45 'Hello' #12345 @VALUE1 @@ .E. \"\"AB\"\"";
    let mut first = Vec::new();
    let mut lex = Lexer::new(input);
    while let Some(item) = lex.next() {
        first.push(item);
    }
    let mut second = Vec::new();
    let mut lex = Lexer::new(input);
    while let Some(item) = lex.next() {
        second.push(item);
    }
    assert_eq!(first, second);
    assert!(!first.is_empty());
}

#[test]
fn test_empty_input() {
    let mut lex = Lexer::new("");
    assert_eq!(lex.next(), None);
    assert_eq!(lex.next(), None);
}

#[test]
fn test_whitespace_only_input() {
    let mut lex = Lexer::new(" \t\n\u{c} ");
    assert_eq!(lex.next(), None);
    assert_eq!(lex.next(), None);
}

#[test]
fn test_integer_then_bare_dot() {
    // a digit run followed by a bare dot offers only the integer prefix;
    // the dot itself matches nothing and is reported, then skipped
    let input = "123.";
    let mut lex = Lexer::new(input);
    assert_eq!(lex.next(), Some(Ok((0, Token::Integer, 3))));
    assert_eq!(lex.next(), Some(Err(LexicalError::NoMatch(3))));
    assert_eq!(lex.next(), None);
}

#[test]
fn test_priority_keyword_over_signature() {
    // "HELLO" reads as a keyword and as signature content at the same
    // length; the keyword's higher priority wins
    let mut lex = Lexer::new("HELLO");
    assert_eq!(lex.next(), Some(Ok((0, Token::StandardKeyword, 5))));
}

#[test]
fn test_priority_integer_over_signature() {
    let mut lex = Lexer::new("12345");
    assert_eq!(lex.next(), Some(Ok((0, Token::Integer, 5))));
}

#[test]
fn test_longer_signature_beats_keyword() {
    // maximal munch comes before priority: the full base64 run outlasts the
    // uppercase prefix
    let mut lex = Lexer::new("HELLOworld");
    assert_eq!(lex.next(), Some(Ok((0, Token::SignatureContent, 10))));
}

#[test]
fn test_lowercase_is_signature_content() {
    let mut lex = Lexer::new("hello");
    assert_eq!(lex.next(), Some(Ok((0, Token::SignatureContent, 5))));
}

#[test]
fn test_unterminated_string_is_error() {
    let input = "'abc";
    let mut lex = Lexer::new(input);
    assert_eq!(lex.next(), Some(Err(LexicalError::NoMatch(0))));
    // recovery skips the quote; the rest lexes on its own
    assert_eq!(lex.next(), Some(Ok((1, Token::SignatureContent, 4))));
    assert_eq!(lex.next(), None);
}

#[test]
fn test_escaped_backslash_then_quote_ends_string() {
    // "'a\\'" holds an escaped backslash, so the following quote ends the
    // lexeme
    let input = "'a\\\\' 1";
    let mut lex = Lexer::new(input);
    assert_eq!(lex.next(), Some(Ok((0, Token::String, 5))));
    assert_eq!(lex.next(), Some(Ok((6, Token::Integer, 7))));
}

#[test]
fn test_empty_binary() {
    let input = "\"\"\"\"";
    let mut lex = Lexer::new(input);
    assert_eq!(lex.next(), Some(Ok((0, Token::Binary, 4))));
    assert_eq!(lex.next(), None);
}

#[test]
fn test_signed_numbers() {
    let input = "-5 +7 -1.5";
    let mut lex = Lexer::new(input);
    assert_eq!(lex.next(), Some(Ok((0, Token::Integer, 2))));
    assert_eq!(lex.next(), Some(Ok((3, Token::Integer, 5))));
    assert_eq!(lex.next(), Some(Ok((6, Token::Real, 10))));
    assert_eq!(lex.next(), None);
}

#[test]
fn test_real_exponent_needs_digits() {
    // a trailing exponent marker without digits stays outside the Real
    let input = "1.5E";
    let mut lex = Lexer::new(input);
    assert_eq!(lex.next(), Some(Ok((0, Token::Real, 3))));
    assert_eq!(lex.next(), Some(Ok((3, Token::StandardKeyword, 4))));
    assert_eq!(lex.next(), None);
}

#[test]
fn test_reclassify_token_slices() {
    // every emitted token's text, lexed alone, gives the same category over
    // its whole width
    let input = "!HELLO 12345 123.45 'It\\'s' #12345 @VALUE1 .ENUM1. <http://a> \"\"0F\"\" dGVzdA==";
    let mut lex = Lexer::new(input);
    let mut tokens = Vec::new();
    while let Some(item) = lex.next() {
        tokens.push(item.expect("this input holds no malformed lexeme"));
    }
    assert_eq!(tokens.len(), 10);
    for (s, k, e) in tokens {
        let slice = &input[s..e];
        let mut relex = Lexer::new(slice);
        assert_eq!(relex.next(), Some(Ok((0, k, e - s))));
        assert_eq!(relex.next(), None);
    }
}

#[test]
fn test_error_offset_locates_failure() {
    let input = "12 ?? 34";
    let mut lex = Lexer::new(input);
    assert_eq!(lex.next(), Some(Ok((0, Token::Integer, 2))));
    assert_eq!(lex.next(), Some(Err(LexicalError::NoMatch(3))));
    assert_eq!(lex.next(), Some(Err(LexicalError::NoMatch(4))));
    assert_eq!(lex.next(), Some(Ok((6, Token::Integer, 8))));
    assert_eq!(lex.next(), None);
}
