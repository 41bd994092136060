//! The per-category tests: each valid lexeme, lexed in isolation, yields one
//! token of its own category spanning the whole input.

use step_lexer::Lexer;
use step_lexer::Token;

#[test]
fn test_lex_user_defined_keyword() {
    let input = "!HELLO";
    let mut lex = Lexer::new(input);
    assert_eq!(lex.next(), Some(Ok((0, Token::UserDefinedKeyword, 6))));
    assert_eq!(&input[0..6], "!HELLO");
    assert_eq!(lex.next(), None);
}

#[test]
fn test_lex_standard_keyword() {
    let input = "HELLO";
    let mut lex = Lexer::new(input);
    assert_eq!(lex.next(), Some(Ok((0, Token::StandardKeyword, 5))));
    assert_eq!(&input[0..5], "HELLO");
    assert_eq!(lex.next(), None);
}

#[test]
fn test_lex_integer() {
    let input = "12345";
    let mut lex = Lexer::new(input);
    assert_eq!(lex.next(), Some(Ok((0, Token::Integer, 5))));
    assert_eq!(&input[0..5], "12345");
    assert_eq!(lex.next(), None);
}

#[test]
fn test_lex_real() {
    let input = "123.45";
    let mut lex = Lexer::new(input);
    assert_eq!(lex.next(), Some(Ok((0, Token::Real, 6))));
    assert_eq!(&input[0..6], "123.45");

    let input = "123.45E-6";
    let mut lex = Lexer::new(input);
    assert_eq!(lex.next(), Some(Ok((0, Token::Real, 9))));
    assert_eq!(&input[0..9], "123.45E-6");
}

#[test]
fn test_lex_string() {
    let input = "'Hello'";
    let mut lex = Lexer::new(input);
    assert_eq!(lex.next(), Some(Ok((0, Token::String, 7))));
    assert_eq!(&input[0..7], "'Hello'");

    let input = "'It\\'s a test'";
    let mut lex = Lexer::new(input);
    assert_eq!(lex.next(), Some(Ok((0, Token::String, 14))));
    assert_eq!(&input[0..14], "'It\\'s a test'");
}

#[test]
fn test_lex_entity_instance_name() {
    let input = "#12345";
    let mut lex = Lexer::new(input);
    assert_eq!(lex.next(), Some(Ok((0, Token::EntityInstanceName, 6))));
    assert_eq!(&input[0..6], "#12345");
    assert_eq!(lex.next(), None);
}

#[test]
fn test_lex_value_instance_name() {
    let input = "@12345";
    let mut lex = Lexer::new(input);
    assert_eq!(lex.next(), Some(Ok((0, Token::ValueInstanceName, 6))));
    assert_eq!(&input[0..6], "@12345");
    assert_eq!(lex.next(), None);
}

#[test]
fn test_lex_constant_entity_name() {
    let input = "#CONSTANT1";
    let mut lex = Lexer::new(input);
    assert_eq!(lex.next(), Some(Ok((0, Token::ConstantEntityName, 10))));
    assert_eq!(&input[0..10], "#CONSTANT1");
    assert_eq!(lex.next(), None);
}

#[test]
fn test_lex_constant_value_name() {
    let input = "@VALUE1";
    let mut lex = Lexer::new(input);
    assert_eq!(lex.next(), Some(Ok((0, Token::ConstantValueName, 7))));
    assert_eq!(&input[0..7], "@VALUE1");
    assert_eq!(lex.next(), None);
}

#[test]
fn test_lex_resource() {
    let input = "<http://example.com>";
    let mut lex = Lexer::new(input);
    assert_eq!(lex.next(), Some(Ok((0, Token::Resource, 20))));
    assert_eq!(&input[0..20], "<http://example.com>");
    assert_eq!(lex.next(), None);
}

#[test]
fn test_lex_enumeration() {
    let input = ".ENUM1.";
    let mut lex = Lexer::new(input);
    assert_eq!(lex.next(), Some(Ok((0, Token::Enumeration, 7))));
    assert_eq!(&input[0..7], ".ENUM1.");
    assert_eq!(lex.next(), None);
}

#[test]
fn test_lex_binary() {
    let input = "\"\"0012\"\"";
    let mut lex = Lexer::new(input);
    assert_eq!(lex.next(), Some(Ok((0, Token::Binary, 8))));
    assert_eq!(&input[0..8], "\"\"0012\"\"");
    assert_eq!(lex.next(), None);
}

#[test]
fn test_lex_signature_content() {
    let input = "dGVzdA==";
    let mut lex = Lexer::new(input);
    assert_eq!(lex.next(), Some(Ok((0, Token::SignatureContent, 8))));
    assert_eq!(&input[0..8], "dGVzdA==");
    assert_eq!(lex.next(), None);
}

#[test]
fn test_lex_multiple_tokens() {
    let input = "!HELLO 12345 123.45 'Hello' #12345 @VALUE1";
    let mut lex = Lexer::new(input);

    let t = lex.next().unwrap().unwrap();
    assert_eq!(t.1, Token::UserDefinedKeyword);
    assert_eq!(&input[t.0..t.2], "!HELLO");

    let t = lex.next().unwrap().unwrap();
    assert_eq!(t.1, Token::Integer);
    assert_eq!(&input[t.0..t.2], "12345");

    let t = lex.next().unwrap().unwrap();
    assert_eq!(t.1, Token::Real);
    assert_eq!(&input[t.0..t.2], "123.45");

    let t = lex.next().unwrap().unwrap();
    assert_eq!(t.1, Token::String);
    assert_eq!(&input[t.0..t.2], "'Hello'");

    let t = lex.next().unwrap().unwrap();
    assert_eq!(t.1, Token::EntityInstanceName);
    assert_eq!(&input[t.0..t.2], "#12345");

    let t = lex.next().unwrap().unwrap();
    assert_eq!(t.1, Token::ConstantValueName);
    assert_eq!(&input[t.0..t.2], "@VALUE1");
}

#[test]
fn test_invalid_input() {
    let input = "!HELLO @12345 @@123";
    let mut lex = Lexer::new(input);

    let t = lex.next().unwrap().unwrap();
    assert_eq!(t.1, Token::UserDefinedKeyword);
    assert_eq!(&input[t.0..t.2], "!HELLO");

    let t = lex.next().unwrap().unwrap();
    assert_eq!(t.1, Token::ValueInstanceName);
    assert_eq!(&input[t.0..t.2], "@12345");

    match lex.next() {
        Some(Err(step_lexer::LexicalError::NoMatch(off))) => {
            assert_eq!(&input[off..off + 1], "@");
        }
        other => panic!("expected a lexical error, got {:?}", other),
    }
}
