use binlayout::error::Error;
use binlayout::lexer::{tokenize, Lexer, Token};

fn single_number(line: &str) -> Option<usize> {
    let tokens = tokenize(line).ok()?;
    match tokens.as_slice() {
        [Token::Num(n), Token::Eol] => Some(*n),
        _ => None,
    }
}

#[test]
fn hex_literal_lexes_to_its_value() {
    assert_eq!(single_number("0x1A"), Some(26));
    assert_eq!(single_number("0xff"), Some(255));
    assert_eq!(single_number("0x01020304"), Some(0x01020304));
}

#[test]
fn decimal_literal_lexes_to_its_value() {
    assert_eq!(single_number("0"), Some(0));
    assert_eq!(single_number("007"), Some(7));
    assert_eq!(single_number("12345"), Some(12345));
    assert_eq!(single_number("18446744073709551615"), Some(usize::MAX));
}

#[test]
fn literal_too_large_is_an_error() {
    assert!(matches!(tokenize("18446744073709551616"), Err(Error::InvalidInteger)));
    assert!(matches!(tokenize("0x10000000000000000"), Err(Error::InvalidInteger)));
}

#[test]
fn hex_prefix_without_digits_is_an_error() {
    assert!(matches!(tokenize("0x"), Err(Error::InvalidInteger)));
    assert!(matches!(tokenize("0xg"), Err(Error::InvalidInteger)));
}

#[test]
fn unterminated_string_is_a_lexical_error() {
    assert!(matches!(tokenize("foo: \"unterminated"), Err(Error::UnterminatedString)));
}

#[test]
fn unknown_character_is_named() {
    assert!(matches!(tokenize("10 * 2"), Err(Error::UnknownCharacter('*'))));
}

#[test]
fn statement_line_tokens() {
    let tokens = tokenize("10:buf:file,\"a.bin\"").unwrap();
    assert_eq!(tokens.len(), 8);
    assert!(matches!(tokens[0], Token::Num(10)));
    assert!(matches!(tokens[1], Token::Semicolon));
    assert!(matches!(&tokens[2], Token::Ident(s) if s == "buf"));
    assert!(matches!(tokens[3], Token::Semicolon));
    assert!(matches!(&tokens[4], Token::Ident(s) if s == "file"));
    assert!(matches!(tokens[5], Token::Comma));
    assert!(matches!(&tokens[6], Token::Str(s) if s == "a.bin"));
    assert!(matches!(tokens[7], Token::Eol));
}

#[test]
fn operators_and_references() {
    let tokens = tokenize("$a.end + 4 - 0x2\t# trailing comment").unwrap();
    assert_eq!(tokens.len(), 9);
    assert!(matches!(tokens[0], Token::Dollar));
    assert!(matches!(&tokens[1], Token::Ident(s) if s == "a"));
    assert!(matches!(tokens[2], Token::Dot));
    assert!(matches!(&tokens[3], Token::Ident(s) if s == "end"));
    assert!(matches!(tokens[4], Token::Add));
    assert!(matches!(tokens[5], Token::Num(4)));
    assert!(matches!(tokens[6], Token::Sub));
    assert!(matches!(tokens[7], Token::Num(2)));
    assert!(matches!(tokens[8], Token::Eol));
}

#[test]
fn comment_and_blank_lines_are_just_end_of_line() {
    for line in ["", "   ", "# a comment", "  \t# indented"] {
        let tokens = tokenize(line).unwrap();
        assert_eq!(tokens.len(), 1);
        assert!(matches!(tokens[0], Token::Eol));
    }
}

#[test]
fn lexer_stops_after_end_of_line() {
    let mut lexer = Lexer::new("x");
    assert!(matches!(lexer.next_token(), Some(Ok(Token::Ident(ref s))) if s == "x"));
    assert!(matches!(lexer.next_token(), Some(Ok(Token::Eol))));
    assert!(lexer.next_token().is_none());
    assert!(lexer.next_token().is_none());
}

#[test]
fn string_keeps_its_text_without_escapes() {
    let tokens = tokenize("\"a b\\n\" \"\"").unwrap();
    assert!(matches!(&tokens[0], Token::Str(s) if s == "a b\\n"));
    assert!(matches!(&tokens[1], Token::Str(s) if s.is_empty()));
}

#[test]
fn identifier_then_number() {
    let tokens = tokenize("12ab _x9").unwrap();
    assert!(matches!(tokens[0], Token::Num(12)));
    assert!(matches!(&tokens[1], Token::Ident(s) if s == "ab"));
    assert!(matches!(&tokens[2], Token::Ident(s) if s == "_x9"));
}
