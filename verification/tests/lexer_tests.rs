use schema_compiler::error::LexicalError;
use schema_compiler::lexer::{ident_char, token_start, Lexer, Start, Token};

fn tokens(source: &str) -> Vec<Result<Token, LexicalError>> {
    let mut lexer = Lexer::new(source);
    let mut out = Vec::new();
    loop {
        let token = lexer.next_token();
        let done = matches!(token, Ok(Token::Eof) | Err(_));
        out.push(token);
        if done {
            return out;
        }
    }
}

fn ident(text: &str) -> Result<Token, LexicalError> {
    Ok(Token::Ident(text.to_string()))
}

fn decorator(text: &str) -> Result<Token, LexicalError> {
    Ok(Token::Decorator(text.to_string()))
}

#[test]
fn single_character_tokens() {
    assert_eq!(
        tokens(": , { } ]"),
        vec![
            Ok(Token::Colon),
            Ok(Token::Comma),
            Ok(Token::LBrace),
            Ok(Token::RBrace),
            Ok(Token::RBracket),
            Ok(Token::Eof),
        ]
    );
}

#[test]
fn single_character_tokens_need_no_whitespace() {
    assert_eq!(
        tokens("{}:,]"),
        vec![
            Ok(Token::LBrace),
            Ok(Token::RBrace),
            Ok(Token::Colon),
            Ok(Token::Comma),
            Ok(Token::RBracket),
            Ok(Token::Eof),
        ]
    );
}

#[test]
fn empty_input_is_eof() {
    assert_eq!(tokens(""), vec![Ok(Token::Eof)]);
}

#[test]
fn whitespace_only_is_eof() {
    assert_eq!(tokens(" \t\r\n \u{2003}\u{00a0}"), vec![Ok(Token::Eof)]);
}

#[test]
fn eof_is_yielded_again_and_again() {
    let mut lexer = Lexer::new("x");
    assert_eq!(lexer.next_token(), ident("x"));
    for _ in 0..5 {
        assert_eq!(lexer.next_token(), Ok(Token::Eof));
    }
}

#[test]
fn struct_is_a_keyword() {
    assert_eq!(tokens("struct"), vec![Ok(Token::Struct), Ok(Token::Eof)]);
}

#[test]
fn words_around_the_keyword_are_identifiers() {
    assert_eq!(
        tokens("structs Struct struc struct_ struct1"),
        vec![
            ident("structs"),
            ident("Struct"),
            ident("struc"),
            ident("struct_"),
            ident("struct1"),
            Ok(Token::Eof),
        ]
    );
}

#[test]
fn identifiers_take_letters_digits_and_underscores() {
    assert_eq!(
        tokens("a a1 a_b x__9 i32"),
        vec![ident("a"), ident("a1"), ident("a_b"), ident("x__9"), ident("i32"), Ok(Token::Eof)]
    );
}

#[test]
fn identifiers_are_maximal_runs() {
    assert_eq!(
        tokens("abc:def,g{h}"),
        vec![
            ident("abc"),
            Ok(Token::Colon),
            ident("def"),
            Ok(Token::Comma),
            ident("g"),
            Ok(Token::LBrace),
            ident("h"),
            Ok(Token::RBrace),
            Ok(Token::Eof),
        ]
    );
}

#[test]
fn identifiers_may_hold_letters_beyond_ascii() {
    assert_eq!(tokens("größe été"), vec![ident("größe"), ident("été"), Ok(Token::Eof)]);
}

#[test]
fn an_identifier_cannot_start_with_a_digit() {
    assert_eq!(tokens("1abc"), vec![Err(LexicalError { found: '1' })]);
}

#[test]
fn an_identifier_cannot_start_with_an_underscore() {
    assert_eq!(tokens("_abc"), vec![Err(LexicalError { found: '_' })]);
}

#[test]
fn unexpected_character_is_named() {
    assert_eq!(tokens("a $ b"), vec![ident("a"), Err(LexicalError { found: '$' })]);
}

#[test]
fn lexing_goes_on_after_an_unexpected_character() {
    let mut lexer = Lexer::new("#x");
    assert_eq!(lexer.next_token(), Err(LexicalError { found: '#' }));
    assert_eq!(lexer.next_token(), ident("x"));
    assert_eq!(lexer.next_token(), Ok(Token::Eof));
}

#[test]
fn decorator_carries_its_name() {
    assert_eq!(tokens("[Tag]"), vec![decorator("Tag"), Ok(Token::Eof)]);
}

#[test]
fn decorator_name_may_start_with_a_digit_or_an_underscore() {
    assert_eq!(tokens("[1a] [_] [a_1]"), vec![
        decorator("1a"),
        decorator("_"),
        decorator("a_1"),
        Ok(Token::Eof),
    ]);
}

#[test]
fn empty_brackets_are_one_left_bracket() {
    assert_eq!(tokens("[]"), vec![Ok(Token::LBracket), Ok(Token::Eof)]);
}

#[test]
fn array_marker_after_a_type_name() {
    assert_eq!(
        tokens("Inner[],"),
        vec![ident("Inner"), Ok(Token::LBracket), Ok(Token::Comma), Ok(Token::Eof)]
    );
}

#[test]
fn bracket_with_space_is_two_tokens() {
    assert_eq!(tokens("[ ]"), vec![Ok(Token::LBracket), Ok(Token::RBracket), Ok(Token::Eof)]);
}

#[test]
fn bracket_without_closing_leaves_the_name_to_be_read() {
    assert_eq!(
        tokens("[abc,"),
        vec![Ok(Token::LBracket), ident("abc"), Ok(Token::Comma), Ok(Token::Eof)]
    );
}

#[test]
fn bracket_with_space_before_closing_is_no_decorator() {
    assert_eq!(
        tokens("[abc ]"),
        vec![Ok(Token::LBracket), ident("abc"), Ok(Token::RBracket), Ok(Token::Eof)]
    );
}

#[test]
fn bracket_before_the_keyword_leaves_the_keyword() {
    assert_eq!(
        tokens("[struct A"),
        vec![Ok(Token::LBracket), Ok(Token::Struct), ident("A"), Ok(Token::Eof)]
    );
}

#[test]
fn bracket_before_a_digit_leaves_the_digit() {
    assert_eq!(tokens("[1a,"), vec![Ok(Token::LBracket), Err(LexicalError { found: '1' })]);
}

#[test]
fn bracket_at_the_end_of_a_name_leaves_the_name() {
    assert_eq!(tokens("[abc"), vec![Ok(Token::LBracket), ident("abc"), Ok(Token::Eof)]);
}

#[test]
fn token_start_goes_by_the_character_and_its_class() {
    assert_eq!(token_start(':', false), Start::Colon);
    assert_eq!(token_start(',', false), Start::Comma);
    assert_eq!(token_start('{', false), Start::LBrace);
    assert_eq!(token_start('}', false), Start::RBrace);
    assert_eq!(token_start('[', false), Start::Bracket);
    assert_eq!(token_start(']', false), Start::RBracket);
    assert_eq!(token_start('a', true), Start::Word);
    assert_eq!(token_start('1', false), Start::Unexpected);
    assert_eq!(token_start('_', false), Start::Unexpected);
    assert_eq!(token_start(':', true), Start::Colon);
}

#[test]
fn ident_char_takes_alphanumerics_and_the_underscore() {
    assert!(ident_char('a', true));
    assert!(ident_char('7', true));
    assert!(ident_char('_', false));
    assert!(!ident_char('-', false));
    assert!(!ident_char(' ', false));
}

#[test]
fn lone_bracket_at_the_end() {
    assert_eq!(tokens("["), vec![Ok(Token::LBracket), Ok(Token::Eof)]);
}

#[test]
fn decorator_then_struct() {
    assert_eq!(
        tokens("[List]\nstruct MyItem {"),
        vec![
            decorator("List"),
            Ok(Token::Struct),
            ident("MyItem"),
            Ok(Token::LBrace),
            Ok(Token::Eof),
        ]
    );
}

#[test]
fn token_equality_compares_the_text() {
    assert_eq!(Token::Ident("a".to_string()), Token::Ident("a".to_string()));
    assert_ne!(Token::Ident("a".to_string()), Token::Ident("b".to_string()));
    assert_ne!(Token::Ident("a".to_string()), Token::Decorator("a".to_string()));
    assert_ne!(Token::LBrace, Token::RBrace);
    assert_eq!(Token::Eof, Token::Eof);
}

#[test]
fn token_clone_is_equal() {
    let token = Token::Decorator("Tag".to_string());
    assert_eq!(token.clone(), token);
    assert_eq!(Token::Struct.clone(), Token::Struct);
}
