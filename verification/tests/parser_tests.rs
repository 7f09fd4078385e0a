use schema_compiler::ast::{Field, Struct, Type};
use schema_compiler::error::{Expected, LexicalError, ParseError, SyntaxError};
use schema_compiler::lexer::Token;
use schema_compiler::parser::{parse_source, Parser};

fn field(name: &str, ty: Type) -> Field {
    Field { name: name.to_string(), ty }
}

fn record(name: &str, fields: Vec<Field>, decorators: Vec<&str>) -> Struct {
    Struct {
        name: name.to_string(),
        fields,
        decorators: decorators.into_iter().map(|d| d.to_string()).collect(),
    }
}

fn custom(name: &str) -> Type {
    Type::Custom(name.to_string())
}

fn array(inner: Type) -> Type {
    Type::Array(Box::new(inner))
}

fn syntax(expected: Expected, found: Token) -> ParseError {
    ParseError::Syntax(SyntaxError { expected, found })
}

fn ident(text: &str) -> Token {
    Token::Ident(text.to_string())
}

#[test]
fn empty_source_is_an_empty_document() {
    assert_eq!(parse_source(""), Ok(vec![]));
    assert_eq!(parse_source("  \n\t "), Ok(vec![]));
}

#[test]
fn one_record_with_two_fields() {
    assert_eq!(
        parse_source("struct A { x: String, y: i32 }"),
        Ok(vec![record("A", vec![field("x", Type::String), field("y", Type::Int)], vec![])])
    );
}

#[test]
fn two_records_in_source_order() {
    assert_eq!(
        parse_source("struct Inner { v: bool } struct Outer { items: Inner[], enabled: bool }"),
        Ok(vec![
            record("Inner", vec![field("v", Type::Bool)], vec![]),
            record(
                "Outer",
                vec![field("items", array(custom("Inner"))), field("enabled", Type::Bool)],
                vec![],
            ),
        ])
    );
}

#[test]
fn decorator_is_attached_to_the_record() {
    assert_eq!(
        parse_source("[Tag] struct A { f: String }"),
        Ok(vec![record("A", vec![field("f", Type::String)], vec!["Tag"])])
    );
}

#[test]
fn decorators_attach_to_the_next_record_only() {
    assert_eq!(
        parse_source("[One] [Two] struct A { } struct B { } [Three] struct C { }"),
        Ok(vec![
            record("A", vec![], vec!["One", "Two"]),
            record("B", vec![], vec![]),
            record("C", vec![], vec!["Three"]),
        ])
    );
}

#[test]
fn record_without_fields() {
    assert_eq!(parse_source("struct Empty {}"), Ok(vec![record("Empty", vec![], vec![])]));
}

#[test]
fn trailing_comma_is_accepted() {
    assert_eq!(
        parse_source("struct A { x: String, y: i32, }"),
        Ok(vec![record("A", vec![field("x", Type::String), field("y", Type::Int)], vec![])])
    );
}

#[test]
fn undefined_type_name_is_a_custom_type() {
    assert_eq!(
        parse_source("struct A { r: Missing }"),
        Ok(vec![record("A", vec![field("r", custom("Missing"))], vec![])])
    );
}

#[test]
fn base_names_are_case_sensitive() {
    assert_eq!(
        parse_source("struct A { a: string, b: I32, c: Bool, d: int }"),
        Ok(vec![record(
            "A",
            vec![
                field("a", custom("string")),
                field("b", custom("I32")),
                field("c", custom("Bool")),
                field("d", custom("int")),
            ],
            vec![],
        )])
    );
}

#[test]
fn arrays_of_each_base_type() {
    assert_eq!(
        parse_source("struct A { a: String[], b: i32[], c: bool[], d: A[] }"),
        Ok(vec![record(
            "A",
            vec![
                field("a", array(Type::String)),
                field("b", array(Type::Int)),
                field("c", array(Type::Bool)),
                field("d", array(custom("A"))),
            ],
            vec![],
        )])
    );
}

#[test]
fn duplicate_names_are_accepted() {
    assert_eq!(
        parse_source("struct A { x: String, x: i32 } struct A { }"),
        Ok(vec![
            record("A", vec![field("x", Type::String), field("x", Type::Int)], vec![]),
            record("A", vec![], vec![]),
        ])
    );
}

#[test]
fn the_demonstration_source() {
    let source = r#"
        [List]
        struct MyItem {
            name: String,
            count: i32,
        }

        struct Config {
            items: MyItem[],
            enabled: bool,
        }
    "#;
    assert_eq!(
        parse_source(source),
        Ok(vec![
            record(
                "MyItem",
                vec![field("name", Type::String), field("count", Type::Int)],
                vec!["List"],
            ),
            record(
                "Config",
                vec![field("items", array(custom("MyItem"))), field("enabled", Type::Bool)],
                vec![],
            ),
        ])
    );
}

#[test]
fn missing_closing_brace_is_a_syntax_error() {
    assert_eq!(
        parse_source("struct A { x: String"),
        Err(syntax(Expected::Token(Token::RBrace), Token::Eof))
    );
    assert_eq!(
        parse_source("struct A { x: String,"),
        Err(syntax(Expected::FieldName, Token::Eof))
    );
    assert_eq!(parse_source("struct A {"), Err(syntax(Expected::FieldName, Token::Eof)));
}

#[test]
fn missing_comma_between_fields_is_a_syntax_error() {
    assert_eq!(
        parse_source("struct A { x: String y: i32 }"),
        Err(syntax(Expected::Token(Token::RBrace), ident("y")))
    );
}

#[test]
fn comma_before_an_opening_brace_ends_the_field_list() {
    assert_eq!(
        parse_source("struct A { x: String, { }"),
        Err(syntax(Expected::Token(Token::RBrace), Token::LBrace))
    );
}

#[test]
fn missing_struct_keyword() {
    assert_eq!(
        parse_source("A { x: String }"),
        Err(syntax(Expected::Token(Token::Struct), ident("A")))
    );
}

#[test]
fn decorator_without_a_record() {
    assert_eq!(parse_source("[Tag]"), Err(syntax(Expected::Token(Token::Struct), Token::Eof)));
}

#[test]
fn missing_struct_name() {
    assert_eq!(parse_source("struct { }"), Err(syntax(Expected::StructName, Token::LBrace)));
    assert_eq!(parse_source("struct struct"), Err(syntax(Expected::StructName, Token::Struct)));
}

#[test]
fn missing_opening_brace() {
    assert_eq!(
        parse_source("struct A x: String }"),
        Err(syntax(Expected::Token(Token::LBrace), ident("x")))
    );
}

#[test]
fn missing_field_name() {
    assert_eq!(
        parse_source("struct A { : String }"),
        Err(syntax(Expected::FieldName, Token::Colon))
    );
}

#[test]
fn missing_colon() {
    assert_eq!(
        parse_source("struct A { x String }"),
        Err(syntax(Expected::Token(Token::Colon), ident("String")))
    );
}

#[test]
fn missing_type() {
    assert_eq!(parse_source("struct A { x: }"), Err(syntax(Expected::TypeName, Token::RBrace)));
    assert_eq!(
        parse_source("struct A { x: struct }"),
        Err(syntax(Expected::TypeName, Token::Struct))
    );
}

#[test]
fn decorator_inside_a_record_is_a_syntax_error() {
    assert_eq!(
        parse_source("struct A { [Tag] x: String }"),
        Err(syntax(Expected::FieldName, Token::Decorator("Tag".to_string())))
    );
}

#[test]
fn unexpected_character_is_a_lexical_error() {
    assert_eq!(
        parse_source("struct A { x: String } $"),
        Err(ParseError::Lexical(LexicalError { found: '$' }))
    );
    assert_eq!(parse_source("?"), Err(ParseError::Lexical(LexicalError { found: '?' })));
}

#[test]
fn the_first_error_in_source_order_is_reported() {
    assert_eq!(parse_source("struct struct $"), Err(syntax(Expected::StructName, Token::Struct)));
    assert_eq!(
        parse_source("struct A $ { }"),
        Err(ParseError::Lexical(LexicalError { found: '$' }))
    );
}

#[test]
fn parser_new_fetches_the_first_token() {
    assert!(Parser::new("struct A { }").is_ok());
    assert!(Parser::new("").is_ok());
    assert_eq!(Parser::new("  %").err(), Some(LexicalError { found: '%' }));
}

#[test]
fn parser_parse_gives_the_document() {
    let mut parser = Parser::new("struct A { x: bool }").unwrap();
    assert_eq!(parser.parse(), Ok(vec![record("A", vec![field("x", Type::Bool)], vec![])]));
    assert_eq!(parser.parse(), Ok(vec![]));
}

#[test]
fn type_clone_is_equal() {
    let ty = array(custom("Inner"));
    assert_eq!(ty.clone(), ty);
    assert_eq!(Type::Int.clone(), Type::Int);
}

#[test]
fn a_document_written_token_by_token_reads_back() {
    let document = vec![
        record(
            "Inner",
            vec![field("v", Type::Bool), field("n", Type::Int)],
            vec!["List", "x_1"],
        ),
        record(
            "Outer",
            vec![
                field("items", array(custom("Inner"))),
                field("label", Type::String),
                field("other", custom("Elsewhere")),
                field("flags", array(Type::Bool)),
            ],
            vec![],
        ),
        record("Empty", vec![], vec![]),
    ];
    let text = "[List] [x_1] struct Inner { v : bool , n : i32 , } \
                struct Outer { items : Inner [] , label : String , other : Elsewhere , \
                flags : bool [] , } struct Empty { } ";
    assert_eq!(parse_source(text), Ok(document));
}
