use schema_compiler::cli::Cli;
use schema_compiler::compiler::{compile, finish_output, Action, Rendered};
use schema_compiler::error::{
    CompileError, Diagnostic, Expected, LexicalError, ParseError, SyntaxError,
};
use schema_compiler::lexer::Token;

fn cli(json: bool, pwd: bool) -> Cli {
    Cli { input_file: "schema.txt".to_string(), json, pwd }
}

fn rendered(json: &str) -> Rendered {
    Rendered { json: json.to_string(), diagnostics: vec![] }
}

#[test]
fn without_the_json_flag_nothing_is_emitted() {
    assert_eq!(compile(&cli(false, false), "struct A { x: i32 }"), Ok(Action::Nothing));
    assert_eq!(compile(&cli(false, true), "struct A { x: i32 }"), Ok(Action::Nothing));
}

#[test]
fn json_is_printed() {
    assert_eq!(
        compile(&cli(true, false), "struct A { x: i32 }"),
        Ok(Action::Print(rendered("{\n  \"x\": 0\n}")))
    );
}

#[test]
fn json_is_written_beside_the_source() {
    assert_eq!(
        compile(&cli(true, true), "struct A { x: i32 }"),
        Ok(Action::Write(rendered("{\n  \"x\": 0\n}")))
    );
}

#[test]
fn empty_source_gives_an_empty_object() {
    assert_eq!(compile(&cli(true, false), ""), Ok(Action::Print(rendered("{}"))));
    assert_eq!(compile(&cli(true, true), "  "), Ok(Action::Write(rendered("{}"))));
}

#[test]
fn notes_go_out_with_the_text() {
    assert_eq!(
        compile(&cli(true, false), "struct A { r: Missing }"),
        Ok(Action::Print(Rendered {
            json: "{\n  \"r\": {}\n}".to_string(),
            diagnostics: vec![Diagnostic::UnresolvedReference("Missing".to_string())],
        }))
    );
}

#[test]
fn a_source_with_errors_is_not_compiled() {
    let missing_brace = CompileError::Parse(ParseError::Syntax(SyntaxError {
        expected: Expected::Token(Token::RBrace),
        found: Token::Eof,
    }));
    assert_eq!(compile(&cli(true, false), "struct A { x: i32"), Err(missing_brace.clone()));
    assert_eq!(compile(&cli(false, false), "struct A { x: i32"), Err(missing_brace));
    assert_eq!(
        compile(&cli(true, true), "struct A { x: i32 } !"),
        Err(CompileError::Parse(ParseError::Lexical(LexicalError { found: '!' })))
    );
}

#[test]
fn a_printed_text_goes_out_with_its_notes() {
    let notes = vec![Diagnostic::NestedArray];
    assert_eq!(
        finish_output(Ok("{}".to_string()), notes.clone()),
        Ok(Rendered { json: "{}".to_string(), diagnostics: notes })
    );
}

#[test]
fn a_failure_of_the_printer_is_a_serialize_error() {
    let failure = serde_json::from_str::<serde_json::Value>("{").unwrap_err();
    assert_eq!(finish_output(Err(failure), vec![]), Err(CompileError::Serialize));
}
