//! The grammar of a schema document, over the stream of lexemes that the
//! tokenizer yields.
//!
//! ```text
//! document   := (decorators struct_def)*
//! decorators := decorator*
//! struct_def := 'struct' IDENT '{' field_list? '}'
//! field_list := field (',' field)* ','?
//! field      := IDENT ':' type
//! type       := IDENT '[]'?
//! ```
//!
//! A parse holds one current token and fetches the next one when it consumes
//! the current one; a character that starts no token is reported at that
//! moment, before the grammar looks at anything else.

use vstd::prelude::*;
use crate::ast::{FieldModel, StructModel, TypeModel};
use crate::error::{ExpectedModel, LexicalError, ParseErrorModel, SyntaxErrorModel};
use crate::lexer::{lemma_scan_bounds, scan, TokenModel};

verus! {

/// One element of the stream: a token, or the character that starts none.
pub type Lexeme = Result<TokenModel, LexicalError>;

/// A value and the lexemes that remain after it, or the error that ended
/// the parse.
pub type Parsed<T> = Result<(T, Seq<Lexeme>), ParseErrorModel>;

/// The lexemes of `input` from `pos` on, up to the end of the input or to
/// the first character that starts no token. The end itself is no element.
pub open spec fn token_stream(input: Seq<char>, pos: int) -> Seq<Lexeme>
    decreases input.len() - pos,
{
    if pos < 0 || pos > input.len() {
        Seq::empty()
    } else {
        let step = scan(input, pos);
        match step.outcome {
            Ok(TokenModel::Eof) => Seq::empty(),
            Ok(token) => {
                proof {
                    lemma_scan_bounds(input, pos);
                }
                seq![Ok(token)] + token_stream(input, step.next)
            },
            Err(error) => seq![Err(error)],
        }
    }
}

/// The current token of a stream: its first element, or `Eof` where nothing
/// is left.
pub open spec fn current(ts: Seq<Lexeme>) -> TokenModel {
    if ts.len() > 0 && ts[0] is Ok {
        ts[0]->Ok_0
    } else {
        TokenModel::Eof
    }
}

/// Makes the first lexeme of `ts` the current token: an error where it is a
/// character that starts no token.
pub open spec fn begin(ts: Seq<Lexeme>) -> Result<Seq<Lexeme>, ParseErrorModel> {
    if ts.len() > 0 && ts[0] is Err {
        Err(ParseErrorModel::Lexical(ts[0]->Err_0))
    } else {
        Ok(ts)
    }
}

/// Consumes the current token and fetches the next one. At the end of the
/// stream nothing changes.
pub open spec fn advance(ts: Seq<Lexeme>) -> Result<Seq<Lexeme>, ParseErrorModel> {
    if ts.len() == 0 {
        Ok(ts)
    } else {
        begin(ts.drop_first())
    }
}

/// The syntax error that says what was asked for where `ts` stands.
pub open spec fn mismatch(expected: ExpectedModel, ts: Seq<Lexeme>) -> ParseErrorModel {
    ParseErrorModel::Syntax(SyntaxErrorModel { expected, found: current(ts) })
}

/// Consumes the current token where it is `token`; a syntax error otherwise.
pub open spec fn expect(ts: Seq<Lexeme>, token: TokenModel) -> Result<
    Seq<Lexeme>,
    ParseErrorModel,
> {
    if current(ts) == token {
        advance(ts)
    } else {
        Err(mismatch(ExpectedModel::Token(token), ts))
    }
}

/// The type that a base name stands for: one of the three primitives, or a
/// reference to the record of that name.
pub open spec fn ident_to_type(name: Seq<char>) -> TypeModel {
    if name == "String"@ {
        TypeModel::String
    } else if name == "i32"@ {
        TypeModel::Int
    } else if name == "bool"@ {
        TypeModel::Bool
    } else {
        TypeModel::Custom(name)
    }
}

/// `type := IDENT '[]'?`, where the array marker is one left-bracket token.
pub open spec fn parse_type(ts: Seq<Lexeme>) -> Parsed<TypeModel> {
    match current(ts) {
        TokenModel::Ident(base) => match advance(ts) {
            Err(error) => Err(error),
            Ok(after_base) => if current(after_base) == TokenModel::LBracket {
                match advance(after_base) {
                    Err(error) => Err(error),
                    Ok(rest) => Ok((TypeModel::Array(Box::new(ident_to_type(base))), rest)),
                }
            } else {
                Ok((ident_to_type(base), after_base))
            },
        },
        _ => Err(mismatch(ExpectedModel::TypeName, ts)),
    }
}

/// `field := IDENT ':' type`
pub open spec fn parse_field(ts: Seq<Lexeme>) -> Parsed<FieldModel> {
    match current(ts) {
        TokenModel::Ident(name) => match advance(ts) {
            Err(error) => Err(error),
            Ok(after_name) => match expect(after_name, TokenModel::Colon) {
                Err(error) => Err(error),
                Ok(after_colon) => match parse_type(after_colon) {
                    Err(error) => Err(error),
                    Ok((ty, rest)) => Ok((FieldModel { name, ty }, rest)),
                },
            },
        },
        _ => Err(mismatch(ExpectedModel::FieldName, ts)),
    }
}

/// A type takes at least one token.
pub proof fn lemma_parse_type_consumes(ts: Seq<Lexeme>)
    ensures
        parse_type(ts) matches Ok((_, rest)) ==> rest.len() < ts.len(),
{
}

/// A field takes at least one token.
pub proof fn lemma_parse_field_consumes(ts: Seq<Lexeme>)
    ensures
        parse_field(ts) matches Ok((_, rest)) ==> rest.len() < ts.len(),
{
    lemma_parse_type_consumes(ts.drop_first().drop_first());
}

/// `field_list? := (field (',' field)* ','?)?`, after the fields in `done`.
///
/// The list ends in front of a closing brace, after a field that no comma
/// follows, and after a comma that an opening brace follows.
pub open spec fn parse_fields(ts: Seq<Lexeme>, done: Seq<FieldModel>) -> Parsed<Seq<FieldModel>>
    decreases ts.len(),
{
    if current(ts) == TokenModel::RBrace {
        Ok((done, ts))
    } else {
        match parse_field(ts) {
            Err(error) => Err(error),
            Ok((field, after_field)) => if current(after_field) == TokenModel::Comma {
                match advance(after_field) {
                    Err(error) => Err(error),
                    Ok(rest) => if current(rest) == TokenModel::LBrace {
                        Ok((done.push(field), rest))
                    } else {
                        proof {
                            lemma_parse_field_consumes(ts);
                        }
                        parse_fields(rest, done.push(field))
                    },
                }
            } else {
                Ok((done.push(field), after_field))
            },
        }
    }
}

/// A field list never gives tokens back.
pub proof fn lemma_parse_fields_consumes(ts: Seq<Lexeme>, done: Seq<FieldModel>)
    ensures
        parse_fields(ts, done) matches Ok((_, rest)) ==> rest.len() <= ts.len(),
    decreases ts.len(),
{
    lemma_parse_field_consumes(ts);
    if current(ts) != TokenModel::RBrace {
        if let Ok((field, after_field)) = parse_field(ts) {
            if current(after_field) == TokenModel::Comma {
                if let Ok(rest) = advance(after_field) {
                    if current(rest) != TokenModel::LBrace {
                        lemma_parse_fields_consumes(rest, done.push(field));
                    }
                }
            }
        }
    }
}

/// `struct_def := 'struct' IDENT '{' field_list? '}'`, with the decorators
/// that stood in front of it.
pub open spec fn parse_struct(ts: Seq<Lexeme>, decorators: Seq<Seq<char>>) -> Parsed<StructModel> {
    match expect(ts, TokenModel::Struct) {
        Err(error) => Err(error),
        Ok(after_keyword) => match current(after_keyword) {
            TokenModel::Ident(name) => match advance(after_keyword) {
                Err(error) => Err(error),
                Ok(after_name) => match expect(after_name, TokenModel::LBrace) {
                    Err(error) => Err(error),
                    Ok(after_brace) => match parse_fields(after_brace, Seq::empty()) {
                        Err(error) => Err(error),
                        Ok((fields, after_fields)) => match expect(after_fields, TokenModel::RBrace) {
                            Err(error) => Err(error),
                            Ok(rest) => Ok((StructModel { name, fields, decorators }, rest)),
                        },
                    },
                },
            },
            _ => Err(mismatch(ExpectedModel::StructName, after_keyword)),
        },
    }
}

/// A record definition takes at least one token.
pub proof fn lemma_parse_struct_consumes(ts: Seq<Lexeme>, decorators: Seq<Seq<char>>)
    ensures
        parse_struct(ts, decorators) matches Ok((_, rest)) ==> rest.len() < ts.len(),
{
    if let Ok(after_keyword) = expect(ts, TokenModel::Struct) {
        if let Ok(after_name) = advance(after_keyword) {
            if let Ok(after_brace) = expect(after_name, TokenModel::LBrace) {
                lemma_parse_fields_consumes(after_brace, Seq::empty());
            }
        }
    }
}

/// `decorators := decorator*`, after the decorators in `done`.
pub open spec fn parse_decorators(ts: Seq<Lexeme>, done: Seq<Seq<char>>) -> Parsed<Seq<Seq<char>>>
    decreases ts.len(),
{
    match current(ts) {
        TokenModel::Decorator(name) => match advance(ts) {
            Err(error) => Err(error),
            Ok(rest) => parse_decorators(rest, done.push(name)),
        },
        _ => Ok((done, ts)),
    }
}

/// A run of decorators never gives tokens back.
pub proof fn lemma_parse_decorators_consumes(ts: Seq<Lexeme>, done: Seq<Seq<char>>)
    ensures
        parse_decorators(ts, done) matches Ok((_, rest)) ==> rest.len() <= ts.len(),
    decreases ts.len(),
{
    if let TokenModel::Decorator(name) = current(ts) {
        if let Ok(rest) = advance(ts) {
            lemma_parse_decorators_consumes(rest, done.push(name));
        }
    }
}

/// `document := (decorators struct_def)*`, after the records in `done`.
pub open spec fn parse_document(ts: Seq<Lexeme>, done: Seq<StructModel>) -> Result<
    Seq<StructModel>,
    ParseErrorModel,
>
    decreases ts.len(),
{
    if current(ts) == TokenModel::Eof {
        Ok(done)
    } else {
        match parse_decorators(ts, Seq::empty()) {
            Err(error) => Err(error),
            Ok((decorators, after_decorators)) => match parse_struct(after_decorators, decorators) {
                Err(error) => Err(error),
                Ok((record, rest)) => {
                    proof {
                        lemma_parse_decorators_consumes(ts, Seq::empty());
                        lemma_parse_struct_consumes(after_decorators, decorators);
                    }
                    parse_document(rest, done.push(record))
                },
            },
        }
    }
}

/// The document that a source text describes, or the first error in it.
pub open spec fn parse_source(input: Seq<char>) -> Result<Seq<StructModel>, ParseErrorModel> {
    match begin(token_stream(input, 0)) {
        Err(error) => Err(error),
        Ok(ts) => parse_document(ts, Seq::empty()),
    }
}

/// Whether `rest` is what is left of `ts` after some of its lexemes.
pub open spec fn left_of(rest: Seq<Lexeme>, ts: Seq<Lexeme>) -> bool {
    rest.len() <= ts.len() && rest == ts.skip(ts.len() - rest.len())
}

/// Whether every lexeme of `ts` is a token.
pub open spec fn all_tokens(ts: Seq<Lexeme>) -> bool {
    forall|i: int| 0 <= i < ts.len() ==> (#[trigger] ts[i]) is Ok
}

/// Whether `token` occurs in `ts`.
pub open spec fn has_token(ts: Seq<Lexeme>, token: TokenModel) -> bool {
    exists|i: int| 0 <= i < ts.len() && #[trigger] ts[i] == Ok::<TokenModel, LexicalError>(token)
}

/// What is left of what is left of a stream is left of the stream.
pub proof fn lemma_left_of_left(rest: Seq<Lexeme>, middle: Seq<Lexeme>, ts: Seq<Lexeme>)
    requires
        left_of(rest, middle),
        left_of(middle, ts),
    ensures
        left_of(rest, ts),
{
    assert(rest =~= ts.skip(ts.len() - rest.len()));
}

/// What is left of a stream holds no lexeme that the stream does not hold.
pub proof fn lemma_left_of_holds(rest: Seq<Lexeme>, ts: Seq<Lexeme>, token: TokenModel)
    requires
        left_of(rest, ts),
    ensures
        all_tokens(ts) ==> all_tokens(rest),
        has_token(rest, token) ==> has_token(ts, token),
        !has_token(ts, token) ==> current(rest) != token || token == TokenModel::Eof,
{
    let shift = ts.len() - rest.len();
    assert forall|i: int| 0 <= i < rest.len() implies #[trigger] rest[i] == ts[shift + i] by {}
    if has_token(rest, token) {
        let i = choose|i: int|
            0 <= i < rest.len() && #[trigger] rest[i] == Ok::<TokenModel, LexicalError>(token);
        assert(ts[shift + i] == Ok::<TokenModel, LexicalError>(token));
    }
    if current(rest) == token && token != TokenModel::Eof {
        assert(rest[0] == Ok::<TokenModel, LexicalError>(token));
    }
}

/// A step leaves a rest of the stream, and cannot fail on tokens alone.
pub proof fn lemma_advance_leaves(ts: Seq<Lexeme>)
    ensures
        advance(ts) matches Ok(rest) ==> left_of(rest, ts),
        all_tokens(ts) ==> advance(ts) is Ok,
{
    if ts.len() > 0 {
        assert(ts.drop_first() =~= ts.skip(1));
        if all_tokens(ts) && ts.len() > 1 {
            assert(ts.drop_first()[0] == ts[1]);
        }
    } else {
        assert(ts =~= ts.skip(0));
    }
}

/// A type leaves a rest of the stream, and fails on tokens alone only with
/// a syntax error.
pub proof fn lemma_parse_type_leaves(ts: Seq<Lexeme>)
    ensures
        parse_type(ts) matches Ok((_, rest)) ==> left_of(rest, ts),
        all_tokens(ts) ==> (parse_type(ts) matches Err(error) ==> error is Syntax),
{
    lemma_advance_leaves(ts);
    if let Ok(after_base) = advance(ts) {
        lemma_advance_leaves(after_base);
        lemma_left_of_holds(after_base, ts, TokenModel::Eof);
        if let Ok(rest) = advance(after_base) {
            lemma_left_of_left(rest, after_base, ts);
        }
    }
}

/// A field leaves a rest of the stream, and fails on tokens alone only with
/// a syntax error.
pub proof fn lemma_parse_field_leaves(ts: Seq<Lexeme>)
    ensures
        parse_field(ts) matches Ok((_, rest)) ==> left_of(rest, ts),
        all_tokens(ts) ==> (parse_field(ts) matches Err(error) ==> error is Syntax),
{
    lemma_advance_leaves(ts);
    if let Ok(after_name) = advance(ts) {
        lemma_advance_leaves(after_name);
        lemma_left_of_holds(after_name, ts, TokenModel::Eof);
        if let Ok(after_colon) = expect(after_name, TokenModel::Colon) {
            lemma_left_of_left(after_colon, after_name, ts);
            lemma_left_of_holds(after_colon, ts, TokenModel::Eof);
            lemma_parse_type_leaves(after_colon);
            if let Ok((_, rest)) = parse_type(after_colon) {
                lemma_left_of_left(rest, after_colon, ts);
            }
        }
    }
}

/// A field list leaves a rest of the stream, and fails on tokens alone only
/// with a syntax error.
pub proof fn lemma_parse_fields_leaves(ts: Seq<Lexeme>, done: Seq<FieldModel>)
    ensures
        parse_fields(ts, done) matches Ok((_, rest)) ==> left_of(rest, ts),
        all_tokens(ts) ==> (parse_fields(ts, done) matches Err(error) ==> error is Syntax),
    decreases ts.len(),
{
    if current(ts) == TokenModel::RBrace {
        assert(ts =~= ts.skip(0));
    } else {
        lemma_parse_field_leaves(ts);
        lemma_parse_field_consumes(ts);
        if let Ok((field, after_field)) = parse_field(ts) {
            lemma_left_of_holds(after_field, ts, TokenModel::Eof);
            lemma_advance_leaves(after_field);
            if current(after_field) == TokenModel::Comma {
                if let Ok(rest) = advance(after_field) {
                    lemma_left_of_left(rest, after_field, ts);
                    lemma_left_of_holds(rest, ts, TokenModel::Eof);
                    if current(rest) != TokenModel::LBrace {
                        lemma_parse_fields_leaves(rest, done.push(field));
                        if let Ok((_, last)) = parse_fields(rest, done.push(field)) {
                            lemma_left_of_left(last, rest, ts);
                        }
                    }
                }
            }
        }
    }
}

/// A record definition without a closing brace is a syntax error: in a
/// stream of tokens that holds no closing brace, no record is ever parsed,
/// in part or in whole.
pub proof fn lemma_unclosed_record_is_syntax_error(ts: Seq<Lexeme>, decorators: Seq<Seq<char>>)
    requires
        all_tokens(ts),
        !has_token(ts, TokenModel::RBrace),
    ensures
        parse_struct(ts, decorators) matches Err(error) && error is Syntax,
{
    lemma_advance_leaves(ts);
    if let Ok(after_keyword) = expect(ts, TokenModel::Struct) {
        lemma_left_of_holds(after_keyword, ts, TokenModel::Eof);
        lemma_advance_leaves(after_keyword);
        if let TokenModel::Ident(_) = current(after_keyword) {
            if let Ok(after_name) = advance(after_keyword) {
                lemma_left_of_left(after_name, after_keyword, ts);
                lemma_left_of_holds(after_name, ts, TokenModel::Eof);
                lemma_advance_leaves(after_name);
                if let Ok(after_brace) = expect(after_name, TokenModel::LBrace) {
                    lemma_left_of_left(after_brace, after_name, ts);
                    lemma_left_of_holds(after_brace, ts, TokenModel::Eof);
                    lemma_parse_fields_leaves(after_brace, Seq::empty());
                    if let Ok((_, after_fields)) = parse_fields(after_brace, Seq::empty()) {
                        lemma_left_of_left(after_fields, after_brace, ts);
                        lemma_left_of_holds(after_fields, ts, TokenModel::RBrace);
                    }
                }
            }
        }
    }
}

/// A run of decorators leaves a rest of the stream, and cannot fail on
/// tokens alone.
pub proof fn lemma_parse_decorators_leaves(ts: Seq<Lexeme>, done: Seq<Seq<char>>)
    ensures
        parse_decorators(ts, done) matches Ok((_, rest)) ==> left_of(rest, ts),
        all_tokens(ts) ==> parse_decorators(ts, done) is Ok,
    decreases ts.len(),
{
    if let TokenModel::Decorator(name) = current(ts) {
        lemma_advance_leaves(ts);
        if let Ok(rest) = advance(ts) {
            lemma_left_of_holds(rest, ts, TokenModel::Eof);
            lemma_parse_decorators_leaves(rest, done.push(name));
            if let Ok((_, last)) = parse_decorators(rest, done.push(name)) {
                lemma_left_of_left(last, rest, ts);
            }
        }
    } else {
        assert(ts =~= ts.skip(0));
    }
}

/// A document that is not empty and holds no closing brace is a syntax
/// error: no record list comes out of it, in part or in whole.
pub proof fn lemma_unclosed_document_is_syntax_error(ts: Seq<Lexeme>, done: Seq<StructModel>)
    requires
        all_tokens(ts),
        !has_token(ts, TokenModel::RBrace),
        current(ts) != TokenModel::Eof,
    ensures
        parse_document(ts, done) matches Err(error) && error is Syntax,
{
    lemma_parse_decorators_leaves(ts, Seq::empty());
    if let Ok((decorators, after_decorators)) = parse_decorators(ts, Seq::empty()) {
        lemma_left_of_holds(after_decorators, ts, TokenModel::RBrace);
        lemma_unclosed_record_is_syntax_error(after_decorators, decorators);
    }
}

} // verus!
