//! The token form of a document, and the proof that parsing inverts it.
//!
//! Every record, field and type can be written down as tokens. What is
//! written down can be read back: the grammar gives the same record, field
//! or type again, with every name as it was. The one condition is that a
//! type can be written at all: an array holds no array, and a reference
//! does not bear the name of a primitive.

use vstd::prelude::*;
use crate::ast::{FieldModel, StructModel, TypeModel};
use crate::error::{LexicalError, ParseErrorModel};
use crate::grammar::{
    advance, current, ident_to_type, parse_decorators, parse_document, parse_field, parse_fields,
    parse_struct, parse_type, Lexeme,
};
use crate::lexer::TokenModel;

verus! {

/// Whether `ty` is written as one name that reads back as `ty`.
pub open spec fn is_base_type(ty: TypeModel) -> bool {
    match ty {
        TypeModel::Array(_) => false,
        TypeModel::Custom(name) => name != "String"@ && name != "i32"@ && name != "bool"@,
        _ => true,
    }
}

/// Whether `ty` can be written down: a base type, or an array of one.
pub open spec fn writable_type(ty: TypeModel) -> bool {
    match ty {
        TypeModel::Array(inner) => is_base_type(*inner),
        _ => is_base_type(ty),
    }
}

/// Whether the type of each of `fields` can be written down.
pub open spec fn writable_fields(fields: Seq<FieldModel>) -> bool {
    forall|i: int| 0 <= i < fields.len() ==> writable_type((#[trigger] fields[i]).ty)
}

/// Whether each record of `doc` can be written down.
pub open spec fn writable_document(doc: Seq<StructModel>) -> bool {
    forall|i: int| 0 <= i < doc.len() ==> writable_fields((#[trigger] doc[i]).fields)
}

/// The name of a base type.
pub open spec fn base_name(ty: TypeModel) -> Seq<char> {
    match ty {
        TypeModel::String => "String"@,
        TypeModel::Int => "i32"@,
        TypeModel::Bool => "bool"@,
        TypeModel::Custom(name) => name,
        TypeModel::Array(_) => Seq::empty(),
    }
}

/// A type as tokens: its base name, and the array marker for an array.
pub open spec fn type_tokens(ty: TypeModel) -> Seq<TokenModel> {
    match ty {
        TypeModel::Array(inner) => seq![
            TokenModel::Ident(base_name(*inner)),
            TokenModel::LBracket,
        ],
        _ => seq![TokenModel::Ident(base_name(ty))],
    }
}

/// A field as tokens: its name, a colon and its type.
pub open spec fn field_tokens(field: FieldModel) -> Seq<TokenModel> {
    seq![TokenModel::Ident(field.name), TokenModel::Colon] + type_tokens(field.ty)
}

/// A field list as tokens: each field with a comma after it.
pub open spec fn fields_tokens(fields: Seq<FieldModel>) -> Seq<TokenModel>
    decreases fields.len(),
{
    if fields.len() == 0 {
        Seq::empty()
    } else {
        field_tokens(fields[0]).push(TokenModel::Comma) + fields_tokens(fields.drop_first())
    }
}

/// Decorators as tokens.
pub open spec fn decorator_tokens(decorators: Seq<Seq<char>>) -> Seq<TokenModel> {
    decorators.map_values(|name: Seq<char>| TokenModel::Decorator(name))
}

/// A record definition as tokens, without its decorators.
pub open spec fn definition_tokens(record: StructModel) -> Seq<TokenModel> {
    seq![TokenModel::Struct, TokenModel::Ident(record.name), TokenModel::LBrace] + fields_tokens(
        record.fields,
    ).push(TokenModel::RBrace)
}

/// A record as tokens: its decorators, then its definition.
pub open spec fn struct_tokens(record: StructModel) -> Seq<TokenModel> {
    decorator_tokens(record.decorators) + definition_tokens(record)
}

/// A document as tokens: its records, one after the other.
pub open spec fn document_tokens(doc: Seq<StructModel>) -> Seq<TokenModel>
    decreases doc.len(),
{
    if doc.len() == 0 {
        Seq::empty()
    } else {
        struct_tokens(doc[0]) + document_tokens(doc.drop_first())
    }
}

/// Tokens as a stream of lexemes.
pub open spec fn lexemes(tokens: Seq<TokenModel>) -> Seq<Lexeme> {
    tokens.map_values(|token: TokenModel| Ok::<TokenModel, LexicalError>(token))
}

/// Whether a parse can stop in front of `rest`: the next lexeme, if there
/// is one, is a token.
pub open spec fn starts_with_token(rest: Seq<Lexeme>) -> bool {
    rest.len() > 0 ==> rest[0] is Ok
}

/// The stream that starts with `token` has it as its current token, and
/// leaves the rest when the token is consumed.
pub proof fn lemma_step(token: TokenModel, rest: Seq<Lexeme>)
    ensures
        current(seq![Ok(token)] + rest) == token,
        starts_with_token(rest) ==> advance(seq![Ok(token)] + rest) == Ok::<
            Seq<Lexeme>,
            ParseErrorModel,
        >(rest),
{
    let ts = seq![Ok::<TokenModel, LexicalError>(token)] + rest;
    assert(ts[0] == Ok::<TokenModel, LexicalError>(token));
    assert(ts.drop_first() =~= rest);
}

/// The three primitive names differ from one another.
pub proof fn lemma_primitive_names_differ()
    ensures
        "String"@ != "i32"@,
        "String"@ != "bool"@,
        "i32"@ != "bool"@,
{
    reveal_strlit("String");
    reveal_strlit("i32");
    reveal_strlit("bool");
    assert("String"@.len() == 6);
    assert("i32"@.len() == 3);
    assert("bool"@.len() == 4);
}

/// A type that is written down reads back as itself.
pub proof fn lemma_type_reads_back(ty: TypeModel, rest: Seq<Lexeme>)
    requires
        writable_type(ty),
        starts_with_token(rest),
        ty is Array || current(rest) != TokenModel::LBracket,
    ensures
        parse_type(lexemes(type_tokens(ty)) + rest) == Ok::<
            (TypeModel, Seq<Lexeme>),
            ParseErrorModel,
        >((ty, rest)),
{
    lemma_primitive_names_differ();
    match ty {
        TypeModel::Array(inner) => {
            let name = base_name(*inner);
            let after_base = seq![Ok::<TokenModel, LexicalError>(TokenModel::LBracket)]
                + rest;
            assert(lexemes(type_tokens(ty)) + rest =~= seq![
                Ok::<TokenModel, LexicalError>(TokenModel::Ident(name)),
            ] + after_base);
            lemma_step(TokenModel::Ident(name), after_base);
            lemma_step(TokenModel::LBracket, rest);
            assert(ident_to_type(name) == *inner);
        },
        _ => {
            let name = base_name(ty);
            assert(lexemes(type_tokens(ty)) + rest =~= seq![
                Ok::<TokenModel, LexicalError>(TokenModel::Ident(name)),
            ] + rest);
            lemma_step(TokenModel::Ident(name), rest);
            assert(ident_to_type(name) == ty);
        },
    }
}

/// A field that is written down reads back as itself: the same name, the
/// same type, and the name of a referenced record as it was.
pub proof fn lemma_field_reads_back(field: FieldModel, rest: Seq<Lexeme>)
    requires
        writable_type(field.ty),
        starts_with_token(rest),
        field.ty is Array || current(rest) != TokenModel::LBracket,
    ensures
        parse_field(lexemes(field_tokens(field)) + rest) == Ok::<
            (FieldModel, Seq<Lexeme>),
            ParseErrorModel,
        >((field, rest)),
{
    let ty = lexemes(type_tokens(field.ty)) + rest;
    let after_name = seq![Ok::<TokenModel, LexicalError>(TokenModel::Colon)] + ty;
    assert(lexemes(field_tokens(field)) + rest =~= seq![
        Ok::<TokenModel, LexicalError>(TokenModel::Ident(field.name)),
    ] + after_name);
    assert(ty[0] is Ok);
    lemma_step(TokenModel::Ident(field.name), after_name);
    lemma_step(TokenModel::Colon, ty);
    lemma_type_reads_back(field.ty, rest);
}

/// A field list that is written down in front of a closing brace reads
/// back as itself, after the fields already read.
pub proof fn lemma_fields_read_back(
    fields: Seq<FieldModel>,
    done: Seq<FieldModel>,
    rest: Seq<Lexeme>,
)
    requires
        writable_fields(fields),
        current(rest) == TokenModel::RBrace,
    ensures
        parse_fields(lexemes(fields_tokens(fields)) + rest, done) == Ok::<
            (Seq<FieldModel>, Seq<Lexeme>),
            ParseErrorModel,
        >((done + fields, rest)),
    decreases fields.len(),
{
    if fields.len() == 0 {
        assert(lexemes(fields_tokens(fields)) + rest =~= rest);
        assert(done + fields =~= done);
    } else {
        let field = fields[0];
        let tail = fields.drop_first();
        let after_comma = lexemes(fields_tokens(tail)) + rest;
        let after_field = seq![Ok::<TokenModel, LexicalError>(TokenModel::Comma)]
            + after_comma;
        let ts = lexemes(fields_tokens(fields)) + rest;
        assert(ts =~= lexemes(field_tokens(field)) + after_field);
        assert(ts[0] == Ok::<TokenModel, LexicalError>(
            TokenModel::Ident(field.name),
        ));
        lemma_step(TokenModel::Comma, after_comma);
        lemma_field_reads_back(field, after_field);
        assert(writable_fields(tail)) by {
            assert forall|i: int| 0 <= i < tail.len() implies writable_type(
                (#[trigger] tail[i]).ty,
            ) by {
                assert(tail[i] == fields[i + 1]);
            }
        }
        if tail.len() > 0 {
            assert(after_comma[0] == Ok::<TokenModel, LexicalError>(
                TokenModel::Ident(tail[0].name),
            ));
        } else {
            assert(after_comma =~= rest);
        }
        lemma_fields_read_back(tail, done.push(field), rest);
        assert(done.push(field) + tail =~= done + fields);
    }
}

/// A record definition that is written down reads back as the record,
/// with the decorators that were read in front of it.
pub proof fn lemma_definition_reads_back(record: StructModel, rest: Seq<Lexeme>)
    requires
        writable_fields(record.fields),
        starts_with_token(rest),
    ensures
        parse_struct(lexemes(definition_tokens(record)) + rest, record.decorators) == Ok::<
            (StructModel, Seq<Lexeme>),
            ParseErrorModel,
        >((record, rest)),
{
    let after_fields = seq![Ok::<TokenModel, LexicalError>(TokenModel::RBrace)]
        + rest;
    let after_brace = lexemes(fields_tokens(record.fields)) + after_fields;
    let after_name = seq![Ok::<TokenModel, LexicalError>(TokenModel::LBrace)]
        + after_brace;
    let after_keyword = seq![
        Ok::<TokenModel, LexicalError>(TokenModel::Ident(record.name)),
    ] + after_name;
    let ts = lexemes(definition_tokens(record)) + rest;
    assert(ts =~= seq![Ok::<TokenModel, LexicalError>(TokenModel::Struct)]
        + after_keyword);
    assert(after_brace[0] is Ok);
    lemma_step(TokenModel::Struct, after_keyword);
    lemma_step(TokenModel::Ident(record.name), after_name);
    lemma_step(TokenModel::LBrace, after_brace);
    lemma_step(TokenModel::RBrace, rest);
    lemma_fields_read_back(record.fields, Seq::empty(), after_fields);
    assert(Seq::<FieldModel>::empty() + record.fields =~= record.fields);
}

/// Decorators that are written down in front of anything but a decorator
/// read back as themselves, after the decorators already read.
pub proof fn lemma_decorators_read_back(
    decorators: Seq<Seq<char>>,
    done: Seq<Seq<char>>,
    rest: Seq<Lexeme>,
)
    requires
        starts_with_token(rest),
        !(current(rest) is Decorator),
    ensures
        parse_decorators(lexemes(decorator_tokens(decorators)) + rest, done) == Ok::<
            (Seq<Seq<char>>, Seq<Lexeme>),
            ParseErrorModel,
        >((done + decorators, rest)),
    decreases decorators.len(),
{
    if decorators.len() == 0 {
        assert(lexemes(decorator_tokens(decorators)) + rest =~= rest);
        assert(done + decorators =~= done);
    } else {
        let tail = decorators.drop_first();
        let after = lexemes(decorator_tokens(tail)) + rest;
        assert(lexemes(decorator_tokens(decorators)) + rest =~= seq![
            Ok::<TokenModel, LexicalError>(TokenModel::Decorator(decorators[0])),
        ] + after);
        assert(starts_with_token(after)) by {
            if tail.len() > 0 {
                assert(after[0] == Ok::<TokenModel, LexicalError>(
                    TokenModel::Decorator(tail[0]),
                ));
            } else {
                assert(after =~= rest);
            }
        }
        lemma_step(TokenModel::Decorator(decorators[0]), after);
        lemma_decorators_read_back(tail, done.push(decorators[0]), rest);
        assert(done.push(decorators[0]) + tail =~= done + decorators);
    }
}

/// A document that is written down reads back as itself, after the
/// records already read: the same records in the same order, with the same
/// names, fields, types and decorators.
pub proof fn lemma_document_reads_back(doc: Seq<StructModel>, done: Seq<StructModel>)
    requires
        writable_document(doc),
    ensures
        parse_document(lexemes(document_tokens(doc)), done) == Ok::<
            Seq<StructModel>,
            ParseErrorModel,
        >(done + doc),
    decreases doc.len(),
{
    if doc.len() == 0 {
        assert(done + doc =~= done);
    } else {
        let record = doc[0];
        let tail = doc.drop_first();
        let rest = lexemes(document_tokens(tail));
        let definition = lexemes(definition_tokens(record)) + rest;
        let ts = lexemes(document_tokens(doc));
        assert(ts =~= lexemes(decorator_tokens(record.decorators)) + definition);
        assert(definition[0] == Ok::<TokenModel, LexicalError>(TokenModel::Struct));
        assert(ts.len() > 0 && ts[0] is Ok && ts[0]->Ok_0 != TokenModel::Eof) by {
            if record.decorators.len() > 0 {
                assert(ts[0] == Ok::<TokenModel, LexicalError>(
                    TokenModel::Decorator(record.decorators[0]),
                ));
            } else {
                assert(ts =~= definition);
            }
        }
        if tail.len() > 0 {
            assert(rest.len() > 0 && rest[0] is Ok) by {
                let next = lexemes(struct_tokens(tail[0]));
                assert(rest =~= next + lexemes(document_tokens(tail.drop_first())));
                assert(next.len() > 0);
                assert(next[0] is Ok);
            }
        } else {
            assert(rest =~= Seq::empty());
        }
        lemma_decorators_read_back(record.decorators, Seq::empty(), definition);
        assert(Seq::<Seq<char>>::empty() + record.decorators =~= record.decorators);
        lemma_definition_reads_back(record, rest);
        assert(writable_document(tail)) by {
            assert forall|i: int| 0 <= i < tail.len() implies writable_fields(
                (#[trigger] tail[i]).fields,
            ) by {
                assert(tail[i] == doc[i + 1]);
            }
        }
        lemma_document_reads_back(tail, done.push(record));
        assert(done.push(record) + tail =~= done + doc);
    }
}

} // verus!
