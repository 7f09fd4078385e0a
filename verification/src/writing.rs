//! Documents written as text, and the proof that the text reads back.
//!
//! A token has a text, and a document is written as the texts of its
//! tokens with a space after each. Which characters are letters and which
//! are whitespace is for the standard library to say, so the proof takes
//! what it needs of that as its premise: the space is whitespace, no mark
//! of punctuation is whitespace or part of a word, and every name is a
//! word. On that premise the text of a document parses to the document.

use vstd::prelude::*;
use crate::ast::{FieldModel, StructModel, TypeModel};
use crate::error::{LexicalError, ParseErrorModel};
use crate::grammar::{parse_source, token_stream};
use crate::lexer::{
    ident_end, is_ident_char, lemma_ident_end, lemma_scan_bounds, lemma_skip_whitespace, scan,
    skip_whitespace, struct_keyword, Scan, TokenModel,
};
use crate::notation::{
    base_name, decorator_tokens, definition_tokens, document_tokens, field_tokens, fields_tokens,
    lemma_document_reads_back, lexemes, struct_tokens, type_tokens, writable_document,
};
use crate::text::{char_is_alphabetic, char_is_whitespace};

verus! {

/// A token as text.
pub open spec fn token_text(token: TokenModel) -> Seq<char> {
    match token {
        TokenModel::Struct => struct_keyword(),
        TokenModel::Ident(name) => name,
        TokenModel::Colon => seq![':'],
        TokenModel::Comma => seq![','],
        TokenModel::LBrace => seq!['{'],
        TokenModel::RBrace => seq!['}'],
        TokenModel::LBracket => seq!['[', ']'],
        TokenModel::RBracket => seq![']'],
        TokenModel::Decorator(name) => seq!['['] + name + seq![']'],
        TokenModel::Eof => Seq::empty(),
    }
}

/// Tokens as text: the text of each, with a space after it.
pub open spec fn tokens_text(tokens: Seq<TokenModel>) -> Seq<char>
    decreases tokens.len(),
{
    if tokens.len() == 0 {
        Seq::empty()
    } else {
        token_text(tokens[0]).push(' ') + tokens_text(tokens.drop_first())
    }
}

/// A document as text.
pub open spec fn document_text(doc: Seq<StructModel>) -> Seq<char> {
    tokens_text(document_tokens(doc))
}

/// Whether `c` is neither whitespace nor part of a word.
pub open spec fn is_mark(c: char) -> bool {
    !char_is_whitespace(c) && !is_ident_char(c)
}

/// What the proof takes of the character classes: the space is whitespace
/// and part of no word, and the six marks of punctuation are marks.
pub open spec fn plain_classes() -> bool {
    &&& char_is_whitespace(' ')
    &&& !is_ident_char(' ')
    &&& is_mark(':')
    &&& is_mark(',')
    &&& is_mark('{')
    &&& is_mark('}')
    &&& is_mark('[')
    &&& is_mark(']')
}

/// Whether `text` can be the name of a decorator: a run of identifier
/// characters that is not empty.
pub open spec fn is_name(text: Seq<char>) -> bool {
    &&& text.len() > 0
    &&& forall|i: int| 0 <= i < text.len() ==> is_ident_char(#[trigger] text[i])
}

/// Whether `text` can be a word: a name that starts with an alphabetic
/// character that is no whitespace.
pub open spec fn is_word(text: Seq<char>) -> bool {
    &&& is_name(text)
    &&& char_is_alphabetic(text[0])
    &&& !char_is_whitespace(text[0])
}

/// Whether `token` can be written: its text is a word or a name as its
/// kind asks, and an identifier is not the keyword.
pub open spec fn token_written(token: TokenModel) -> bool {
    match token {
        TokenModel::Struct => is_word(struct_keyword()),
        TokenModel::Ident(name) => is_word(name) && name != struct_keyword(),
        TokenModel::Decorator(name) => is_name(name),
        TokenModel::Eof => false,
        _ => true,
    }
}

/// Whether each of `tokens` can be written.
pub open spec fn tokens_written(tokens: Seq<TokenModel>) -> bool {
    forall|i: int| 0 <= i < tokens.len() ==> token_written(#[trigger] tokens[i])
}

/// A run of identifier characters ends where the first other character
/// stands.
pub proof fn lemma_ident_run(input: Seq<char>, from: int, to: int)
    requires
        0 <= from <= to <= input.len(),
        forall|i: int| from <= i < to ==> is_ident_char(#[trigger] input[i]),
        to == input.len() || !is_ident_char(input[to]),
    ensures
        ident_end(input, from) == to,
    decreases to - from,
{
    if from < to {
        lemma_ident_run(input, from + 1, to);
    }
}

/// Whitespace is skipped in the same way behind any text.
pub proof fn lemma_skip_whitespace_behind(front: Seq<char>, back: Seq<char>, pos: int)
    requires
        0 <= pos <= back.len(),
    ensures
        skip_whitespace(front + back, front.len() + pos) == front.len() + skip_whitespace(
            back,
            pos,
        ),
    decreases back.len() - pos,
{
    if pos < back.len() {
        assert((front + back)[front.len() + pos] == back[pos]);
        if char_is_whitespace(back[pos]) {
            lemma_skip_whitespace_behind(front, back, pos + 1);
        }
    }
}

/// A run of identifier characters ends in the same way behind any text.
pub proof fn lemma_ident_end_behind(front: Seq<char>, back: Seq<char>, pos: int)
    requires
        0 <= pos <= back.len(),
    ensures
        ident_end(front + back, front.len() + pos) == front.len() + ident_end(back, pos),
    decreases back.len() - pos,
{
    if pos < back.len() {
        assert((front + back)[front.len() + pos] == back[pos]);
        if is_ident_char(back[pos]) {
            lemma_ident_end_behind(front, back, pos + 1);
        }
    }
}

/// A scan yields the same behind any text, that much further on.
pub proof fn lemma_scan_behind(front: Seq<char>, back: Seq<char>, pos: int)
    requires
        0 <= pos <= back.len(),
    ensures
        scan(front + back, front.len() + pos) == (Scan {
            outcome: scan(back, pos).outcome,
            next: front.len() + scan(back, pos).next,
        }),
{
    let whole = front + back;
    lemma_skip_whitespace_behind(front, back, pos);
    lemma_skip_whitespace(back, pos);
    let start = skip_whitespace(back, pos);
    if start < back.len() {
        assert(whole[front.len() + start] == back[start]);
        lemma_ident_end_behind(front, back, start + 1);
        lemma_ident_end(back, start + 1);
        let end = ident_end(back, start + 1);
        if end < back.len() {
            assert(whole[front.len() + end] == back[end]);
        }
        assert(whole.subrange(front.len() + start + 1, front.len() + end) =~= back.subrange(
            start + 1,
            end,
        ));
        assert(whole.subrange(front.len() + start, front.len() + end) =~= back.subrange(
            start,
            end,
        ));
    }
}

/// The lexemes are the same behind any text.
pub proof fn lemma_token_stream_behind(front: Seq<char>, back: Seq<char>, pos: int)
    requires
        0 <= pos <= back.len(),
    ensures
        token_stream(front + back, front.len() + pos) == token_stream(back, pos),
    decreases back.len() - pos,
{
    lemma_scan_behind(front, back, pos);
    lemma_scan_bounds(back, pos);
    let step = scan(back, pos);
    if step.outcome is Ok && step.outcome != Ok::<TokenModel, LexicalError>(TokenModel::Eof) {
        lemma_token_stream_behind(front, back, step.next);
    }
}

/// Whitespace in front is skipped whole.
pub proof fn lemma_skip_blank(front: Seq<char>, back: Seq<char>, pos: int)
    requires
        0 <= pos <= front.len(),
        forall|i: int| 0 <= i < front.len() ==> char_is_whitespace(#[trigger] front[i]),
    ensures
        skip_whitespace(front + back, pos) == front.len() + skip_whitespace(back, 0),
    decreases front.len() - pos,
{
    if pos < front.len() {
        assert((front + back)[pos] == front[pos]);
        lemma_skip_blank(front, back, pos + 1);
    } else {
        lemma_skip_whitespace_behind(front, back, 0);
    }
}

/// Whitespace in front changes no lexeme: however much of it stands before
/// a text, the tokens of the text are the same.
pub proof fn lemma_token_stream_after_blank(front: Seq<char>, back: Seq<char>)
    requires
        forall|i: int| 0 <= i < front.len() ==> char_is_whitespace(#[trigger] front[i]),
    ensures
        token_stream(front + back, 0) == token_stream(back, 0),
{
    let whole = front + back;
    lemma_skip_blank(front, back, 0);
    lemma_skip_whitespace_behind(front, back, 0);
    assert(skip_whitespace(whole, 0) == skip_whitespace(whole, front.len() as int));
    assert(scan(whole, 0) == scan(whole, front.len() as int));
    lemma_scan_behind(front, back, 0);
    lemma_scan_bounds(back, 0);
    let step = scan(back, 0);
    if step.outcome is Ok && step.outcome != Ok::<TokenModel, LexicalError>(TokenModel::Eof) {
        lemma_token_stream_behind(front, back, step.next);
    }
}

/// A space in front changes no lexeme.
pub proof fn lemma_token_stream_after_space(back: Seq<char>)
    requires
        char_is_whitespace(' '),
    ensures
        token_stream(seq![' '] + back, 0) == token_stream(back, 0),
{
    lemma_token_stream_after_blank(seq![' '], back);
}

/// The text of a token, with a space behind it, scans as that token, and
/// the scan stops where the text of the token ends.
pub proof fn lemma_token_scans(token: TokenModel, rest: Seq<char>)
    requires
        plain_classes(),
        token_written(token),
    ensures
        scan(token_text(token) + (seq![' '] + rest), 0) == (Scan {
            outcome: Ok(token),
            next: token_text(token).len() as int,
        }),
{
    let text = token_text(token);
    let input = text + (seq![' '] + rest);
    let n = text.len() as int;
    assert(input[n] == ' ');
    assert forall|i: int| 0 <= i < n implies #[trigger] input[i] == text[i] by {}
    match token {
        TokenModel::Struct => {
            assert(input[0] == text[0]);
            assert(skip_whitespace(input, 0) == 0);
            assert forall|i: int| 1 <= i < n implies is_ident_char(#[trigger] input[i]) by {
                assert(input[i] == text[i]);
            }
            lemma_ident_run(input, 1, n);
            assert(input.subrange(0, n) =~= text);
        },
        TokenModel::Ident(name) => {
            assert(input[0] == text[0]);
            assert(skip_whitespace(input, 0) == 0);
            assert forall|i: int| 1 <= i < n implies is_ident_char(#[trigger] input[i]) by {
                assert(input[i] == text[i]);
            }
            lemma_ident_run(input, 1, n);
            assert(input.subrange(0, n) =~= text);
        },
        TokenModel::Decorator(name) => {
            assert(input[0] == '[');
            assert(skip_whitespace(input, 0) == 0);
            assert(input[n - 1] == ']');
            assert forall|i: int| 1 <= i < n - 1 implies is_ident_char(#[trigger] input[i]) by {
                assert(input[i] == name[i - 1]);
            }
            lemma_ident_run(input, 1, n - 1);
            assert(input.subrange(1, n - 1) =~= name);
        },
        TokenModel::LBracket => {
            assert(input[0] == '[');
            assert(input[1] == ']');
            assert(skip_whitespace(input, 0) == 0);
            lemma_ident_run(input, 1, 1);
        },
        _ => {
            assert(input[0] == text[0]);
            assert(skip_whitespace(input, 0) == 0);
        },
    }
}

/// Tokens that are written as text are the lexemes of that text.
pub proof fn lemma_tokens_read_back(tokens: Seq<TokenModel>)
    requires
        plain_classes(),
        tokens_written(tokens),
    ensures
        token_stream(tokens_text(tokens), 0) == lexemes(tokens),
    decreases tokens.len(),
{
    if tokens.len() == 0 {
        assert(lexemes(tokens) =~= Seq::empty());
    } else {
        let token = tokens[0];
        let tail = tokens.drop_first();
        let text = token_text(token);
        let rest = tokens_text(tail);
        let behind = seq![' '] + rest;
        let input = tokens_text(tokens);
        assert(input =~= text + behind);
        assert(token_written(token));
        lemma_token_scans(token, rest);
        assert(tokens_written(tail)) by {
            assert forall|i: int| 0 <= i < tail.len() implies token_written(#[trigger] tail[i]) by {
                assert(tail[i] == tokens[i + 1]);
            }
        }
        lemma_token_stream_behind(text, behind, 0);
        lemma_token_stream_after_space(rest);
        lemma_tokens_read_back(tail);
        assert(lexemes(tokens) =~= seq![Ok::<TokenModel, LexicalError>(token)] + lexemes(tail));
    }
}

/// The name that a type is written with: its own, or that of the element
/// of an array.
pub open spec fn written_name(ty: TypeModel) -> Seq<char> {
    match ty {
        TypeModel::Array(inner) => base_name(*inner),
        _ => base_name(ty),
    }
}

/// Whether the names of `field` can be written: its own name and the name
/// of its type are words, and neither is the keyword.
pub open spec fn written_field(field: FieldModel) -> bool {
    &&& is_word(field.name)
    &&& field.name != struct_keyword()
    &&& is_word(written_name(field.ty))
    &&& written_name(field.ty) != struct_keyword()
}

/// Whether the names of `record` can be written: its name is a word and
/// not the keyword, its decorators are names, and its fields can be
/// written.
pub open spec fn written_record(record: StructModel) -> bool {
    &&& is_word(record.name)
    &&& record.name != struct_keyword()
    &&& forall|i: int|
        0 <= i < record.decorators.len() ==> is_name(#[trigger] record.decorators[i])
    &&& forall|i: int| 0 <= i < record.fields.len() ==> written_field(#[trigger] record.fields[i])
}

/// Whether the names of `doc` can be written, the keyword being a word.
pub open spec fn written_document(doc: Seq<StructModel>) -> bool {
    &&& is_word(struct_keyword())
    &&& forall|i: int| 0 <= i < doc.len() ==> written_record(#[trigger] doc[i])
}

/// Tokens that can be written, one run after another, can be written.
pub proof fn lemma_written_together(first: Seq<TokenModel>, second: Seq<TokenModel>)
    requires
        tokens_written(first),
        tokens_written(second),
    ensures
        tokens_written(first + second),
{
    assert forall|i: int| 0 <= i < (first + second).len() implies token_written(
        #[trigger] (first + second)[i],
    ) by {
        if i < first.len() {
            assert((first + second)[i] == first[i]);
        } else {
            assert((first + second)[i] == second[i - first.len()]);
        }
    }
}

/// The tokens of fields that can be written can be written.
pub proof fn lemma_fields_written(fields: Seq<FieldModel>)
    requires
        forall|i: int| 0 <= i < fields.len() ==> written_field(#[trigger] fields[i]),
    ensures
        tokens_written(fields_tokens(fields)),
    decreases fields.len(),
{
    if fields.len() > 0 {
        let field = fields[0];
        let tail = fields.drop_first();
        assert(written_field(field));
        assert forall|i: int| 0 <= i < tail.len() implies written_field(#[trigger] tail[i]) by {
            assert(tail[i] == fields[i + 1]);
        }
        lemma_fields_written(tail);
        let head = field_tokens(field).push(TokenModel::Comma);
        let ty = type_tokens(field.ty);
        assert(tokens_written(ty)) by {
            assert(ty[0] == TokenModel::Ident(written_name(field.ty)));
        }
        assert(tokens_written(head)) by {
            assert forall|i: int| 0 <= i < head.len() implies token_written(#[trigger] head[i]) by {
                if i >= 2 && i < 2 + ty.len() {
                    assert(head[i] == ty[i - 2]);
                }
            }
        }
        lemma_written_together(head, fields_tokens(tail));
    }
}

/// The tokens of a record that can be written can be written.
pub proof fn lemma_record_written(record: StructModel)
    requires
        is_word(struct_keyword()),
        written_record(record),
    ensures
        tokens_written(struct_tokens(record)),
{
    lemma_fields_written(record.fields);
    let opening = seq![
        TokenModel::Struct,
        TokenModel::Ident(record.name),
        TokenModel::LBrace,
    ];
    let body = fields_tokens(record.fields).push(TokenModel::RBrace);
    lemma_written_together(fields_tokens(record.fields), seq![TokenModel::RBrace]);
    assert(body =~= fields_tokens(record.fields) + seq![TokenModel::RBrace]);
    lemma_written_together(opening, body);
    lemma_written_together(decorator_tokens(record.decorators), definition_tokens(record));
}

/// The tokens of a document that can be written can be written.
pub proof fn lemma_document_written(doc: Seq<StructModel>)
    requires
        written_document(doc),
    ensures
        tokens_written(document_tokens(doc)),
    decreases doc.len(),
{
    if doc.len() > 0 {
        let tail = doc.drop_first();
        assert(written_record(doc[0]));
        assert forall|i: int| 0 <= i < tail.len() implies written_record(#[trigger] tail[i]) by {
            assert(tail[i] == doc[i + 1]);
        }
        lemma_record_written(doc[0]);
        lemma_document_written(tail);
        lemma_written_together(struct_tokens(doc[0]), document_tokens(tail));
    }
}

/// A document that is written as text reads back as itself: parsing the
/// text gives the same records in the same order, with the same names,
/// fields, types and decorators.
pub proof fn lemma_text_reads_back(doc: Seq<StructModel>)
    requires
        plain_classes(),
        writable_document(doc),
        written_document(doc),
    ensures
        parse_source(document_text(doc)) == Ok::<Seq<StructModel>, ParseErrorModel>(doc),
{
    let tokens = document_tokens(doc);
    lemma_document_written(doc);
    lemma_tokens_read_back(tokens);
    if tokens.len() > 0 {
        assert(lexemes(tokens)[0] is Ok);
    }
    lemma_document_reads_back(doc, Seq::empty());
    assert(Seq::<StructModel>::empty() + doc =~= doc);
}

} // verus!
