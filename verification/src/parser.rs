//! The recursive-descent parser: it drives the tokenizer and builds the
//! records of a document.

use vstd::prelude::*;
use crate::ast::{
    document_model, fields_model, names_model, Field, FieldModel, Struct, StructModel, Type,
    TypeModel,
};
use crate::error::{Expected, LexicalError, ParseError, ParseErrorModel, SyntaxError};
use crate::grammar;
use crate::grammar::Lexeme;
use crate::lexer::{lemma_scan_at_end, lemma_scan_bounds, Lexer, Token, TokenModel};

verus! {

/// A parser over a source text. It holds the one token that the grammar
/// looks at, and fetches the next when that one is consumed.
pub struct Parser<'a> {
    lexer: Lexer,
    current: Token,
    src: &'a str,
}

impl<'a> Parser<'a> {
    /// The source text that the parser was made for.
    pub closed spec fn source(&self) -> Seq<char> {
        self.src@
    }

    /// The lexemes that are still to be parsed: the current token and what
    /// the tokenizer will yield after it.
    pub closed spec fn pending(&self) -> Seq<Lexeme> {
        if self.current@ == TokenModel::Eof {
            Seq::empty()
        } else {
            seq![Ok(self.current@)] + grammar::token_stream(
                self.lexer.input(),
                self.lexer.position(),
            )
        }
    }

    /// The tokenizer reads the source and has not left it; after the last
    /// token it stands at the end.
    pub closed spec fn wf(&self) -> bool {
        &&& self.lexer.wf()
        &&& self.lexer.input() == self.src@
        &&& self.current@ == TokenModel::Eof ==> self.lexer.position() == self.lexer.input().len()
    }

    /// A parser at the start of `src`, with the first token fetched. Fails
    /// where the text starts with a character that starts no token.
    pub fn new(src: &'a str) -> (result: Result<Parser<'a>, LexicalError>)
        ensures
            match result {
                Ok(parser) => {
                    &&& parser.wf()
                    &&& parser.source() == src@
                    &&& grammar::begin(grammar::token_stream(src@, 0)) == Ok::<
                        Seq<Lexeme>,
                        ParseErrorModel,
                    >(parser.pending())
                },
                Err(error) => grammar::begin(grammar::token_stream(src@, 0)) == Err::<
                    Seq<Lexeme>,
                    ParseErrorModel,
                >(ParseErrorModel::Lexical(error)),
            },
    {
        let mut lexer = Lexer::new(src);
        proof {
            lemma_scan_bounds(lexer.input(), 0);
        }
        match lexer.next_token() {
            Ok(first_token) => Ok(Parser { lexer, current: first_token, src }),
            Err(error) => Err(error),
        }
    }

    /// The source text that the parser was made for.
    pub fn src(&self) -> (src: &'a str)
        ensures
            src@ == self.source(),
    {
        self.src
    }

    /// Consumes the current token and fetches the next one.
    fn next(&mut self) -> (result: Result<(), ParseError>)
        requires
            old(self).wf(),
        ensures
            final(self).wf(),
            final(self).source() == old(self).source(),
            stepped(grammar::advance(old(self).pending()), result, final(self).pending()),
    {
        proof {
            lemma_scan_bounds(self.lexer.input(), self.lexer.position());
            lemma_scan_at_end(self.lexer.input());
            if self.current@ != TokenModel::Eof {
                assert(self.pending().drop_first() =~= grammar::token_stream(
                    self.lexer.input(),
                    self.lexer.position(),
                ));
            }
        }
        match self.lexer.next_token() {
            Ok(token) => {
                self.current = token;
                Ok(())
            },
            Err(error) => Err(ParseError::Lexical(error)),
        }
    }

    /// Consumes the current token where it equals `expected`.
    fn expect(&mut self, expected: &Token) -> (result: Result<(), ParseError>)
        requires
            old(self).wf(),
        ensures
            final(self).wf(),
            final(self).source() == old(self).source(),
            stepped(grammar::expect(old(self).pending(), expected@), result, final(self).pending()),
    {
        if self.current != *expected {
            return Err(
                ParseError::Syntax(
                    SyntaxError {
                        expected: Expected::Token(expected.clone()),
                        found: self.current.clone(),
                    },
                ),
            );
        }
        self.next()
    }

    /// Parses the whole document: every record definition up to the end of
    /// the input, in source order, or the first error on the way.
    pub fn parse(&mut self) -> (result: Result<Vec<Struct>, ParseError>)
        requires
            old(self).wf(),
        ensures
            final(self).wf(),
            final(self).source() == old(self).source(),
            match result {
                Ok(structs) => {
                    &&& grammar::parse_document(old(self).pending(), Seq::empty()) == Ok::<
                        Seq<StructModel>,
                        ParseErrorModel,
                    >(document_model(structs@))
                    &&& final(self).pending() == Seq::<Lexeme>::empty()
                },
                Err(error) => grammar::parse_document(old(self).pending(), Seq::empty()) == Err::<
                    Seq<StructModel>,
                    ParseErrorModel,
                >(error@),
            },
    {
        let mut structs: Vec<Struct> = Vec::new();
        let ghost start = self.pending();
        assert(document_model(structs@) =~= Seq::empty());
        while self.current != Token::Eof
            invariant
                self.wf(),
                self.source() == old(self).source(),
                start == old(self).pending(),
                grammar::parse_document(start, Seq::empty()) == grammar::parse_document(
                    self.pending(),
                    document_model(structs@),
                ),
            decreases self.pending().len(),
        {
            let ghost before = self.pending();
            let ghost done = document_model(structs@);
            let decorators = match self.parse_decorators() {
                Ok(decorators) => decorators,
                Err(error) => {
                    return Err(error);
                },
            };
            let ghost decorated = self.pending();
            let record = match self.parse_struct(decorators) {
                Ok(record) => record,
                Err(error) => {
                    return Err(error);
                },
            };
            proof {
                grammar::lemma_parse_decorators_consumes(before, Seq::empty());
                grammar::lemma_parse_struct_consumes(decorated, names_model(decorators@));
                assert(document_model(structs@.push(record)) =~= done.push(record@));
            }
            structs.push(record);
        }
        Ok(structs)
    }

    /// Collects the decorators in front of a record definition.
    fn parse_decorators(&mut self) -> (result: Result<Vec<String>, ParseError>)
        requires
            old(self).wf(),
        ensures
            final(self).wf(),
            final(self).source() == old(self).source(),
            match result {
                Ok(decorators) => grammar::parse_decorators(old(self).pending(), Seq::empty()) == Ok::<
                    (Seq<Seq<char>>, Seq<Lexeme>),
                    ParseErrorModel,
                >((names_model(decorators@), final(self).pending())),
                Err(error) => grammar::parse_decorators(old(self).pending(), Seq::empty()) == Err::<
                    (Seq<Seq<char>>, Seq<Lexeme>),
                    ParseErrorModel,
                >(error@),
            },
    {
        let mut decorators: Vec<String> = Vec::new();
        let ghost start = self.pending();
        assert(names_model(decorators@) =~= Seq::empty());
        loop
            invariant_except_break
                self.wf(),
                self.source() == old(self).source(),
                start == old(self).pending(),
                grammar::parse_decorators(start, Seq::empty()) == grammar::parse_decorators(
                    self.pending(),
                    names_model(decorators@),
                ),
            ensures
                self.wf(),
                self.source() == old(self).source(),
                grammar::parse_decorators(start, Seq::empty()) == Ok::<
                    (Seq<Seq<char>>, Seq<Lexeme>),
                    ParseErrorModel,
                >((names_model(decorators@), self.pending())),
            decreases self.pending().len(),
        {
            let ghost done = names_model(decorators@);
            let name = match &self.current {
                Token::Decorator(name) => name.clone(),
                _ => {
                    break ;
                },
            };
            proof {
                assert(names_model(decorators@.push(name)) =~= done.push(name@));
            }
            decorators.push(name);
            match self.next() {
                Ok(_) => {},
                Err(error) => {
                    return Err(error);
                },
            }
        }
        Ok(decorators)
    }

    /// Parses one record definition and attaches `decorators` to it.
    fn parse_struct(&mut self, decorators: Vec<String>) -> (result: Result<Struct, ParseError>)
        requires
            old(self).wf(),
        ensures
            final(self).wf(),
            final(self).source() == old(self).source(),
            match result {
                Ok(record) => grammar::parse_struct(old(self).pending(), names_model(decorators@))
                    == Ok::<(StructModel, Seq<Lexeme>), ParseErrorModel>(
                    (record@, final(self).pending()),
                ),
                Err(error) => grammar::parse_struct(old(self).pending(), names_model(decorators@))
                    == Err::<(StructModel, Seq<Lexeme>), ParseErrorModel>(
                    error@,
                ),
            },
    {
        match self.expect(&Token::Struct) {
            Ok(_) => {},
            Err(error) => {
                return Err(error);
            },
        }
        let name = match &self.current {
            Token::Ident(name) => name.clone(),
            _ => {
                return Err(
                    ParseError::Syntax(
                        SyntaxError { expected: Expected::StructName, found: self.current.clone() },
                    ),
                );
            },
        };
        match self.next() {
            Ok(_) => {},
            Err(error) => {
                return Err(error);
            },
        }
        match self.expect(&Token::LBrace) {
            Ok(_) => {},
            Err(error) => {
                return Err(error);
            },
        }
        let fields = match self.parse_fields() {
            Ok(fields) => fields,
            Err(error) => {
                return Err(error);
            },
        };
        match self.expect(&Token::RBrace) {
            Ok(_) => {},
            Err(error) => {
                return Err(error);
            },
        }
        Ok(Struct { name, fields, decorators })
    }

    /// Parses the fields of a record, up to its closing brace.
    fn parse_fields(&mut self) -> (result: Result<Vec<Field>, ParseError>)
        requires
            old(self).wf(),
        ensures
            final(self).wf(),
            final(self).source() == old(self).source(),
            match result {
                Ok(fields) => grammar::parse_fields(old(self).pending(), Seq::empty()) == Ok::<
                    (Seq<FieldModel>, Seq<Lexeme>),
                    ParseErrorModel,
                >((fields_model(fields@), final(self).pending())),
                Err(error) => grammar::parse_fields(old(self).pending(), Seq::empty()) == Err::<
                    (Seq<FieldModel>, Seq<Lexeme>),
                    ParseErrorModel,
                >(error@),
            },
    {
        let mut fields: Vec<Field> = Vec::new();
        let ghost start = self.pending();
        assert(fields_model(fields@) =~= Seq::empty());
        while self.current != Token::RBrace
            invariant_except_break
                self.wf(),
                self.source() == old(self).source(),
                start == old(self).pending(),
                grammar::parse_fields(start, Seq::empty()) == grammar::parse_fields(
                    self.pending(),
                    fields_model(fields@),
                ),
            ensures
                self.wf(),
                self.source() == old(self).source(),
                grammar::parse_fields(start, Seq::empty()) == Ok::<
                    (Seq<FieldModel>, Seq<Lexeme>),
                    ParseErrorModel,
                >((fields_model(fields@), self.pending())),
            decreases self.pending().len(),
        {
            let ghost before = self.pending();
            let ghost done = fields_model(fields@);
            let field = match self.parse_field() {
                Ok(field) => field,
                Err(error) => {
                    return Err(error);
                },
            };
            proof {
                grammar::lemma_parse_field_consumes(before);
                assert(fields_model(fields@.push(field)) =~= done.push(field@));
            }
            fields.push(field);
            if self.current == Token::Comma {
                match self.next() {
                    Ok(_) => {},
                    Err(error) => {
                        return Err(error);
                    },
                }
                if self.current == Token::LBrace {
                    break ;
                }
            } else {
                break ;
            }
        }
        Ok(fields)
    }

    /// Parses one field: its name, a colon and its type.
    fn parse_field(&mut self) -> (result: Result<Field, ParseError>)
        requires
            old(self).wf(),
        ensures
            final(self).wf(),
            final(self).source() == old(self).source(),
            match result {
                Ok(field) => grammar::parse_field(old(self).pending()) == Ok::<
                    (FieldModel, Seq<Lexeme>),
                    ParseErrorModel,
                >((field@, final(self).pending())),
                Err(error) => grammar::parse_field(old(self).pending()) == Err::<
                    (FieldModel, Seq<Lexeme>),
                    ParseErrorModel,
                >(error@),
            },
    {
        let name = match &self.current {
            Token::Ident(name) => name.clone(),
            _ => {
                return Err(
                    ParseError::Syntax(
                        SyntaxError { expected: Expected::FieldName, found: self.current.clone() },
                    ),
                );
            },
        };
        match self.next() {
            Ok(_) => {},
            Err(error) => {
                return Err(error);
            },
        }
        match self.expect(&Token::Colon) {
            Ok(_) => {},
            Err(error) => {
                return Err(error);
            },
        }
        let ty = match self.parse_type() {
            Ok(ty) => ty,
            Err(error) => {
                return Err(error);
            },
        };
        Ok(Field { name, ty })
    }

    /// Parses one type: a base name, and the array marker where it follows.
    fn parse_type(&mut self) -> (result: Result<Type, ParseError>)
        requires
            old(self).wf(),
        ensures
            final(self).wf(),
            final(self).source() == old(self).source(),
            match result {
                Ok(ty) => grammar::parse_type(old(self).pending()) == Ok::<
                    (TypeModel, Seq<Lexeme>),
                    ParseErrorModel,
                >((ty@, final(self).pending())),
                Err(error) => grammar::parse_type(old(self).pending()) == Err::<
                    (TypeModel, Seq<Lexeme>),
                    ParseErrorModel,
                >(error@),
            },
    {
        let base = match &self.current {
            Token::Ident(name) => name.clone(),
            _ => {
                return Err(
                    ParseError::Syntax(
                        SyntaxError { expected: Expected::TypeName, found: self.current.clone() },
                    ),
                );
            },
        };
        match self.next() {
            Ok(_) => {},
            Err(error) => {
                return Err(error);
            },
        }
        if self.current == Token::LBracket {
            match self.next() {
                Ok(_) => {},
                Err(error) => {
                    return Err(error);
                },
            }
            Ok(Type::Array(Box::new(self.ident_to_type(base.as_str()))))
        } else {
            Ok(self.ident_to_type(base.as_str()))
        }
    }

    /// The type that the base name `name` stands for.
    fn ident_to_type(&self, name: &str) -> (ty: Type)
        ensures
            ty@ == grammar::ident_to_type(name@),
    {
        if *name == *"String" {
            Type::String
        } else if *name == *"i32" {
            Type::Int
        } else if *name == *"bool" {
            Type::Bool
        } else {
            Type::Custom(name.to_owned())
        }
    }
}

/// Parses a source text into its document: the records in source order, or
/// the first lexical or syntax error.
pub fn parse_source(src: &str) -> (result: Result<Vec<Struct>, ParseError>)
    ensures
        match result {
            Ok(structs) => grammar::parse_source(src@) == Ok::<
                Seq<StructModel>,
                ParseErrorModel,
            >(document_model(structs@)),
            Err(error) => grammar::parse_source(src@) == Err::<
                Seq<StructModel>,
                ParseErrorModel,
            >(error@),
        },
{
    match Parser::new(src) {
        Ok(mut parser) => parser.parse(),
        Err(error) => Err(ParseError::Lexical(error)),
    }
}

/// Whether `result`, with the stream `after` left behind, is what the
/// grammar's step `model` says: the same error, or success with that stream.
pub open spec fn stepped(
    model: Result<Seq<Lexeme>, ParseErrorModel>,
    result: Result<(), ParseError>,
    after: Seq<Lexeme>,
) -> bool {
    match result {
        Ok(_) => model == Ok::<Seq<Lexeme>, ParseErrorModel>(after),
        Err(error) => model == Err::<Seq<Lexeme>, ParseErrorModel>(error@),
    }
}

} // verus!
