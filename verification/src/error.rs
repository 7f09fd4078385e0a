//! The errors of lexing and parsing, and the notes of placeholder synthesis.

use vstd::prelude::*;
use crate::lexer::{Token, TokenModel};

verus! {

/// A lexical error: the character that no token can start with.
#[derive(Debug, Clone, Copy, PartialEq, Eq, Structural)]
pub struct LexicalError {
    pub found: char,
}

/// What the grammar asked for at the place of a syntax error.
#[derive(Debug, Clone, PartialEq, Eq)]
pub enum Expected {
    /// This very token.
    Token(Token),
    /// An identifier that names a record.
    StructName,
    /// An identifier that names a field.
    FieldName,
    /// An identifier that names a type.
    TypeName,
}

/// A syntax error: the token that stood where the grammar asked for
/// something else.
#[derive(Debug, Clone, PartialEq, Eq)]
pub struct SyntaxError {
    pub expected: Expected,
    pub found: Token,
}

/// Why a source text is no schema document.
#[derive(Debug, Clone, PartialEq, Eq)]
pub enum ParseError {
    Lexical(LexicalError),
    Syntax(SyntaxError),
}

/// Why a source text was not compiled.
#[derive(Debug, Clone, PartialEq, Eq)]
pub enum CompileError {
    /// The source text is no schema document.
    Parse(ParseError),
    /// The JSON printer failed. No placeholder makes it fail: the variant
    /// stands for a failure that is handed in from outside.
    Serialize,
}

/// Model of [`CompileError`].
pub enum CompileErrorModel {
    Parse(ParseErrorModel),
    Serialize,
}

impl View for CompileError {
    type V = CompileErrorModel;

    open spec fn view(&self) -> CompileErrorModel {
        match self {
            CompileError::Parse(error) => CompileErrorModel::Parse(error@),
            CompileError::Serialize => CompileErrorModel::Serialize,
        }
    }
}

/// Model of [`Expected`].
pub enum ExpectedModel {
    Token(TokenModel),
    StructName,
    FieldName,
    TypeName,
}

/// Model of [`SyntaxError`].
pub struct SyntaxErrorModel {
    pub expected: ExpectedModel,
    pub found: TokenModel,
}

/// Model of [`ParseError`].
pub enum ParseErrorModel {
    Lexical(LexicalError),
    Syntax(SyntaxErrorModel),
}

impl View for Expected {
    type V = ExpectedModel;

    open spec fn view(&self) -> ExpectedModel {
        match self {
            Expected::Token(token) => ExpectedModel::Token(token@),
            Expected::StructName => ExpectedModel::StructName,
            Expected::FieldName => ExpectedModel::FieldName,
            Expected::TypeName => ExpectedModel::TypeName,
        }
    }
}

impl View for SyntaxError {
    type V = SyntaxErrorModel;

    open spec fn view(&self) -> SyntaxErrorModel {
        SyntaxErrorModel { expected: self.expected@, found: self.found@ }
    }
}

impl View for ParseError {
    type V = ParseErrorModel;

    open spec fn view(&self) -> ParseErrorModel {
        match self {
            ParseError::Lexical(error) => ParseErrorModel::Lexical(*error),
            ParseError::Syntax(error) => ParseErrorModel::Syntax(error@),
        }
    }
}

/// What placeholder synthesis met and papered over.
#[derive(Debug, Clone, PartialEq, Eq)]
pub enum Diagnostic {
    /// A field refers to this type name, and no record has it: the
    /// placeholder is an empty object.
    UnresolvedReference(String),
    /// A field refers to the record of this name from within that record:
    /// the placeholder is `null`.
    RecursiveReference(String),
    /// A field is an array of arrays: the placeholder of the inner array is
    /// `null`.
    NestedArray,
}

/// Model of [`Diagnostic`].
pub enum DiagnosticModel {
    UnresolvedReference(Seq<char>),
    RecursiveReference(Seq<char>),
    NestedArray,
}

impl View for Diagnostic {
    type V = DiagnosticModel;

    open spec fn view(&self) -> DiagnosticModel {
        match self {
            Diagnostic::UnresolvedReference(name) => DiagnosticModel::UnresolvedReference(name@),
            Diagnostic::RecursiveReference(name) => DiagnosticModel::RecursiveReference(name@),
            Diagnostic::NestedArray => DiagnosticModel::NestedArray,
        }
    }
}

/// The models of a sequence of diagnostics, in order.
pub open spec fn diagnostics_model(diagnostics: Seq<Diagnostic>) -> Seq<DiagnosticModel> {
    diagnostics.map_values(|d: Diagnostic| d@)
}

} // verus!
