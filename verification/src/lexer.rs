//! The tokenizer: source text to tokens, one at a time.

use vstd::prelude::*;
use vstd::string::StringExecFns;
use crate::error::LexicalError;
use crate::text::{char_is_alphabetic, char_is_alphanumeric, char_is_whitespace};

verus! {

/// One lexical unit of the schema language.
#[derive(Debug)]
pub enum Token {
    Struct,
    Ident(String),
    Colon,
    Comma,
    LBrace,
    RBrace,
    LBracket,
    RBracket,
    Decorator(String),
    Eof,
}

/// Model of a [`Token`]: the text it carries is a sequence of characters.
pub enum TokenModel {
    Struct,
    Ident(Seq<char>),
    Colon,
    Comma,
    LBrace,
    RBrace,
    LBracket,
    RBracket,
    Decorator(Seq<char>),
    Eof,
}

impl View for Token {
    type V = TokenModel;

    open spec fn view(&self) -> TokenModel {
        match self {
            Token::Struct => TokenModel::Struct,
            Token::Ident(text) => TokenModel::Ident(text@),
            Token::Colon => TokenModel::Colon,
            Token::Comma => TokenModel::Comma,
            Token::LBrace => TokenModel::LBrace,
            Token::RBrace => TokenModel::RBrace,
            Token::LBracket => TokenModel::LBracket,
            Token::RBracket => TokenModel::RBracket,
            Token::Decorator(text) => TokenModel::Decorator(text@),
            Token::Eof => TokenModel::Eof,
        }
    }
}

impl Clone for Token {
    fn clone(&self) -> (copy: Token)
        ensures
            copy == *self,
    {
        match self {
            Token::Struct => Token::Struct,
            Token::Ident(text) => Token::Ident(text.clone()),
            Token::Colon => Token::Colon,
            Token::Comma => Token::Comma,
            Token::LBrace => Token::LBrace,
            Token::RBrace => Token::RBrace,
            Token::LBracket => Token::LBracket,
            Token::RBracket => Token::RBracket,
            Token::Decorator(text) => Token::Decorator(text.clone()),
            Token::Eof => Token::Eof,
        }
    }
}

impl PartialEq for Token {
    fn eq(&self, other: &Token) -> (same: bool) {
        match self {
            Token::Struct => matches!(other, Token::Struct),
            Token::Ident(a) => match other {
                Token::Ident(b) => *a == *b,
                _ => false,
            },
            Token::Colon => matches!(other, Token::Colon),
            Token::Comma => matches!(other, Token::Comma),
            Token::LBrace => matches!(other, Token::LBrace),
            Token::RBrace => matches!(other, Token::RBrace),
            Token::LBracket => matches!(other, Token::LBracket),
            Token::RBracket => matches!(other, Token::RBracket),
            Token::Decorator(a) => match other {
                Token::Decorator(b) => *a == *b,
                _ => false,
            },
            Token::Eof => matches!(other, Token::Eof),
        }
    }
}

impl Eq for Token {

}

impl vstd::std_specs::cmp::PartialEqSpecImpl for Token {
    open spec fn obeys_eq_spec() -> bool {
        true
    }

    open spec fn eq_spec(&self, other: &Token) -> bool {
        self@ == other@
    }
}

/// How a token can start.
#[derive(Debug, Clone, Copy, PartialEq, Eq, Structural)]
pub enum Start {
    Colon,
    Comma,
    LBrace,
    RBrace,
    /// A left bracket: a decorator, an array marker or a bare bracket.
    Bracket,
    RBracket,
    /// An alphabetic character: the keyword or an identifier.
    Word,
    /// A character that starts no token.
    Unexpected,
}

/// How a token starts that starts with `c`, a character that is no
/// whitespace, given whether `c` is alphabetic. The marks of punctuation
/// come first: what is said of their being alphabetic does not count.
pub open spec fn start_of(c: char, alphabetic: bool) -> Start {
    if c == ':' {
        Start::Colon
    } else if c == ',' {
        Start::Comma
    } else if c == '{' {
        Start::LBrace
    } else if c == '}' {
        Start::RBrace
    } else if c == '[' {
        Start::Bracket
    } else if c == ']' {
        Start::RBracket
    } else if alphabetic {
        Start::Word
    } else {
        Start::Unexpected
    }
}

/// Whether `c` can stand inside an identifier, given whether `c` is
/// alphanumeric: an alphanumeric character can, and so can the underscore.
pub open spec fn in_ident(c: char, alphanumeric: bool) -> bool {
    alphanumeric || c == '_'
}

/// Whether `c` can stand inside an identifier.
pub open spec fn is_ident_char(c: char) -> bool {
    in_ident(c, char_is_alphanumeric(c))
}

/// How a token starts that starts with `c`, given whether `c` is
/// alphabetic.
pub fn token_start(c: char, alphabetic: bool) -> (start: Start)
    ensures
        start == start_of(c, alphabetic),
{
    if c == ':' {
        Start::Colon
    } else if c == ',' {
        Start::Comma
    } else if c == '{' {
        Start::LBrace
    } else if c == '}' {
        Start::RBrace
    } else if c == '[' {
        Start::Bracket
    } else if c == ']' {
        Start::RBracket
    } else if alphabetic {
        Start::Word
    } else {
        Start::Unexpected
    }
}

/// Whether `c` can stand inside an identifier, given whether `c` is
/// alphanumeric.
pub fn ident_char(c: char, alphanumeric: bool) -> (inside: bool)
    ensures
        inside == in_ident(c, alphanumeric),
{
    alphanumeric || c == '_'
}

/// The first position at or after `pos` that holds no whitespace, or the end
/// of the input.
pub open spec fn skip_whitespace(input: Seq<char>, pos: int) -> int
    decreases input.len() - pos,
{
    if 0 <= pos < input.len() && char_is_whitespace(input[pos]) {
        skip_whitespace(input, pos + 1)
    } else {
        pos
    }
}

/// The end of the longest run of identifier characters that starts at `pos`.
pub open spec fn ident_end(input: Seq<char>, pos: int) -> int
    decreases input.len() - pos,
{
    if 0 <= pos < input.len() && is_ident_char(input[pos]) {
        ident_end(input, pos + 1)
    } else {
        pos
    }
}

/// The characters of the keyword that opens a record definition.
pub open spec fn struct_keyword() -> Seq<char> {
    "struct"@
}

/// What one scan of the input yields: a token or the offending character,
/// and the position at which the next scan starts.
pub struct Scan {
    pub outcome: Result<TokenModel, LexicalError>,
    pub next: int,
}

/// The token that starts with `[` at `start`. Where a run of identifier
/// characters and a `]` follow, both are consumed: the token is a decorator
/// with the run as its name, or a left bracket where the run is empty.
/// Where no `]` follows the run, the token is a left bracket and nothing
/// but the bracket is consumed: the run is still to be read.
pub open spec fn scan_bracket(input: Seq<char>, start: int) -> Scan {
    let end = ident_end(input, start + 1);
    if end < input.len() && input[end] == ']' {
        if end > start + 1 {
            Scan { outcome: Ok(TokenModel::Decorator(input.subrange(start + 1, end))), next: end + 1 }
        } else {
            Scan { outcome: Ok(TokenModel::LBracket), next: end + 1 }
        }
    } else {
        Scan { outcome: Ok(TokenModel::LBracket), next: start + 1 }
    }
}

/// The word that starts with an alphabetic character at `start`: the keyword
/// `struct`, or an identifier that carries the text of the word.
pub open spec fn scan_word(input: Seq<char>, start: int) -> Scan {
    let end = ident_end(input, start + 1);
    let text = input.subrange(start, end);
    if text == struct_keyword() {
        Scan { outcome: Ok(TokenModel::Struct), next: end }
    } else {
        Scan { outcome: Ok(TokenModel::Ident(text)), next: end }
    }
}

/// One scan of `input` from `pos`: whitespace is skipped, then one token is
/// read. At the end of the input the token is `Eof` and the position stays
/// at the end.
pub open spec fn scan(input: Seq<char>, pos: int) -> Scan {
    let start = skip_whitespace(input, pos);
    if start >= input.len() {
        Scan { outcome: Ok(TokenModel::Eof), next: start }
    } else {
        let c = input[start];
        match start_of(c, char_is_alphabetic(c)) {
            Start::Colon => Scan { outcome: Ok(TokenModel::Colon), next: start + 1 },
            Start::Comma => Scan { outcome: Ok(TokenModel::Comma), next: start + 1 },
            Start::LBrace => Scan { outcome: Ok(TokenModel::LBrace), next: start + 1 },
            Start::RBrace => Scan { outcome: Ok(TokenModel::RBrace), next: start + 1 },
            Start::Bracket => scan_bracket(input, start),
            Start::RBracket => Scan { outcome: Ok(TokenModel::RBracket), next: start + 1 },
            Start::Word => scan_word(input, start),
            Start::Unexpected => Scan { outcome: Err(LexicalError { found: c }), next: start + 1 },
        }
    }
}

/// `skip_whitespace` stops within the input, passes only whitespace, and
/// stops at the first character that is none.
pub proof fn lemma_skip_whitespace(input: Seq<char>, pos: int)
    requires
        0 <= pos <= input.len(),
    ensures
        pos <= skip_whitespace(input, pos) <= input.len(),
        forall|i: int| pos <= i < skip_whitespace(input, pos) ==> char_is_whitespace(#[trigger] input[i]),
        skip_whitespace(input, pos) < input.len() ==> !char_is_whitespace(
            input[skip_whitespace(input, pos)],
        ),
    decreases input.len() - pos,
{
    if pos < input.len() && char_is_whitespace(input[pos]) {
        lemma_skip_whitespace(input, pos + 1);
    }
}

/// `ident_end` stops within the input, passes only identifier characters,
/// and stops at the first character that is none.
pub proof fn lemma_ident_end(input: Seq<char>, pos: int)
    requires
        0 <= pos <= input.len(),
    ensures
        pos <= ident_end(input, pos) <= input.len(),
        forall|i: int| pos <= i < ident_end(input, pos) ==> is_ident_char(#[trigger] input[i]),
        ident_end(input, pos) < input.len() ==> !is_ident_char(input[ident_end(input, pos)]),
    decreases input.len() - pos,
{
    if pos < input.len() && is_ident_char(input[pos]) {
        lemma_ident_end(input, pos + 1);
    }
}

/// A scan never moves backwards and never leaves the input.
pub proof fn lemma_scan_bounds(input: Seq<char>, pos: int)
    requires
        0 <= pos <= input.len(),
    ensures
        pos <= scan(input, pos).next <= input.len(),
        scan(input, pos).outcome != Ok::<TokenModel, LexicalError>(TokenModel::Eof) ==> pos < scan(
            input,
            pos,
        ).next,
{
    lemma_skip_whitespace(input, pos);
    let start = skip_whitespace(input, pos);
    if start < input.len() {
        lemma_ident_end(input, start + 1);
    }
}

/// At the end of the input every scan yields `Eof` and stays at the end.
pub proof fn lemma_scan_at_end(input: Seq<char>)
    ensures
        scan(input, input.len() as int) == (Scan {
            outcome: Ok(TokenModel::Eof),
            next: input.len() as int,
        }),
{
}

/// Once a scan has yielded `Eof`, every further scan yields `Eof`.
pub proof fn lemma_eof_is_final(input: Seq<char>, pos: int)
    requires
        0 <= pos <= input.len(),
        scan(input, pos).outcome == Ok::<TokenModel, LexicalError>(TokenModel::Eof),
    ensures
        scan(input, scan(input, pos).next) == scan(input, pos),
{
    lemma_skip_whitespace(input, pos);
    lemma_scan_at_end(input);
}

/// A tokenizer over a source text.
pub struct Lexer {
    input: Vec<char>,
    position: usize,
}

impl Lexer {
    /// The characters of the source text.
    pub closed spec fn input(&self) -> Seq<char> {
        self.input@
    }

    /// The position at which the next scan starts.
    pub closed spec fn position(&self) -> int {
        self.position as int
    }

    /// The position never leaves the input.
    pub open spec fn wf(&self) -> bool {
        0 <= self.position() <= self.input().len()
    }

    /// A lexer at the start of `input`.
    pub fn new(input: &str) -> (lexer: Lexer)
        ensures
            lexer.wf(),
            lexer.input() == input@,
            lexer.position() == 0,
    {
        let mut chars: Vec<char> = Vec::new();
        let mut it = input.chars();
        for c in iter: it
            invariant
                chars@ == iter.seq().take(iter.index()),
        {
            chars.push(c);
        }
        Lexer { input: chars, position: 0 }
    }

    /// The character at the current position, if any, without consuming it.
    fn peek(&self) -> (c: Option<char>)
        requires
            self.wf(),
        ensures
            c == char_at(self.input(), self.position()),
    {
        if self.position < self.input.len() {
            Some(self.input[self.position])
        } else {
            None
        }
    }

    /// Consumes the character at the current position, if any. At the end of
    /// the input the position stays where it is.
    fn next(&mut self) -> (c: Option<char>)
        requires
            old(self).wf(),
        ensures
            final(self).wf(),
            final(self).input() == old(self).input(),
            c == char_at(old(self).input(), old(self).position()),
            final(self).position() == if c is Some {
                old(self).position() + 1
            } else {
                old(self).position()
            },
    {
        if self.position < self.input.len() {
            let c = self.input[self.position];
            self.position += 1;
            Some(c)
        } else {
            None
        }
    }

    /// Moves past the whitespace at the current position.
    fn skip_whitespace(&mut self)
        requires
            old(self).wf(),
        ensures
            final(self).wf(),
            final(self).input() == old(self).input(),
            final(self).position() == skip_whitespace(old(self).input(), old(self).position()),
    {
        while self.position < self.input.len() && self.input[self.position].is_whitespace()
            invariant
                self.wf(),
                self.input() == old(self).input(),
                old(self).position() <= self.position(),
                skip_whitespace(self.input(), self.position()) == skip_whitespace(
                    old(self).input(),
                    old(self).position(),
                ),
            decreases self.input.len() - self.position,
        {
            self.position += 1;
        }
    }

    /// Consumes the longest run of identifier characters at the current
    /// position and returns its text.
    fn read_ident(&mut self) -> (ident: String)
        requires
            old(self).wf(),
        ensures
            final(self).wf(),
            final(self).input() == old(self).input(),
            final(self).position() == ident_end(old(self).input(), old(self).position()),
            ident@ == old(self).input().subrange(old(self).position(), final(self).position()),
    {
        let mut ident = String::new();
        let ghost start = self.position();
        while self.position < self.input.len() && ident_char(
            self.input[self.position],
            self.input[self.position].is_alphanumeric(),
        )
            invariant
                self.wf(),
                self.input() == old(self).input(),
                start == old(self).position(),
                start <= self.position(),
                ident_end(self.input(), self.position()) == ident_end(self.input(), start),
                ident@ == self.input().subrange(start, self.position()),
            decreases self.input.len() - self.position,
        {
            ident.push(self.input[self.position]);
            self.position += 1;
            assert(ident@ =~= self.input().subrange(start, self.position()));
        }
        ident
    }

    /// Reads the next token: whitespace is skipped, then one token is
    /// consumed, and nothing else. At the end of the input the token is
    /// `Eof`, again and again. A character that starts no token is consumed
    /// and returned as the error.
    pub fn next_token(&mut self) -> (result: Result<Token, LexicalError>)
        requires
            old(self).wf(),
        ensures
            final(self).wf(),
            final(self).input() == old(self).input(),
            final(self).position() == scan(old(self).input(), old(self).position()).next,
            match result {
                Ok(token) => scan(old(self).input(), old(self).position()).outcome == Ok::<
                    TokenModel,
                    LexicalError,
                >(token@),
                Err(error) => scan(old(self).input(), old(self).position()).outcome == Err::<
                    TokenModel,
                    LexicalError,
                >(error),
            },
    {
        proof {
            lemma_skip_whitespace(self.input(), self.position());
        }
        self.skip_whitespace();
        let ghost start = self.position();
        proof {
            if start < self.input().len() {
                lemma_ident_end(self.input(), start + 1);
            }
        }
        let ch = match self.next() {
            Some(ch) => ch,
            None => {
                return Ok(Token::Eof);
            },
        };
        match token_start(ch, ch.is_alphabetic()) {
            Start::Colon => Ok(Token::Colon),
            Start::Comma => Ok(Token::Comma),
            Start::LBrace => Ok(Token::LBrace),
            Start::RBrace => Ok(Token::RBrace),
            Start::Bracket => {
                let after_bracket = self.position;
                let ident = self.read_ident();
                match self.peek() {
                    Some(']') => {
                        self.next();
                        if !ident.as_str().is_empty() {
                            Ok(Token::Decorator(ident))
                        } else {
                            Ok(Token::LBracket)
                        }
                    },
                    _ => {
                        self.position = after_bracket;
                        Ok(Token::LBracket)
                    },
                }
            },
            Start::RBracket => Ok(Token::RBracket),
            Start::Word => {
                let mut ident = String::new();
                ident.push(ch);
                let rest = self.read_ident();
                ident.append(rest.as_str());
                assert(ident@ =~= self.input().subrange(start, self.position()));
                if is_struct_keyword(ident.as_str()) {
                    Ok(Token::Struct)
                } else {
                    Ok(Token::Ident(ident))
                }
            },
            Start::Unexpected => Err(LexicalError { found: ch }),
        }
    }
}

/// The character of `input` at `pos`, if `pos` lies within it.
pub open spec fn char_at(input: Seq<char>, pos: int) -> Option<char> {
    if 0 <= pos < input.len() {
        Some(input[pos])
    } else {
        None
    }
}

/// Whether `word` is the keyword `struct`.
fn is_struct_keyword(word: &str) -> (yes: bool)
    ensures
        yes == (word@ == struct_keyword()),
{
    *word == *"struct"
}

} // verus!
