//! Errors of the lexer and the parser. Each carries the line and column at
//! which it arose, relative to the text that was analysed.

use crate::text::{decimal, push_char, push_decimal, push_text};
use crate::tokenizer::{kind_text, TokenKind, TokenType};
use vstd::prelude::*;

verus! {

/// An error of lexical analysis.
#[derive(Debug, PartialEq, Eq, Clone, Copy, Structural)]
pub enum TokenizerError {
    /// A character that starts no token.
    ///
    /// `line` and `col` count from one.
    UnexpectedCharacter { found: char, line: usize, col: usize },
}

/// The message of a lexical error.
pub open spec fn tokenizer_error_text(e: TokenizerError) -> Seq<char> {
    match e {
        TokenizerError::UnexpectedCharacter { found, line, col } => "Unexpected character '"@.push(
            found,
        ) + "' at line "@ + decimal(line as nat) + ", col "@ + decimal(col as nat),
    }
}

impl TokenizerError {
    /// The message of this error: the character, and where it stands.
    pub fn to_text(&self) -> (s: String)
        ensures
            s@ == tokenizer_error_text(*self),
    {
        match self {
            TokenizerError::UnexpectedCharacter { found, line, col } => {
                let mut s = String::new();
                push_text(&mut s, "Unexpected character '");
                push_char(&mut s, *found);
                push_text(&mut s, "' at line ");
                push_decimal(&mut s, *line);
                push_text(&mut s, ", col ");
                push_decimal(&mut s, *col);
                s
            },
        }
    }
}

/// An error of parsing.
#[derive(Debug, PartialEq)]
pub enum ParserError {
    /// A token stands where another was expected; `line` and `col` are
    /// those of the token.
    UnexpectedToken { found: TokenType, line: usize, col: usize },
    /// The input ends where an operand was expected; `line` and `col` are
    /// those of the end.
    UnexpectedEOF { line: usize, col: usize },
    /// A number literal has no value; `line` and `col` are those of the
    /// literal.
    InvalidNumber { value: String, line: usize, col: usize },
    /// A lexical error, with its message and position.
    TokenizerError { message: String, line: usize, col: usize },
}

/// The mathematical value of a [`ParserError`].
pub enum ParserErrorView {
    UnexpectedToken { found: TokenKind, line: usize, col: usize },
    UnexpectedEOF { line: usize, col: usize },
    InvalidNumber { value: Seq<char>, line: usize, col: usize },
    TokenizerError { message: Seq<char>, line: usize, col: usize },
}

impl View for ParserError {
    type V = ParserErrorView;

    open spec fn view(&self) -> ParserErrorView {
        match self {
            ParserError::UnexpectedToken { found, line, col } => ParserErrorView::UnexpectedToken {
                found: found@,
                line: *line,
                col: *col,
            },
            ParserError::UnexpectedEOF { line, col } => ParserErrorView::UnexpectedEOF {
                line: *line,
                col: *col,
            },
            ParserError::InvalidNumber { value, line, col } => ParserErrorView::InvalidNumber {
                value: value@,
                line: *line,
                col: *col,
            },
            ParserError::TokenizerError { message, line, col } => ParserErrorView::TokenizerError {
                message: message@,
                line: *line,
                col: *col,
            },
        }
    }
}

impl ParserErrorView {
    /// The line of the error, relative to the text that was parsed.
    pub open spec fn line(self) -> usize {
        match self {
            ParserErrorView::UnexpectedToken { line, .. } => line,
            ParserErrorView::UnexpectedEOF { line, .. } => line,
            ParserErrorView::InvalidNumber { line, .. } => line,
            ParserErrorView::TokenizerError { line, .. } => line,
        }
    }

    /// The column of the error.
    pub open spec fn col(self) -> usize {
        match self {
            ParserErrorView::UnexpectedToken { col, .. } => col,
            ParserErrorView::UnexpectedEOF { col, .. } => col,
            ParserErrorView::InvalidNumber { col, .. } => col,
            ParserErrorView::TokenizerError { col, .. } => col,
        }
    }
}

/// `" at line L, col C"`.
pub open spec fn place_text(line: usize, col: usize) -> Seq<char> {
    " at line "@ + decimal(line as nat) + ", col "@ + decimal(col as nat)
}

/// The message of a parser error.
pub open spec fn parser_error_text(e: ParserErrorView) -> Seq<char> {
    match e {
        ParserErrorView::UnexpectedToken { found, line, col } => "Unexpected token: found "@
            + kind_text(found) + place_text(line, col),
        ParserErrorView::UnexpectedEOF { line, col } => "Unexpected end of input"@ + place_text(
            line,
            col,
        ),
        ParserErrorView::InvalidNumber { value, line, col } => "Invalid number: "@ + value
            + place_text(line, col),
        ParserErrorView::TokenizerError { message, line, col } => "Tokenizer error: "@ + message
            + place_text(line, col),
    }
}

/// Appends `" at line L, col C"` to `s`.
fn push_place(s: &mut String, line: usize, col: usize)
    ensures
        final(s)@ == old(s)@ + place_text(line, col),
{
    push_text(s, " at line ");
    push_decimal(s, line);
    push_text(s, ", col ");
    push_decimal(s, col);
    assert(s@ =~= old(s)@ + place_text(line, col));
}

impl ParserError {
    /// The line of the error, relative to the text that was parsed.
    pub fn line(&self) -> (r: usize)
        ensures
            r == self@.line(),
    {
        match self {
            ParserError::UnexpectedToken { line, .. } => *line,
            ParserError::UnexpectedEOF { line, .. } => *line,
            ParserError::InvalidNumber { line, .. } => *line,
            ParserError::TokenizerError { line, .. } => *line,
        }
    }

    /// The column of the error.
    pub fn col(&self) -> (r: usize)
        ensures
            r == self@.col(),
    {
        match self {
            ParserError::UnexpectedToken { col, .. } => *col,
            ParserError::UnexpectedEOF { col, .. } => *col,
            ParserError::InvalidNumber { col, .. } => *col,
            ParserError::TokenizerError { col, .. } => *col,
        }
    }

    /// The message of this error: what is wrong, and where.
    pub fn to_text(&self) -> (s: String)
        ensures
            s@ == parser_error_text(self@),
    {
        let mut s = String::new();
        match self {
            ParserError::UnexpectedToken { found, line, col } => {
                push_text(&mut s, "Unexpected token: found ");
                let kind = found.to_text();
                push_text(&mut s, kind.as_str());
                push_place(&mut s, *line, *col);
            },
            ParserError::UnexpectedEOF { line, col } => {
                push_text(&mut s, "Unexpected end of input");
                push_place(&mut s, *line, *col);
            },
            ParserError::InvalidNumber { value, line, col } => {
                push_text(&mut s, "Invalid number: ");
                push_text(&mut s, value.as_str());
                push_place(&mut s, *line, *col);
            },
            ParserError::TokenizerError { message, line, col } => {
                push_text(&mut s, "Tokenizer error: ");
                push_text(&mut s, message.as_str());
                push_place(&mut s, *line, *col);
            },
        }
        s
    }
}

} // verus!
