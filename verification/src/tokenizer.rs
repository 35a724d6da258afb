//! Lexical analysis: tokens, their positions, and the scanner that turns a
//! text into a token sequence.

use crate::errors::TokenizerError;
use crate::text::{
    byte_len, char_at_is, char_is_whitespace, chars_of, decimal, digit, has_char, ident_start,
    is_digit, is_ident_start, lemma_run_end, lemma_utf8_len_at_least_len, lemma_utf8_len_subrange,
    push_decimal, push_text, run_end, run_to, text_of, utf8_len, CharClass,
};
use vstd::prelude::*;

verus! {

/// The kind of a token, with the text it carries where it has one.
#[derive(Clone, Debug, PartialEq)]
pub enum TokenType {
    /// A newline character `\n`.
    Newline,
    /// The addition operator `+`.
    Plus,
    /// The subtraction operator `-`.
    Minus,
    /// The division operator `/`.
    Div,
    /// The multiplication operator `*`.
    Mul,
    /// An opening parenthesis `(`.
    ParanOpen,
    /// A closing parenthesis `)`.
    ParanClose,
    /// A comment: the text after `;` up to the end of the line.
    Comment { contents: String },
    /// A number literal, kept as written.
    Number { value: String },
    /// The end of the input.
    EOF,
    /// The `let` keyword.
    Let,
    /// An identifier.
    Identifier { name: String },
    /// The assignment operator `=`.
    Assign,
    /// The colon `:` before a type annotation.
    Colon,
    /// The `+=` operator.
    PlusAssign,
    /// The `-=` operator.
    MinusAssign,
    /// The `*=` operator.
    MulAssign,
    /// The `/=` operator.
    DivAssign,
}

/// The mathematical value of a [`TokenType`]: the same kinds, with texts as
/// sequences of characters.
pub enum TokenKind {
    Newline,
    Plus,
    Minus,
    Div,
    Mul,
    ParanOpen,
    ParanClose,
    Comment { contents: Seq<char> },
    Number { value: Seq<char> },
    EOF,
    Let,
    Identifier { name: Seq<char> },
    Assign,
    Colon,
    PlusAssign,
    MinusAssign,
    MulAssign,
    DivAssign,
}

impl View for TokenType {
    type V = TokenKind;

    open spec fn view(&self) -> TokenKind {
        match self {
            TokenType::Newline => TokenKind::Newline,
            TokenType::Plus => TokenKind::Plus,
            TokenType::Minus => TokenKind::Minus,
            TokenType::Div => TokenKind::Div,
            TokenType::Mul => TokenKind::Mul,
            TokenType::ParanOpen => TokenKind::ParanOpen,
            TokenType::ParanClose => TokenKind::ParanClose,
            TokenType::Comment { contents } => TokenKind::Comment { contents: contents@ },
            TokenType::Number { value } => TokenKind::Number { value: value@ },
            TokenType::EOF => TokenKind::EOF,
            TokenType::Let => TokenKind::Let,
            TokenType::Identifier { name } => TokenKind::Identifier { name: name@ },
            TokenType::Assign => TokenKind::Assign,
            TokenType::Colon => TokenKind::Colon,
            TokenType::PlusAssign => TokenKind::PlusAssign,
            TokenType::MinusAssign => TokenKind::MinusAssign,
            TokenType::MulAssign => TokenKind::MulAssign,
            TokenType::DivAssign => TokenKind::DivAssign,
        }
    }
}

/// The text that names a token kind: the kind's name, its payload where it
/// has one, and a line feed.
pub open spec fn kind_text(kind: TokenKind) -> Seq<char> {
    match kind {
        TokenKind::Newline => "Newline\n"@,
        TokenKind::Plus => "Plus\n"@,
        TokenKind::Minus => "Minus\n"@,
        TokenKind::Div => "Div\n"@,
        TokenKind::Mul => "Mul\n"@,
        TokenKind::ParanOpen => "ParanOpen\n"@,
        TokenKind::ParanClose => "ParanClose\n"@,
        TokenKind::Comment { contents } => "Comment: "@ + contents + "\n"@,
        TokenKind::Number { value } => "Number("@ + value + ")\n"@,
        TokenKind::EOF => "eof\n"@,
        TokenKind::Let => "Let\n"@,
        TokenKind::Identifier { name } => "Identifier("@ + name + ")\n"@,
        TokenKind::Assign => "Assign\n"@,
        TokenKind::Colon => "Colon\n"@,
        TokenKind::PlusAssign => "PlusAssign\n"@,
        TokenKind::MinusAssign => "MinusAssign\n"@,
        TokenKind::MulAssign => "MulAssign\n"@,
        TokenKind::DivAssign => "DivAssign\n"@,
    }
}

impl TokenType {
    /// A copy of this token kind.
    pub fn duplicate(&self) -> (r: TokenType)
        ensures
            r@ == self@,
    {
        match self {
            TokenType::Newline => TokenType::Newline,
            TokenType::Plus => TokenType::Plus,
            TokenType::Minus => TokenType::Minus,
            TokenType::Div => TokenType::Div,
            TokenType::Mul => TokenType::Mul,
            TokenType::ParanOpen => TokenType::ParanOpen,
            TokenType::ParanClose => TokenType::ParanClose,
            TokenType::Comment { contents } => TokenType::Comment { contents: contents.clone() },
            TokenType::Number { value } => TokenType::Number { value: value.clone() },
            TokenType::EOF => TokenType::EOF,
            TokenType::Let => TokenType::Let,
            TokenType::Identifier { name } => TokenType::Identifier { name: name.clone() },
            TokenType::Assign => TokenType::Assign,
            TokenType::Colon => TokenType::Colon,
            TokenType::PlusAssign => TokenType::PlusAssign,
            TokenType::MinusAssign => TokenType::MinusAssign,
            TokenType::MulAssign => TokenType::MulAssign,
            TokenType::DivAssign => TokenType::DivAssign,
        }
    }

    /// Whether this token kind and `other` are the same, texts included.
    pub fn same_as(&self, other: &TokenType) -> (r: bool)
        ensures
            r == (self@ == other@),
    {
        match (self, other) {
            (TokenType::Newline, TokenType::Newline) => true,
            (TokenType::Plus, TokenType::Plus) => true,
            (TokenType::Minus, TokenType::Minus) => true,
            (TokenType::Div, TokenType::Div) => true,
            (TokenType::Mul, TokenType::Mul) => true,
            (TokenType::ParanOpen, TokenType::ParanOpen) => true,
            (TokenType::ParanClose, TokenType::ParanClose) => true,
            (TokenType::Comment { contents: a }, TokenType::Comment { contents: b }) => *a == *b,
            (TokenType::Number { value: a }, TokenType::Number { value: b }) => *a == *b,
            (TokenType::EOF, TokenType::EOF) => true,
            (TokenType::Let, TokenType::Let) => true,
            (TokenType::Identifier { name: a }, TokenType::Identifier { name: b }) => *a == *b,
            (TokenType::Assign, TokenType::Assign) => true,
            (TokenType::Colon, TokenType::Colon) => true,
            (TokenType::PlusAssign, TokenType::PlusAssign) => true,
            (TokenType::MinusAssign, TokenType::MinusAssign) => true,
            (TokenType::MulAssign, TokenType::MulAssign) => true,
            (TokenType::DivAssign, TokenType::DivAssign) => true,
            _ => false,
        }
    }

    /// The text that names this token kind, as it appears in messages.
    pub fn to_text(&self) -> (s: String)
        ensures
            s@ == kind_text(self@),
    {
        let mut s = String::new();
        match self {
            TokenType::Newline => push_text(&mut s, "Newline\n"),
            TokenType::Plus => push_text(&mut s, "Plus\n"),
            TokenType::Minus => push_text(&mut s, "Minus\n"),
            TokenType::Div => push_text(&mut s, "Div\n"),
            TokenType::Mul => push_text(&mut s, "Mul\n"),
            TokenType::ParanOpen => push_text(&mut s, "ParanOpen\n"),
            TokenType::ParanClose => push_text(&mut s, "ParanClose\n"),
            TokenType::Comment { contents } => {
                push_text(&mut s, "Comment: ");
                push_text(&mut s, contents.as_str());
                push_text(&mut s, "\n");
            },
            TokenType::Number { value } => {
                push_text(&mut s, "Number(");
                push_text(&mut s, value.as_str());
                push_text(&mut s, ")\n");
            },
            TokenType::EOF => push_text(&mut s, "eof\n"),
            TokenType::Let => push_text(&mut s, "Let\n"),
            TokenType::Identifier { name } => {
                push_text(&mut s, "Identifier(");
                push_text(&mut s, name.as_str());
                push_text(&mut s, ")\n");
            },
            TokenType::Assign => push_text(&mut s, "Assign\n"),
            TokenType::Colon => push_text(&mut s, "Colon\n"),
            TokenType::PlusAssign => push_text(&mut s, "PlusAssign\n"),
            TokenType::MinusAssign => push_text(&mut s, "MinusAssign\n"),
            TokenType::MulAssign => push_text(&mut s, "MulAssign\n"),
            TokenType::DivAssign => push_text(&mut s, "DivAssign\n"),
        }
        s
    }
}

/// A token: its kind, the line it stands on, and the columns where it starts
/// and ends. Lines and columns count from one.
#[derive(PartialEq, Debug, Clone)]
pub struct Token {
    token_type: TokenType,
    line_no: usize,
    start: usize,
    end: usize,
}

/// The mathematical value of a [`Token`].
pub struct TokenView {
    pub kind: TokenKind,
    pub line: usize,
    pub start: usize,
    pub end: usize,
}

impl View for Token {
    type V = TokenView;

    closed spec fn view(&self) -> TokenView {
        TokenView {
            kind: self.token_type@,
            line: self.line_no,
            start: self.start,
            end: self.end,
        }
    }
}

/// The values of a sequence of tokens.
pub open spec fn token_views(tokens: Seq<Token>) -> Seq<TokenView> {
    Seq::new(tokens.len(), |i: int| tokens[i]@)
}

/// A token that occupies the single column `col`.
pub open spec fn point(kind: TokenKind, line: int, col: int) -> TokenView {
    TokenView { kind, line: line as usize, start: col as usize, end: col as usize }
}

/// A token that runs from column `start` to column `end`.
pub open spec fn span(kind: TokenKind, line: int, start: int, end: int) -> TokenView {
    TokenView { kind, line: line as usize, start: start as usize, end: end as usize }
}

/// The text of a token: its kind's text, then its line and columns.
pub open spec fn token_text(t: TokenView) -> Seq<char> {
    kind_text(t.kind) + ", l_no: "@ + decimal(t.line as nat) + ", s: "@ + decimal(t.start as nat)
        + ", e:"@ + decimal(t.end as nat)
}

impl Token {
    /// A token of the given kind and position.
    pub fn new(token_type: TokenType, line_no: usize, start: usize, end: usize) -> (t: Token)
        ensures
            t@ == (TokenView { kind: token_type@, line: line_no, start, end }),
    {
        Token { token_type, line_no, start, end }
    }

    pub fn get_type(&self) -> (r: &TokenType)
        ensures
            r@ == self@.kind,
    {
        &self.token_type
    }

    pub fn get_line_no(&self) -> (r: usize)
        ensures
            r == self@.line,
    {
        self.line_no
    }

    pub fn get_start(&self) -> (r: usize)
        ensures
            r == self@.start,
    {
        self.start
    }

    pub fn get_end(&self) -> (r: usize)
        ensures
            r == self@.end,
    {
        self.end
    }

    /// A copy of this token.
    pub fn duplicate(&self) -> (t: Token)
        ensures
            t@ == self@,
    {
        Token {
            token_type: self.token_type.duplicate(),
            line_no: self.line_no,
            start: self.start,
            end: self.end,
        }
    }

    pub fn plus(line_no: usize, pos: usize) -> (t: Token)
        ensures
            t@ == point(TokenKind::Plus, line_no as int, pos as int),
    {
        Token::new(TokenType::Plus, line_no, pos, pos)
    }

    pub fn minus(line_no: usize, pos: usize) -> (t: Token)
        ensures
            t@ == point(TokenKind::Minus, line_no as int, pos as int),
    {
        Token::new(TokenType::Minus, line_no, pos, pos)
    }

    pub fn div(line_no: usize, pos: usize) -> (t: Token)
        ensures
            t@ == point(TokenKind::Div, line_no as int, pos as int),
    {
        Token::new(TokenType::Div, line_no, pos, pos)
    }

    pub fn mul(line_no: usize, pos: usize) -> (t: Token)
        ensures
            t@ == point(TokenKind::Mul, line_no as int, pos as int),
    {
        Token::new(TokenType::Mul, line_no, pos, pos)
    }

    pub fn paran_open(line_no: usize, pos: usize) -> (t: Token)
        ensures
            t@ == point(TokenKind::ParanOpen, line_no as int, pos as int),
    {
        Token::new(TokenType::ParanOpen, line_no, pos, pos)
    }

    pub fn paran_close(line_no: usize, pos: usize) -> (t: Token)
        ensures
            t@ == point(TokenKind::ParanClose, line_no as int, pos as int),
    {
        Token::new(TokenType::ParanClose, line_no, pos, pos)
    }

    /// A newline token at column `pos`.
    pub fn newline(line_no: usize, pos: usize) -> (t: Token)
        ensures
            t@ == point(TokenKind::Newline, line_no as int, pos as int),
    {
        Token::new(TokenType::Newline, line_no, pos, pos)
    }

    /// A comment token that starts at column `start` and ends as many columns
    /// further as `contents` has UTF-8 bytes.
    pub fn comment(contents: &str, line_no: usize, start: usize) -> (t: Token)
        requires
            start + utf8_len(contents@) <= usize::MAX,
        ensures
            t@ == span(
                TokenKind::Comment { contents: contents@ },
                line_no as int,
                start as int,
                start + utf8_len(contents@),
            ),
    {
        let chars = chars_of(contents);
        assert(chars@.subrange(0, chars@.len() as int) =~= chars@);
        let width = byte_len(&chars, 0, chars.len());
        let text = text_of(&chars, 0, chars.len());
        Token::new(TokenType::Comment { contents: text }, line_no, start, start + width)
    }

    /// A number token that starts at column `start` and ends as many columns
    /// further as `value` has UTF-8 bytes.
    pub fn number(value: &str, line_no: usize, start: usize) -> (t: Token)
        requires
            start + utf8_len(value@) <= usize::MAX,
        ensures
            t@ == span(
                TokenKind::Number { value: value@ },
                line_no as int,
                start as int,
                start + utf8_len(value@),
            ),
    {
        let chars = chars_of(value);
        assert(chars@.subrange(0, chars@.len() as int) =~= chars@);
        let width = byte_len(&chars, 0, chars.len());
        let text = text_of(&chars, 0, chars.len());
        Token::new(TokenType::Number { value: text }, line_no, start, start + width)
    }

    pub fn let_token(line_no: usize, start: usize, end: usize) -> (t: Token)
        ensures
            t@ == span(TokenKind::Let, line_no as int, start as int, end as int),
    {
        Token::new(TokenType::Let, line_no, start, end)
    }

    pub fn identifier(name: &str, line_no: usize, start: usize, end: usize) -> (t: Token)
        ensures
            t@ == span(
                TokenKind::Identifier { name: name@ },
                line_no as int,
                start as int,
                end as int,
            ),
    {
        let chars = chars_of(name);
        assert(chars@.subrange(0, chars@.len() as int) =~= chars@);
        let text = text_of(&chars, 0, chars.len());
        Token::new(TokenType::Identifier { name: text }, line_no, start, end)
    }

    pub fn colon(line_no: usize, pos: usize) -> (t: Token)
        ensures
            t@ == point(TokenKind::Colon, line_no as int, pos as int),
    {
        Token::new(TokenType::Colon, line_no, pos, pos)
    }

    pub fn assign(line_no: usize, pos: usize) -> (t: Token)
        ensures
            t@ == point(TokenKind::Assign, line_no as int, pos as int),
    {
        Token::new(TokenType::Assign, line_no, pos, pos)
    }

    pub fn plus_assign(line_no: usize, pos: usize) -> (t: Token)
        ensures
            t@ == point(TokenKind::PlusAssign, line_no as int, pos as int),
    {
        Token::new(TokenType::PlusAssign, line_no, pos, pos)
    }

    pub fn minus_assign(line_no: usize, pos: usize) -> (t: Token)
        ensures
            t@ == point(TokenKind::MinusAssign, line_no as int, pos as int),
    {
        Token::new(TokenType::MinusAssign, line_no, pos, pos)
    }

    pub fn mul_assign(line_no: usize, pos: usize) -> (t: Token)
        ensures
            t@ == point(TokenKind::MulAssign, line_no as int, pos as int),
    {
        Token::new(TokenType::MulAssign, line_no, pos, pos)
    }

    pub fn div_assign(line_no: usize, pos: usize) -> (t: Token)
        ensures
            t@ == point(TokenKind::DivAssign, line_no as int, pos as int),
    {
        Token::new(TokenType::DivAssign, line_no, pos, pos)
    }

    pub fn eof(line_no: usize, pos: usize) -> (t: Token)
        ensures
            t@ == point(TokenKind::EOF, line_no as int, pos as int),
    {
        Token::new(TokenType::EOF, line_no, pos, pos)
    }

    /// The text of this token: its kind's text, then its line and columns.
    pub fn to_text(&self) -> (s: String)
        ensures
            s@ == token_text(self@),
    {
        let mut s = self.token_type.to_text();
        push_text(&mut s, ", l_no: ");
        push_decimal(&mut s, self.line_no);
        push_text(&mut s, ", s: ");
        push_decimal(&mut s, self.start);
        push_text(&mut s, ", e:");
        push_decimal(&mut s, self.end);
        s
    }
}

/// The end of the number literal that starts at `from`: digits, then at most
/// one `.` with further digits, then at most one exponent: `e` or `E`, an
/// optional sign, and digits.
pub open spec fn number_end(text: Seq<char>, from: int) -> int {
    let whole = run_end(text, from, CharClass::Digit);
    let mantissa = if has_char(text, whole, '.') {
        run_end(text, whole + 1, CharClass::Digit)
    } else {
        whole
    };
    if has_char(text, mantissa, 'e') || has_char(text, mantissa, 'E') {
        let signed = mantissa + 1;
        let digits = if has_char(text, signed, '+') || has_char(text, signed, '-') {
            signed + 1
        } else {
            signed
        };
        run_end(text, digits, CharClass::Digit)
    } else {
        mantissa
    }
}

/// A number literal that starts at a digit is not empty and ends within the
/// text.
pub proof fn lemma_number_end(text: Seq<char>, from: int)
    requires
        0 <= from < text.len(),
        is_digit(text[from]),
    ensures
        from < number_end(text, from) <= text.len(),
{
    lemma_run_end(text, from + 1, CharClass::Digit);
    let whole = run_end(text, from, CharClass::Digit);
    assert(whole == run_end(text, from + 1, CharClass::Digit));
    if has_char(text, whole, '.') {
        lemma_run_end(text, whole + 1, CharClass::Digit);
    }
    let mantissa = if has_char(text, whole, '.') {
        run_end(text, whole + 1, CharClass::Digit)
    } else {
        whole
    };
    if has_char(text, mantissa, 'e') || has_char(text, mantissa, 'E') {
        let signed = mantissa + 1;
        let digits = if has_char(text, signed, '+') || has_char(text, signed, '-') {
            signed + 1
        } else {
            signed
        };
        lemma_run_end(text, digits, CharClass::Digit);
    }
}

/// The characters `+ - * /`, each an operator by itself and, before `=`, the
/// first half of a compound assignment.
pub open spec fn is_operator(c: char) -> bool {
    c == '+' || c == '-' || c == '*' || c == '/'
}

pub open spec fn operator_kind(c: char) -> TokenKind {
    if c == '+' {
        TokenKind::Plus
    } else if c == '-' {
        TokenKind::Minus
    } else if c == '*' {
        TokenKind::Mul
    } else {
        TokenKind::Div
    }
}

pub open spec fn compound_kind(c: char) -> TokenKind {
    if c == '+' {
        TokenKind::PlusAssign
    } else if c == '-' {
        TokenKind::MinusAssign
    } else if c == '*' {
        TokenKind::MulAssign
    } else {
        TokenKind::DivAssign
    }
}

/// The characters `( ) = :`, each a token by itself.
pub open spec fn is_punctuation(c: char) -> bool {
    c == '(' || c == ')' || c == '=' || c == ':'
}

pub open spec fn punctuation_kind(c: char) -> TokenKind {
    if c == '(' {
        TokenKind::ParanOpen
    } else if c == ')' {
        TokenKind::ParanClose
    } else if c == '=' {
        TokenKind::Assign
    } else {
        TokenKind::Colon
    }
}

/// The reserved word `let`.
pub open spec fn keyword_let() -> Seq<char> {
    seq!['l', 'e', 't']
}

/// The kind of a word: the keyword `let`, or an identifier.
pub open spec fn word_kind(word: Seq<char>) -> TokenKind {
    if word == keyword_let() {
        TokenKind::Let
    } else {
        TokenKind::Identifier { name: word }
    }
}

/// The outcome of lexical analysis: the tokens, or the first error.
pub type Lexed = Result<Seq<TokenView>, TokenizerError>;

/// `first` followed by the tokens of `rest`, or the error of `rest`.
pub open spec fn emit(first: TokenView, rest: Lexed) -> Lexed {
    match rest {
        Ok(tokens) => Ok(seq![first] + tokens),
        Err(e) => Err(e),
    }
}

/// The tokens `done` followed by those of `rest`, or the error of `rest`.
pub open spec fn after(done: Seq<TokenView>, rest: Lexed) -> Lexed {
    match rest {
        Ok(tokens) => Ok(done + tokens),
        Err(e) => Err(e),
    }
}

/// The tokens of `text` from index `at` on, where `line` lines and, on the
/// current line, `col` columns lie before `at`.
///
/// A column is one character wide, except in a comment, whose body counts
/// one column for each UTF-8 byte.
pub open spec fn scan(text: Seq<char>, at: int, line: int, col: int) -> Lexed
    decreases text.len() - at,
{
    if at < 0 || at >= text.len() {
        Ok(seq![point(TokenKind::EOF, line + 1, col + 1)])
    } else {
        let c = text[at];
        if is_operator(c) {
            if has_char(text, at + 1, '=') {
                emit(point(compound_kind(c), line + 1, col + 1), scan(text, at + 2, line, col + 2))
            } else {
                emit(point(operator_kind(c), line + 1, col + 1), scan(text, at + 1, line, col + 1))
            }
        } else if is_punctuation(c) {
            emit(point(punctuation_kind(c), line + 1, col + 1), scan(text, at + 1, line, col + 1))
        } else if c == ';' {
            let end = run_end(text, at + 1, CharClass::LineBody);
            let body = text.subrange(at + 1, end);
            let width = 1 + utf8_len(body);
            proof {
                lemma_run_end(text, at + 1, CharClass::LineBody);
            }
            emit(
                span(TokenKind::Comment { contents: body }, line + 1, col + 1, col + width),
                scan(text, end, line, col + width),
            )
        } else if c == '\n' {
            emit(point(TokenKind::Newline, line + 1, col + 1), scan(text, at + 1, line + 1, 0))
        } else if is_digit(c) {
            let end = number_end(text, at);
            let width = end - at;
            proof {
                lemma_number_end(text, at);
            }
            emit(
                span(
                    TokenKind::Number { value: text.subrange(at, end) },
                    line + 1,
                    col + 1,
                    col + 1 + width,
                ),
                scan(text, end, line, col + width),
            )
        } else if char_is_whitespace(c) {
            scan(text, at + 1, line, col + 1)
        } else if is_ident_start(c) {
            let end = run_end(text, at + 1, CharClass::IdentPart);
            let width = end - at;
            proof {
                lemma_run_end(text, at + 1, CharClass::IdentPart);
            }
            emit(
                span(word_kind(text.subrange(at, end)), line + 1, col + 1, col + width),
                scan(text, end, line, col + width),
            )
        } else {
            Err(
                TokenizerError::UnexpectedCharacter {
                    found: c,
                    line: (line + 1) as usize,
                    col: (col + 1) as usize,
                },
            )
        }
    }
}

/// The tokens of `text`, or the first character that starts no token.
pub open spec fn lex(text: Seq<char>) -> Lexed {
    scan(text, 0, 0, 0)
}

/// Whether `tokens` ends in `EOF` and holds no other `EOF`.
pub open spec fn ends_in_single_eof(tokens: Seq<TokenView>) -> bool {
    &&& tokens.len() > 0
    &&& tokens.last().kind is EOF
    &&& forall|i: int| 0 <= i < tokens.len() - 1 ==> !((#[trigger] tokens[i]).kind is EOF)
}

/// Putting a token that is not `EOF` before tokens that end in a single `EOF`
/// gives tokens that end in a single `EOF`.
proof fn lemma_emit_keeps_eof(first: TokenView, rest: Lexed)
    requires
        !(first.kind is EOF),
        rest is Ok ==> ends_in_single_eof(rest->Ok_0),
    ensures
        emit(first, rest) is Ok ==> ends_in_single_eof(emit(first, rest)->Ok_0),
{
    if let Ok(tokens) = rest {
        let all = seq![first] + tokens;
        assert(all.last() == tokens.last());
        assert forall|i: int| 0 <= i < all.len() - 1 implies !((#[trigger] all[i]).kind is EOF) by {
            if i > 0 {
                assert(all[i] == tokens[i - 1]);
            }
        }
    }
}

/// The tokens of a text from any index on end in `EOF` and hold no other
/// `EOF`.
pub proof fn lemma_scan_ends_in_eof(text: Seq<char>, at: int, line: int, col: int)
    ensures
        scan(text, at, line, col) is Ok ==> ends_in_single_eof(scan(text, at, line, col)->Ok_0),
    decreases text.len() - at,
{
    if at < 0 || at >= text.len() {
    } else {
        let c = text[at];
        if is_operator(c) {
            if has_char(text, at + 1, '=') {
                lemma_scan_ends_in_eof(text, at + 2, line, col + 2);
                lemma_emit_keeps_eof(
                    point(compound_kind(c), line + 1, col + 1),
                    scan(text, at + 2, line, col + 2),
                );
            } else {
                lemma_scan_ends_in_eof(text, at + 1, line, col + 1);
                lemma_emit_keeps_eof(
                    point(operator_kind(c), line + 1, col + 1),
                    scan(text, at + 1, line, col + 1),
                );
            }
        } else if is_punctuation(c) {
            lemma_scan_ends_in_eof(text, at + 1, line, col + 1);
            lemma_emit_keeps_eof(
                point(punctuation_kind(c), line + 1, col + 1),
                scan(text, at + 1, line, col + 1),
            );
        } else if c == ';' {
            let end = run_end(text, at + 1, CharClass::LineBody);
            let body = text.subrange(at + 1, end);
            let width = 1 + utf8_len(body);
            lemma_run_end(text, at + 1, CharClass::LineBody);
            lemma_scan_ends_in_eof(text, end, line, col + width);
            lemma_emit_keeps_eof(
                span(TokenKind::Comment { contents: body }, line + 1, col + 1, col + width),
                scan(text, end, line, col + width),
            );
        } else if c == '\n' {
            lemma_scan_ends_in_eof(text, at + 1, line + 1, 0);
            lemma_emit_keeps_eof(
                point(TokenKind::Newline, line + 1, col + 1),
                scan(text, at + 1, line + 1, 0),
            );
        } else if is_digit(c) {
            let end = number_end(text, at);
            let width = end - at;
            lemma_number_end(text, at);
            lemma_scan_ends_in_eof(text, end, line, col + width);
            lemma_emit_keeps_eof(
                span(
                    TokenKind::Number { value: text.subrange(at, end) },
                    line + 1,
                    col + 1,
                    col + 1 + width,
                ),
                scan(text, end, line, col + width),
            );
        } else if char_is_whitespace(c) {
            lemma_scan_ends_in_eof(text, at + 1, line, col + 1);
        } else if is_ident_start(c) {
            let end = run_end(text, at + 1, CharClass::IdentPart);
            let width = end - at;
            lemma_run_end(text, at + 1, CharClass::IdentPart);
            lemma_scan_ends_in_eof(text, end, line, col + width);
            lemma_emit_keeps_eof(
                span(word_kind(text.subrange(at, end)), line + 1, col + 1, col + width),
                scan(text, end, line, col + width),
            );
        }
    }
}

/// Every successful lexical analysis ends in exactly one `EOF` token.
pub proof fn lemma_lex_ends_in_eof(text: Seq<char>)
    ensures
        lex(text) is Ok ==> ends_in_single_eof(lex(text)->Ok_0),
{
    lemma_scan_ends_in_eof(text, 0, 0, 0);
}

/// Whether a token stands on the first line, at a column that counts from
/// one.
pub open spec fn on_first_line(t: TokenView) -> bool {
    t.line == 1 && t.start >= 1
}

/// Whether the outcome of an analysis stands on the first line: each token,
/// or the error.
pub open spec fn lexed_on_first_line(r: Lexed) -> bool {
    match r {
        Ok(tokens) => forall|i: int| 0 <= i < tokens.len() ==> on_first_line(#[trigger] tokens[i]),
        Err(TokenizerError::UnexpectedCharacter { line, col, .. }) => line == 1 && col >= 1,
    }
}

/// Putting a token of the first line before an outcome of the first line
/// gives an outcome of the first line.
proof fn lemma_emit_on_first_line(first: TokenView, rest: Lexed)
    requires
        on_first_line(first),
        lexed_on_first_line(rest),
    ensures
        lexed_on_first_line(emit(first, rest)),
{
    if let Ok(tokens) = rest {
        let all = seq![first] + tokens;
        assert forall|i: int| 0 <= i < all.len() implies on_first_line(#[trigger] all[i]) by {
            if i > 0 {
                assert(all[i] == tokens[i - 1]);
            }
        }
    }
}

/// In a text without line feeds that is not too long for the machine, every
/// token and the error, if there is one, stand on line one at a column of at
/// least one.
pub proof fn lemma_scan_on_first_line(text: Seq<char>, at: int, col: int)
    requires
        0 <= at <= text.len(),
        forall|k: int| 0 <= k < text.len() ==> text[k] != '\n',
        0 <= col <= utf8_len(text.take(at)),
        utf8_len(text) < usize::MAX,
    ensures
        lexed_on_first_line(scan(text, at, 0, col)),
    decreases text.len() - at,
{
    lemma_utf8_len_subrange(text, 0, at);
    if at < text.len() {
        let c = text[at];
        lemma_utf8_len_subrange(text, at, at + 1);
        if is_operator(c) {
            if has_char(text, at + 1, '=') {
                lemma_utf8_len_subrange(text, at, at + 2);
                lemma_scan_on_first_line(text, at + 2, col + 2);
                lemma_emit_on_first_line(
                    point(compound_kind(c), 1, col + 1),
                    scan(text, at + 2, 0, col + 2),
                );
            } else {
                lemma_scan_on_first_line(text, at + 1, col + 1);
                lemma_emit_on_first_line(
                    point(operator_kind(c), 1, col + 1),
                    scan(text, at + 1, 0, col + 1),
                );
            }
        } else if is_punctuation(c) {
            lemma_scan_on_first_line(text, at + 1, col + 1);
            lemma_emit_on_first_line(
                point(punctuation_kind(c), 1, col + 1),
                scan(text, at + 1, 0, col + 1),
            );
        } else if c == ';' {
            let end = run_end(text, at + 1, CharClass::LineBody);
            let body = text.subrange(at + 1, end);
            let width = 1 + utf8_len(body);
            lemma_run_end(text, at + 1, CharClass::LineBody);
            lemma_utf8_len_subrange(text, at + 1, end);
            lemma_scan_on_first_line(text, end, col + width);
            lemma_emit_on_first_line(
                span(TokenKind::Comment { contents: body }, 1, col + 1, col + width),
                scan(text, end, 0, col + width),
            );
        } else if c == '\n' {
        } else if is_digit(c) {
            let end = number_end(text, at);
            let width = end - at;
            lemma_number_end(text, at);
            lemma_utf8_len_subrange(text, at, end);
            lemma_scan_on_first_line(text, end, col + width);
            lemma_emit_on_first_line(
                span(
                    TokenKind::Number { value: text.subrange(at, end) },
                    1,
                    col + 1,
                    col + 1 + width,
                ),
                scan(text, end, 0, col + width),
            );
        } else if char_is_whitespace(c) {
            lemma_scan_on_first_line(text, at + 1, col + 1);
        } else if is_ident_start(c) {
            let end = run_end(text, at + 1, CharClass::IdentPart);
            let width = end - at;
            lemma_run_end(text, at + 1, CharClass::IdentPart);
            lemma_utf8_len_subrange(text, at, end);
            lemma_scan_on_first_line(text, end, col + width);
            lemma_emit_on_first_line(
                span(word_kind(text.subrange(at, end)), 1, col + 1, col + width),
                scan(text, end, 0, col + width),
            );
        }
    }
}

/// The analysis of a text without line feeds that is not too long for the
/// machine puts every token, and the error if there is one, on line one at
/// a column of at least one.
pub proof fn lemma_lex_on_first_line(text: Seq<char>)
    requires
        forall|k: int| 0 <= k < text.len() ==> text[k] != '\n',
        utf8_len(text) < usize::MAX,
    ensures
        lexed_on_first_line(lex(text)),
{
    assert(text.take(0) =~= Seq::<char>::empty());
    lemma_scan_on_first_line(text, 0, 0);
}

/// Moving one token from the head of what follows to the end of what is done
/// leaves the whole unchanged.
pub proof fn lemma_after_emit(done: Seq<TokenView>, first: TokenView, rest: Lexed)
    ensures
        after(done, emit(first, rest)) == after(done.push(first), rest),
{
    if let Ok(tokens) = rest {
        assert(done + (seq![first] + tokens) =~= done.push(first) + tokens);
    }
}

/// The scanner: a text and the tokens that the last successful analysis of
/// it produced.
#[derive(Debug)]
pub struct Tokenizer {
    content: String,
    tokens: Vec<Token>,
}

/// The texts of tokens, each on a line of its own after a tab.
pub open spec fn tokens_text(tokens: Seq<TokenView>) -> Seq<char>
    decreases tokens.len(),
{
    if tokens.len() == 0 {
        Seq::empty()
    } else {
        tokens_text(tokens.drop_last()) + "\t"@ + token_text(tokens.last()) + "\n"@
    }
}

/// The text that shows a scanner: its text, then the tokens it produced.
pub open spec fn tokenizer_text(text: Seq<char>, produced: Seq<TokenView>) -> Seq<char> {
    "Tokenizer { content:\n"@ + text + "\ntokens:\n"@ + tokens_text(produced) + "}"@
}

/// The end of the number literal that starts at `from`.
fn number_to(chars: &Vec<char>, from: usize) -> (end: usize)
    requires
        from < chars.len(),
        is_digit(chars@[from as int]),
    ensures
        end == number_end(chars@, from as int),
        from < end <= chars.len(),
{
    proof {
        lemma_number_end(chars@, from as int);
    }
    let whole = run_to(chars, from, CharClass::Digit);
    let mantissa = if char_at_is(chars, whole, '.') {
        run_to(chars, whole + 1, CharClass::Digit)
    } else {
        whole
    };
    if char_at_is(chars, mantissa, 'e') || char_at_is(chars, mantissa, 'E') {
        let signed = mantissa + 1;
        let digits = if char_at_is(chars, signed, '+') || char_at_is(chars, signed, '-') {
            signed + 1
        } else {
            signed
        };
        run_to(chars, digits, CharClass::Digit)
    } else {
        mantissa
    }
}

/// The kind of the word `chars[from..to]`.
fn word_of(chars: &Vec<char>, from: usize, to: usize) -> (kind: TokenType)
    requires
        from <= to <= chars.len(),
    ensures
        kind@ == word_kind(chars@.subrange(from as int, to as int)),
{
    let ghost word = chars@.subrange(from as int, to as int);
    if to - from == 3 && chars[from] == 'l' && chars[from + 1] == 'e' && chars[from + 2] == 't' {
        assert(word =~= keyword_let());
        TokenType::Let
    } else {
        assert(word != keyword_let()) by {
            if word == keyword_let() {
                assert(word.len() == 3);
                assert(word[0] == 'l' && word[1] == 'e' && word[2] == 't');
            }
        }
        TokenType::Identifier { name: text_of(chars, from, to) }
    }
}

/// The token kind of one of `+ - * /`, alone or before `=`.
fn operator_of(c: char, compound: bool) -> (kind: TokenType)
    requires
        is_operator(c),
    ensures
        kind@ == (if compound {
            compound_kind(c)
        } else {
            operator_kind(c)
        }),
{
    if c == '+' {
        if compound {
            TokenType::PlusAssign
        } else {
            TokenType::Plus
        }
    } else if c == '-' {
        if compound {
            TokenType::MinusAssign
        } else {
            TokenType::Minus
        }
    } else if c == '*' {
        if compound {
            TokenType::MulAssign
        } else {
            TokenType::Mul
        }
    } else {
        if compound {
            TokenType::DivAssign
        } else {
            TokenType::Div
        }
    }
}

/// The token kind of one of `( ) = :`.
fn punctuation_of(c: char) -> (kind: TokenType)
    requires
        is_punctuation(c),
    ensures
        kind@ == punctuation_kind(c),
{
    if c == '(' {
        TokenType::ParanOpen
    } else if c == ')' {
        TokenType::ParanClose
    } else if c == '=' {
        TokenType::Assign
    } else {
        TokenType::Colon
    }
}

/// Copies of the tokens of `tokens`.
pub fn duplicate_tokens(tokens: &Vec<Token>) -> (copy: Vec<Token>)
    ensures
        token_views(copy@) == token_views(tokens@),
{
    let mut copy: Vec<Token> = Vec::new();
    let mut i: usize = 0;
    while i < tokens.len()
        invariant
            i <= tokens.len(),
            copy.len() == i,
            forall|k: int| 0 <= k < i ==> copy@[k]@ == tokens@[k]@,
        decreases tokens.len() - i,
    {
        copy.push(tokens[i].duplicate());
        i += 1;
    }
    assert(token_views(copy@) =~= token_views(tokens@));
    copy
}

impl Tokenizer {
    /// The text that this scanner analyses.
    pub closed spec fn text(&self) -> Seq<char> {
        self.content@
    }

    /// The tokens that the last successful analysis produced.
    pub closed spec fn produced(&self) -> Seq<TokenView> {
        token_views(self.tokens@)
    }

    /// A scanner for `content`, which has produced nothing yet.
    pub fn new(content: String) -> (t: Tokenizer)
        ensures
            t.text() == content@,
            t.produced() == Seq::<TokenView>::empty(),
    {
        let t = Tokenizer { content, tokens: Vec::new() };
        assert(t.produced() =~= Seq::<TokenView>::empty());
        t
    }

    /// The text that shows this scanner: the text it analyses, then each of
    /// the tokens that it produced on a line of its own.
    pub fn to_text(&self) -> (s: String)
        ensures
            s@ == tokenizer_text(self.text(), self.produced()),
    {
        let mut s = String::new();
        push_text(&mut s, "Tokenizer { content:\n");
        push_text(&mut s, self.content.as_str());
        push_text(&mut s, "\ntokens:\n");
        let ghost head = s@;
        let ghost all = token_views(self.tokens@);
        let mut i: usize = 0;
        proof {
            assert(all.take(0) =~= Seq::<TokenView>::empty());
            assert(head + tokens_text(all.take(0)) =~= head);
        }
        while i < self.tokens.len()
            invariant
                i <= self.tokens.len(),
                all == token_views(self.tokens@),
                s@ == head + tokens_text(all.take(i as int)),
            decreases self.tokens.len() - i,
        {
            let ghost before = tokens_text(all.take(i as int));
            push_text(&mut s, "\t");
            let line = self.tokens[i].to_text();
            push_text(&mut s, line.as_str());
            push_text(&mut s, "\n");
            proof {
                assert(all.take(i as int + 1).drop_last() =~= all.take(i as int));
                assert(all.take(i as int + 1).last() == self.tokens@[i as int]@);
                assert(s@ =~= head + (before + "\t"@ + token_text(self.tokens@[i as int]@)
                    + "\n"@));
            }
            i += 1;
        }
        proof {
            assert(all.take(self.tokens.len() as int) =~= all);
        }
        push_text(&mut s, "}");
        s
    }

    /// Analyses the text: returns its tokens, the last of them `EOF`, and
    /// keeps a copy of them; or returns the first character that starts no
    /// token, with its line and column, and keeps what it had.
    pub fn tokenize(&mut self) -> (r: Result<Vec<Token>, TokenizerError>)
        requires
            utf8_len(old(self).text()) < usize::MAX,
        ensures
            final(self).text() == old(self).text(),
            match r {
                Ok(tokens) => lex(old(self).text()) == Ok::<Seq<TokenView>, TokenizerError>(
                    token_views(tokens@),
                ) && final(self).produced() == token_views(tokens@) && ends_in_single_eof(
                    token_views(tokens@),
                ),
                Err(e) => lex(old(self).text()) == Err::<Seq<TokenView>, TokenizerError>(e)
                    && final(self).produced() == old(self).produced(),
            },
    {
        proof {
            lemma_lex_ends_in_eof(self.content@);
        }
        let chars = chars_of(self.content.as_str());
        let len = chars.len();
        let ghost text = chars@;
        let mut tokens: Vec<Token> = Vec::new();
        let mut i: usize = 0;
        let mut line_no: usize = 0;
        let mut col: usize = 0;
        proof {
            lemma_utf8_len_at_least_len(text);
            assert(text.take(0) =~= Seq::<char>::empty());
            assert(token_views(tokens@) =~= Seq::<TokenView>::empty());
            assert(Seq::<TokenView>::empty() + lex(text)->Ok_0 =~= lex(text)->Ok_0);
        }
        while i < len
            invariant
                text == chars@,
                text == self.content@,
                len == chars.len(),
                i <= len,
                line_no <= i,
                col <= utf8_len(text.take(i as int)),
                len <= utf8_len(text),
                utf8_len(text) < usize::MAX,
                lex(text) == after(token_views(tokens@), scan(text, i as int, line_no as int, col as int)),
                *self == *old(self),
            decreases len - i,
        {
            let c = chars[i];
            let ghost done = token_views(tokens@);
            proof {
                lemma_utf8_len_subrange(text, i as int, i as int + 1);
                if i + 2 <= len {
                    lemma_utf8_len_subrange(text, i as int, i as int + 2);
                }
            }
            if c == '+' || c == '-' || c == '*' || c == '/' {
                let compound = char_at_is(&chars, i + 1, '=');
                let token = Token::new(operator_of(c, compound), line_no + 1, col + 1, col + 1);
                proof {
                    let rest = if compound {
                        scan(text, i as int + 2, line_no as int, col as int + 2)
                    } else {
                        scan(text, i as int + 1, line_no as int, col as int + 1)
                    };
                    lemma_after_emit(done, token@, rest);
                    assert(token_views(tokens@.push(token)) =~= done.push(token@));
                }
                tokens.push(token);
                if compound {
                    i += 2;
                    col += 2;
                } else {
                    i += 1;
                    col += 1;
                }
            } else if c == '(' || c == ')' || c == '=' || c == ':' {
                let token = Token::new(punctuation_of(c), line_no + 1, col + 1, col + 1);
                proof {
                    lemma_after_emit(
                        done,
                        token@,
                        scan(text, i as int + 1, line_no as int, col as int + 1),
                    );
                    assert(token_views(tokens@.push(token)) =~= done.push(token@));
                }
                tokens.push(token);
                i += 1;
                col += 1;
            } else if c == ';' {
                let end = run_to(&chars, i + 1, CharClass::LineBody);
                proof {
                    lemma_utf8_len_subrange(text, i as int + 1, end as int);
                }
                let width = byte_len(&chars, i + 1, end);
                let body = text_of(&chars, i + 1, end);
                let token = Token::new(
                    TokenType::Comment { contents: body },
                    line_no + 1,
                    col + 1,
                    col + 1 + width,
                );
                proof {
                    lemma_after_emit(
                        done,
                        token@,
                        scan(text, end as int, line_no as int, col as int + 1 + width as int),
                    );
                    assert(token_views(tokens@.push(token)) =~= done.push(token@));
                }
                tokens.push(token);
                col = col + 1 + width;
                i = end;
            } else if c == '\n' {
                let token = Token::newline(line_no + 1, col + 1);
                proof {
                    lemma_after_emit(done, token@, scan(text, i as int + 1, line_no as int + 1, 0));
                    assert(token_views(tokens@.push(token)) =~= done.push(token@));
                }
                tokens.push(token);
                i += 1;
                col = 0;
                line_no += 1;
            } else if digit(c) {
                let end = number_to(&chars, i);
                proof {
                    lemma_utf8_len_subrange(text, i as int, end as int);
                }
                let width = end - i;
                let token = Token::new(
                    TokenType::Number { value: text_of(&chars, i, end) },
                    line_no + 1,
                    col + 1,
                    col + 1 + width,
                );
                proof {
                    lemma_after_emit(
                        done,
                        token@,
                        scan(text, end as int, line_no as int, col as int + width as int),
                    );
                    assert(token_views(tokens@.push(token)) =~= done.push(token@));
                }
                tokens.push(token);
                col = col + width;
                i = end;
            } else if c.is_whitespace() {
                i += 1;
                col += 1;
            } else if ident_start(c) {
                let end = run_to(&chars, i + 1, CharClass::IdentPart);
                proof {
                    lemma_utf8_len_subrange(text, i as int, end as int);
                }
                let width = end - i;
                let token = Token::new(word_of(&chars, i, end), line_no + 1, col + 1, col + width);
                proof {
                    lemma_after_emit(
                        done,
                        token@,
                        scan(text, end as int, line_no as int, col as int + width as int),
                    );
                    assert(token_views(tokens@.push(token)) =~= done.push(token@));
                }
                tokens.push(token);
                col = col + width;
                i = end;
            } else {
                return Err(
                    TokenizerError::UnexpectedCharacter { found: c, line: line_no + 1, col: col + 1 },
                );
            }
        }
        proof {
            lemma_utf8_len_subrange(text, 0, len as int);
        }
        let last = Token::eof(line_no + 1, col + 1);
        proof {
            assert(token_views(tokens@.push(last)) =~= token_views(tokens@) + seq![last@]);
        }
        tokens.push(last);
        self.tokens = duplicate_tokens(&tokens);
        Ok(tokens)
    }
}

} // verus!
