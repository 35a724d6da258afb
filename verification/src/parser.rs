//! The parser: from a token stream to one statement.
//!
//! The grammar is given by the spec functions `primary_at`, `expr_at`,
//! `chain_at` and `statement_at`; the parser computes exactly what they say.
//!
//! ```text
//! statement := "let" NAME [":" NAME] "=" expr
//!            | NAME "=" expr
//!            | NAME ("+=" | "-=" | "*=" | "/=") expr
//!            | expr
//! expr      := term { ("+" | "-") term }
//! term      := primary { ("*" | "/") primary | primary }
//! primary   := NUMBER | NAME | "(" ")" | "(" expr ")" | ("+" | "-") primary
//! ```
//!
//! Two operands that stand side by side are multiplied. That multiplication
//! is on the level of `*` and `/`: it binds as they do, and with them it
//! groups from left to right, so `8 / 2(4)` is `(8 / 2) * 4`. A sign binds
//! tighter than every operator.

use crate::ast::{Expr, ExprView, Statement, StatementView};
use crate::errors::{ParserError, ParserErrorView};
use crate::number::{is_reading, read, reading_of, Number, Reading};
use crate::tokenizer::{on_first_line, token_views, Token, TokenKind, TokenType, TokenView};
use vstd::prelude::*;

verus! {

/// Whether a token of this kind takes part in parsing: everything but
/// comments and newlines.
pub open spec fn is_significant(kind: TokenKind) -> bool {
    !(kind is Comment) && !(kind is Newline)
}

/// The tokens of `tokens` that take part in parsing, in order.
pub open spec fn significant(tokens: Seq<TokenView>) -> Seq<TokenView>
    decreases tokens.len(),
{
    if tokens.len() == 0 {
        Seq::empty()
    } else if is_significant(tokens.last().kind) {
        significant(tokens.drop_last()).push(tokens.last())
    } else {
        significant(tokens.drop_last())
    }
}

/// A stream that can be parsed: it is not empty and its last token is `EOF`.
pub open spec fn is_terminated(ts: Seq<TokenView>) -> bool {
    ts.len() > 0 && ts.last().kind is EOF
}

/// The position after `at`; the last token is never left.
pub open spec fn advance_from(ts: Seq<TokenView>, at: int) -> int {
    if at < ts.len() - 1 {
        at + 1
    } else {
        at
    }
}

/// The error for a token that stands where another was expected.
pub open spec fn unexpected(t: TokenView) -> ParserErrorView {
    ParserErrorView::UnexpectedToken { found: t.kind, line: t.line, col: t.start }
}

/// Whether a token of this kind begins an operand that is multiplied with the
/// operand before it: `(`, a number or a name.
pub open spec fn starts_operand(kind: TokenKind) -> bool {
    kind is ParanOpen || kind is Number || kind is Identifier
}

/// An operator between two operands: the operation it stands for, how
/// tightly it binds, and how many tokens it takes.
pub struct Operator {
    pub op: TokenKind,
    pub power: int,
    pub width: int,
}

/// The operator that a token is between two operands, if it is one.
///
/// `+` and `-` bind with power 1, `*` and `/` with power 2. The start of an
/// operand is a multiplication that is not written: it stands for `*`, binds
/// with the power of `*`, and takes no token.
pub open spec fn operator_at(kind: TokenKind) -> Option<Operator> {
    if kind is Plus || kind is Minus {
        Some(Operator { op: kind, power: 1, width: 1 })
    } else if kind is Mul || kind is Div {
        Some(Operator { op: kind, power: 2, width: 1 })
    } else if starts_operand(kind) {
        Some(Operator { op: TokenKind::Mul, power: 2, width: 0 })
    } else {
        None
    }
}

/// `left op right`.
pub open spec fn binary(left: ExprView, op: TokenKind, right: ExprView) -> ExprView {
    ExprView::BinaryOp { left: Box::new(left), op, right: Box::new(right) }
}

/// What parsing an expression gives: the expression or the error, and the
/// position at which parsing stopped.
pub type ParsedExpr = (Result<ExprView, ParserErrorView>, int);

/// What parsing a statement gives: the statement or the error, and the
/// position at which parsing stopped.
pub type ParsedStatement = (Result<StatementView, ParserErrorView>, int);

/// The operand that starts at `at`: a number, a name, a parenthesis with or
/// without an expression in it, or a sign before its operand. The operand of
/// a sign is made of operators that bind tighter than `*`, of which there is
/// none, so it is one operand.
pub open spec fn primary_at(read: Reading, ts: Seq<TokenView>, at: int) -> ParsedExpr
    decreases ts.len() - at, 0int,
{
    if at < 0 || at >= ts.len() - 1 || ts[at].kind is EOF {
        (Err(ParserErrorView::UnexpectedEOF { line: ts[at].line, col: ts[at].start }), at)
    } else {
        let t = ts[at];
        match t.kind {
            TokenKind::Number { value } => match read(value) {
                Some(n) => (Ok(ExprView::Number(n)), at + 1),
                None => (
                    Err(ParserErrorView::InvalidNumber { value, line: t.line, col: t.start }),
                    at + 1,
                ),
            },
            TokenKind::Identifier { name } => (Ok(ExprView::Variable(name)), at + 1),
            TokenKind::ParanOpen => {
                if ts[at + 1].kind is ParanClose {
                    (Ok(ExprView::EmptyParen), advance_from(ts, at + 1))
                } else {
                    let (inner, next) = expr_at(read, ts, at + 1, 0);
                    match inner {
                        Err(e) => (Err(e), next),
                        Ok(e) => if ts[next].kind is ParanClose {
                            (Ok(e), advance_from(ts, next))
                        } else {
                            (Err(unexpected(ts[next])), next)
                        },
                    }
                }
            },
            TokenKind::Plus | TokenKind::Minus => {
                let (operand, next) = expr_at(read, ts, at + 1, 3);
                match operand {
                    Err(e) => (Err(e), next),
                    Ok(e) => (Ok(ExprView::UnaryOp { op: t.kind, expr: Box::new(e) }), next),
                }
            },
            _ => (Err(unexpected(t)), at + 1),
        }
    }
}

/// The expression that starts at `at` and is made of operands joined by
/// operators of binding power `min` or more.
pub open spec fn expr_at(read: Reading, ts: Seq<TokenView>, at: int, min: int) -> ParsedExpr
    decreases ts.len() - at, 1int,
{
    let (first, next) = primary_at(read, ts, at);
    match first {
        Err(e) => (Err(e), next),
        Ok(left) => if at < next < ts.len() {
            chain_at(read, ts, left, next, min)
        } else {
            (Ok(left), next)
        },
    }
}

/// The expression that `left` grows into by the operators of binding power
/// `min` or more that follow at `at`. Each is taken with its right operand,
/// which is made of operators that bind tighter than it does, so operators of
/// one power group from left to right.
pub open spec fn chain_at(
    read: Reading,
    ts: Seq<TokenView>,
    left: ExprView,
    at: int,
    min: int,
) -> ParsedExpr
    decreases ts.len() - at, 2int,
{
    if at < 0 || at >= ts.len() - 1 {
        (Ok(left), at)
    } else {
        match operator_at(ts[at].kind) {
            None => (Ok(left), at),
            Some(operator) => if operator.power < min {
                (Ok(left), at)
            } else {
                let (operand, next) = expr_at(
                    read,
                    ts,
                    at + operator.width,
                    operator.power + 1,
                );
                match operand {
                    Err(e) => (Err(e), next),
                    Ok(right) => if at < next < ts.len() {
                        chain_at(read, ts, binary(left, operator.op, right), next, min)
                    } else {
                        (Ok(left), at)
                    },
                }
            },
        }
    }
}

/// An operand that was parsed took at least one token and stopped within the
/// stream.
pub proof fn lemma_primary_advances(read: Reading, ts: Seq<TokenView>, at: int)
    requires
        is_terminated(ts),
        0 <= at < ts.len(),
    ensures
        primary_at(read, ts, at).0 is Ok ==> at < primary_at(read, ts, at).1 < ts.len(),
        at <= primary_at(read, ts, at).1 < ts.len(),
    decreases ts.len() - at, 0int,
{
    if !(at >= ts.len() - 1 || ts[at].kind is EOF) {
        let t = ts[at];
        match t.kind {
            TokenKind::ParanOpen => {
                if !(ts[at + 1].kind is ParanClose) {
                    lemma_expr_advances(read, ts, at + 1, 0);
                }
            },
            TokenKind::Plus | TokenKind::Minus => {
                lemma_expr_advances(read, ts, at + 1, 3);
            },
            _ => {},
        }
    }
}

/// An expression that was parsed took at least one token and stopped within
/// the stream.
pub proof fn lemma_expr_advances(read: Reading, ts: Seq<TokenView>, at: int, min: int)
    requires
        is_terminated(ts),
        0 <= at < ts.len(),
    ensures
        expr_at(read, ts, at, min).0 is Ok ==> at < expr_at(read, ts, at, min).1 < ts.len(),
        at <= expr_at(read, ts, at, min).1 < ts.len(),
    decreases ts.len() - at, 1int,
{
    lemma_primary_advances(read, ts, at);
    let (first, next) = primary_at(read, ts, at);
    if let Ok(left) = first {
        lemma_chain_advances(read, ts, left, next, min);
    }
}

/// Growing an expression never moves backwards and stops within the stream.
pub proof fn lemma_chain_advances(
    read: Reading,
    ts: Seq<TokenView>,
    left: ExprView,
    at: int,
    min: int,
)
    requires
        is_terminated(ts),
        0 <= at < ts.len(),
    ensures
        at <= chain_at(read, ts, left, at, min).1 < ts.len(),
    decreases ts.len() - at, 2int,
{
    if at < ts.len() - 1 {
        if let Some(operator) = operator_at(ts[at].kind) {
            if operator.power >= min {
                let from = at + operator.width;
                lemma_expr_advances(read, ts, from, operator.power + 1);
                let (operand, next) = expr_at(read, ts, from, operator.power + 1);
                if let Ok(right) = operand {
                    lemma_chain_advances(read, ts, binary(left, operator.op, right), next, min);
                }
            }
        }
    }
}

/// Where only operators that bind tighter than `*` may join operands, an
/// expression is a single operand: no operator binds that tightly. This is so
/// for the operand of a sign and for the right operand of `*`, of `/` and of
/// a multiplication that is not written.
pub proof fn lemma_tight_expression_is_operand(read: Reading, ts: Seq<TokenView>, at: int, min: int)
    requires
        min > 2,
    ensures
        expr_at(read, ts, at, min) == primary_at(read, ts, at),
{
}

/// A multiplication that is not written is on the level of `*` and `/` and
/// groups to the left with them.
///
/// Where an operand starts at `at`, after the expression `left`, the two are
/// multiplied and the product goes on to what follows, exactly as if `*`
/// stood between them; and a `*` or `/` at `at` takes the one operand after
/// it and goes on in the same way.
pub proof fn law_products_group_left(
    read: Reading,
    ts: Seq<TokenView>,
    left: ExprView,
    at: int,
    min: int,
)
    requires
        is_terminated(ts),
        0 <= at < ts.len() - 1,
        min <= 2,
    ensures
        starts_operand(ts[at].kind) ==> chain_at(read, ts, left, at, min) == (match primary_at(
            read,
            ts,
            at,
        ).0 {
            Err(e) => (Err::<ExprView, ParserErrorView>(e), primary_at(read, ts, at).1),
            Ok(right) => chain_at(
                read,
                ts,
                binary(left, TokenKind::Mul, right),
                primary_at(read, ts, at).1,
                min,
            ),
        }),
        ts[at].kind is Mul || ts[at].kind is Div ==> chain_at(read, ts, left, at, min) == (
        match primary_at(read, ts, at + 1).0 {
            Err(e) => (Err::<ExprView, ParserErrorView>(e), primary_at(read, ts, at + 1).1),
            Ok(right) => chain_at(
                read,
                ts,
                binary(left, ts[at].kind, right),
                primary_at(read, ts, at + 1).1,
                min,
            ),
        }),
{
    lemma_tight_expression_is_operand(read, ts, at, 3);
    lemma_tight_expression_is_operand(read, ts, at + 1, 3);
    lemma_primary_advances(read, ts, at);
    lemma_primary_advances(read, ts, at + 1);
}

/// The statement made of `value`, or its error.
pub open spec fn expression_statement(parsed: ParsedExpr) -> ParsedStatement {
    match parsed.0 {
        Ok(value) => (Ok(StatementView::Expression(value)), parsed.1),
        Err(e) => (Err(e), parsed.1),
    }
}

/// The rest of a declaration of `name` from `at` on: `=` and the value.
pub open spec fn let_value_at(
    read: Reading,
    ts: Seq<TokenView>,
    name: Seq<char>,
    annotation: Option<Seq<char>>,
    at: int,
) -> ParsedStatement {
    if ts[at].kind is Assign {
        let (value, next) = expr_at(read, ts, advance_from(ts, at), 0);
        match value {
            Ok(v) => (Ok(StatementView::Let { name, annotation, value: v }), next),
            Err(e) => (Err(e), next),
        }
    } else {
        (Err(unexpected(ts[at])), at)
    }
}

/// The declaration whose `let` stands at `at`.
pub open spec fn let_at(read: Reading, ts: Seq<TokenView>, at: int) -> ParsedStatement {
    let name_at = advance_from(ts, at);
    match ts[name_at].kind {
        TokenKind::Identifier { name } => {
            let after_name = advance_from(ts, name_at);
            if ts[after_name].kind is Colon {
                let type_at = advance_from(ts, after_name);
                match ts[type_at].kind {
                    TokenKind::Identifier { name: annotation } => let_value_at(
                        read,
                        ts,
                        name,
                        Some(annotation),
                        advance_from(ts, type_at),
                    ),
                    _ => (Err(unexpected(ts[type_at])), type_at),
                }
            } else {
                let_value_at(read, ts, name, None, after_name)
            }
        },
        _ => (Err(unexpected(ts[name_at])), name_at),
    }
}

/// Whether a token of this kind is a compound assignment operator.
pub open spec fn is_compound(kind: TokenKind) -> bool {
    kind is PlusAssign || kind is MinusAssign || kind is MulAssign || kind is DivAssign
}

/// The assignment to `name`, whose `=` stands at `at`.
pub open spec fn assignment_at(
    read: Reading,
    ts: Seq<TokenView>,
    name: Seq<char>,
    at: int,
) -> ParsedStatement {
    let (value, next) = expr_at(read, ts, advance_from(ts, at), 0);
    match value {
        Ok(v) => (Ok(StatementView::Assignment { name, value: v }), next),
        Err(e) => (Err(e), next),
    }
}

/// The compound assignment to `name`, whose operator stands at `at`.
pub open spec fn compound_at(
    read: Reading,
    ts: Seq<TokenView>,
    name: Seq<char>,
    at: int,
) -> ParsedStatement {
    let (value, next) = expr_at(read, ts, advance_from(ts, at), 0);
    match value {
        Ok(v) => (Ok(StatementView::CompoundAssignment { name, op: ts[at].kind, value: v }), next),
        Err(e) => (Err(e), next),
    }
}

/// The statement that starts at `at`. Where only the end of the input is
/// left, it is the empty expression.
pub open spec fn statement_at(read: Reading, ts: Seq<TokenView>, at: int) -> ParsedStatement {
    match ts[at].kind {
        TokenKind::EOF => (Ok(StatementView::Expression(ExprView::Empty)), at),
        TokenKind::Let => let_at(read, ts, at),
        TokenKind::Identifier { name } => {
            let next = advance_from(ts, at);
            if ts[next].kind is Assign {
                assignment_at(read, ts, name, next)
            } else if is_compound(ts[next].kind) {
                compound_at(read, ts, name, next)
            } else {
                expression_statement(expr_at(read, ts, at, 0))
            }
        },
        _ => expression_statement(expr_at(read, ts, at, 0)),
    }
}

/// The statement at the start of the significant tokens of `tokens`.
pub open spec fn parse_tokens(read: Reading, tokens: Seq<TokenView>) -> Result<
    StatementView,
    ParserErrorView,
> {
    statement_at(read, significant(tokens), 0).0
}

/// Whether every token of a stream stands on the first line, at a column
/// that counts from one.
pub open spec fn all_on_first_line(ts: Seq<TokenView>) -> bool {
    forall|k: int| 0 <= k < ts.len() ==> on_first_line(#[trigger] ts[k])
}

/// Whether an error stands on the first line, at a column that counts from
/// one.
pub open spec fn error_on_first_line(e: ParserErrorView) -> bool {
    e.line() == 1 && e.col() >= 1
}

/// The significant tokens of a stream of the first line are of the first
/// line.
pub proof fn lemma_significant_on_first_line(tokens: Seq<TokenView>)
    requires
        all_on_first_line(tokens),
    ensures
        all_on_first_line(significant(tokens)),
    decreases tokens.len(),
{
    if tokens.len() > 0 {
        let front = tokens.drop_last();
        assert forall|k: int| 0 <= k < front.len() implies on_first_line(#[trigger] front[k]) by {
            assert(front[k] == tokens[k]);
        }
        lemma_significant_on_first_line(front);
        assert(on_first_line(tokens[tokens.len() - 1]));
    }
}

/// The error of an operand has the position of a token.
pub proof fn lemma_primary_error_position(read: Reading, ts: Seq<TokenView>, at: int)
    requires
        is_terminated(ts),
        all_on_first_line(ts),
        0 <= at < ts.len(),
    ensures
        primary_at(read, ts, at).0 matches Err(e) ==> error_on_first_line(e),
    decreases ts.len() - at, 0int,
{
    assert(on_first_line(ts[at]));
    if !(at >= ts.len() - 1 || ts[at].kind is EOF) {
        match ts[at].kind {
            TokenKind::ParanOpen => {
                if !(ts[at + 1].kind is ParanClose) {
                    lemma_expr_error_position(read, ts, at + 1, 0);
                    lemma_expr_advances(read, ts, at + 1, 0);
                    let next = expr_at(read, ts, at + 1, 0).1;
                    assert(on_first_line(ts[next]));
                }
            },
            TokenKind::Plus | TokenKind::Minus => {
                lemma_expr_error_position(read, ts, at + 1, 3);
            },
            _ => {},
        }
    }
}

/// The error of an expression has the position of a token.
pub proof fn lemma_expr_error_position(read: Reading, ts: Seq<TokenView>, at: int, min: int)
    requires
        is_terminated(ts),
        all_on_first_line(ts),
        0 <= at < ts.len(),
    ensures
        expr_at(read, ts, at, min).0 matches Err(e) ==> error_on_first_line(e),
    decreases ts.len() - at, 1int,
{
    lemma_primary_error_position(read, ts, at);
    lemma_primary_advances(read, ts, at);
    let (first, next) = primary_at(read, ts, at);
    if let Ok(left) = first {
        lemma_chain_error_position(read, ts, left, next, min);
    }
}

/// The error of the growth of an expression has the position of a token.
pub proof fn lemma_chain_error_position(
    read: Reading,
    ts: Seq<TokenView>,
    left: ExprView,
    at: int,
    min: int,
)
    requires
        is_terminated(ts),
        all_on_first_line(ts),
        0 <= at < ts.len(),
    ensures
        chain_at(read, ts, left, at, min).0 matches Err(e) ==> error_on_first_line(e),
    decreases ts.len() - at, 2int,
{
    if at < ts.len() - 1 {
        if let Some(operator) = operator_at(ts[at].kind) {
            if operator.power >= min {
                let from = at + operator.width;
                lemma_expr_error_position(read, ts, from, operator.power + 1);
                lemma_expr_advances(read, ts, from, operator.power + 1);
                let (operand, next) = expr_at(read, ts, from, operator.power + 1);
                if let Ok(right) = operand {
                    lemma_chain_error_position(
                        read,
                        ts,
                        binary(left, operator.op, right),
                        next,
                        min,
                    );
                }
            }
        }
    }
}

/// The error of a statement has the position of a token: where all tokens
/// stand on the first line, so does the error.
pub proof fn lemma_statement_error_position(read: Reading, ts: Seq<TokenView>)
    requires
        is_terminated(ts),
        all_on_first_line(ts),
    ensures
        statement_at(read, ts, 0).0 matches Err(e) ==> error_on_first_line(e),
{
    assert forall|at: int, min: int| 0 <= at < ts.len() implies (#[trigger] expr_at(
        read,
        ts,
        at,
        min,
    )).0 matches Err(e) ==> error_on_first_line(e) by {
        lemma_expr_error_position(read, ts, at, min);
    }
    assert forall|at: int| 0 <= at < ts.len() implies 0 <= #[trigger] advance_from(ts, at)
        < ts.len() by {}
    let a1 = advance_from(ts, 0);
    let a2 = advance_from(ts, a1);
    let a3 = advance_from(ts, a2);
    let a4 = advance_from(ts, a3);
    assert(on_first_line(ts[0]));
    assert(on_first_line(ts[a1]));
    assert(on_first_line(ts[a2]));
    assert(on_first_line(ts[a3]));
    assert(on_first_line(ts[a4]));
}

/// The value of the outcome of parsing an expression.
pub open spec fn expr_outcome(r: Result<Expr, ParserError>) -> Result<ExprView, ParserErrorView> {
    match r {
        Ok(e) => Ok(e@),
        Err(e) => Err(e@),
    }
}

/// The value of the outcome of parsing a statement.
pub open spec fn statement_outcome(r: Result<Statement, ParserError>) -> Result<
    StatementView,
    ParserErrorView,
> {
    match r {
        Ok(s) => Ok(s@),
        Err(e) => Err(e@),
    }
}

/// The significant tokens of a stream are terminated if the stream is.
pub proof fn lemma_significant_terminated(tokens: Seq<TokenView>)
    requires
        is_terminated(tokens),
    ensures
        is_terminated(significant(tokens)),
{
}

/// A parser: the significant tokens of a stream, and a position in them.
pub struct Parser {
    tokens: Vec<Token>,
    pos: usize,
}

/// The operator that a token is between two operands, if it is one: the
/// token of its operation, its binding power, and whether it takes a token.
fn operator_of(kind: &TokenType) -> (r: Option<(TokenType, u8, bool)>)
    ensures
        match r {
            Some((op, power, takes)) => operator_at(kind@) == Some(
                Operator {
                    op: op@,
                    power: power as int,
                    width: if takes {
                        1int
                    } else {
                        0int
                    },
                },
            ) && power <= 2,
            None => operator_at(kind@) is None,
        },
{
    match kind {
        TokenType::Plus => Some((TokenType::Plus, 1, true)),
        TokenType::Minus => Some((TokenType::Minus, 1, true)),
        TokenType::Mul => Some((TokenType::Mul, 2, true)),
        TokenType::Div => Some((TokenType::Div, 2, true)),
        TokenType::ParanOpen | TokenType::Number { .. } | TokenType::Identifier { .. } => Some(
            (TokenType::Mul, 2, false),
        ),
        _ => None,
    }
}

impl Parser {
    /// The tokens that this parser reads.
    pub closed spec fn stream(&self) -> Seq<TokenView> {
        token_views(self.tokens@)
    }

    /// The index of the token that this parser reads next.
    pub closed spec fn position(&self) -> int {
        self.pos as int
    }

    /// Whether this parser can parse: its stream ends in `EOF` and its
    /// position lies in the stream.
    pub open spec fn ready(&self) -> bool {
        is_terminated(self.stream()) && 0 <= self.position() < self.stream().len()
    }

    /// A parser at the start of the significant tokens of `tokens`. It can
    /// parse if `tokens` ends in `EOF`, as the tokens of a lexical analysis
    /// do.
    pub fn new(tokens: Vec<Token>) -> (p: Parser)
        ensures
            p.stream() == significant(token_views(tokens@)),
            p.position() == 0,
            is_terminated(token_views(tokens@)) ==> p.ready(),
    {
        let mut filtered: Vec<Token> = Vec::new();
        let mut i: usize = 0;
        let ghost all = token_views(tokens@);
        while i < tokens.len()
            invariant
                i <= tokens.len(),
                all == token_views(tokens@),
                token_views(filtered@) == significant(all.take(i as int)),
            decreases tokens.len() - i,
        {
            proof {
                assert(all.take(i as int + 1).drop_last() =~= all.take(i as int));
            }
            let keep = match tokens[i].get_type() {
                TokenType::Comment { .. } | TokenType::Newline => false,
                _ => true,
            };
            if keep {
                let token = tokens[i].duplicate();
                proof {
                    assert(token_views(filtered@.push(token)) =~= token_views(filtered@).push(
                        token@,
                    ));
                }
                filtered.push(token);
            }
            i += 1;
        }
        proof {
            assert(all.take(tokens.len() as int) =~= all);
            if is_terminated(all) {
                lemma_significant_terminated(all);
            }
        }
        Parser { tokens: filtered, pos: 0 }
    }

    /// The token at the current position.
    fn current(&self) -> (t: &Token)
        requires
            self.ready(),
        ensures
            t@ == self.stream()[self.position()],
    {
        &self.tokens[self.pos]
    }

    /// The token after the current position.
    fn peek(&self) -> (t: &Token)
        requires
            self.ready(),
            self.position() + 1 < self.stream().len(),
        ensures
            t@ == self.stream()[self.position() + 1],
    {
        let len = self.tokens.len();
        assert(self.stream().len() == len);
        &self.tokens[self.pos + 1]
    }

    /// Moves to the next token, unless the current one is the last.
    fn advance(&mut self)
        requires
            old(self).ready(),
        ensures
            final(self).stream() == old(self).stream(),
            final(self).position() == advance_from(old(self).stream(), old(self).position()),
            final(self).ready(),
    {
        if self.pos < self.tokens.len() - 1 {
            self.pos += 1;
        }
    }

    /// The error for the token at the current position.
    fn unexpected_here(&self) -> (e: ParserError)
        requires
            self.ready(),
        ensures
            e@ == unexpected(self.stream()[self.position()]),
    {
        let token = self.current();
        ParserError::UnexpectedToken {
            found: token.get_type().duplicate(),
            line: token.get_line_no(),
            col: token.get_start(),
        }
    }

    /// Steps over the current token if it is `expected`, and fails on it
    /// otherwise.
    fn consume(&mut self, expected: &TokenType) -> (r: Result<(), ParserError>)
        requires
            old(self).ready(),
        ensures
            final(self).stream() == old(self).stream(),
            final(self).ready(),
            match r {
                Ok(_) => old(self).stream()[old(self).position()].kind == expected@
                    && final(self).position() == advance_from(
                    old(self).stream(),
                    old(self).position(),
                ),
                Err(e) => old(self).stream()[old(self).position()].kind != expected@
                    && final(self).position() == old(self).position() && e@ == unexpected(
                    old(self).stream()[old(self).position()],
                ),
            },
    {
        if self.current().get_type().same_as(expected) {
            self.advance();
            Ok(())
        } else {
            Err(self.unexpected_here())
        }
    }

    /// Parses the operand at the current position.
    fn parse_primary<N: Fn(String) -> Option<Number>>(&mut self, to_number: &N) -> (r: Result<
        Expr,
        ParserError,
    >)
        requires
            old(self).ready(),
            is_reading(*to_number),
        ensures
            final(self).stream() == old(self).stream(),
            final(self).ready(),
            (expr_outcome(r), final(self).position()) == primary_at(
                reading_of(*to_number),
                old(self).stream(),
                old(self).position(),
            ),
            r is Ok ==> final(self).position() > old(self).position(),
        decreases old(self).stream().len() - old(self).position(), 0int,
    {
        let kind = self.current().get_type().duplicate();
        let line = self.current().get_line_no();
        let col = self.current().get_start();
        match kind {
            TokenType::EOF => Err(ParserError::UnexpectedEOF { line, col }),
            TokenType::Number { value } => {
                self.advance();
                match read(to_number, &value) {
                    Some(n) => Ok(Expr::Number(n)),
                    None => Err(ParserError::InvalidNumber { value, line, col }),
                }
            },
            TokenType::Identifier { name } => {
                self.advance();
                Ok(Expr::Variable(name))
            },
            TokenType::ParanOpen => {
                self.advance();
                let closes = match self.current().get_type() {
                    TokenType::ParanClose => true,
                    _ => false,
                };
                if closes {
                    self.advance();
                    return Ok(Expr::EmptyParen);
                }
                match self.parse_expr(0, to_number) {
                    Err(e) => Err(e),
                    Ok(inner) => match self.consume(&TokenType::ParanClose) {
                        Ok(_) => Ok(inner),
                        Err(e) => Err(e),
                    },
                }
            },
            TokenType::Plus | TokenType::Minus => {
                self.advance();
                match self.parse_expr(3, to_number) {
                    Err(e) => Err(e),
                    Ok(operand) => Ok(Expr::UnaryOp { op: kind, expr: Box::new(operand) }),
                }
            },
            _ => {
                self.advance();
                Err(
                    ParserError::UnexpectedToken { found: kind, line, col },
                )
            },
        }
    }

    /// Parses the expression at the current position that is made of
    /// operands joined by operators of binding power `min_prec` or more.
    fn parse_expr<N: Fn(String) -> Option<Number>>(&mut self, min_prec: u8, to_number: &N) -> (r:
        Result<Expr, ParserError>)
        requires
            old(self).ready(),
            is_reading(*to_number),
        ensures
            final(self).stream() == old(self).stream(),
            final(self).ready(),
            (expr_outcome(r), final(self).position()) == expr_at(
                reading_of(*to_number),
                old(self).stream(),
                old(self).position(),
                min_prec as int,
            ),
            r is Ok ==> final(self).position() > old(self).position(),
        decreases old(self).stream().len() - old(self).position(), 1int,
    {
        let ghost ts = self.stream();
        let ghost start = self.position();
        let ghost reading = reading_of(*to_number);
        let mut left = match self.parse_primary(to_number) {
            Ok(e) => e,
            Err(e) => {
                return Err(e);
            },
        };
        while self.pos < self.tokens.len() - 1
            invariant
                self.stream() == ts,
                self.ready(),
                is_reading(*to_number),
                reading == reading_of(*to_number),
                start < self.position(),
                0 <= start,
                ts == old(self).stream(),
                start == old(self).position(),
                expr_at(reading, ts, start, min_prec as int) == chain_at(
                    reading,
                    ts,
                    left@,
                    self.position(),
                    min_prec as int,
                ),
            ensures
                self.stream() == ts,
                self.ready(),
                start < self.position(),
                expr_at(reading, ts, start, min_prec as int) == (
                    Ok::<ExprView, ParserErrorView>(left@),
                    self.position(),
                ),
            decreases self.tokens.len() - self.pos,
        {
            let (op, prec, takes) = match operator_of(self.current().get_type()) {
                Some(operator) => operator,
                None => {
                    break ;
                },
            };
            if prec < min_prec {
                break ;
            }
            if takes {
                self.advance();
            }
            let right = match self.parse_expr(prec + 1, to_number) {
                Ok(e) => e,
                Err(e) => {
                    return Err(e);
                },
            };
            left = Expr::BinaryOp { left: Box::new(left), op, right: Box::new(right) };
        }
        Ok(left)
    }

    /// Parses the rest of a declaration: `=` and the value.
    fn parse_let_value<N: Fn(String) -> Option<Number>>(
        &mut self,
        name: String,
        annotation: Option<String>,
        to_number: &N,
    ) -> (r: Result<Statement, ParserError>)
        requires
            old(self).ready(),
            is_reading(*to_number),
        ensures
            final(self).stream() == old(self).stream(),
            final(self).ready(),
            (statement_outcome(r), final(self).position()) == let_value_at(
                reading_of(*to_number),
                old(self).stream(),
                name@,
                crate::ast::optional_text(annotation),
                old(self).position(),
            ),
    {
        match self.consume(&TokenType::Assign) {
            Ok(_) => {},
            Err(e) => {
                return Err(e);
            },
        }
        match self.parse_expr(0, to_number) {
            Ok(value) => Ok(Statement::Let { name, annotation, value }),
            Err(e) => Err(e),
        }
    }

    /// Parses a declaration: `let NAME [: TYPE] = expr`.
    fn parse_let_statement<N: Fn(String) -> Option<Number>>(&mut self, to_number: &N) -> (r:
        Result<Statement, ParserError>)
        requires
            old(self).ready(),
            is_reading(*to_number),
            old(self).stream()[old(self).position()].kind is Let,
        ensures
            final(self).stream() == old(self).stream(),
            final(self).ready(),
            (statement_outcome(r), final(self).position()) == let_at(
                reading_of(*to_number),
                old(self).stream(),
                old(self).position(),
            ),
    {
        self.advance();
        let name = match self.current().get_type() {
            TokenType::Identifier { name } => name.clone(),
            _ => {
                return Err(self.unexpected_here());
            },
        };
        self.advance();
        let has_annotation = match self.current().get_type() {
            TokenType::Colon => true,
            _ => false,
        };
        if has_annotation {
            self.advance();
            let annotation = match self.current().get_type() {
                TokenType::Identifier { name } => name.clone(),
                _ => {
                    return Err(self.unexpected_here());
                },
            };
            self.advance();
            self.parse_let_value(name, Some(annotation), to_number)
        } else {
            self.parse_let_value(name, None, to_number)
        }
    }

    /// Parses an assignment: `NAME = expr`, with the parser on `=`.
    fn parse_assignment_statement<N: Fn(String) -> Option<Number>>(
        &mut self,
        name: String,
        to_number: &N,
    ) -> (r: Result<Statement, ParserError>)
        requires
            old(self).ready(),
            is_reading(*to_number),
        ensures
            final(self).stream() == old(self).stream(),
            final(self).ready(),
            (statement_outcome(r), final(self).position()) == assignment_at(
                reading_of(*to_number),
                old(self).stream(),
                name@,
                old(self).position(),
            ),
    {
        self.advance();
        match self.parse_expr(0, to_number) {
            Ok(value) => Ok(Statement::Assignment { name, value }),
            Err(e) => Err(e),
        }
    }

    /// Parses a compound assignment: `NAME op expr`, with the parser on the
    /// operator.
    fn parse_compound_assignment_statement<N: Fn(String) -> Option<Number>>(
        &mut self,
        name: String,
        to_number: &N,
    ) -> (r: Result<Statement, ParserError>)
        requires
            old(self).ready(),
            is_reading(*to_number),
        ensures
            final(self).stream() == old(self).stream(),
            final(self).ready(),
            (statement_outcome(r), final(self).position()) == compound_at(
                reading_of(*to_number),
                old(self).stream(),
                name@,
                old(self).position(),
            ),
    {
        let op = self.current().get_type().duplicate();
        self.advance();
        match self.parse_expr(0, to_number) {
            Ok(value) => Ok(Statement::CompoundAssignment { name, op, value }),
            Err(e) => Err(e),
        }
    }

    /// Parses an expression statement.
    fn parse_expression_statement<N: Fn(String) -> Option<Number>>(&mut self, to_number: &N) -> (r:
        Result<Statement, ParserError>)
        requires
            old(self).ready(),
            is_reading(*to_number),
        ensures
            final(self).stream() == old(self).stream(),
            final(self).ready(),
            (statement_outcome(r), final(self).position()) == expression_statement(
                expr_at(reading_of(*to_number), old(self).stream(), old(self).position(), 0),
            ),
    {
        match self.parse_expr(0, to_number) {
            Ok(value) => Ok(Statement::Expression(value)),
            Err(e) => Err(e),
        }
    }

    /// Parses the statement at the current position, which is not the end
    /// of the input.
    fn parse_statement<N: Fn(String) -> Option<Number>>(&mut self, to_number: &N) -> (r: Result<
        Statement,
        ParserError,
    >)
        requires
            old(self).ready(),
            is_reading(*to_number),
            !(old(self).stream()[old(self).position()].kind is EOF),
        ensures
            final(self).stream() == old(self).stream(),
            final(self).ready(),
            (statement_outcome(r), final(self).position()) == statement_at(
                reading_of(*to_number),
                old(self).stream(),
                old(self).position(),
            ),
    {
        let kind = self.current().get_type().duplicate();
        match kind {
            TokenType::Let => self.parse_let_statement(to_number),
            TokenType::Identifier { name } => {
                let next = self.peek().get_type().duplicate();
                match next {
                    TokenType::Assign => {
                        self.advance();
                        self.parse_assignment_statement(name, to_number)
                    },
                    TokenType::PlusAssign
                    | TokenType::MinusAssign
                    | TokenType::MulAssign
                    | TokenType::DivAssign => {
                        self.advance();
                        self.parse_compound_assignment_statement(name, to_number)
                    },
                    _ => self.parse_expression_statement(to_number),
                }
            },
            _ => self.parse_expression_statement(to_number),
        }
    }

    /// Parses one statement from the current position, reading number
    /// literals with `to_number`.
    ///
    /// Where only the end of the input is left, the statement is the empty
    /// expression and the parser stays where it is. Tokens after the
    /// statement are left unread. The stream has to end in `EOF`.
    pub fn parse<N: Fn(String) -> Option<Number>>(&mut self, to_number: &N) -> (r: Result<
        Statement,
        ParserError,
    >)
        requires
            old(self).ready(),
            is_reading(*to_number),
        ensures
            final(self).stream() == old(self).stream(),
            final(self).ready(),
            (statement_outcome(r), final(self).position()) == statement_at(
                reading_of(*to_number),
                old(self).stream(),
                old(self).position(),
            ),
    {
        let at_end = match self.current().get_type() {
            TokenType::EOF => true,
            _ => false,
        };
        if at_end {
            return Ok(Statement::Expression(Expr::Empty));
        }
        self.parse_statement(to_number)
    }
}

} // verus!
