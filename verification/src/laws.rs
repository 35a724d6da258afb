//! What holds of the interpreter as a whole: the value of an expression, and
//! the theorems that tie parsing, compilation and execution to it.

use crate::ast::{ExprView, StatementView};
use crate::executor::{
    binary_instr, compile_expr, evaluate_statement, evaluate_statements, evaluate_text,
    evaluate_value, failure, instr_op, perform, run, run_from, undefined, Effect, Entry, Env,
    EvalErrorView, ExecErrorView, InstrView, Outcome,
};
use crate::number::{ArithOp, Arithmetic, Number, Reading};
use crate::parser::{
    binary, chain_at, expr_at, is_terminated, lemma_expr_advances, lemma_primary_advances,
    lemma_significant_terminated, operator_at, parse_tokens, primary_at, significant,
    statement_at,
};
use crate::source::{
    after_line, assemble, continues, line_content, logical_statements, statement_on,
    LogicalStatementView,
};
use crate::text::{is_blank, lemma_run_end, run_end, trim, CharClass};
use crate::errors::{ParserErrorView, TokenizerError};
use crate::executor::lexical_error;
use crate::tokenizer::{lemma_lex_ends_in_eof, lex, TokenKind, TokenView};
use vstd::prelude::*;

verus! {

/// Whether an expression is one that the parser may produce inside a
/// statement: its signs are `+` or `-`, its operators are `+ - * /`, and the
/// empty expression does not occur in it.
pub open spec fn is_proper(e: ExprView) -> bool
    decreases e,
{
    match e {
        ExprView::Number(_) => true,
        ExprView::Variable(_) => true,
        ExprView::EmptyParen => true,
        ExprView::Empty => false,
        ExprView::UnaryOp { op, expr } => (op is Plus || op is Minus) && is_proper(*expr),
        ExprView::BinaryOp { left, op, right } => binary_instr(op) is Some && is_proper(*left)
            && is_proper(*right),
    }
}

/// The operation of a binary operator.
pub open spec fn operation_of(op: TokenKind) -> ArithOp {
    match op {
        TokenKind::Minus => ArithOp::Sub,
        TokenKind::Mul => ArithOp::Mul,
        TokenKind::Div => ArithOp::Div,
        _ => ArithOp::Add,
    }
}

/// The value of an expression in an environment, by the structure of the
/// expression: a literal is its number; a variable is its value, and an
/// error if it is not defined; empty parentheses are zero; a sign keeps or
/// reverses the sign of its operand; an operator combines the value of its
/// left operand with that of its right operand, in this order, and a
/// division by zero is an error.
pub open spec fn value_of(arith: Arithmetic, e: ExprView, env: Env) -> Outcome
    decreases e,
{
    match e {
        ExprView::Number(n) => Ok(n),
        ExprView::Variable(name) => if env.contains_key(name) {
            Ok(env[name])
        } else {
            Err(undefined(name))
        },
        ExprView::EmptyParen => Ok(Number::zero_value()),
        ExprView::Empty => Err(ExecErrorView::NoResult),
        ExprView::UnaryOp { op, expr } => match value_of(arith, *expr, env) {
            Err(e) => Err(e),
            Ok(v) => if op is Minus {
                Ok(v.negated())
            } else {
                Ok(v)
            },
        },
        ExprView::BinaryOp { left, op, right } => match value_of(arith, *left, env) {
            Err(e) => Err(e),
            Ok(a) => match value_of(arith, *right, env) {
                Err(e) => Err(e),
                Ok(b) => if op is Div && b.is_zero_value() {
                    Err(ExecErrorView::DivisionByZero)
                } else {
                    Ok(arith(operation_of(op), a, b))
                },
            },
        },
    }
}

/// A proper expression compiles, and to at least one instruction.
pub proof fn lemma_proper_compiles(e: ExprView)
    requires
        is_proper(e),
    ensures
        compile_expr(e) is Ok,
        compile_expr(e)->Ok_0.len() > 0,
    decreases e,
{
    match e {
        ExprView::UnaryOp { op, expr } => {
            lemma_proper_compiles(*expr);
        },
        ExprView::BinaryOp { left, op, right } => {
            lemma_proper_compiles(*left);
            lemma_proper_compiles(*right);
        },
        _ => {},
    }
}

/// The code of a proper expression, wherever it stands in a program and
/// whatever is on the stack, pushes exactly one number, the value of the
/// expression, and leaves the rest of the stack as it was; or it fails with
/// the error of the expression.
pub proof fn lemma_code_pushes_value(
    arith: Arithmetic,
    e: ExprView,
    env: Env,
    code: Seq<InstrView>,
    at: int,
    stack: Seq<Number>,
)
    requires
        is_proper(e),
        compile_expr(e) is Ok,
        0 <= at <= at + compile_expr(e)->Ok_0.len() <= code.len(),
        code.subrange(at, at + compile_expr(e)->Ok_0.len()) == compile_expr(e)->Ok_0,
    ensures
        run_from(arith, code, env, at, stack) == (match value_of(arith, e, env) {
            Ok(v) => run_from(
                arith,
                code,
                env,
                at + compile_expr(e)->Ok_0.len(),
                stack.push(v),
            ),
            Err(x) => Err(x),
        }),
    decreases e,
{
    let own = compile_expr(e)->Ok_0;
    let n = own.len() as int;
    assert forall|k: int| 0 <= k < n implies code[at + k] == own[k] by {
        assert(code.subrange(at, at + n)[k] == code[at + k]);
    }
    match e {
        ExprView::Number(v) => {
            assert(code[at] == own[0]);
        },
        ExprView::Variable(name) => {
            assert(code[at] == own[0]);
        },
        ExprView::EmptyParen => {
            assert(code[at] == own[0]);
        },
        ExprView::Empty => {},
        ExprView::UnaryOp { op, expr } => {
            lemma_proper_compiles(*expr);
            let inner = compile_expr(*expr)->Ok_0;
            let m = inner.len() as int;
            assert(code.subrange(at, at + m) =~= inner) by {
                assert forall|k: int| 0 <= k < m implies code[at + k] == inner[k] by {
                    assert(own[k] == inner[k]);
                }
            }
            lemma_code_pushes_value(arith, *expr, env, code, at, stack);
            if let Ok(v) = value_of(arith, *expr, env) {
                if op is Minus {
                    assert(code[at + m] == own[m]);
                    assert(stack.push(v).drop_last().push(v.negated()) =~= stack.push(
                        v.negated(),
                    ));
                }
            }
        },
        ExprView::BinaryOp { left, op, right } => {
            lemma_proper_compiles(*left);
            lemma_proper_compiles(*right);
            let first = compile_expr(*left)->Ok_0;
            let second = compile_expr(*right)->Ok_0;
            let a_len = first.len() as int;
            let b_len = second.len() as int;
            assert(code.subrange(at, at + a_len) =~= first) by {
                assert forall|k: int| 0 <= k < a_len implies code[at + k] == first[k] by {
                    assert(own[k] == first[k]);
                }
            }
            assert(code.subrange(at + a_len, at + a_len + b_len) =~= second) by {
                assert forall|k: int| 0 <= k < b_len implies code[at + a_len + k] == second[k] by {
                    assert(own[a_len + k] == second[k]);
                }
            }
            lemma_code_pushes_value(arith, *left, env, code, at, stack);
            if let Ok(a) = value_of(arith, *left, env) {
                lemma_code_pushes_value(arith, *right, env, code, at + a_len, stack.push(a));
                if let Ok(b) = value_of(arith, *right, env) {
                    let instr = binary_instr(op)->Some_0;
                    let full = stack.push(a).push(b);
                    assert(code[at + a_len + b_len] == own[a_len + b_len]);
                    assert(code[at + a_len + b_len] == instr);
                    assert(instr_op(instr) == operation_of(op));
                    assert(instr is Div <==> op is Div);
                    assert(full.last() == b);
                    assert(full[full.len() - 2] == a);
                    assert(full.drop_last().drop_last().push(arith(operation_of(op), a, b))
                        =~= stack.push(arith(operation_of(op), a, b)));
                }
            }
        },
    }
}

/// Compiling a proper expression and running the code gives the value of the
/// expression: compilation and execution together agree with evaluation by
/// structure, errors included.
pub proof fn law_compiled_code_computes_value(arith: Arithmetic, e: ExprView, env: Env)
    requires
        is_proper(e),
    ensures
        compile_expr(e) is Ok,
        run(arith, compile_expr(e)->Ok_0, env) == value_of(arith, e, env),
{
    lemma_proper_compiles(e);
    let code = compile_expr(e)->Ok_0;
    assert(code.subrange(0, code.len() as int) =~= code);
    lemma_code_pushes_value(arith, e, env, code, 0, Seq::empty());
}

/// An operand that the grammar accepts is a proper expression.
pub proof fn lemma_primary_proper(read: Reading, ts: Seq<TokenView>, at: int)
    requires
        is_terminated(ts),
        0 <= at < ts.len(),
    ensures
        primary_at(read, ts, at).0 is Ok ==> is_proper(primary_at(read, ts, at).0->Ok_0),
    decreases ts.len() - at, 0int,
{
    if !(at >= ts.len() - 1 || ts[at].kind is EOF) {
        match ts[at].kind {
            TokenKind::ParanOpen => {
                if !(ts[at + 1].kind is ParanClose) {
                    lemma_expr_proper(read, ts, at + 1, 0);
                }
            },
            TokenKind::Plus | TokenKind::Minus => {
                lemma_expr_proper(read, ts, at + 1, 3);
            },
            _ => {},
        }
    }
}

/// An expression that the grammar accepts is a proper expression.
pub proof fn lemma_expr_proper(read: Reading, ts: Seq<TokenView>, at: int, min: int)
    requires
        is_terminated(ts),
        0 <= at < ts.len(),
    ensures
        expr_at(read, ts, at, min).0 is Ok ==> is_proper(expr_at(read, ts, at, min).0->Ok_0),
    decreases ts.len() - at, 1int,
{
    lemma_primary_proper(read, ts, at);
    lemma_primary_advances(read, ts, at);
    let (first, next) = primary_at(read, ts, at);
    if let Ok(left) = first {
        lemma_chain_proper(read, ts, left, next, min);
    }
}

/// A proper expression grows into a proper expression.
pub proof fn lemma_chain_proper(
    read: Reading,
    ts: Seq<TokenView>,
    left: ExprView,
    at: int,
    min: int,
)
    requires
        is_terminated(ts),
        0 <= at < ts.len(),
        is_proper(left),
    ensures
        chain_at(read, ts, left, at, min).0 is Ok ==> is_proper(
            chain_at(read, ts, left, at, min).0->Ok_0,
        ),
    decreases ts.len() - at, 2int,
{
    if at < ts.len() - 1 {
        if let Some(operator) = operator_at(ts[at].kind) {
            if operator.power >= min {
                let from = at + operator.width;
                lemma_expr_proper(read, ts, from, operator.power + 1);
                lemma_expr_advances(read, ts, from, operator.power + 1);
                let (operand, next) = expr_at(read, ts, from, operator.power + 1);
                if let Ok(right) = operand {
                    lemma_chain_proper(read, ts, binary(left, operator.op, right), next, min);
                }
            }
        }
    }
}

/// The expression that a statement holds.
pub open spec fn statement_value(statement: StatementView) -> ExprView {
    match statement {
        StatementView::Expression(value) => value,
        StatementView::Let { value, .. } => value,
        StatementView::Assignment { value, .. } => value,
        StatementView::CompoundAssignment { value, .. } => value,
    }
}

/// The expression of a statement that was parsed from a terminated stream is
/// proper, or the statement is the empty expression.
pub proof fn lemma_statement_proper(read: Reading, ts: Seq<TokenView>)
    requires
        is_terminated(ts),
    ensures
        statement_at(read, ts, 0).0 matches Ok(statement) ==> statement
            == StatementView::Expression(ExprView::Empty) || is_proper(statement_value(statement)),
{
    assert forall|at: int, min: int| 0 <= at < ts.len() implies (#[trigger] expr_at(
        read,
        ts,
        at,
        min,
    )).0 is Ok ==> is_proper(expr_at(read, ts, at, min).0->Ok_0) by {
        lemma_expr_proper(read, ts, at, min);
    }
}

/// The value that the interpreter gives for an expression is the value of
/// the expression.
///
/// Where the text of a logical statement has the tokens `tokens` and these
/// parse to an expression, the statement adds one entry to the output: the
/// value of the expression by its structure, with operators grouped as the
/// grammar says, or the error of that evaluation. The environment stays as it
/// was.
pub proof fn law_expression_is_evaluated_by_structure(
    read: Reading,
    arith: Arithmetic,
    statement: LogicalStatementView,
    env: Env,
    tokens: Seq<TokenView>,
    e: ExprView,
)
    requires
        lex(trim(statement.text)) == Ok::<Seq<TokenView>, TokenizerError>(tokens),
        parse_tokens(read, tokens) == Ok::<StatementView, ParserErrorView>(
            StatementView::Expression(e),
        ),
        e != ExprView::Empty,
    ensures
        evaluate_statement(read, arith, statement, env) == (Effect {
            entry: Some(
                match value_of(arith, e, env) {
                    Ok(v) => Ok((v, statement.text)),
                    Err(x) => Err(EvalErrorView::Exec(x, statement.text)),
                },
            ),
            env,
        }),
{
    lemma_lex_ends_in_eof(trim(statement.text));
    lemma_significant_terminated(tokens);
    lemma_statement_proper(read, significant(tokens));
    assert(is_proper(e));
    lemma_proper_compiles(e);
    law_compiled_code_computes_value(arith, e, env);
    let text = statement.text;
    let then = |v: Number| Effect { entry: Some(Ok::<(Number, Seq<char>), EvalErrorView>((v, text))), env };
    assert(evaluate_statement(read, arith, statement, env) == perform(
        arith,
        StatementView::Expression(e),
        text,
        env,
    ));
    assert(perform(arith, StatementView::Expression(e), text, env) == evaluate_value(
        arith,
        e,
        text,
        env,
        then,
    ));
}

/// A declaration whose value is a proper expression defines its variable
/// with the value of the expression and adds nothing to the output; where the
/// expression fails, the declaration adds the error and defines nothing.
pub proof fn law_declaration_defines(
    arith: Arithmetic,
    name: Seq<char>,
    annotation: Option<Seq<char>>,
    value: ExprView,
    text: Seq<char>,
    env: Env,
)
    requires
        is_proper(value),
    ensures
        perform(arith, StatementView::Let { name, annotation, value }, text, env) == (
        match value_of(arith, value, env) {
            Ok(v) => Effect { entry: None, env: env.insert(name, v) },
            Err(x) => failure(EvalErrorView::Exec(x, text), env),
        }),
{
    lemma_proper_compiles(value);
    law_compiled_code_computes_value(arith, value, env);
    let then = |v: Number| Effect { entry: None, env: env.insert(name, v) };
    assert(perform(arith, StatementView::Let { name, annotation, value }, text, env)
        == evaluate_value(arith, value, text, env, then));
}

/// An assignment to a variable that is defined gives it the value of the
/// expression and adds nothing to the output.
pub proof fn law_assignment_redefines(
    arith: Arithmetic,
    name: Seq<char>,
    value: ExprView,
    text: Seq<char>,
    env: Env,
)
    requires
        is_proper(value),
        env.contains_key(name),
    ensures
        perform(arith, StatementView::Assignment { name, value }, text, env) == (match value_of(
            arith,
            value,
            env,
        ) {
            Ok(v) => Effect { entry: None, env: env.insert(name, v) },
            Err(x) => failure(EvalErrorView::Exec(x, text), env),
        }),
{
    lemma_proper_compiles(value);
    law_compiled_code_computes_value(arith, value, env);
    let then = |v: Number| Effect { entry: None, env: env.insert(name, v) };
    assert(perform(arith, StatementView::Assignment { name, value }, text, env) == evaluate_value(
        arith,
        value,
        text,
        env,
        then,
    ));
}

/// An assignment or a compound assignment to a variable that is not defined
/// fails with `undefined variable`, whatever its right-hand side is: the
/// right-hand side is not looked at, and nothing is defined.
pub proof fn law_assignment_needs_definition(
    arith: Arithmetic,
    name: Seq<char>,
    op: TokenKind,
    value: ExprView,
    text: Seq<char>,
    env: Env,
)
    requires
        !env.contains_key(name),
    ensures
        perform(arith, StatementView::Assignment { name, value }, text, env) == failure(
            EvalErrorView::Exec(undefined(name), text),
            env,
        ),
        perform(arith, StatementView::CompoundAssignment { name, op, value }, text, env)
            == failure(EvalErrorView::Exec(undefined(name), text), env),
{
}

/// A statement that fails, and an expression statement, leave the
/// environment as it was: only a declaration or an assignment that succeeds
/// changes it.
pub proof fn law_failures_and_expressions_keep_environment(
    read: Reading,
    arith: Arithmetic,
    statement: LogicalStatementView,
    env: Env,
)
    ensures
        evaluate_statement(read, arith, statement, env).entry is Some ==> evaluate_statement(
            read,
            arith,
            statement,
            env,
        ).env == env,
{
    if let Ok(tokens) = lex(trim(statement.text)) {
        if let Ok(parsed) = parse_tokens(read, tokens) {
            lemma_perform_entry_keeps_environment(arith, parsed, statement.text, env);
        }
    }
}

/// A statement that adds an entry to the output leaves the environment as it
/// was.
pub proof fn lemma_perform_entry_keeps_environment(
    arith: Arithmetic,
    statement: StatementView,
    text: Seq<char>,
    env: Env,
)
    ensures
        perform(arith, statement, text, env).entry is Some ==> perform(
            arith,
            statement,
            text,
            env,
        ).env == env,
{
}

/// The output of a text has at most one entry for each logical statement.
pub proof fn law_at_most_one_entry_each(
    read: Reading,
    arith: Arithmetic,
    statements: Seq<LogicalStatementView>,
    env: Env,
)
    ensures
        evaluate_statements(read, arith, statements, env).0.len() <= statements.len(),
    decreases statements.len(),
{
    if statements.len() > 0 {
        law_at_most_one_entry_each(read, arith, statements.drop_last(), env);
    }
}

/// Whether every line of `text` from index `at` on is blank once its comment
/// is taken away.
pub open spec fn only_blanks_and_comments(text: Seq<char>, at: int) -> bool
    decreases text.len() - at,
{
    if at < 0 || at >= text.len() {
        true
    } else {
        let end = run_end(text, at, CharClass::LineBody);
        proof {
            lemma_run_end(text, at, CharClass::LineBody);
        }
        line_content(text.subrange(at, end)).len() == 0 && only_blanks_and_comments(
            text,
            after_line(text, end),
        )
    }
}

/// Lines that are blank or hold only a comment give no logical statement.
pub proof fn lemma_blanks_and_comments_give_nothing(text: Seq<char>, at: int, index: int)
    requires
        0 <= at,
        only_blanks_and_comments(text, at),
    ensures
        assemble(text, at, index, Seq::empty(), 0) == Seq::<LogicalStatementView>::empty(),
    decreases text.len() - at,
{
    let nothing = Seq::<char>::empty();
    assert(is_blank(nothing));
    if at < text.len() {
        let end = run_end(text, at, CharClass::LineBody);
        lemma_run_end(text, at, CharClass::LineBody);
        let content = line_content(text.subrange(at, end));
        assert(content =~= nothing);
        assert(nothing + content =~= nothing);
        lemma_blanks_and_comments_give_nothing(text, after_line(text, end), index + 1);
    }
}

/// A text of blank lines and comments adds nothing to the output and leaves
/// the environment as it was.
pub proof fn law_blanks_and_comments_are_silent(
    read: Reading,
    arith: Arithmetic,
    text: Seq<char>,
    env: Env,
)
    requires
        only_blanks_and_comments(text, 0),
    ensures
        evaluate_text(read, arith, text, env) == (Seq::<Entry>::empty(), env),
{
    lemma_blanks_and_comments_give_nothing(text, 0, 0);
}

/// No logical statement is blank.
pub proof fn lemma_no_statement_is_blank(
    text: Seq<char>,
    at: int,
    index: int,
    buffer: Seq<char>,
    start: int,
)
    requires
        0 <= at,
    ensures
        forall|i: int|
            0 <= i < assemble(text, at, index, buffer, start).len() ==> !is_blank(
                (#[trigger] assemble(text, at, index, buffer, start)[i]).text,
            ),
    decreases text.len() - at,
{
    let result = assemble(text, at, index, buffer, start);
    if at < text.len() {
        let end = run_end(text, at, CharClass::LineBody);
        lemma_run_end(text, at, CharClass::LineBody);
        let content = line_content(text.subrange(at, end));
        let next = after_line(text, end);
        let first = if buffer.len() == 0 {
            index + 1
        } else {
            start
        };
        if continues(content) {
            lemma_no_statement_is_blank(
                text,
                next,
                index + 1,
                buffer + crate::source::continued_part(content),
                first,
            );
            assert(result == assemble(
                text,
                next,
                index + 1,
                buffer + crate::source::continued_part(content),
                first,
            ));
        } else {
            lemma_no_statement_is_blank(text, next, index + 1, Seq::empty(), 0);
            let rest = assemble(text, next, index + 1, Seq::empty(), 0);
            if is_blank(buffer + content) {
                assert(result == rest);
            } else {
                let all = seq![statement_on(buffer + content, first)] + rest;
                assert(result == all);
                assert forall|i: int| 0 <= i < all.len() implies !is_blank(
                    (#[trigger] all[i]).text,
                ) by {
                    if i > 0 {
                        assert(all[i] == rest[i - 1]);
                    }
                }
            }
        }
    }
}

/// Blank lines and comments never become statements: every logical statement
/// of a text holds something other than white space.
pub proof fn law_statements_are_not_blank(text: Seq<char>)
    ensures
        forall|i: int|
            0 <= i < logical_statements(text).len() ==> !is_blank(
                (#[trigger] logical_statements(text)[i]).text,
            ),
{
    lemma_no_statement_is_blank(text, 0, 0, Seq::empty(), 0);
}

/// Whether a logical statement defines nothing: it fails to parse, or it is
/// an expression.
pub open spec fn defines_nothing(read: Reading, statement: LogicalStatementView) -> bool {
    match lex(trim(statement.text)) {
        Err(_) => true,
        Ok(tokens) => match parse_tokens(read, tokens) {
            Err(_) => true,
            Ok(parsed) => parsed is Expression,
        },
    }
}

/// Statements that define nothing leave the environment as it was.
pub proof fn lemma_expressions_keep_environment(
    read: Reading,
    arith: Arithmetic,
    statements: Seq<LogicalStatementView>,
    env: Env,
)
    requires
        forall|i: int| 0 <= i < statements.len() ==> defines_nothing(read, #[trigger] statements[i]),
    ensures
        evaluate_statements(read, arith, statements, env).1 == env,
    decreases statements.len(),
{
    if statements.len() > 0 {
        let front = statements.drop_last();
        assert forall|i: int| 0 <= i < front.len() implies defines_nothing(
            read,
            #[trigger] front[i],
        ) by {
            assert(front[i] == statements[i]);
        }
        lemma_expressions_keep_environment(read, arith, front, env);
        let last = statements.last();
        assert(defines_nothing(read, last));
        if let Ok(tokens) = lex(trim(last.text)) {
            if let Ok(parsed) = parse_tokens(read, tokens) {
                let value = parsed->Expression_0;
                let then = |v: Number|
                    Effect {
                        entry: Some(Ok::<(Number, Seq<char>), EvalErrorView>((v, last.text))),
                        env,
                    };
                assert(perform(arith, parsed, last.text, env) == evaluate_value(
                    arith,
                    value,
                    last.text,
                    env,
                    then,
                ));
            }
        }
    }
}

/// Evaluating a text of expressions a second time, in the environment that
/// the first time left, gives the same output: a text that defines nothing
/// leaves the environment as it was.
pub proof fn law_expressions_repeat(read: Reading, arith: Arithmetic, text: Seq<char>, env: Env)
    requires
        forall|i: int|
            0 <= i < logical_statements(text).len() ==> defines_nothing(
                read,
                #[trigger] logical_statements(text)[i],
            ),
    ensures
        evaluate_text(read, arith, text, env).1 == env,
        evaluate_text(read, arith, text, evaluate_text(read, arith, text, env).1)
            == evaluate_text(read, arith, text, env),
{
    lemma_expressions_keep_environment(read, arith, logical_statements(text), env);
}

/// Two evaluations of one text in one environment, with the same arithmetic
/// and the same reading of literals, give the same output and leave the same
/// environment.
pub proof fn law_same_text_same_output(
    read: Reading,
    arith: Arithmetic,
    text: Seq<char>,
    env: Env,
    first: (Seq<Entry>, Env),
    second: (Seq<Entry>, Env),
)
    requires
        first == evaluate_text(read, arith, text, env),
        second == evaluate_text(read, arith, text, env),
    ensures
        first == second,
{
}

/// At the end of a text, what the continued lines have gathered is a
/// statement, though the last of them asks for a line that does not come; it
/// is dropped only if it is blank.
pub proof fn law_unfinished_continuation_is_kept(
    text: Seq<char>,
    index: int,
    buffer: Seq<char>,
    start: int,
)
    ensures
        assemble(text, text.len() as int, index, buffer, start) == (if is_blank(buffer) {
            Seq::<LogicalStatementView>::empty()
        } else {
            seq![statement_on(buffer, start)]
        }),
{
}

/// An expression that ends in an operator fails with `UnexpectedEOF` at the
/// end of the input: where the token before the final `EOF` is `+`, `-`, `*`
/// or `/` and binds tightly enough to be taken, the operand that it asks for
/// is missing.
pub proof fn law_missing_operand_is_unexpected_eof(
    read: Reading,
    ts: Seq<TokenView>,
    left: ExprView,
    min: int,
)
    requires
        is_terminated(ts),
        ts.len() >= 2,
        operator_at(ts[ts.len() - 2].kind) matches Some(operator) && operator.width == 1
            && operator.power >= min,
    ensures
        chain_at(read, ts, left, ts.len() - 2, min) == (
            Err::<ExprView, ParserErrorView>(
                ParserErrorView::UnexpectedEOF { line: ts.last().line, col: ts.last().start },
            ),
            ts.len() - 1,
        ),
{
    let last = ts.len() - 1;
    let operator = operator_at(ts[last - 1].kind)->Some_0;
    let missing = (
        Err::<ExprView, ParserErrorView>(
            ParserErrorView::UnexpectedEOF { line: ts[last].line, col: ts[last].start },
        ),
        last,
    );
    assert(primary_at(read, ts, last) == missing);
    assert(expr_at(read, ts, last, operator.power + 1) == missing);
}

/// No statement is dropped in silence because it does not parse: a logical
/// statement whose text has a lexical error or a syntax error adds exactly
/// that error to the output, with the text of the statement and the line on
/// which it starts, and leaves the environment as it was. This holds as well
/// of a statement that the end of the text cut short.
pub proof fn law_statement_that_does_not_parse_is_reported(
    read: Reading,
    arith: Arithmetic,
    statement: LogicalStatementView,
    env: Env,
)
    ensures
        lex(trim(statement.text)) matches Err(e) ==> evaluate_statement(
            read,
            arith,
            statement,
            env,
        ) == failure(
            EvalErrorView::Parse(lexical_error(e), statement.text, statement.line),
            env,
        ),
        lex(trim(statement.text)) matches Ok(tokens) ==> (parse_tokens(read, tokens) matches Err(
            e,
        ) ==> evaluate_statement(read, arith, statement, env) == failure(
            EvalErrorView::Parse(e, statement.text, statement.line),
            env,
        )),
{
}

} // verus!
