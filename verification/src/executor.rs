//! The compiler from expressions to stack-machine code, the machine that
//! runs the code against an environment of variables, and the evaluation of
//! whole texts, statement by statement.

use crate::ast::{Expr, ExprView, Statement, StatementView};
use crate::errors::{parser_error_text, ParserError, ParserErrorView, TokenizerError};
use crate::number::{
    apply, arithmetic_of, is_arithmetic, is_reading, reading_of, ArithOp, Arithmetic, Number,
    Reading,
};
use crate::parser::{
    is_compound, lemma_significant_on_first_line, lemma_significant_terminated,
    lemma_statement_error_position, parse_tokens, significant, Parser,
};
use crate::source::{
    is_single_line, lemma_statements_fit, lemma_statements_single_line, lemma_trim_fits,
    lemma_trim_single_line, logical_statements, split_statements, statement_views,
    LogicalStatement, LogicalStatementView,
};
use crate::text::{
    chars_of, decimal, decimal_width, push_char, push_decimal, push_spaces, push_text, spaces,
    text_of, trim, trimmed, utf8_len,
};
use crate::tokenizer::{
    lemma_lex_ends_in_eof, lemma_lex_on_first_line, lex, TokenKind, TokenType, Tokenizer,
};
use vstd::hash_map::StringHashMap;
use vstd::prelude::*;

verus! {

/// An instruction of the stack machine.
#[derive(Debug, Clone, PartialEq)]
pub enum Instr {
    /// Pushes a number.
    Push(Number),
    /// Pops two numbers and pushes their sum.
    Add,
    /// Pops two numbers and pushes their difference.
    Sub,
    /// Pops two numbers and pushes their product.
    Mul,
    /// Pops two numbers and pushes their quotient.
    Div,
    /// Pops a number and pushes it with its sign reversed.
    Neg,
    /// Pushes the value of a variable.
    Load(String),
}

/// The mathematical value of an [`Instr`].
pub enum InstrView {
    Push(Number),
    Add,
    Sub,
    Mul,
    Div,
    Neg,
    Load(Seq<char>),
}

impl View for Instr {
    type V = InstrView;

    open spec fn view(&self) -> InstrView {
        match self {
            Instr::Push(n) => InstrView::Push(*n),
            Instr::Add => InstrView::Add,
            Instr::Sub => InstrView::Sub,
            Instr::Mul => InstrView::Mul,
            Instr::Div => InstrView::Div,
            Instr::Neg => InstrView::Neg,
            Instr::Load(name) => InstrView::Load(name@),
        }
    }
}

/// The values of a sequence of instructions.
pub open spec fn instr_views(code: Seq<Instr>) -> Seq<InstrView> {
    Seq::new(code.len(), |i: int| code[i]@)
}

/// An error of compilation.
#[derive(Debug, PartialEq)]
pub enum CompileError {
    /// An expression holds a token that is no operator, described by the
    /// text.
    UnsupportedOperator(String),
    /// A variable is not defined.
    UndefinedVariable(String),
}

/// The mathematical value of a [`CompileError`].
pub enum CompileErrorView {
    UnsupportedOperator(Seq<char>),
    UndefinedVariable(Seq<char>),
}

impl View for CompileError {
    type V = CompileErrorView;

    open spec fn view(&self) -> CompileErrorView {
        match self {
            CompileError::UnsupportedOperator(s) => CompileErrorView::UnsupportedOperator(s@),
            CompileError::UndefinedVariable(s) => CompileErrorView::UndefinedVariable(s@),
        }
    }
}

/// An error of execution.
#[derive(Debug, PartialEq)]
pub enum ExecError {
    /// The instruction named by `instr` found too few numbers on the stack.
    StackUnderflow { instr: String },
    /// A division by zero.
    DivisionByZero,
    /// The code ended with an empty stack.
    NoResult,
    /// Another error, such as the use of a variable that is not defined.
    Other(String),
}

/// The mathematical value of an [`ExecError`].
pub enum ExecErrorView {
    StackUnderflow { instr: Seq<char> },
    DivisionByZero,
    NoResult,
    Other(Seq<char>),
}

impl View for ExecError {
    type V = ExecErrorView;

    open spec fn view(&self) -> ExecErrorView {
        match self {
            ExecError::StackUnderflow { instr } => ExecErrorView::StackUnderflow { instr: instr@ },
            ExecError::DivisionByZero => ExecErrorView::DivisionByZero,
            ExecError::NoResult => ExecErrorView::NoResult,
            ExecError::Other(s) => ExecErrorView::Other(s@),
        }
    }
}

/// The message of a compile error.
pub open spec fn compile_error_text(e: CompileErrorView) -> Seq<char> {
    match e {
        CompileErrorView::UnsupportedOperator(s) => "unsupported operator during compilation: "@
            + s,
        CompileErrorView::UndefinedVariable(s) => "undefined variable: "@ + s,
    }
}

/// The message of an execution error.
pub open spec fn exec_error_text(e: ExecErrorView) -> Seq<char> {
    match e {
        ExecErrorView::StackUnderflow { instr } => "stack underflow while executing instruction '"@
            + instr + "'"@,
        ExecErrorView::DivisionByZero => "division by zero"@,
        ExecErrorView::NoResult => "execution finished with no result on the stack"@,
        ExecErrorView::Other(s) => "execution error: "@ + s,
    }
}

impl CompileError {
    /// The message of this error.
    pub fn to_text(&self) -> (s: String)
        ensures
            s@ == compile_error_text(self@),
    {
        let mut s = String::new();
        match self {
            CompileError::UnsupportedOperator(what) => {
                push_text(&mut s, "unsupported operator during compilation: ");
                push_text(&mut s, what.as_str());
            },
            CompileError::UndefinedVariable(name) => {
                push_text(&mut s, "undefined variable: ");
                push_text(&mut s, name.as_str());
            },
        }
        s
    }
}

impl ExecError {
    /// The message of this error.
    pub fn to_text(&self) -> (s: String)
        ensures
            s@ == exec_error_text(self@),
    {
        let mut s = String::new();
        match self {
            ExecError::StackUnderflow { instr } => {
                push_text(&mut s, "stack underflow while executing instruction '");
                push_text(&mut s, instr.as_str());
                push_text(&mut s, "'");
            },
            ExecError::DivisionByZero => {
                push_text(&mut s, "division by zero");
            },
            ExecError::NoResult => {
                push_text(&mut s, "execution finished with no result on the stack");
            },
            ExecError::Other(what) => {
                push_text(&mut s, "execution error: ");
                push_text(&mut s, what.as_str());
            },
        }
        s
    }
}

/// The text that describes a token kind in a compile error: the kind's name
/// and, for a kind that carries a text, the text in double quotes after the
/// name of its field.
pub open spec fn kind_description(kind: TokenKind) -> Seq<char> {
    match kind {
        TokenKind::Newline => "Newline"@,
        TokenKind::Plus => "Plus"@,
        TokenKind::Minus => "Minus"@,
        TokenKind::Div => "Div"@,
        TokenKind::Mul => "Mul"@,
        TokenKind::ParanOpen => "ParanOpen"@,
        TokenKind::ParanClose => "ParanClose"@,
        TokenKind::Comment { contents } => "Comment { contents: \""@ + contents + "\" }"@,
        TokenKind::Number { value } => "Number { value: \""@ + value + "\" }"@,
        TokenKind::EOF => "EOF"@,
        TokenKind::Let => "Let"@,
        TokenKind::Identifier { name } => "Identifier { name: \""@ + name + "\" }"@,
        TokenKind::Assign => "Assign"@,
        TokenKind::Colon => "Colon"@,
        TokenKind::PlusAssign => "PlusAssign"@,
        TokenKind::MinusAssign => "MinusAssign"@,
        TokenKind::MulAssign => "MulAssign"@,
        TokenKind::DivAssign => "DivAssign"@,
    }
}

/// The text that describes a token kind in a compile error.
fn describe(kind: &TokenType) -> (s: String)
    ensures
        s@ == kind_description(kind@),
{
    let mut s = String::new();
    match kind {
        TokenType::Newline => push_text(&mut s, "Newline"),
        TokenType::Plus => push_text(&mut s, "Plus"),
        TokenType::Minus => push_text(&mut s, "Minus"),
        TokenType::Div => push_text(&mut s, "Div"),
        TokenType::Mul => push_text(&mut s, "Mul"),
        TokenType::ParanOpen => push_text(&mut s, "ParanOpen"),
        TokenType::ParanClose => push_text(&mut s, "ParanClose"),
        TokenType::Comment { contents } => {
            push_text(&mut s, "Comment { contents: \"");
            push_text(&mut s, contents.as_str());
            push_text(&mut s, "\" }");
        },
        TokenType::Number { value } => {
            push_text(&mut s, "Number { value: \"");
            push_text(&mut s, value.as_str());
            push_text(&mut s, "\" }");
        },
        TokenType::EOF => push_text(&mut s, "EOF"),
        TokenType::Let => push_text(&mut s, "Let"),
        TokenType::Identifier { name } => {
            push_text(&mut s, "Identifier { name: \"");
            push_text(&mut s, name.as_str());
            push_text(&mut s, "\" }");
        },
        TokenType::Assign => push_text(&mut s, "Assign"),
        TokenType::Colon => push_text(&mut s, "Colon"),
        TokenType::PlusAssign => push_text(&mut s, "PlusAssign"),
        TokenType::MinusAssign => push_text(&mut s, "MinusAssign"),
        TokenType::MulAssign => push_text(&mut s, "MulAssign"),
        TokenType::DivAssign => push_text(&mut s, "DivAssign"),
    }
    s
}

/// The outcome of compilation: the code, or the error.
pub type Compiled = Result<Seq<InstrView>, CompileErrorView>;

/// The instruction of a binary operator, if the token is one.
pub open spec fn binary_instr(op: TokenKind) -> Option<InstrView> {
    match op {
        TokenKind::Plus => Some(InstrView::Add),
        TokenKind::Minus => Some(InstrView::Sub),
        TokenKind::Mul => Some(InstrView::Mul),
        TokenKind::Div => Some(InstrView::Div),
        _ => None,
    }
}

/// The code of an expression: the code of its operands from left to right,
/// then the instruction of its operator. A `+` sign adds no instruction; the
/// empty expression has no code; empty parentheses push zero.
pub open spec fn compile_expr(e: ExprView) -> Compiled
    decreases e,
{
    match e {
        ExprView::Number(n) => Ok(seq![InstrView::Push(n)]),
        ExprView::Variable(name) => Ok(seq![InstrView::Load(name)]),
        ExprView::UnaryOp { op, expr } => match compile_expr(*expr) {
            Err(e) => Err(e),
            Ok(code) => match op {
                TokenKind::Minus => Ok(code.push(InstrView::Neg)),
                TokenKind::Plus => Ok(code),
                _ => Err(CompileErrorView::UnsupportedOperator(kind_description(op))),
            },
        },
        ExprView::BinaryOp { left, op, right } => match compile_expr(*left) {
            Err(e) => Err(e),
            Ok(first) => match compile_expr(*right) {
                Err(e) => Err(e),
                Ok(second) => match binary_instr(op) {
                    Some(instr) => Ok((first + second).push(instr)),
                    None => Err(CompileErrorView::UnsupportedOperator(kind_description(op))),
                },
            },
        },
        ExprView::Empty => Ok(Seq::empty()),
        ExprView::EmptyParen => Ok(seq![InstrView::Push(Number::zero_value())]),
    }
}

/// The value of the outcome of compilation.
pub open spec fn compile_outcome(r: Result<Vec<Instr>, CompileError>) -> Compiled {
    match r {
        Ok(code) => Ok(instr_views(code@)),
        Err(e) => Err(e@),
    }
}

/// The compiler from expressions to stack-machine code.
pub struct BytecodeCompiler;

impl BytecodeCompiler {
    /// The code of `expr`, or the first token in it that is no operator.
    pub fn compile(expr: &Expr) -> (r: Result<Vec<Instr>, CompileError>)
        ensures
            compile_outcome(r) == compile_expr(expr@),
    {
        let mut code: Vec<Instr> = Vec::new();
        assert(instr_views(code@) =~= Seq::<InstrView>::empty());
        match Self::compile_into(expr, &mut code) {
            Ok(_) => {
                assert(Seq::<InstrView>::empty() + compile_expr(expr@)->Ok_0 =~= compile_expr(
                    expr@,
                )->Ok_0);
                Ok(code)
            },
            Err(e) => Err(e),
        }
    }

    /// Appends the code of `expr` to `code`. On an error, `code` may hold a
    /// part of the code and is of no further use.
    fn compile_into(expr: &Expr, code: &mut Vec<Instr>) -> (r: Result<(), CompileError>)
        ensures
            match r {
                Ok(_) => compile_expr(expr@) is Ok && instr_views(final(code)@) == instr_views(
                    old(code)@,
                ) + compile_expr(expr@)->Ok_0,
                Err(e) => compile_expr(expr@) == Err::<Seq<InstrView>, CompileErrorView>(e@),
            },
        decreases expr,
    {
        let ghost before = instr_views(code@);
        match expr {
            Expr::Number(n) => {
                code.push(Instr::Push(*n));
                assert(instr_views(code@) =~= before + seq![InstrView::Push(*n)]);
                Ok(())
            },
            Expr::Variable(name) => {
                code.push(Instr::Load(name.clone()));
                assert(instr_views(code@) =~= before + seq![InstrView::Load(name@)]);
                Ok(())
            },
            Expr::UnaryOp { op, expr: operand } => {
                match Self::compile_into(operand, code) {
                    Ok(_) => {},
                    Err(e) => {
                        return Err(e);
                    },
                }
                let ghost inner = compile_expr(operand@)->Ok_0;
                match op {
                    TokenType::Minus => {
                        let ghost filled = code@;
                        code.push(Instr::Neg);
                        assert(instr_views(code@) =~= instr_views(filled).push(InstrView::Neg));
                        assert(instr_views(code@) =~= before + inner.push(InstrView::Neg));
                        Ok(())
                    },
                    TokenType::Plus => Ok(()),
                    other => Err(CompileError::UnsupportedOperator(describe(other))),
                }
            },
            Expr::BinaryOp { left, op, right } => {
                match Self::compile_into(left, code) {
                    Ok(_) => {},
                    Err(e) => {
                        return Err(e);
                    },
                }
                match Self::compile_into(right, code) {
                    Ok(_) => {},
                    Err(e) => {
                        return Err(e);
                    },
                }
                let ghost first = compile_expr(left@)->Ok_0;
                let ghost second = compile_expr(right@)->Ok_0;
                let instr = match op {
                    TokenType::Plus => Instr::Add,
                    TokenType::Minus => Instr::Sub,
                    TokenType::Mul => Instr::Mul,
                    TokenType::Div => Instr::Div,
                    other => {
                        return Err(CompileError::UnsupportedOperator(describe(other)));
                    },
                };
                let ghost filled = code@;
                code.push(instr);
                assert(instr_views(code@) =~= instr_views(filled).push(instr@));
                assert(instr_views(code@) =~= before + (first + second).push(
                    binary_instr(op@)->Some_0,
                ));
                Ok(())
            },
            Expr::Empty => {
                assert(before + Seq::<InstrView>::empty() =~= before);
                Ok(())
            },
            Expr::EmptyParen => {
                code.push(Instr::Push(Number::zero()));
                assert(instr_views(code@) =~= before + seq![
                    InstrView::Push(Number::zero_value()),
                ]);
                Ok(())
            },
        }
    }
}

/// An environment: the variables that are defined, each with its value.
pub type Env = Map<Seq<char>, Number>;

/// The outcome of execution: the result, or the error.
pub type Outcome = Result<Number, ExecErrorView>;

/// The name of an instruction, as it appears in a stack underflow.
pub open spec fn instr_name(instr: InstrView) -> Seq<char> {
    match instr {
        InstrView::Push(_) => "Push"@,
        InstrView::Add => "Add"@,
        InstrView::Sub => "Sub"@,
        InstrView::Mul => "Mul"@,
        InstrView::Div => "Div"@,
        InstrView::Neg => "Neg"@,
        InstrView::Load(_) => "Load"@,
    }
}

/// The operation that an arithmetic instruction performs.
pub open spec fn instr_op(instr: InstrView) -> ArithOp {
    match instr {
        InstrView::Sub => ArithOp::Sub,
        InstrView::Mul => ArithOp::Mul,
        InstrView::Div => ArithOp::Div,
        _ => ArithOp::Add,
    }
}

/// The error for a stack with too few numbers for `instr`.
pub open spec fn underflow(instr: InstrView) -> ExecErrorView {
    ExecErrorView::StackUnderflow { instr: instr_name(instr) }
}

/// The error for the use of a variable that is not defined.
pub open spec fn undefined(name: Seq<char>) -> ExecErrorView {
    ExecErrorView::Other("undefined variable: "@ + name)
}

/// The outcome of running `code` from instruction `at` on, with `stack` as
/// the stack, its top last.
///
/// A binary instruction takes the right operand from the top of the stack and
/// the left operand from below it. `Div` looks at the right operand first and
/// fails on zero before it asks for the left operand. At the end of the code
/// the top of the stack is the result.
pub open spec fn run_from(
    arith: Arithmetic,
    code: Seq<InstrView>,
    env: Env,
    at: int,
    stack: Seq<Number>,
) -> Outcome
    decreases code.len() - at,
{
    if at < 0 || at >= code.len() {
        if stack.len() > 0 {
            Ok(stack.last())
        } else {
            Err(ExecErrorView::NoResult)
        }
    } else {
        let instr = code[at];
        match instr {
            InstrView::Push(n) => run_from(arith, code, env, at + 1, stack.push(n)),
            InstrView::Load(name) => if env.contains_key(name) {
                run_from(arith, code, env, at + 1, stack.push(env[name]))
            } else {
                Err(undefined(name))
            },
            InstrView::Neg => if stack.len() == 0 {
                Err(underflow(instr))
            } else {
                run_from(arith, code, env, at + 1, stack.drop_last().push(stack.last().negated()))
            },
            _ => if stack.len() == 0 {
                Err(underflow(instr))
            } else if instr is Div && stack.last().is_zero_value() {
                Err(ExecErrorView::DivisionByZero)
            } else if stack.len() == 1 {
                Err(underflow(instr))
            } else {
                let right = stack.last();
                let left = stack[stack.len() - 2];
                run_from(
                    arith,
                    code,
                    env,
                    at + 1,
                    stack.drop_last().drop_last().push(arith(instr_op(instr), left, right)),
                )
            },
        }
    }
}

/// The outcome of running `code` from its start with an empty stack.
pub open spec fn run(arith: Arithmetic, code: Seq<InstrView>, env: Env) -> Outcome {
    run_from(arith, code, env, 0, Seq::empty())
}

/// The value of the outcome of an execution.
pub open spec fn exec_outcome(r: Result<Number, ExecError>) -> Outcome {
    match r {
        Ok(n) => Ok(n),
        Err(e) => Err(e@),
    }
}

/// A string with the characters of `s`.
fn owned(s: &str) -> (r: String)
    ensures
        r@ == s@,
{
    let mut r = String::new();
    push_text(&mut r, s);
    r
}

/// The error for a stack with too few numbers for `instr`.
fn underflow_of(instr: &Instr) -> (e: ExecError)
    ensures
        e@ == underflow(instr@),
{
    let name = match instr {
        Instr::Push(_) => owned("Push"),
        Instr::Add => owned("Add"),
        Instr::Sub => owned("Sub"),
        Instr::Mul => owned("Mul"),
        Instr::Div => owned("Div"),
        Instr::Neg => owned("Neg"),
        Instr::Load(_) => owned("Load"),
    };
    ExecError::StackUnderflow { instr: name }
}

/// The error for the use of the variable `name`, which is not defined.
fn undefined_of(name: &String) -> (e: ExecError)
    ensures
        e@ == undefined(name@),
{
    let mut s = owned("undefined variable: ");
    push_text(&mut s, name.as_str());
    ExecError::Other(s)
}

/// The stack machine with its environment: the variables that have been
/// defined, each with its value.
pub struct SimpleExecutor {
    symbols: StringHashMap<Number>,
}

impl View for SimpleExecutor {
    type V = Env;

    closed spec fn view(&self) -> Env {
        self.symbols@
    }
}

impl SimpleExecutor {
    /// A machine in which no variable is defined.
    pub fn new() -> (executor: SimpleExecutor)
        ensures
            executor@ == Map::<Seq<char>, Number>::empty(),
    {
        SimpleExecutor { symbols: StringHashMap::new() }
    }

    /// The value of the variable `name`, if it is defined.
    pub fn lookup(&self, name: &str) -> (r: Option<Number>)
        ensures
            r == (if self@.contains_key(name@) {
                Some(self@[name@])
            } else {
                None
            }),
    {
        match self.symbols.get(name) {
            Some(value) => Some(*value),
            None => None,
        }
    }

    /// Defines the variable `name` with `value`, in place of any value it
    /// had.
    pub fn define(&mut self, name: String, value: Number)
        ensures
            final(self)@ == old(self)@.insert(name@, value),
    {
        self.symbols.insert(name, value);
    }

    /// Runs `instructions` from an empty stack, with `arith` for the four
    /// operations, and returns what is on top of the stack at the end. The
    /// environment is read and not changed.
    pub fn execute<A: Fn(ArithOp, Number, Number) -> Number>(
        &mut self,
        instructions: &[Instr],
        arith: &A,
    ) -> (r: Result<Number, ExecError>)
        requires
            is_arithmetic(*arith),
        ensures
            final(self)@ == old(self)@,
            exec_outcome(r) == run(arithmetic_of(*arith), instr_views(instructions@), old(self)@),
    {
        let ghost code = instr_views(instructions@);
        let ghost env = self@;
        let ghost f = arithmetic_of(*arith);
        let mut stack: Vec<Number> = Vec::with_capacity(16);
        let mut i: usize = 0;
        while i < instructions.len()
            invariant
                i <= instructions.len(),
                code == instr_views(instructions@),
                env == self@,
                self@ == old(self)@,
                f == arithmetic_of(*arith),
                is_arithmetic(*arith),
                run(f, code, env) == run_from(f, code, env, i as int, stack@),
            decreases instructions.len() - i,
        {
            let instr = &instructions[i];
            assert(code[i as int] == instr@);
            match instr {
                Instr::Push(n) => {
                    stack.push(*n);
                },
                Instr::Load(name) => {
                    match self.symbols.get(name.as_str()) {
                        Some(value) => {
                            stack.push(*value);
                        },
                        None => {
                            return Err(undefined_of(name));
                        },
                    }
                },
                Instr::Neg => {
                    let a = match stack.pop() {
                        Some(a) => a,
                        None => {
                            return Err(underflow_of(instr));
                        },
                    };
                    stack.push(a.negate());
                },
                _ => {
                    let ghost before = stack@;
                    let b = match stack.pop() {
                        Some(b) => b,
                        None => {
                            return Err(underflow_of(instr));
                        },
                    };
                    let divides = match instr {
                        Instr::Div => true,
                        _ => false,
                    };
                    if divides && b.is_zero() {
                        return Err(ExecError::DivisionByZero);
                    }
                    let a = match stack.pop() {
                        Some(a) => a,
                        None => {
                            return Err(underflow_of(instr));
                        },
                    };
                    let op = match instr {
                        Instr::Sub => ArithOp::Sub,
                        Instr::Mul => ArithOp::Mul,
                        Instr::Div => ArithOp::Div,
                        _ => ArithOp::Add,
                    };
                    let value = apply(arith, op, a, b);
                    stack.push(value);
                    assert(stack@ =~= before.drop_last().drop_last().push(value));
                },
            }
            i += 1;
        }
        match stack.pop() {
            Some(v) => Ok(v),
            None => Err(ExecError::NoResult),
        }
    }
}

/// An error of the evaluation of one logical statement, with the text of the
/// statement.
#[derive(Debug, PartialEq)]
pub enum EvalError {
    /// A lexical or syntactic error, the statement, and the number of the
    /// line on which the statement starts.
    Parse(ParserError, String, usize),
    /// An error of compilation, and the statement.
    Compile(CompileError, String),
    /// An error of execution, and the statement.
    Exec(ExecError, String),
}

/// The mathematical value of an [`EvalError`].
pub enum EvalErrorView {
    Parse(ParserErrorView, Seq<char>, usize),
    Compile(CompileErrorView, Seq<char>),
    Exec(ExecErrorView, Seq<char>),
}

impl View for EvalError {
    type V = EvalErrorView;

    open spec fn view(&self) -> EvalErrorView {
        match self {
            EvalError::Parse(e, text, line) => EvalErrorView::Parse(e@, text@, *line),
            EvalError::Compile(e, text) => EvalErrorView::Compile(e@, text@),
            EvalError::Exec(e, text) => EvalErrorView::Exec(e@, text@),
        }
    }
}

/// The number of a line of the whole text, from the number of the line on
/// which a statement starts and a line within the statement; both count from
/// one.
pub open spec fn absolute_line(offset: usize, line: usize) -> int {
    offset + line - 1
}

/// Whether an error has a message: the line and column of a parse error
/// are at least one, and the number of its line in the whole text is a
/// machine number.
pub open spec fn can_render(e: EvalErrorView) -> bool {
    match e {
        EvalErrorView::Parse(err, _, offset) => err.col() >= 1 && 0 <= absolute_line(
            offset,
            err.line(),
        ) <= usize::MAX,
        _ => true,
    }
}

/// The message of an error of evaluation.
///
/// For a parse error it has three lines: the error; the number of the line
/// and the statement; and a caret under the column of the error.
pub open spec fn eval_error_text(e: EvalErrorView) -> Seq<char> {
    match e {
        EvalErrorView::Parse(err, text, offset) => {
            let number = decimal(absolute_line(offset, err.line()) as nat);
            "Error: "@ + parser_error_text(err) + "\n"@ + number + " | "@ + text + "\n"@ + spaces(
                number.len(),
            ) + " | "@ + spaces((err.col() - 1) as nat) + "^"@
        },
        EvalErrorView::Compile(err, text) => "compile error: "@ + compile_error_text(err)
            + " in input: "@ + text,
        EvalErrorView::Exec(err, text) => "runtime error: "@ + exec_error_text(err)
            + " in input: "@ + text,
    }
}

impl EvalError {
    /// Whether this error has a message.
    pub fn is_renderable(&self) -> (r: bool)
        ensures
            r == can_render(self@),
    {
        match self {
            EvalError::Parse(err, _, offset) => {
                let line = err.line();
                err.col() >= 1 && (*offset >= 1 || line >= 1) && (*offset == 0 || line
                    <= usize::MAX - (*offset - 1))
            },
            _ => true,
        }
    }

    /// The message of this error.
    pub fn to_text(&self) -> (s: String)
        requires
            can_render(self@),
        ensures
            s@ == eval_error_text(self@),
    {
        let mut s = String::new();
        match self {
            EvalError::Parse(err, text, offset) => {
                let line = err.line();
                let absolute = if *offset >= 1 {
                    (*offset - 1) + line
                } else {
                    line - 1
                };
                push_text(&mut s, "Error: ");
                let message = err.to_text();
                push_text(&mut s, message.as_str());
                push_text(&mut s, "\n");
                push_decimal(&mut s, absolute);
                push_text(&mut s, " | ");
                push_text(&mut s, text.as_str());
                push_text(&mut s, "\n");
                push_spaces(&mut s, decimal_width(absolute));
                push_text(&mut s, " | ");
                push_spaces(&mut s, err.col() - 1);
                push_text(&mut s, "^");
            },
            EvalError::Compile(err, text) => {
                push_text(&mut s, "compile error: ");
                let message = err.to_text();
                push_text(&mut s, message.as_str());
                push_text(&mut s, " in input: ");
                push_text(&mut s, text.as_str());
            },
            EvalError::Exec(err, text) => {
                push_text(&mut s, "runtime error: ");
                let message = err.to_text();
                push_text(&mut s, message.as_str());
                push_text(&mut s, " in input: ");
                push_text(&mut s, text.as_str());
            },
        }
        s
    }
}

/// What one statement adds to the output: its value with its text, or its
/// error.
pub type Entry = Result<(Number, Seq<char>), EvalErrorView>;

/// The value of an entry of the output.
pub open spec fn entry_view(r: Result<(Number, String), EvalError>) -> Entry {
    match r {
        Ok((value, text)) => Ok((value, text@)),
        Err(e) => Err(e@),
    }
}

/// The values of the entries of an output.
pub open spec fn entry_views(rs: Seq<Result<(Number, String), EvalError>>) -> Seq<Entry> {
    Seq::new(rs.len(), |i: int| entry_view(rs[i]))
}

/// The value of an entry that may be missing.
pub open spec fn optional_entry(r: Option<Result<(Number, String), EvalError>>) -> Option<Entry> {
    match r {
        Some(r) => Some(entry_view(r)),
        None => None,
    }
}

/// What a statement does: the entry it adds to the output, if any, and the
/// environment it leaves.
pub struct Effect {
    pub entry: Option<Entry>,
    pub env: Env,
}

/// The operation of a compound assignment operator.
pub open spec fn compound_op(op: TokenKind) -> ArithOp {
    match op {
        TokenKind::PlusAssign => ArithOp::Add,
        TokenKind::MinusAssign => ArithOp::Sub,
        TokenKind::MulAssign => ArithOp::Mul,
        _ => ArithOp::Div,
    }
}

/// The effect of a failure of execution or compilation: an error entry, and
/// the environment as it was.
pub open spec fn failure(e: EvalErrorView, env: Env) -> Effect {
    Effect { entry: Some(Err(e)), env }
}

/// The effect of evaluating `value` and handing its result to `then`. Code
/// that is empty is not run and has no effect.
pub open spec fn evaluate_value(
    arith: Arithmetic,
    value: ExprView,
    text: Seq<char>,
    env: Env,
    then: spec_fn(Number) -> Effect,
) -> Effect {
    match compile_expr(value) {
        Err(e) => failure(EvalErrorView::Compile(e, text), env),
        Ok(code) => if code.len() == 0 {
            Effect { entry: None, env }
        } else {
            match run(arith, code, env) {
                Ok(v) => then(v),
                Err(e) => failure(EvalErrorView::Exec(e, text), env),
            }
        },
    }
}

/// The effect of a statement with the given text in the given environment.
///
/// An expression adds its value to the output. A declaration defines its
/// variable and adds nothing. An assignment asks that its variable is
/// defined, before it looks at the value, and then does as a declaration. A
/// compound assignment combines the old value with the new one. Every error
/// adds an entry and leaves the environment as it was.
pub open spec fn perform(arith: Arithmetic, statement: StatementView, text: Seq<char>, env: Env) -> Effect {
    match statement {
        StatementView::Expression(value) => evaluate_value(
            arith,
            value,
            text,
            env,
            |v: Number| Effect { entry: Some(Ok((v, text))), env },
        ),
        StatementView::Let { name, annotation, value } => evaluate_value(
            arith,
            value,
            text,
            env,
            |v: Number| Effect { entry: None, env: env.insert(name, v) },
        ),
        StatementView::Assignment { name, value } => if !env.contains_key(name) {
            failure(EvalErrorView::Exec(undefined(name), text), env)
        } else {
            evaluate_value(
                arith,
                value,
                text,
                env,
                |v: Number| Effect { entry: None, env: env.insert(name, v) },
            )
        },
        StatementView::CompoundAssignment { name, op, value } => if !env.contains_key(name) {
            failure(EvalErrorView::Exec(undefined(name), text), env)
        } else {
            evaluate_value(
                arith,
                value,
                text,
                env,
                |v: Number|
                    Effect {
                        entry: None,
                        env: env.insert(name, arith(compound_op(op), env[name], v)),
                    },
            )
        },
    }
}

/// The parser error that stands for a lexical error: its message names the
/// character, and it has the error's line and column.
pub open spec fn lexical_error(e: TokenizerError) -> ParserErrorView {
    match e {
        TokenizerError::UnexpectedCharacter { found, line, col } => ParserErrorView::TokenizerError {
            message: "Unexpected character '"@.push(found) + "'"@,
            line,
            col,
        },
    }
}

/// The effect of a logical statement: its text is trimmed, analysed and
/// parsed, and the statement that it holds is performed. The entry carries the
/// text as it was, and an error of analysis or parsing also the line on
/// which the statement starts.
pub open spec fn evaluate_statement(
    read: Reading,
    arith: Arithmetic,
    statement: LogicalStatementView,
    env: Env,
) -> Effect {
    match lex(trim(statement.text)) {
        Err(e) => failure(
            EvalErrorView::Parse(lexical_error(e), statement.text, statement.line),
            env,
        ),
        Ok(tokens) => match parse_tokens(read, tokens) {
            Err(e) => failure(EvalErrorView::Parse(e, statement.text, statement.line), env),
            Ok(parsed) => perform(arith, parsed, statement.text, env),
        },
    }
}

/// The output and the environment after the logical statements have been
/// evaluated in order, each in the environment that the one before left.
pub open spec fn evaluate_statements(
    read: Reading,
    arith: Arithmetic,
    statements: Seq<LogicalStatementView>,
    env: Env,
) -> (Seq<Entry>, Env)
    decreases statements.len(),
{
    if statements.len() == 0 {
        (Seq::empty(), env)
    } else {
        let (entries, before) = evaluate_statements(read, arith, statements.drop_last(), env);
        let effect = evaluate_statement(read, arith, statements.last(), before);
        match effect.entry {
            Some(entry) => (entries.push(entry), effect.env),
            None => (entries, effect.env),
        }
    }
}

/// The output and the environment after a text has been evaluated.
pub open spec fn evaluate_text(read: Reading, arith: Arithmetic, text: Seq<char>, env: Env) -> (
    Seq<Entry>,
    Env,
) {
    evaluate_statements(read, arith, logical_statements(text), env)
}

/// Whether a statement can be performed: a compound assignment holds a
/// compound assignment operator.
pub open spec fn is_performable(statement: StatementView) -> bool {
    statement matches StatementView::CompoundAssignment { op, .. } ==> is_compound(op)
}

/// Whether every error of an output has a message.
pub open spec fn all_can_render(entries: Seq<Entry>) -> bool {
    forall|i: int| 0 <= i < entries.len() ==> ((#[trigger] entries[i]) matches Err(e) ==> can_render(e))
}

/// The error of a statement that is a single line, and not too long for the
/// machine, has a message: it stands on line one of the statement, so its
/// line in the whole text is the line on which the statement starts.
pub proof fn lemma_statement_error_renders(
    read: Reading,
    arith: Arithmetic,
    statement: LogicalStatementView,
    env: Env,
)
    requires
        is_single_line(statement.text),
        utf8_len(statement.text) < usize::MAX,
    ensures
        evaluate_statement(read, arith, statement, env).entry matches Some(Err(e)) ==> can_render(
            e,
        ),
        evaluate_statement(read, arith, statement, env).entry matches Some(
            Err(EvalErrorView::Parse(err, _, line)),
        ) ==> err.line() == 1 && line == statement.line,
{
    let source = trim(statement.text);
    lemma_trim_fits(statement.text);
    lemma_trim_single_line(statement.text);
    lemma_lex_on_first_line(source);
    if let Ok(tokens) = lex(source) {
        lemma_lex_ends_in_eof(source);
        lemma_significant_terminated(tokens);
        lemma_significant_on_first_line(tokens);
        lemma_statement_error_position(read, significant(tokens));
    }
}

/// The errors of statements that are single lines, and not too long for the
/// machine, have messages.
pub proof fn lemma_statements_errors_render(
    read: Reading,
    arith: Arithmetic,
    statements: Seq<LogicalStatementView>,
    env: Env,
)
    requires
        forall|i: int|
            0 <= i < statements.len() ==> is_single_line((#[trigger] statements[i]).text)
                && utf8_len(statements[i].text) < usize::MAX,
    ensures
        all_can_render(evaluate_statements(read, arith, statements, env).0),
    decreases statements.len(),
{
    if statements.len() > 0 {
        let front = statements.drop_last();
        assert forall|i: int| 0 <= i < front.len() implies is_single_line(
            (#[trigger] front[i]).text,
        ) && utf8_len(front[i].text) < usize::MAX by {
            assert(front[i] == statements[i]);
        }
        lemma_statements_errors_render(read, arith, front, env);
        let (entries, before) = evaluate_statements(read, arith, front, env);
        assert(statements.last() == statements[statements.len() - 1]);
        lemma_statement_error_renders(read, arith, statements.last(), before);
    }
}

/// Every error in the output of a text that is not too long for the machine
/// has a message.
pub proof fn lemma_text_errors_render(read: Reading, arith: Arithmetic, text: Seq<char>, env: Env)
    requires
        utf8_len(text) < usize::MAX,
    ensures
        all_can_render(evaluate_text(read, arith, text, env).0),
{
    lemma_statements_fit(text);
    lemma_statements_single_line(text);
    lemma_statements_errors_render(read, arith, logical_statements(text), env);
}

/// The parser error that stands for a lexical error.
fn lexical_error_of(e: TokenizerError) -> (r: ParserError)
    ensures
        r@ == lexical_error(e),
{
    match e {
        TokenizerError::UnexpectedCharacter { found, line, col } => {
            let mut message = owned("Unexpected character '");
            push_char(&mut message, found);
            push_text(&mut message, "'");
            ParserError::TokenizerError { message, line, col }
        },
    }
}

/// What the evaluation of a value gave: nothing, because the code was empty;
/// a number; or an error entry.
enum Evaluated {
    Nothing,
    Value(Number),
    Failed(EvalError),
}

impl SimpleExecutor {
    /// Compiles and runs `value`.
    fn evaluate<A: Fn(ArithOp, Number, Number) -> Number>(
        &mut self,
        value: &Expr,
        text: &String,
        arith: &A,
    ) -> (r: Evaluated)
        requires
            is_arithmetic(*arith),
        ensures
            final(self)@ == old(self)@,
            match r {
                Evaluated::Nothing => compile_expr(value@) is Ok && compile_expr(value@)->Ok_0.len()
                    == 0,
                Evaluated::Value(v) => compile_expr(value@) is Ok && compile_expr(
                    value@,
                )->Ok_0.len() > 0 && run(
                    arithmetic_of(*arith),
                    compile_expr(value@)->Ok_0,
                    old(self)@,
                ) == Ok::<Number, ExecErrorView>(v),
                Evaluated::Failed(e) => match compile_expr(value@) {
                    Err(c) => e@ == EvalErrorView::Compile(c, text@),
                    Ok(code) => code.len() > 0 && run(arithmetic_of(*arith), code, old(self)@) is Err
                        && e@ == EvalErrorView::Exec(
                        run(arithmetic_of(*arith), code, old(self)@)->Err_0,
                        text@,
                    ),
                },
            },
    {
        match BytecodeCompiler::compile(value) {
            Err(e) => Evaluated::Failed(EvalError::Compile(e, text.clone())),
            Ok(code) => {
                assert(instr_views(code@).len() == code.len());
                if code.len() == 0 {
                    Evaluated::Nothing
                } else {
                    match self.execute(code.as_slice(), arith) {
                        Ok(v) => Evaluated::Value(v),
                        Err(e) => Evaluated::Failed(EvalError::Exec(e, text.clone())),
                    }
                }
            },
        }
    }

    /// Performs a statement whose text is `text`: returns the entry that it
    /// adds to the output, if any, and changes the environment as the
    /// statement says.
    pub fn perform<A: Fn(ArithOp, Number, Number) -> Number>(
        &mut self,
        statement: Statement,
        text: &String,
        arith: &A,
    ) -> (r: Option<Result<(Number, String), EvalError>>)
        requires
            is_arithmetic(*arith),
            is_performable(statement@),
        ensures
            (Effect { entry: optional_entry(r), env: final(self)@ }) == perform(
                arithmetic_of(*arith),
                statement@,
                text@,
                old(self)@,
            ),
    {
        match statement {
            Statement::Expression(value) => match self.evaluate(&value, text, arith) {
                Evaluated::Nothing => None,
                Evaluated::Value(v) => Some(Ok((v, text.clone()))),
                Evaluated::Failed(e) => Some(Err(e)),
            },
            Statement::Let { name, annotation, value } => match self.evaluate(
                &value,
                text,
                arith,
            ) {
                Evaluated::Nothing => None,
                Evaluated::Value(v) => {
                    self.define(name, v);
                    None
                },
                Evaluated::Failed(e) => Some(Err(e)),
            },
            Statement::Assignment { name, value } => {
                if self.lookup(name.as_str()).is_none() {
                    return Some(Err(EvalError::Exec(undefined_of(&name), text.clone())));
                }
                match self.evaluate(&value, text, arith) {
                    Evaluated::Nothing => None,
                    Evaluated::Value(v) => {
                        self.define(name, v);
                        None
                    },
                    Evaluated::Failed(e) => Some(Err(e)),
                }
            },
            Statement::CompoundAssignment { name, op, value } => {
                let current = match self.lookup(name.as_str()) {
                    Some(current) => current,
                    None => {
                        return Some(Err(EvalError::Exec(undefined_of(&name), text.clone())));
                    },
                };
                match self.evaluate(&value, text, arith) {
                    Evaluated::Nothing => None,
                    Evaluated::Value(v) => {
                        let operation = match op {
                            TokenType::PlusAssign => ArithOp::Add,
                            TokenType::MinusAssign => ArithOp::Sub,
                            TokenType::MulAssign => ArithOp::Mul,
                            _ => ArithOp::Div,
                        };
                        let combined = apply(arith, operation, current, v);
                        self.define(name, combined);
                        None
                    },
                    Evaluated::Failed(e) => Some(Err(e)),
                }
            },
        }
    }

    /// Evaluates one logical statement: trims, analyses and parses its text
    /// and performs the statement that it holds.
    pub fn evaluate_statement<N: Fn(String) -> Option<Number>, A: Fn(
        ArithOp,
        Number,
        Number,
    ) -> Number>(&mut self, statement: &LogicalStatement, to_number: &N, arith: &A) -> (r: Option<
        Result<(Number, String), EvalError>,
    >)
        requires
            is_reading(*to_number),
            is_arithmetic(*arith),
            utf8_len(statement@.text) < usize::MAX,
        ensures
            (Effect { entry: optional_entry(r), env: final(self)@ }) == evaluate_statement(
                reading_of(*to_number),
                arithmetic_of(*arith),
                statement@,
                old(self)@,
            ),
    {
        let chars = chars_of(statement.text.as_str());
        proof {
            lemma_trim_fits(chars@);
        }
        let source = trimmed(&chars);
        let ghost trimmed_text = source@;
        assert(source@.subrange(0, source@.len() as int) =~= source@);
        let mut tokenizer = Tokenizer::new(text_of(&source, 0, source.len()));
        let tokens = match tokenizer.tokenize() {
            Ok(tokens) => tokens,
            Err(e) => {
                return Some(
                    Err(
                        EvalError::Parse(
                            lexical_error_of(e),
                            statement.text.clone(),
                            statement.line,
                        ),
                    ),
                );
            },
        };
        proof {
            lemma_lex_ends_in_eof(trimmed_text);
            lemma_significant_terminated(lex(trimmed_text)->Ok_0);
        }
        let mut parser = Parser::new(tokens);
        match parser.parse(to_number) {
            Ok(parsed) => self.perform(parsed, &statement.text, arith),
            Err(e) => Some(Err(EvalError::Parse(e, statement.text.clone(), statement.line))),
        }
    }
}

/// Evaluates a text of statements, one to a line, in the environment of
/// `executor`: returns one entry for each statement that has a value or
/// fails, in order, and leaves in `executor` the variables as the statements
/// defined them. A statement that fails does not stop the ones after it.
///
/// `to_number` reads number literals and `arith` performs the four
/// operations.
pub fn evaluate_lines<N: Fn(String) -> Option<Number>, A: Fn(ArithOp, Number, Number) -> Number>(
    input: &str,
    executor: &mut SimpleExecutor,
    to_number: &N,
    arith: &A,
) -> (results: Vec<Result<(Number, String), EvalError>>)
    requires
        is_reading(*to_number),
        is_arithmetic(*arith),
        utf8_len(input@) < usize::MAX,
    ensures
        (entry_views(results@), final(executor)@) == evaluate_text(
            reading_of(*to_number),
            arithmetic_of(*arith),
            input@,
            old(executor)@,
        ),
        forall|i: int|
            0 <= i < results.len() ==> ((#[trigger] results@[i]) matches Err(e) ==> can_render(
                e@,
            )),
{
    let statements = split_statements(input);
    let ghost all = logical_statements(input@);
    let ghost read = reading_of(*to_number);
    let ghost f = arithmetic_of(*arith);
    let ghost env = executor@;
    let mut results: Vec<Result<(Number, String), EvalError>> = Vec::new();
    let mut i: usize = 0;
    proof {
        lemma_statements_fit(input@);
        assert(all.take(0) =~= Seq::<LogicalStatementView>::empty());
        assert(entry_views(results@) =~= Seq::<Entry>::empty());
    }
    while i < statements.len()
        invariant
            i <= statements.len(),
            all == statement_views(statements@),
            all == logical_statements(input@),
            read == reading_of(*to_number),
            f == arithmetic_of(*arith),
            is_reading(*to_number),
            is_arithmetic(*arith),
            utf8_len(input@) < usize::MAX,
            forall|k: int|
                0 <= k < all.len() ==> utf8_len((#[trigger] all[k]).text) <= utf8_len(input@),
            (entry_views(results@), executor@) == evaluate_statements(
                read,
                f,
                all.take(i as int),
                env,
            ),
        decreases statements.len() - i,
    {
        let ghost done = entry_views(results@);
        proof {
            assert(all.take(i as int + 1).drop_last() =~= all.take(i as int));
            assert(all.take(i as int + 1).last() == all[i as int]);
            assert(all[i as int] == statements@[i as int]@);
        }
        match executor.evaluate_statement(&statements[i], to_number, arith) {
            Some(entry) => {
                proof {
                    assert(entry_views(results@.push(entry)) =~= done.push(entry_view(entry)));
                }
                results.push(entry);
            },
            None => {},
        }
        i += 1;
    }
    proof {
        assert(all.take(statements.len() as int) =~= all);
        lemma_text_errors_render(read, f, input@, env);
        assert forall|i: int| 0 <= i < results.len() implies ((#[trigger] results@[i]) matches Err(
            e,
        ) ==> can_render(e@)) by {
            assert(entry_views(results@)[i] == entry_view(results@[i]));
        }
    }
    results
}

} // verus!
