use arith::ast::Expr;
use arith::executor::{BytecodeCompiler, CompileError, ExecError, Instr, SimpleExecutor};
use arith::number::{ArithOp, Number, SIGN_BIT};
use arith::tokenizer::TokenType;

fn num(value: f64) -> Number {
    Number::from_bits(value.to_bits())
}

fn float(number: Number) -> f64 {
    f64::from_bits(number.to_bits())
}

fn arith(op: ArithOp, a: Number, b: Number) -> Number {
    let (a, b) = (float(a), float(b));
    num(match op {
        ArithOp::Add => a + b,
        ArithOp::Sub => a - b,
        ArithOp::Mul => a * b,
        ArithOp::Div => a / b,
    })
}

fn lit(value: f64) -> Expr {
    Expr::Number(num(value))
}

fn binary(left: Expr, op: TokenType, right: Expr) -> Expr {
    Expr::BinaryOp {
        left: Box::new(left),
        op,
        right: Box::new(right),
    }
}

fn unary(op: TokenType, expr: Expr) -> Expr {
    Expr::UnaryOp {
        op,
        expr: Box::new(expr),
    }
}

fn run(code: &[Instr]) -> Result<f64, ExecError> {
    SimpleExecutor::new().execute(code, &arith).map(float)
}

fn underflow(instr: &str) -> ExecError {
    ExecError::StackUnderflow {
        instr: instr.to_string(),
    }
}

#[test]
fn test_number_operations_on_bits() {
    assert_eq!(Number::zero().to_bits(), 0);
    assert_eq!(Number::from_bits(17).to_bits(), 17);
    assert_eq!(float(num(2.5).negate()), -2.5);
    assert_eq!(float(num(-2.5).negate()), 2.5);
    assert_eq!(num(0.0).negate().to_bits(), SIGN_BIT);
    assert_eq!(num(-0.0).negate().to_bits(), 0);
    assert_eq!(float(num(f64::INFINITY).negate()), f64::NEG_INFINITY);
    assert!(float(num(f64::NAN).negate()).is_nan());
    assert!(num(0.0).is_zero());
    assert!(num(-0.0).is_zero());
    assert!(!num(1.0).is_zero());
    assert!(!num(f64::MIN_POSITIVE).is_zero());
    assert!(!num(f64::NAN).is_zero());
    assert!(!Number::from_bits(1).is_zero());
}

#[test]
fn test_negation_is_exact_on_all_kinds_of_values() {
    for value in [
        0.0,
        1.0,
        -1.0,
        1.4,
        6.022e23,
        f64::MAX,
        f64::MIN_POSITIVE,
        5e-324,
        f64::INFINITY,
    ] {
        assert_eq!(num(value).negate(), num(-value));
        assert_eq!(num(value).negate().negate(), num(value));
    }
}

#[test]
fn test_compile_leaves() {
    assert_eq!(
        BytecodeCompiler::compile(&lit(1.5)),
        Ok(vec![Instr::Push(num(1.5))])
    );
    assert_eq!(
        BytecodeCompiler::compile(&Expr::Variable("x".to_string())),
        Ok(vec![Instr::Load("x".to_string())])
    );
    assert_eq!(BytecodeCompiler::compile(&Expr::Empty), Ok(vec![]));
    assert_eq!(
        BytecodeCompiler::compile(&Expr::EmptyParen),
        Ok(vec![Instr::Push(num(0.0))])
    );
}

#[test]
fn test_compile_is_post_order() {
    // (1 - x) / -(2 * 3)
    let expr = binary(
        binary(lit(1.0), TokenType::Minus, Expr::Variable("x".to_string())),
        TokenType::Div,
        unary(
            TokenType::Minus,
            binary(lit(2.0), TokenType::Mul, lit(3.0)),
        ),
    );
    assert_eq!(
        BytecodeCompiler::compile(&expr),
        Ok(vec![
            Instr::Push(num(1.0)),
            Instr::Load("x".to_string()),
            Instr::Sub,
            Instr::Push(num(2.0)),
            Instr::Push(num(3.0)),
            Instr::Mul,
            Instr::Neg,
            Instr::Div,
        ])
    );
}

#[test]
fn test_compile_plus_sign_adds_nothing() {
    assert_eq!(
        BytecodeCompiler::compile(&unary(TokenType::Plus, lit(4.0))),
        Ok(vec![Instr::Push(num(4.0))])
    );
    assert_eq!(
        BytecodeCompiler::compile(&binary(lit(1.0), TokenType::Plus, lit(2.0))),
        Ok(vec![Instr::Push(num(1.0)), Instr::Push(num(2.0)), Instr::Add])
    );
}

#[test]
fn test_compile_rejects_tokens_that_are_no_operators() {
    assert_eq!(
        BytecodeCompiler::compile(&unary(TokenType::Mul, lit(1.0))),
        Err(CompileError::UnsupportedOperator("Mul".to_string()))
    );
    assert_eq!(
        BytecodeCompiler::compile(&binary(lit(1.0), TokenType::PlusAssign, lit(2.0))),
        Err(CompileError::UnsupportedOperator("PlusAssign".to_string()))
    );
    assert_eq!(
        BytecodeCompiler::compile(&binary(lit(1.0), TokenType::EOF, lit(2.0))),
        Err(CompileError::UnsupportedOperator("EOF".to_string()))
    );
    assert_eq!(
        BytecodeCompiler::compile(&binary(
            lit(1.0),
            TokenType::Identifier {
                name: "mod".to_string()
            },
            lit(2.0)
        )),
        Err(CompileError::UnsupportedOperator(
            "Identifier { name: \"mod\" }".to_string()
        ))
    );
    assert_eq!(
        BytecodeCompiler::compile(&unary(
            TokenType::Number {
                value: "7".to_string()
            },
            lit(2.0)
        )),
        Err(CompileError::UnsupportedOperator(
            "Number { value: \"7\" }".to_string()
        ))
    );
    assert_eq!(
        BytecodeCompiler::compile(&unary(
            TokenType::Comment {
                contents: "c".to_string()
            },
            lit(2.0)
        )),
        Err(CompileError::UnsupportedOperator(
            "Comment { contents: \"c\" }".to_string()
        ))
    );
}

#[test]
fn test_compile_reports_the_innermost_leftmost_error_first() {
    let expr = binary(
        unary(TokenType::Colon, lit(1.0)),
        TokenType::Let,
        unary(TokenType::Assign, lit(2.0)),
    );
    assert_eq!(
        BytecodeCompiler::compile(&expr),
        Err(CompileError::UnsupportedOperator("Colon".to_string()))
    );
    let expr = binary(lit(1.0), TokenType::Let, unary(TokenType::Assign, lit(2.0)));
    assert_eq!(
        BytecodeCompiler::compile(&expr),
        Err(CompileError::UnsupportedOperator("Assign".to_string()))
    );
}

#[test]
fn test_compile_error_messages() {
    assert_eq!(
        CompileError::UnsupportedOperator("Mul".to_string()).to_text(),
        "unsupported operator during compilation: Mul"
    );
    assert_eq!(
        CompileError::UndefinedVariable("x".to_string()).to_text(),
        "undefined variable: x"
    );
}

#[test]
fn test_execute_arithmetic() {
    let push = |v: f64| Instr::Push(num(v));
    assert_eq!(run(&[push(7.0), push(2.0), Instr::Add]), Ok(9.0));
    assert_eq!(run(&[push(7.0), push(2.0), Instr::Sub]), Ok(5.0));
    assert_eq!(run(&[push(7.0), push(2.0), Instr::Mul]), Ok(14.0));
    assert_eq!(run(&[push(7.0), push(2.0), Instr::Div]), Ok(3.5));
    assert_eq!(run(&[push(7.0), Instr::Neg]), Ok(-7.0));
    assert_eq!(run(&[push(0.1), push(0.2), Instr::Add]), Ok(0.1 + 0.2));
}

#[test]
fn test_execute_returns_the_top_of_the_stack() {
    let push = |v: f64| Instr::Push(num(v));
    assert_eq!(run(&[push(1.0), push(2.0), push(3.0)]), Ok(3.0));
    assert_eq!(run(&[push(1.0), push(2.0), push(3.0), Instr::Add]), Ok(5.0));
}

#[test]
fn test_execute_empty_code_has_no_result() {
    assert_eq!(run(&[]), Err(ExecError::NoResult));
}

#[test]
fn test_execute_stack_underflow_names_the_instruction() {
    let push = |v: f64| Instr::Push(num(v));
    assert_eq!(run(&[Instr::Add]), Err(underflow("Add")));
    assert_eq!(run(&[push(1.0), Instr::Add]), Err(underflow("Add")));
    assert_eq!(run(&[Instr::Sub]), Err(underflow("Sub")));
    assert_eq!(run(&[push(1.0), Instr::Sub]), Err(underflow("Sub")));
    assert_eq!(run(&[Instr::Mul]), Err(underflow("Mul")));
    assert_eq!(run(&[push(1.0), Instr::Mul]), Err(underflow("Mul")));
    assert_eq!(run(&[Instr::Div]), Err(underflow("Div")));
    assert_eq!(run(&[push(1.0), Instr::Div]), Err(underflow("Div")));
    assert_eq!(run(&[Instr::Neg]), Err(underflow("Neg")));
}

#[test]
fn test_execute_division_by_zero() {
    let push = |v: f64| Instr::Push(num(v));
    assert_eq!(
        run(&[push(1.0), push(0.0), Instr::Div]),
        Err(ExecError::DivisionByZero)
    );
    assert_eq!(
        run(&[push(1.0), push(-0.0), Instr::Div]),
        Err(ExecError::DivisionByZero)
    );
    assert_eq!(
        run(&[push(0.0), push(0.0), Instr::Div]),
        Err(ExecError::DivisionByZero)
    );
    // The divisor is looked at before the dividend is asked for.
    assert_eq!(run(&[push(0.0), Instr::Div]), Err(ExecError::DivisionByZero));
    assert_eq!(run(&[push(0.0), push(5.0), Instr::Div]), Ok(0.0));
    assert_eq!(
        run(&[push(1.0), push(5e-324), Instr::Div]),
        Ok(f64::INFINITY)
    );
}

#[test]
fn test_execute_stops_at_the_first_error() {
    let push = |v: f64| Instr::Push(num(v));
    assert_eq!(
        run(&[push(1.0), push(0.0), Instr::Div, Instr::Load("x".to_string())]),
        Err(ExecError::DivisionByZero)
    );
    assert_eq!(
        run(&[Instr::Load("x".to_string()), push(0.0), Instr::Div]),
        Err(ExecError::Other("undefined variable: x".to_string()))
    );
}

#[test]
fn test_execute_loads_variables() {
    let mut executor = SimpleExecutor::new();
    assert_eq!(executor.lookup("x"), None);
    executor.define("x".to_string(), num(4.0));
    executor.define("y".to_string(), num(0.5));
    assert_eq!(executor.lookup("x"), Some(num(4.0)));
    let code = [
        Instr::Load("x".to_string()),
        Instr::Load("y".to_string()),
        Instr::Mul,
    ];
    assert_eq!(executor.execute(&code, &arith), Ok(num(2.0)));
    assert_eq!(
        executor.execute(&[Instr::Load("z".to_string())], &arith),
        Err(ExecError::Other("undefined variable: z".to_string()))
    );
    executor.define("x".to_string(), num(6.0));
    assert_eq!(executor.execute(&code, &arith), Ok(num(3.0)));
    assert_eq!(executor.lookup("x"), Some(num(6.0)));
    assert_eq!(executor.lookup("y"), Some(num(0.5)));
}

#[test]
fn test_execute_uses_the_arithmetic_it_is_given() {
    let first = |_: ArithOp, a: Number, _: Number| a;
    let code = [Instr::Push(num(3.0)), Instr::Push(num(4.0)), Instr::Add];
    assert_eq!(
        SimpleExecutor::new().execute(&code, &first),
        Ok(num(3.0))
    );
    let named = |op: ArithOp, _: Number, _: Number| {
        num(match op {
            ArithOp::Add => 1.0,
            ArithOp::Sub => 2.0,
            ArithOp::Mul => 3.0,
            ArithOp::Div => 4.0,
        })
    };
    for (instr, expected) in [
        (Instr::Add, 1.0),
        (Instr::Sub, 2.0),
        (Instr::Mul, 3.0),
        (Instr::Div, 4.0),
    ] {
        let code = [Instr::Push(num(9.0)), Instr::Push(num(9.0)), instr];
        assert_eq!(
            SimpleExecutor::new().execute(&code, &named),
            Ok(num(expected))
        );
    }
}

#[test]
fn test_compiled_code_computes_the_value_of_the_expression() {
    // 2 - 3 * (4 + -x) / 8 with x = 6: 2 - 3 * -2 / 8 = 2.75
    let expr = binary(
        lit(2.0),
        TokenType::Minus,
        binary(
            binary(
                lit(3.0),
                TokenType::Mul,
                binary(
                    lit(4.0),
                    TokenType::Plus,
                    unary(TokenType::Minus, Expr::Variable("x".to_string())),
                ),
            ),
            TokenType::Div,
            lit(8.0),
        ),
    );
    let code = BytecodeCompiler::compile(&expr).unwrap();
    let mut executor = SimpleExecutor::new();
    executor.define("x".to_string(), num(6.0));
    assert_eq!(executor.execute(&code, &arith), Ok(num(2.75)));
}

#[test]
fn test_compiled_code_fails_in_the_left_operand_first() {
    let expr = binary(
        binary(lit(1.0), TokenType::Div, lit(0.0)),
        TokenType::Plus,
        Expr::Variable("nowhere".to_string()),
    );
    let code = BytecodeCompiler::compile(&expr).unwrap();
    assert_eq!(run(&code), Err(ExecError::DivisionByZero));
    let expr = binary(
        Expr::Variable("nowhere".to_string()),
        TokenType::Plus,
        binary(lit(1.0), TokenType::Div, lit(0.0)),
    );
    let code = BytecodeCompiler::compile(&expr).unwrap();
    assert_eq!(
        run(&code),
        Err(ExecError::Other("undefined variable: nowhere".to_string()))
    );
}

#[test]
fn test_exec_error_messages() {
    assert_eq!(
        underflow("Neg").to_text(),
        "stack underflow while executing instruction 'Neg'"
    );
    assert_eq!(ExecError::DivisionByZero.to_text(), "division by zero");
    assert_eq!(
        ExecError::NoResult.to_text(),
        "execution finished with no result on the stack"
    );
    assert_eq!(
        ExecError::Other("undefined variable: x".to_string()).to_text(),
        "execution error: undefined variable: x"
    );
}
