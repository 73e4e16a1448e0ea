use loxvm::chunk::Chunk;
use loxvm::opcode::Opcode;
use loxvm::parser::{CompileMessage, Compilation, Parser};
use loxvm::token::{Token, TokenType};
use loxvm::value::Value;
use loxvm::vm::{Fault, NumOp, Step, Vm};

fn tok(t: TokenType) -> Token {
    Token::new(t, 1, 0, 0)
}

fn num(x: f64) -> Token {
    tok(TokenType::Number(x.to_bits()))
}

fn ident(s: &str) -> Token {
    tok(TokenType::Identifier(s.to_string()))
}

fn string(s: &str) -> Token {
    tok(TokenType::Str(s.to_string()))
}

fn compute(op: NumOp, a: u64, b: u64) -> Value {
    let x = f64::from_bits(a);
    let y = f64::from_bits(b);
    let n = |v: f64| Value::Number(v.to_bits());
    match op {
        NumOp::Negate => n(-x),
        NumOp::Add => n(x + y),
        NumOp::Subtract => n(x - y),
        NumOp::Multiply => n(x * y),
        NumOp::Divide => n(x / y),
        NumOp::Mod => n(x % y),
        NumOp::Equal => Value::Bool(x == y),
        NumOp::Greater => Value::Bool(x > y),
        NumOp::Less => Value::Bool(x < y),
        NumOp::BitwiseAnd => n(((x as i64) & (y as i64)) as f64),
        NumOp::BitwiseOr => n(((x as i64) | (y as i64)) as f64),
    }
}

fn render(v: &Value) -> String {
    match v {
        Value::Number(b) => format!("{}", f64::from_bits(*b)),
        Value::Bool(b) => format!("{}", b),
        Value::Nil => "nil".to_string(),
        Value::Str(s) => s.clone(),
    }
}

struct Outcome {
    output: Vec<String>,
    warnings: Vec<Fault>,
    failure: Option<Fault>,
}

fn execute(chunk: Chunk) -> Outcome {
    let mut vm = Vm::new(chunk);
    let mut out = Outcome { output: Vec::new(), warnings: Vec::new(), failure: None };
    for _ in 0..10_000 {
        match vm.step() {
            Step::Continue => {}
            Step::Output(v) => out.output.push(render(&v)),
            Step::Compute(op, a, b) => vm.resume(compute(op, a, b)),
            Step::Warn(f, _) => out.warnings.push(f),
            Step::Done(v) => {
                if let Some(v) = v {
                    out.output.push(render(&v));
                }
                break;
            }
            Step::Fail(f, _) => {
                out.failure = Some(f);
                break;
            }
            Step::Halted => break,
        }
    }
    out
}

fn compile(tokens: Vec<Token>) -> Compilation {
    Parser::new(tokens).compile()
}

fn run(tokens: Vec<Token>) -> Outcome {
    let c = compile(tokens);
    assert!(c.diagnostics.is_empty(), "unexpected diagnostics: {:?}", c.diagnostics);
    execute(c.chunk)
}

fn print_of(expr: Vec<Token>) -> Vec<Token> {
    let mut t = vec![tok(TokenType::Print)];
    t.extend(expr);
    t.push(tok(TokenType::Semicolon));
    t
}

fn bytes(ops: &[Opcode]) -> Vec<u8> {
    ops.iter().map(|o| o.to_u8()).collect()
}

#[test]
fn literals_print_their_canonical_form() {
    assert_eq!(run(print_of(vec![num(1.5)])).output, vec!["1.5"]);
    assert_eq!(run(print_of(vec![num(42.0)])).output, vec!["42"]);
    assert_eq!(run(print_of(vec![string("hello")])).output, vec!["hello"]);
    assert_eq!(run(print_of(vec![tok(TokenType::True)])).output, vec!["true"]);
    assert_eq!(run(print_of(vec![tok(TokenType::False)])).output, vec!["false"]);
    assert_eq!(run(print_of(vec![tok(TokenType::Nil)])).output, vec!["nil"]);
}

#[test]
fn literal_compiles_to_constant_print_return() {
    let c = compile(print_of(vec![num(2.0)]));
    assert_eq!(c.chunk.code, vec![1, 0, 19, 0]);
    assert_eq!(c.chunk.lines.len(), c.chunk.code.len());
    assert!(matches!(c.chunk.constants[0], Value::Number(b) if b == 2.0f64.to_bits()));
}

#[test]
fn factor_binds_tighter_than_term() {
    let p = print_of(vec![num(1.0), tok(TokenType::Plus), num(2.0), tok(TokenType::Star), num(3.0)]);
    assert_eq!(run(p).output, vec!["7"]);
}

#[test]
fn grouping_overrides_precedence() {
    let p = print_of(vec![
        tok(TokenType::LeftParen),
        num(1.0),
        tok(TokenType::Plus),
        num(2.0),
        tok(TokenType::RightParen),
        tok(TokenType::Star),
        num(3.0),
    ]);
    assert_eq!(run(p).output, vec!["9"]);
}

#[test]
fn subtraction_is_left_associative() {
    let p = print_of(vec![num(10.0), tok(TokenType::Minus), num(2.0), tok(TokenType::Minus), num(3.0)]);
    assert_eq!(run(p).output, vec!["5"]);
}

#[test]
fn not_equal_is_equal_then_not() {
    let p = print_of(vec![num(3.0), tok(TokenType::BangEqual), num(3.0)]);
    let c = compile(p.clone());
    let constant = Opcode::Constant.to_u8();
    let tail = bytes(&[Opcode::Equal, Opcode::Not, Opcode::Print, Opcode::Return]);
    let mut expected = vec![constant, 0, constant, 1];
    expected.extend(tail);
    assert_eq!(c.chunk.code, expected);
    assert_eq!(run(p).output, vec!["false"]);
}

#[test]
fn less_equal_is_greater_then_not() {
    let p = print_of(vec![num(3.0), tok(TokenType::LessEqual), num(4.0)]);
    let c = compile(p.clone());
    let n = c.chunk.code.len();
    assert_eq!(&c.chunk.code[n - 4..n - 2], &bytes(&[Opcode::Greater, Opcode::Not])[..]);
    assert_eq!(run(p).output, vec!["true"]);
}

#[test]
fn greater_equal_is_less_then_not() {
    let p = print_of(vec![num(5.0), tok(TokenType::GreaterEqual), num(4.0)]);
    let c = compile(p.clone());
    let n = c.chunk.code.len();
    assert_eq!(&c.chunk.code[n - 4..n - 2], &bytes(&[Opcode::Less, Opcode::Not])[..]);
    assert_eq!(run(p).output, vec!["true"]);
}

#[test]
fn global_defined_then_read() {
    let p = vec![
        ident("x"),
        tok(TokenType::Equal),
        num(5.0),
        tok(TokenType::Semicolon),
        tok(TokenType::Print),
        ident("x"),
        tok(TokenType::Semicolon),
    ];
    let out = run(p);
    assert_eq!(out.output, vec!["5"]);
    assert!(out.failure.is_none());
}

#[test]
fn global_redefined_takes_new_value() {
    let p = vec![
        ident("x"),
        tok(TokenType::Equal),
        num(5.0),
        tok(TokenType::Semicolon),
        ident("x"),
        tok(TokenType::Equal),
        ident("x"),
        tok(TokenType::Star),
        num(2.0),
        tok(TokenType::Semicolon),
        tok(TokenType::Print),
        ident("x"),
        tok(TokenType::Semicolon),
    ];
    assert_eq!(run(p).output, vec!["10"]);
}

#[test]
fn undefined_global_is_a_runtime_error() {
    let out = run(print_of(vec![ident("y")]));
    assert!(out.output.is_empty());
    assert!(matches!(out.failure, Some(Fault::UndefinedVariable(ref n)) if n == "y"));
}

fn sum_of(n: usize) -> Vec<Token> {
    let mut e = vec![num(0.0)];
    for i in 1..n {
        e.push(tok(TokenType::Plus));
        e.push(num(i as f64));
    }
    print_of(e)
}

#[test]
fn too_many_constants_is_reported() {
    let c = compile(sum_of(256));
    assert_eq!(c.chunk.constants.len(), 256);
    assert!(c.diagnostics.iter().any(|d| matches!(d.message, CompileMessage::TooManyConstants)));
    assert_eq!(*c.chunk.code.last().unwrap(), Opcode::Return.to_u8());
}

#[test]
fn largest_constant_pool_compiles() {
    let c = compile(sum_of(255));
    assert!(c.diagnostics.is_empty());
    let out = execute(c.chunk);
    assert_eq!(out.output, vec![format!("{}", (0..255).sum::<usize>())]);
}

#[test]
fn expression_statement_value_is_discarded() {
    let p = vec![
        num(1.0),
        tok(TokenType::Plus),
        num(1.0),
        tok(TokenType::Semicolon),
        tok(TokenType::Print),
        num(2.0),
        tok(TokenType::Semicolon),
    ];
    let c = compile(p.clone());
    assert_eq!(c.chunk.code[5], Opcode::Pop.to_u8());
    assert_eq!(run(p).output, vec!["2"]);
}

#[test]
fn fresh_machines_agree() {
    let p = print_of(vec![num(1.0), tok(TokenType::Slash), num(3.0)]);
    let a = run(p.clone()).output;
    let b = run(p).output;
    assert_eq!(a, b);
    assert_eq!(a.len(), 1);
}

#[test]
fn machine_runs_only_once() {
    let c = compile(print_of(vec![num(1.0)]));
    let mut vm = Vm::new(c.chunk);
    assert!(matches!(vm.step(), Step::Continue));
    assert!(matches!(vm.step(), Step::Output(_)));
    assert!(matches!(vm.step(), Step::Done(None)));
    assert!(vm.is_halted());
    assert!(matches!(vm.step(), Step::Halted));
    assert!(matches!(vm.step(), Step::Halted));
}

#[test]
fn division_by_zero_is_infinity() {
    let p = print_of(vec![num(1.0), tok(TokenType::Slash), num(0.0)]);
    assert_eq!(run(p).output, vec!["inf"]);
}

#[test]
fn modulo_and_bitwise() {
    assert_eq!(run(print_of(vec![num(7.0), tok(TokenType::Percent), num(4.0)])).output, vec!["3"]);
    assert_eq!(run(print_of(vec![num(6.0), tok(TokenType::Ampersand), num(3.0)])).output, vec!["2"]);
    assert_eq!(run(print_of(vec![num(6.0), tok(TokenType::Pipe), num(3.0)])).output, vec!["7"]);
}

#[test]
fn logical_operators_use_truthiness() {
    let p = print_of(vec![num(0.0), tok(TokenType::And), tok(TokenType::Nil)]);
    assert_eq!(run(p).output, vec!["false"]);
    let p = print_of(vec![tok(TokenType::False), tok(TokenType::Or), num(0.0)]);
    assert_eq!(run(p).output, vec!["true"]);
}

#[test]
fn unary_minus_and_not() {
    assert_eq!(run(print_of(vec![tok(TokenType::Minus), num(4.0)])).output, vec!["-4"]);
    assert_eq!(run(print_of(vec![tok(TokenType::Bang), tok(TokenType::Nil)])).output, vec!["true"]);
    assert_eq!(run(print_of(vec![tok(TokenType::Bang), num(0.0)])).output, vec!["false"]);
}

#[test]
fn equality_across_variants() {
    assert_eq!(run(print_of(vec![string("a"), tok(TokenType::EqualEqual), string("a")])).output, vec!["true"]);
    assert_eq!(run(print_of(vec![string("a"), tok(TokenType::EqualEqual), string("b")])).output, vec!["false"]);
    assert_eq!(run(print_of(vec![num(1.0), tok(TokenType::EqualEqual), tok(TokenType::True)])).output, vec!["false"]);
    assert_eq!(run(print_of(vec![tok(TokenType::Nil), tok(TokenType::EqualEqual), tok(TokenType::Nil)])).output, vec!["true"]);
}

#[test]
fn negating_a_non_number_fails() {
    let out = run(print_of(vec![tok(TokenType::Minus), tok(TokenType::True)]));
    assert!(out.output.is_empty());
    assert!(matches!(out.failure, Some(Fault::OperandNotNumber)));
}

#[test]
fn arithmetic_on_non_numbers_warns_and_keeps_left_operand() {
    let out = run(print_of(vec![num(1.0), tok(TokenType::Plus), tok(TokenType::True)]));
    assert_eq!(out.output, vec!["1"]);
    assert!(matches!(out.warnings.as_slice(), [Fault::OperandsNotNumbers]));
    assert!(out.failure.is_none());
}

#[test]
fn comparing_non_numbers_warns() {
    let out = run(print_of(vec![string("a"), tok(TokenType::Less), num(1.0)]));
    assert_eq!(out.output, vec!["a"]);
    assert!(matches!(out.warnings.as_slice(), [Fault::OperandsNotNumbers]));
}

fn chunk(code: Vec<u8>, constants: Vec<Value>) -> Chunk {
    let mut c = Chunk::new();
    for b in code {
        c.write(b, 7);
    }
    for v in constants {
        c.add_constant(v);
    }
    c
}

#[test]
fn popping_an_empty_stack_fails() {
    let out = execute(chunk(bytes(&[Opcode::Pop, Opcode::Return]), vec![]));
    assert!(matches!(out.failure, Some(Fault::StackUnderflow)));
}

#[test]
fn constant_index_out_of_pool_fails() {
    let out = execute(chunk(vec![Opcode::Constant.to_u8(), 5], vec![Value::Nil]));
    assert!(matches!(out.failure, Some(Fault::BadConstant)));
}

#[test]
fn unknown_opcode_fails_with_its_line() {
    let mut vm = Vm::new(chunk(vec![200], vec![]));
    assert!(matches!(vm.step(), Step::Fail(Fault::UnknownOpcode(200), 7)));
}

#[test]
fn running_off_the_end_fails() {
    let out = execute(chunk(vec![Opcode::Constant.to_u8()], vec![Value::Nil]));
    assert!(matches!(out.failure, Some(Fault::CodeOverrun)));
    let out = execute(chunk(vec![Opcode::Nil.to_u8()], vec![]));
    assert!(matches!(out.failure, Some(Fault::CodeOverrun)));
}

#[test]
fn global_name_must_be_a_string() {
    let code = vec![Opcode::Nil.to_u8(), Opcode::DefineGlobal.to_u8(), 0];
    let out = execute(chunk(code, vec![Value::Number(1.0f64.to_bits())]));
    assert!(matches!(out.failure, Some(Fault::GlobalNameNotString)));
}

#[test]
fn set_global_requires_a_binding() {
    let code = vec![Opcode::Nil.to_u8(), Opcode::SetGlobal.to_u8(), 0];
    let out = execute(chunk(code, vec![Value::Str("z".to_string())]));
    assert!(matches!(out.failure, Some(Fault::UndefinedVariable(ref n)) if n == "z"));
}

#[test]
fn set_global_rebinds_and_keeps_value() {
    let code = vec![
        Opcode::Constant.to_u8(), 1,
        Opcode::DefineGlobal.to_u8(), 0,
        Opcode::True.to_u8(),
        Opcode::SetGlobal.to_u8(), 0,
        Opcode::Print.to_u8(),
        Opcode::GetGlobal.to_u8(), 0,
        Opcode::Print.to_u8(),
        Opcode::Return.to_u8(),
    ];
    let out = execute(chunk(code, vec![Value::Str("g".to_string()), Value::Nil]));
    assert_eq!(out.output, vec!["true", "true"]);
}

#[test]
fn locals_read_and_write_stack_slots() {
    let code = vec![
        Opcode::Constant.to_u8(), 0,
        Opcode::True.to_u8(),
        Opcode::SetLocal.to_u8(), 0,
        Opcode::Pop.to_u8(),
        Opcode::GetLocal.to_u8(), 0,
        Opcode::Print.to_u8(),
        Opcode::GetLocal.to_u8(), 3,
    ];
    let out = execute(chunk(code, vec![Value::Nil]));
    assert_eq!(out.output, vec!["true"]);
    assert!(matches!(out.failure, Some(Fault::BadSlot)));
}

#[test]
fn jumps_skip_code() {
    let code = vec![
        Opcode::False.to_u8(),
        Opcode::JumpIfFalse.to_u8(), 0, 3,
        Opcode::Constant.to_u8(), 0,
        Opcode::Print.to_u8(),
        Opcode::True.to_u8(),
        Opcode::JumpIfFalse.to_u8(), 0, 1,
        Opcode::Constant.to_u8(), 1,
        Opcode::Print.to_u8(),
        Opcode::Jump.to_u8(), 0, 2,
        Opcode::Constant.to_u8(), 0,
        Opcode::Return.to_u8(),
    ];
    let out = execute(chunk(code, vec![Value::Str("skipped".to_string()), Value::Str("kept".to_string())]));
    assert_eq!(out.output, vec!["kept"]);
    assert!(out.failure.is_none());
}

#[test]
fn jump_past_the_end_fails() {
    let code = vec![Opcode::Jump.to_u8(), 1, 0, Opcode::Return.to_u8()];
    let out = execute(chunk(code, vec![]));
    assert!(matches!(out.failure, Some(Fault::CodeOverrun)));
}

#[test]
fn return_surfaces_leftover_value() {
    let code = vec![Opcode::Constant.to_u8(), 0, Opcode::Return.to_u8()];
    let out = execute(chunk(code, vec![Value::Str("last".to_string())]));
    assert_eq!(out.output, vec!["last"]);
}

fn messages(tokens: Vec<Token>) -> Vec<CompileMessage> {
    compile(tokens).diagnostics.into_iter().map(|d| d.message).collect()
}

#[test]
fn missing_operand_is_reported() {
    let m = messages(vec![tok(TokenType::Print), tok(TokenType::Semicolon)]);
    assert!(matches!(m.as_slice(), [CompileMessage::ExpectExpression, ..]));
}

#[test]
fn missing_right_paren_is_reported() {
    let m = messages(print_of(vec![tok(TokenType::LeftParen), num(1.0)]));
    assert!(matches!(m.as_slice(), [CompileMessage::ExpectRightParen, ..]));
}

#[test]
fn missing_semicolon_is_reported() {
    let m = messages(vec![tok(TokenType::Print), num(1.0)]);
    assert!(matches!(m.as_slice(), [CompileMessage::ExpectSemicolon]));
}

#[test]
fn scanner_errors_are_reported_and_skipped() {
    let mut p = print_of(vec![num(1.0)]);
    p.insert(1, Token::new(TokenType::Error("Unexpected character".to_string()), 3, 0, 1));
    let c = compile(p);
    assert_eq!(c.diagnostics.len(), 1);
    assert_eq!(c.diagnostics[0].line, 3);
    assert!(matches!(c.diagnostics[0].message, CompileMessage::Scanner(ref s) if s == "Unexpected character"));
    assert_eq!(execute(c.chunk).output, vec!["1"]);
}

#[test]
fn errors_accumulate_and_compilation_finishes() {
    let p = vec![
        tok(TokenType::Print),
        tok(TokenType::Semicolon),
        tok(TokenType::Print),
        tok(TokenType::RightParen),
        tok(TokenType::Semicolon),
    ];
    let c = compile(p);
    assert!(c.diagnostics.len() >= 2);
    assert_eq!(*c.chunk.code.last().unwrap(), Opcode::Return.to_u8());
}

#[test]
fn tokens_after_end_marker_are_ignored() {
    let mut p = print_of(vec![num(1.0)]);
    p.push(tok(TokenType::Eof));
    p.extend(print_of(vec![num(2.0)]));
    assert_eq!(run(p).output, vec!["1"]);
}

#[test]
fn empty_program_returns() {
    let c = compile(vec![]);
    assert!(c.diagnostics.is_empty());
    assert_eq!(c.chunk.code, vec![Opcode::Return.to_u8()]);
    assert!(execute(c.chunk).output.is_empty());
}

#[test]
fn precedence_compiles_multiply_before_add() {
    let p = print_of(vec![num(1.0), tok(TokenType::Plus), num(2.0), tok(TokenType::Star), num(3.0)]);
    let c = compile(p);
    assert_eq!(c.chunk.code, vec![1, 0, 1, 1, 1, 2, 5, 3, 19, 0]);
}

#[test]
fn grouping_compiles_without_instructions() {
    let p = print_of(vec![
        tok(TokenType::LeftParen),
        num(1.0),
        tok(TokenType::Plus),
        num(2.0),
        tok(TokenType::RightParen),
        tok(TokenType::Star),
        num(3.0),
    ]);
    assert_eq!(compile(p).chunk.code, vec![1, 0, 1, 1, 3, 1, 2, 5, 19, 0]);
}

#[test]
fn subtraction_compiles_left_to_right() {
    let p = print_of(vec![num(10.0), tok(TokenType::Minus), num(2.0), tok(TokenType::Minus), num(3.0)]);
    assert_eq!(compile(p).chunk.code, vec![1, 0, 1, 1, 4, 1, 2, 4, 19, 0]);
}

#[test]
fn global_definition_compiles_to_define_global() {
    let p = vec![ident("x"), tok(TokenType::Equal), num(5.0), tok(TokenType::Semicolon)];
    let c = compile(p);
    assert_eq!(c.chunk.code, vec![1, 0, 21, 1, 0]);
    assert!(matches!(c.chunk.constants[1], Value::Str(ref s) if s == "x"));
}

#[test]
fn negate_failure_leaves_operand_popped() {
    let code = vec![Opcode::True.to_u8(), Opcode::Negate.to_u8(), Opcode::Return.to_u8()];
    let mut vm = Vm::new(chunk(code, vec![]));
    assert!(matches!(vm.step(), Step::Continue));
    assert!(matches!(vm.step(), Step::Fail(Fault::OperandNotNumber, 7)));
    assert!(matches!(vm.step(), Step::Halted));
}
