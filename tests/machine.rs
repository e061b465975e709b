use loxvm::common::{decimal_text, Chunk, Disassembler, Number, Obj, OpCode, Value};
use loxvm::compile::Source;
use loxvm::parse::Parser;
use loxvm::tokens::{TokenType, Tokenizer};
use loxvm::vm::{InterpretResult, NumericOp, Request, VM};
use std::rc::Rc;

fn to_f64(n: &Number) -> f64 {
    match n {
        Number::Numeral(d) => d.parse().unwrap(),
        Number::Bits(b) => f64::from_bits(*b),
    }
}

fn number(x: f64) -> Value {
    Value::Number(Number::Bits(x.to_bits()))
}

fn numeral(digits: &str) -> Value {
    Value::Number(Number::Numeral(digits.to_string()))
}

fn drive(vm: &mut VM, chunk: &Chunk) -> (InterpretResult, Vec<String>) {
    let mut out = Vec::new();
    loop {
        match vm.run(chunk) {
            Request::Done(r) => return (r, out),
            Request::Print(text) => out.push(text),
            Request::PrintNumber(n) => out.push(format!("{}", to_f64(&n))),
            Request::Negate(n) => vm.supply(number(-to_f64(&n))),
            Request::NonZero(n) => vm.supply(Value::Boolean(to_f64(&n) != 0.0)),
            Request::Binary(op, l, r) => {
                let (a, b) = (to_f64(&l), to_f64(&r));
                vm.supply(match op {
                    NumericOp::Add => number(a + b),
                    NumericOp::Subtract => number(a - b),
                    NumericOp::Multiply => number(a * b),
                    NumericOp::Divide => number(a / b),
                    NumericOp::Greater => Value::Boolean(a > b),
                    NumericOp::Less => Value::Boolean(a < b),
                    NumericOp::Equal => Value::Boolean(a == b),
                })
            }
        }
    }
}

fn interpret(source: &str) -> (InterpretResult, Vec<String>) {
    let chunk = Source(source.to_string()).compile("test").expect("compiles");
    let mut vm = VM::new();
    drive(&mut vm, &chunk)
}

fn kinds(source: &str) -> Vec<(TokenType, usize)> {
    let input = Source(source.to_string());
    let mut tokens = Tokenizer::new(&input);
    let mut out = Vec::new();
    while let Some(t) = tokens.next() {
        out.push((t.token_type, t.line));
    }
    out
}

#[test]
fn print_sum_in_parentheses() {
    assert_eq!(interpret("print (42 + 5);"), (InterpretResult::Success, vec!["47".to_string()]));
}

#[test]
fn bare_comparison_compiles_and_runs() {
    let input = Source("10 < 5".into());
    let mut parser = Parser::new(Tokenizer::new(&input));
    let mut code = parser.expression(0).unwrap();
    code.push((OpCode::Pop, 0));
    code.push((OpCode::Return, 0));
    let chunk = Chunk { name: "expr".to_string(), code };
    let mut vm = VM::new();
    assert_eq!(vm.run(&chunk), Request::Binary(NumericOp::Less, Number::Numeral("10".into()), Number::Numeral("5".into())));
    vm.supply(Value::Boolean(10.0_f64 < 5.0_f64));
    assert_eq!(vm.stack, vec![Value::Boolean(false)]);
    assert_eq!(vm.run(&chunk), Request::Done(InterpretResult::Success));
    assert!(vm.stack.is_empty());
}

#[test]
fn missing_semicolon_fails_to_compile() {
    assert!(Source("42".into()).compile("test").is_none());
}

#[test]
fn numeral_statement_compiles_to_constant_pop_return() {
    let chunk = Source("7;".into()).compile("test").unwrap();
    assert_eq!(chunk.code, vec![(OpCode::Constant(numeral("7")), 0), (OpCode::Pop, 0), (OpCode::Return, 0)]);
}

#[test]
fn print_numeral_compiles_to_constant_print_return() {
    let chunk = Source("print 123;".into()).compile("test").unwrap();
    assert_eq!(chunk.code, vec![(OpCode::Constant(numeral("123")), 0), (OpCode::Print, 0), (OpCode::Return, 0)]);
}

#[test]
fn subtraction_and_division_keep_operand_order() {
    assert_eq!(interpret("print 10 - 4;").1, vec!["6"]);
    assert_eq!(interpret("print 8 / 2;").1, vec!["4"]);
    assert_eq!(interpret("print 1 / 4;").1, vec!["0.25"]);
}

#[test]
fn subtraction_asks_left_operand_first() {
    let chunk = Source("3 - 9;".into()).compile("test").unwrap();
    let mut vm = VM::new();
    assert_eq!(vm.run(&chunk), Request::Binary(NumericOp::Subtract, Number::Numeral("3".into()), Number::Numeral("9".into())));
    assert_eq!(vm.ip, 3);
}

#[test]
fn string_concatenation_keeps_order() {
    assert_eq!(interpret("print \"a\" + \"b\";").1, vec!["ab"]);
}

#[test]
fn boolean_plus_number_is_runtime_error() {
    assert_eq!(interpret("true + 1;").0, InterpretResult::RuntimeError);
    assert_eq!(interpret("1 + true;").0, InterpretResult::RuntimeError);
}

#[test]
fn equality_needs_matching_variants() {
    assert_eq!(interpret("1 == true;").0, InterpretResult::RuntimeError);
    assert_eq!(interpret("print 1 == 1;"), (InterpretResult::Success, vec!["true".to_string()]));
    assert_eq!(interpret("print nil == nil;"), (InterpretResult::Success, vec!["true".to_string()]));
    assert_eq!(interpret("print \"a\" == \"a\";").1, vec!["true"]);
    assert_eq!(interpret("print \"a\" == \"b\";").1, vec!["false"]);
    assert_eq!(interpret("print true == false;").1, vec!["false"]);
}

#[test]
fn rewritten_comparisons() {
    assert_eq!(interpret("print 1 >= 2;").1, vec!["false"]);
    assert_eq!(interpret("print 2 >= 2;").1, vec!["true"]);
    assert_eq!(interpret("print 1 <= 2;").1, vec!["true"]);
    assert_eq!(interpret("print 1 != 2;").1, vec!["true"]);
}

#[test]
fn precedence_of_operators() {
    assert_eq!(interpret("print 2 + 3 * 4;").1, vec!["14"]);
    assert_eq!(interpret("print (2 + 3) * 4;").1, vec!["20"]);
    assert_eq!(interpret("print -2 + 5;").1, vec!["3"]);
    assert_eq!(interpret("print +3;").1, vec!["3"]);
    assert_eq!(interpret("print 1 < 2 == true;").1, vec!["true"]);
}

#[test]
fn not_follows_the_truth_table() {
    assert_eq!(interpret("print !nil;").1, vec!["true"]);
    assert_eq!(interpret("print !true;").1, vec!["false"]);
    assert_eq!(interpret("print !0;").1, vec!["false"]);
    assert_eq!(interpret("print !5;").1, vec!["true"]);
    assert_eq!(interpret("!\"s\";").0, InterpretResult::RuntimeError);
}

#[test]
fn type_errors_halt_the_run() {
    assert_eq!(interpret("-\"s\";").0, InterpretResult::RuntimeError);
    assert_eq!(interpret("\"a\" - \"b\";").0, InterpretResult::RuntimeError);
    assert_eq!(interpret("\"a\" > \"b\";").0, InterpretResult::RuntimeError);
    assert_eq!(interpret("nil + nil;").0, InterpretResult::RuntimeError);
}

#[test]
fn error_leaves_ip_on_failing_instruction() {
    let chunk = Source("1;\ntrue + 1;".into()).compile("test").unwrap();
    let mut vm = VM::new();
    assert_eq!(drive(&mut vm, &chunk).0, InterpretResult::RuntimeError);
    assert_eq!(chunk.code[vm.ip], (OpCode::Add, 1));
}

#[test]
fn print_on_empty_stack_is_runtime_error() {
    let chunk = Chunk { name: "c".into(), code: vec![(OpCode::Print, 0), (OpCode::Return, 0)] };
    let mut vm = VM::new();
    assert_eq!(vm.run(&chunk), Request::Done(InterpretResult::RuntimeError));
}

#[test]
fn pop_on_empty_stack_is_harmless() {
    let chunk = Chunk { name: "c".into(), code: vec![(OpCode::Pop, 0), (OpCode::Return, 0)] };
    let mut vm = VM::new();
    assert_eq!(vm.run(&chunk), Request::Done(InterpretResult::Success));
}

#[test]
fn only_chunks_ending_in_return_can_run() {
    let open_ended = Chunk { name: "c".into(), code: vec![(OpCode::Constant(Value::Nil), 0)] };
    assert!(!open_ended.ends_with_return());
    let empty = Chunk { name: "c".into(), code: vec![] };
    assert!(!empty.ends_with_return());
    assert!(Source("1;".into()).compile("t").unwrap().ends_with_return());
}

#[test]
fn advance_runs_one_instruction() {
    let chunk = Source("print true;".into()).compile("test").unwrap();
    let mut vm = VM::new();
    assert_eq!(vm.advance(&chunk), None);
    assert_eq!(vm.stack, vec![Value::Boolean(true)]);
    assert_eq!(vm.advance(&chunk), Some(Request::Print("true".to_string())));
    assert_eq!(vm.advance(&chunk), Some(Request::Done(InterpretResult::Success)));
}

#[test]
fn chunk_can_run_twice() {
    let chunk = Source("print \"x\";".into()).compile("test").unwrap();
    let mut vm = VM::new();
    assert_eq!(drive(&mut vm, &chunk).1, vec!["x"]);
    vm.start();
    assert_eq!(drive(&mut vm, &chunk).1, vec!["x"]);
}

#[test]
fn several_statements_print_in_order() {
    assert_eq!(interpret("print 1; print 2;\nprint nil;").1, vec!["1", "2", "nil"]);
}

#[test]
fn syntax_errors_fail_to_compile() {
    assert!(Source("(1;".into()).compile("t").is_none());
    assert!(Source("1 2;".into()).compile("t").is_none());
    assert!(Source("£;".into()).compile("t").is_none());
    assert!(Source("print;".into()).compile("t").is_none());
    assert!(Source("1 +".into()).compile("t").is_none());
    assert!(Source("x;".into()).compile("t").is_none());
}

#[test]
fn empty_source_compiles_to_return() {
    let chunk = Source("".into()).compile("t").unwrap();
    assert_eq!(chunk.code, vec![(OpCode::Return, 0)]);
}

#[test]
fn lines_count_newlines_in_comments_and_strings() {
    assert_eq!(
        kinds("1 // one\n\"a\nb\" 2"),
        vec![
            (TokenType::Number("1".into()), 0),
            (TokenType::Str("a\nb".into()), 2),
            (TokenType::Number("2".into()), 2),
        ]
    );
}

#[test]
fn comment_runs_to_end_of_line() {
    assert_eq!(kinds("// print 1;\n;"), vec![(TokenType::Semicolon, 1)]);
    assert_eq!(kinds("1 / 2"), vec![
        (TokenType::Number("1".into()), 0),
        (TokenType::Slash, 0),
        (TokenType::Number("2".into()), 0),
    ]);
}

#[test]
fn unterminated_string_runs_to_end() {
    assert_eq!(kinds("\"abc"), vec![(TokenType::Str("abc".into()), 0)]);
}

#[test]
fn words_and_lookahead() {
    assert_eq!(kinds("printx !a"), vec![
        (TokenType::Identifier("printx".into()), 0),
        (TokenType::Bang, 0),
        (TokenType::Identifier("a".into()), 0),
    ]);
    assert_eq!(kinds("été2 x1"), vec![
        (TokenType::Identifier("été2".into()), 0),
        (TokenType::Identifier("x1".into()), 0),
    ]);
    assert_eq!(kinds("007"), vec![(TokenType::Number("007".into()), 0)]);
}

#[test]
fn printed_text_of_values() {
    assert_eq!(Value::Boolean(true).print_lox(), Some("true".to_string()));
    assert_eq!(Value::Nil.print_lox(), Some("nil".to_string()));
    assert_eq!(Value::Obj(Obj::String(Rc::new("hi".into()))).print_lox(), Some("hi".to_string()));
    assert_eq!(numeral("1").print_lox(), None);
}

#[test]
fn disassembly_lists_header_and_instructions() {
    let chunk = Source("print 1;".into()).compile("demo").unwrap();
    assert_eq!(chunk.disassemble(), "=== demo ===\nConstant Number(1)\nPrint\nReturn\n");
    assert_eq!(Value::Number(Number::Bits(5)).describe(), "Number(bits 5)");
    assert_eq!(OpCode::Constant(Value::Obj(Obj::String(Rc::new("s".into())))).disassemble(), "Constant String(s)");
    assert_eq!(decimal_text(1234), "1234");
    assert_eq!(decimal_text(0), "0");
}

#[test]
fn rewritten_comparison_with_compound_operands() {
    let input = Source("1 + 2 >= 3 * 4".into());
    let mut parser = Parser::new(Tokenizer::new(&input));
    assert_eq!(
        parser.expression(0),
        Some(vec![
            (OpCode::Constant(numeral("1")), 0),
            (OpCode::Constant(numeral("2")), 0),
            (OpCode::Add, 0),
            (OpCode::Constant(numeral("3")), 0),
            (OpCode::Constant(numeral("4")), 0),
            (OpCode::Multiply, 0),
            (OpCode::Less, 0),
            (OpCode::Not, 0),
        ])
    );
    assert_eq!(interpret("print (1 + 2) != 3;").1, vec!["false"]);
    assert_eq!(interpret("print -1 <= 2 - 4;").1, vec!["false"]);
}
