use loxvm::common::{Number, Obj, OpCode, Value};
use loxvm::compile::Source;
use loxvm::parse::Parser;
use loxvm::tokens::Tokenizer;
use std::rc::Rc;

fn numeral(digits: &str) -> Value {
    Value::Number(Number::Numeral(digits.to_string()))
}

#[test]
fn test_parse_number() {
    let input = Source("42".into());
    let tokenizer = Tokenizer::new(&input);
    let mut parser = Parser::new(tokenizer);
    let expr = parser.expression(0).unwrap();
    assert_eq!(expr, vec![(OpCode::Constant(numeral("42")), 0)]);
}

#[test]
fn test_parse_greater() {
    let input = Source(">".into());
    let tokenizer = Tokenizer::new(&input);
    let mut parser = Parser::new(tokenizer);
    let expr = parser.expression(0);
    assert_eq!(expr, None);
}

#[test]
fn test_x_gt_y() {
    let input = Source("10 > 5".into());
    let tokenizer = Tokenizer::new(&input);
    let mut parser = Parser::new(tokenizer);
    let expr = parser.expression(0);
    assert_eq!(
        expr,
        Some(vec![
            (OpCode::Constant(numeral("10")), 0),
            (OpCode::Constant(numeral("5")), 0),
            (OpCode::Greater, 0)
        ])
    );
}

#[test]
fn test_parse_less() {
    let input = Source("<".into());
    let tokenizer = Tokenizer::new(&input);
    let mut parser = Parser::new(tokenizer);
    let expr = parser.expression(0);
    assert_eq!(expr, None);
}

#[test]
fn test_x_lt_y() {
    let input = Source("10 < 5".into());
    let tokenizer = Tokenizer::new(&input);
    let mut parser = Parser::new(tokenizer);
    let expr = parser.expression(0);
    assert_eq!(
        expr,
        Some(vec![
            (OpCode::Constant(numeral("10")), 0),
            (OpCode::Constant(numeral("5")), 0),
            (OpCode::Less, 0)
        ])
    );
}

#[test]
fn test_parse_greater_equal() {
    let input = Source(">=".into());
    let tokenizer = Tokenizer::new(&input);
    let mut parser = Parser::new(tokenizer);
    let expr = parser.expression(0);
    assert_eq!(expr, None);
}

#[test]
fn test_x_gte_y() {
    let input = Source("10 >= 5".into());
    let tokenizer = Tokenizer::new(&input);
    let mut parser = Parser::new(tokenizer);
    let expr = parser.expression(0);
    assert_eq!(
        expr,
        Some(vec![
            (OpCode::Constant(numeral("10")), 0),
            (OpCode::Constant(numeral("5")), 0),
            (OpCode::Less, 0),
            (OpCode::Not, 0)
        ])
    );
}

#[test]
fn test_parse_less_equal() {
    let input = Source("<=".into());
    let tokenizer = Tokenizer::new(&input);
    let mut parser = Parser::new(tokenizer);
    let expr = parser.expression(0);
    assert_eq!(expr, None);
}

#[test]
fn test_x_lte_y() {
    let input = Source("10 <= 5".into());
    let tokenizer = Tokenizer::new(&input);
    let mut parser = Parser::new(tokenizer);
    let expr = parser.expression(0);
    assert_eq!(
        expr,
        Some(vec![
            (OpCode::Constant(numeral("10")), 0),
            (OpCode::Constant(numeral("5")), 0),
            (OpCode::Greater, 0),
            (OpCode::Not, 0)
        ])
    );
}

#[test]
fn test_parse_equal_equal() {
    let input = Source("==".into());
    let tokenizer = Tokenizer::new(&input);
    let mut parser = Parser::new(tokenizer);
    let expr = parser.expression(0);
    assert_eq!(expr, None);
}

#[test]
fn test_x_eq_y() {
    let input = Source("10 == 5".into());
    let tokenizer = Tokenizer::new(&input);
    let mut parser = Parser::new(tokenizer);
    let expr = parser.expression(0);
    assert_eq!(
        expr,
        Some(vec![
            (OpCode::Constant(numeral("10")), 0),
            (OpCode::Constant(numeral("5")), 0),
            (OpCode::Equal, 0)
        ])
    );
}

#[test]
fn test_parse_bang_equal() {
    let input = Source("!=".into());
    let tokenizer = Tokenizer::new(&input);
    let mut parser = Parser::new(tokenizer);
    let expr = parser.expression(0);
    assert_eq!(expr, None);
}

#[test]
fn test_x_neq_y() {
    let input = Source("10 != 5".into());
    let tokenizer = Tokenizer::new(&input);
    let mut parser = Parser::new(tokenizer);
    let expr = parser.expression(0);
    assert_eq!(
        expr,
        Some(vec![
            (OpCode::Constant(numeral("10")), 0),
            (OpCode::Constant(numeral("5")), 0),
            (OpCode::Equal, 0),
            (OpCode::Not, 0)
        ])
    );
}

#[test]
fn test_parse_string() {
    let input = Source("\"hello world\"".into());
    let tokenizer = Tokenizer::new(&input);
    let mut parser = Parser::new(tokenizer);
    let expr = parser.expression(0).unwrap();
    assert_eq!(
        expr,
        vec![(
            OpCode::Constant(Value::Obj(Obj::String(Rc::new("hello world".to_string())))),
            0
        )]
    );
}

#[test]
fn parse_print_statement() {
    let input = Source("print 42;".into());
    let tokenizer = Tokenizer::new(&input);
    let mut parser = Parser::new(tokenizer);
    let expr = parser.parse();
    assert_eq!(
        expr,
        Some(vec![
            (OpCode::Constant(numeral("42")), 0),
            (OpCode::Print, 0),
        ])
    );
}

#[test]
fn parse_test_parse_number() {
    let input = Source("42;".into());
    let tokenizer = Tokenizer::new(&input);
    let mut parser = Parser::new(tokenizer);
    let expr = parser.parse();
    assert_eq!(
        expr,
        Some(vec![
            (OpCode::Constant(numeral("42")), 0),
            (OpCode::Pop, 0)
        ])
    );
}

#[test]
fn parse_print_with_paren() {
    let input = Source("print (42 + 5);".into());
    let tokenizer = Tokenizer::new(&input);
    let mut parser = Parser::new(tokenizer);
    let expr = parser.parse();
    assert_eq!(
        expr,
        Some(vec![
            (OpCode::Constant(numeral("42")), 0),
            (OpCode::Constant(numeral("5")), 0),
            (OpCode::Add, 0),
            (OpCode::Print, 0)
        ])
    );
}
