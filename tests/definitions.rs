use calculus::error::CalcError;
use calculus::expr::Expr;
use calculus::function::{caculate, put};
use calculus::lexer::Tokenlizer;
use calculus::num::{NumOp, PI};
use calculus::table::{Function, FunctionTable};
use calculus::token::Token;

fn arith(op: NumOp, a: u64, b: u64) -> u64 {
    let x = f64::from_bits(a);
    let y = f64::from_bits(b);
    let r = match op {
        NumOp::Add => x + y,
        NumOp::Sub => x - y,
        NumOp::Mul => x * y,
        NumOp::Div => x / y,
        NumOp::Pow => x.powf(y),
        NumOp::Log => y.log(x),
        NumOp::Sin => x.sin(),
        NumOp::Cos => x.cos(),
        NumOp::Tan => x.tan(),
        NumOp::Asin => x.asin(),
        NumOp::Acos => x.acos(),
        NumOp::Atan => x.atan(),
        NumOp::FromInt => a as f64,
    };
    r.to_bits()
}

fn show(b: u64) -> String {
    format!("{}", f64::from_bits(b))
}

fn n(x: f64) -> u64 {
    x.to_bits()
}

fn close(a: f64, b: f64) -> bool {
    (a - b).abs() < 1e-9
}

fn value(table: &FunctionTable, name: &str, args: &[f64]) -> Result<f64, CalcError> {
    let bits: Vec<u64> = args.iter().map(|x| x.to_bits()).collect();
    caculate(&name.to_string(), &bits, table, &arith).map(f64::from_bits)
}

fn define(table: &mut FunctionTable, line: &str) -> Result<Function, CalcError> {
    put(&line.to_string(), table, &arith)
}

#[test]
fn duplicate_definition_is_accepted_silently() {
    let mut table = FunctionTable::new();
    assert!(define(&mut table, "f(x)=x+1").is_ok());
    assert!(define(&mut table, "f(x)=x+1").is_ok());
    assert_eq!(table.len(), 1);
    assert!(close(value(&table, "f", &[3.0]).unwrap(), 4.0));
}

#[test]
fn conflicting_definition_keeps_the_original() {
    let mut table = FunctionTable::new();
    define(&mut table, "f(x)=x+1").unwrap();
    assert_eq!(define(&mut table, "f(x)=x+2").err(), Some(CalcError::Conflict));
    assert_eq!(value(&table, "f", &[3.0]).unwrap(), 4.0);
}

#[test]
fn bodies_are_compared_after_simplification() {
    let mut table = FunctionTable::new();
    define(&mut table, "f(x)=x+1").unwrap();
    assert!(define(&mut table, "f(x)=x*1+(2-1)").is_ok());
}

#[test]
fn same_name_other_arity_replaces_by_name() {
    let mut table = FunctionTable::new();
    define(&mut table, "g(x)=x").unwrap();
    assert!(define(&mut table, "g(x,y)=x+y").is_ok());
    assert_eq!(table.len(), 1);
    assert_eq!(value(&table, "g", &[1.0]).err(), Some(CalcError::UnknownFunction));
    assert!(close(value(&table, "g", &[1.0, 2.0]).unwrap(), 3.0));
    assert!(table.find(&"g".to_string(), 1).is_none());
    assert_eq!(table.find(&"g".to_string(), 2).unwrap().params.len(), 2);
}

#[test]
fn calls_resolve_through_the_table() {
    let mut table = FunctionTable::new();
    define(&mut table, "f(x)=x+1").unwrap();
    define(&mut table, "g(x,y)=f(x)*y+f(f(y))").unwrap();
    assert!(close(value(&table, "g", &[3.0, 2.0]).unwrap(), 12.0));
}

#[test]
fn unknown_function_at_definition() {
    let mut table = FunctionTable::new();
    assert_eq!(define(&mut table, "h(x)=q(x)").err(), Some(CalcError::UnknownFunction));
    define(&mut table, "q(x)=x").unwrap();
    assert_eq!(define(&mut table, "h(x)=q(x,x)").err(), Some(CalcError::UnknownFunction));
    assert_eq!(define(&mut table, "h(x)=h(x)").err(), Some(CalcError::UnknownFunction));
    assert_eq!(table.len(), 1);
}

#[test]
fn malformed_definitions() {
    let mut table = FunctionTable::new();
    assert_eq!(define(&mut table, "f(x)=").err(), Some(CalcError::UnexpectedEnd));
    assert_eq!(define(&mut table, "f(x)=x)").err(), Some(CalcError::UnexpectedToken));
    assert_eq!(define(&mut table, "f(x=x").err(), Some(CalcError::UnexpectedToken));
    assert_eq!(define(&mut table, "f(2)=x").err(), Some(CalcError::UnexpectedToken));
    assert_eq!(define(&mut table, "=x").err(), Some(CalcError::UnexpectedToken));
    assert_eq!(define(&mut table, "").err(), Some(CalcError::UnexpectedEnd));
    assert_eq!(define(&mut table, "f(x)=log(x)").err(), Some(CalcError::UnexpectedToken));
    assert_eq!(define(&mut table, "f(x)=sin x").err(), Some(CalcError::UnexpectedToken));
    assert_eq!(define(&mut table, "f(x)=(x").err(), Some(CalcError::UnexpectedEnd));
    assert_eq!(define(&mut table, "f(x)=x+*2").err(), Some(CalcError::UnexpectedToken));
    assert_eq!(table.len(), 0);
}

#[test]
fn comma_list_in_parentheses_keeps_the_last() {
    let mut table = FunctionTable::new();
    define(&mut table, "f(x)=(x,2*x)+1").unwrap();
    assert!(close(value(&table, "f", &[3.0]).unwrap(), 7.0));
}

#[test]
fn lexing_numbers_words_and_space() {
    let mut table = FunctionTable::new();
    define(&mut table, "f( x ) = x + 12").unwrap();
    assert!(close(value(&table, "f", &[1.0]).unwrap(), 13.0));
    define(&mut table, "área(é)=é*pi").unwrap();
    assert!(close(value(&table, "área", &[2.0]).unwrap(), 2.0 * std::f64::consts::PI));
    assert_eq!(define(&mut table, "g(x)=x#1").err(), Some(CalcError::UnknownCharacter));
    assert_eq!(
        define(&mut table, "g(x)=x+99999999999999999999").err(),
        Some(CalcError::NumberTooLarge)
    );
    define(&mut table, "g(x)=x+18446744073709551615").unwrap();
}

#[test]
fn tokenlizer_tokens() {
    let mut lexer = Tokenlizer::new(&"f(x, y)=log(2,x)*cot(y)-pi 10".to_string());
    let ts = lexer.tokenlize(&arith).unwrap();
    assert_eq!(ts.len(), 21);
    assert_eq!(ts[0], Token::Identifier("f".to_string()));
    assert_eq!(ts[3], Token::Operator(','));
    assert_eq!(ts[7], Token::Log);
    assert_eq!(ts[9], Token::Const(n(2.0)));
    assert_eq!(ts[19], Token::Const(PI));
    assert_eq!(ts[20], Token::Const(n(10.0)));
    assert_eq!(ts[0].as_identifier().unwrap(), "f");
    assert_eq!(ts[9].as_const().unwrap(), n(2.0));
    assert_eq!(ts[1].as_operator().unwrap(), '(');
    assert_eq!(ts[1].as_identifier().err(), Some(CalcError::UnexpectedToken));
    assert_eq!(ts[0].get_type().unwrap(), "identifier");
    assert_eq!(ts[9].get_type().unwrap(), "const");
    assert_eq!(ts[1].get_type().unwrap(), "operator");
    assert_eq!(ts[7].get_type().unwrap(), "log");
    assert!(ts[14].get_type().is_err());
}

#[test]
fn function_new_from_tokens() {
    let mut table = FunctionTable::new();
    let tokens = vec![
        Token::Identifier("k".to_string()),
        Token::Operator('('),
        Token::Identifier("t".to_string()),
        Token::Operator(')'),
        Token::Operator('='),
        Token::Const(n(2.0)),
        Token::Operator('*'),
        Token::Identifier("t".to_string()),
    ];
    let f = Function::new(&tokens, &mut table, &arith).unwrap();
    assert_eq!(f.render(&show), "k(t)=2*t");
    assert!(close(value(&table, "k", &[4.0]).unwrap(), 8.0));
}

#[test]
fn evaluation_errors() {
    let mut table = FunctionTable::new();
    define(&mut table, "f(x)=y").unwrap();
    assert_eq!(value(&table, "f", &[1.0]).err(), Some(CalcError::UnknownVariable));
    assert_eq!(value(&table, "nope", &[1.0]).err(), Some(CalcError::UnknownFunction));
    let f = table.find(&"f".to_string(), 1).unwrap();
    assert_eq!(f.caculate(&vec![], &table, &arith).err(), Some(CalcError::ArityMismatch));
    let eq = Function {
        name: "e".to_string(),
        params: vec![],
        body: Expr::Equal(Box::new(Expr::Const(n(1.0))), Box::new(Expr::Const(n(1.0)))),
    };
    assert_eq!(eq.caculate(&vec![], &table, &arith).err(), Some(CalcError::NoValue));
}

#[test]
fn call_cycle_is_reported() {
    let mut table = FunctionTable::new();
    define(&mut table, "h(x)=x").unwrap();
    define(&mut table, "f(x)=h(x)").unwrap();
    define(&mut table, "h(x,y)=x").unwrap();
    define(&mut table, "h(x)=f(x)").unwrap();
    assert_eq!(value(&table, "f", &[1.0]).err(), Some(CalcError::CallCycle));
}

#[test]
fn ieee_edge_cases_evaluate() {
    let mut table = FunctionTable::new();
    define(&mut table, "f(x)=1/x").unwrap();
    assert_eq!(value(&table, "f", &[0.0]).unwrap(), f64::INFINITY);
    define(&mut table, "g(x)=x^(1/2)").unwrap();
    assert!(value(&table, "g", &[-1.0]).unwrap().is_nan());
    define(&mut table, "t(x)=sec(x)+csc(x)+cot(x)+tan(x)+arcsin(x)+arctan(x)+arccos(x)").unwrap();
    let x: f64 = 0.5;
    let want = 1.0 / x.cos() + 1.0 / x.sin() + 1.0 / x.tan() + x.tan() + x.asin() + x.atan() + x.acos();
    assert!(close(value(&table, "t", &[x]).unwrap(), want));
}

#[test]
fn unicode_space_and_symbols() {
    let mut table = FunctionTable::new();
    define(&mut table, "f(x)=x\u{2003}+\t1").unwrap();
    assert!(close(value(&table, "f", &[1.0]).unwrap(), 2.0));
    assert_eq!(define(&mut table, "g(x)=x+€").err(), Some(CalcError::UnknownCharacter));
    assert_eq!(define(&mut table, "g(x)=x+[1]").err(), Some(CalcError::UnknownCharacter));
}

#[test]
fn nan_body_conflicts_with_itself() {
    let mut table = FunctionTable::new();
    define(&mut table, "f(x)=(0-1)^(1/2)+x").unwrap();
    assert_eq!(define(&mut table, "f(x)=(0-1)^(1/2)+x").err(), Some(CalcError::Conflict));
}

#[test]
fn redefinition_of_a_self_calling_arity_fails() {
    let mut table = FunctionTable::new();
    define(&mut table, "f(x)=x").unwrap();
    define(&mut table, "f(x,y)=f(x)+y").unwrap();
    assert_eq!(define(&mut table, "f(x,y)=f(x)+y").err(), Some(CalcError::UnknownFunction));
}

#[test]
fn check_duplicate_compares_simplified_bodies() {
    let mut table = FunctionTable::new();
    define(&mut table, "f(x)=x").unwrap();
    let x = || Expr::Var("x".to_string());
    let same = Function {
        name: "f".to_string(),
        params: vec!["x".to_string()],
        body: Expr::sum(x(), Expr::Const(n(0.0))),
    };
    assert_eq!(table.check_duplicate(&same, &arith), Ok(true));
    let other = Function {
        name: "f".to_string(),
        params: vec!["x".to_string()],
        body: Expr::sum(x(), Expr::Const(n(1.0))),
    };
    assert_eq!(table.check_duplicate(&other, &arith), Err(CalcError::Conflict));
    let wider = Function {
        name: "f".to_string(),
        params: vec!["x".to_string(), "y".to_string()],
        body: x(),
    };
    assert_eq!(table.check_duplicate(&wider, &arith), Ok(false));
}
