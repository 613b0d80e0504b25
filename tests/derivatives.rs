use calculus::error::CalcError;
use calculus::function::{caculate, derivative, put};
use calculus::num::NumOp;
use calculus::table::FunctionTable;

fn arith(op: NumOp, a: u64, b: u64) -> u64 {
    let x = f64::from_bits(a);
    let y = f64::from_bits(b);
    let r = match op {
        NumOp::Add => x + y,
        NumOp::Sub => x - y,
        NumOp::Mul => x * y,
        NumOp::Div => x / y,
        NumOp::Pow => x.powf(y),
        NumOp::Log => y.log(x),
        NumOp::Sin => x.sin(),
        NumOp::Cos => x.cos(),
        NumOp::Tan => x.tan(),
        NumOp::Asin => x.asin(),
        NumOp::Acos => x.acos(),
        NumOp::Atan => x.atan(),
        NumOp::FromInt => a as f64,
    };
    r.to_bits()
}

fn show(b: u64) -> String {
    format!("{}", f64::from_bits(b))
}

fn n(x: f64) -> u64 {
    x.to_bits()
}

fn close(a: f64, b: f64) -> bool {
    (a - b).abs() < 1e-9
}

fn value(table: &FunctionTable, name: &str, args: &[f64]) -> Result<f64, CalcError> {
    let bits: Vec<u64> = args.iter().map(|x| x.to_bits()).collect();
    caculate(&name.to_string(), &bits, table, &arith).map(f64::from_bits)
}

fn slope(def: &str, x: f64) -> f64 {
    let mut table = FunctionTable::new();
    put(&def.to_string(), &mut table, &arith).unwrap();
    derivative(&"f".to_string(), 1, &"x".to_string(), &mut table, &arith).unwrap();
    value(&table, "f'", &[x]).unwrap()
}

#[test]
fn cube_derivative_matches_three_x_squared() {
    for x in [2.0, 3.0, -1.0, 0.5] {
        assert!(close(slope("f(x)=x^3", x), 3.0 * x * x));
    }
    assert!(close(slope("f(x)=x^3", 2.0), 12.0));
}

#[test]
fn cube_derivative_text() {
    let mut table = FunctionTable::new();
    put(&"f(x)=x^3".to_string(), &mut table, &arith).unwrap();
    let d = derivative(&"f".to_string(), 1, &"x".to_string(), &mut table, &arith).unwrap();
    assert_eq!(d.render(&show), "f'(x)=3*x^2");
}

#[test]
fn product_rule_sin_times_x() {
    // cos(x)*x + sin(x), which is 0 at 0 and 1 at pi/2
    assert!(close(slope("f(x)=sin(x)*x", 0.0), 0.0));
    let h = std::f64::consts::FRAC_PI_2;
    assert!(close(slope("f(x)=sin(x)*x", h), h.cos() * h + h.sin()));
    let mut table = FunctionTable::new();
    put(&"f(x)=sin(x)*x".to_string(), &mut table, &arith).unwrap();
    let d = derivative(&"f".to_string(), 1, &"x".to_string(), &mut table, &arith).unwrap();
    assert_eq!(d.render(&show), "f'(x)=cos(x)*x+sin(x)");
}

#[test]
fn quotient_rule() {
    assert!(close(slope("f(x)=1/x", 2.0), -0.25));
    assert!(close(slope("f(x)=x/(x+1)", 1.0), 0.25));
}

#[test]
fn exponential_and_logarithm() {
    // ln(w) is written log(w,e), whose value is the logarithm of e to the base w
    let l = |w: f64| std::f64::consts::E.log(w);
    assert!(close(slope("f(x)=2^x", 0.0), l(2.0)));
    assert!(close(slope("f(x)=log(2,x)", 1.0), 1.0 / l(2.0)));
    assert_eq!(slope("f(x)=x^x", 1.0), f64::INFINITY);
    assert!(close(slope("f(x)=x^x", 2.0), 4.0 * (l(2.0) + 1.0)));
    assert!(close(slope("f(x)=log(x,8)", 2.0), -(l(8.0) / 2.0) / (l(2.0) * l(2.0))));
}

#[test]
fn logarithm_rules_text() {
    let mut table = FunctionTable::new();
    put(&"f(x)=3^x+x^x".to_string(), &mut table, &arith).unwrap();
    let d = derivative(&"f".to_string(), 1, &"x".to_string(), &mut table, &arith).unwrap();
    assert_eq!(d.render(&show), "f'(x)=3^x*log(3,e)+x^x*(log(x,e)+x*(1/x))");
}

#[test]
fn constant_power_and_log_have_zero_derivative() {
    assert!(close(slope("f(x)=2^3", 5.0), 0.0));
    assert!(close(slope("f(x)=log(2,8)", 5.0), 0.0));
}

#[test]
fn trigonometric_derivatives() {
    let x: f64 = 0.3;
    assert!(close(slope("f(x)=sin(x)", x), x.cos()));
    assert!(close(slope("f(x)=cos(x)", x), -x.sin()));
    assert!(close(slope("f(x)=tan(x)", x), 1.0 / (x.cos() * x.cos())));
    assert!(close(slope("f(x)=arcsin(x)", x), 1.0 / (1.0 - x * x).sqrt()));
    assert!(close(slope("f(x)=arccos(x)", x), -1.0 / (1.0 - x * x).sqrt()));
    assert!(close(slope("f(x)=arctan(x)", x), 1.0 / (1.0 + x * x)));
    assert!(close(slope("f(x)=csc(x)", x), -x.cos() / (x.sin() * x.sin())));
    assert!(close(slope("f(x)=sec(x)", x), x.sin() / (x.cos() * x.cos())));
    assert!(close(slope("f(x)=cot(x)", x), -1.0 / (x.sin() * x.sin())));
    assert!(close(slope("f(x)=sin(2*x)", x), 2.0 * (2.0 * x).cos()));
}

#[test]
fn partial_derivative_of_other_variable() {
    let mut table = FunctionTable::new();
    put(&"g(x,y)=x*y+y^2".to_string(), &mut table, &arith).unwrap();
    derivative(&"g".to_string(), 2, &"y".to_string(), &mut table, &arith).unwrap();
    assert!(close(value(&table, "g'", &[3.0, 2.0]).unwrap(), 7.0));
    derivative(&"g".to_string(), 2, &"z".to_string(), &mut table, &arith).unwrap();
    assert!(close(value(&table, "g'", &[3.0, 2.0]).unwrap(), 0.0));
}

#[test]
fn derivative_errors() {
    let mut table = FunctionTable::new();
    put(&"f(x)=y".to_string(), &mut table, &arith).unwrap();
    let r = derivative(&"f".to_string(), 1, &"x".to_string(), &mut table, &arith);
    assert_eq!(r.err(), Some(CalcError::UnknownVariable));
    put(&"h(x)=x".to_string(), &mut table, &arith).unwrap();
    put(&"g(x)=h(x)+1".to_string(), &mut table, &arith).unwrap();
    let r = derivative(&"g".to_string(), 1, &"x".to_string(), &mut table, &arith);
    assert_eq!(r.err(), Some(CalcError::NoDerivativeRule));
    let r = derivative(&"g".to_string(), 2, &"x".to_string(), &mut table, &arith);
    assert_eq!(r.err(), Some(CalcError::UnknownFunction));
    assert!(value(&table, "g'", &[1.0]).is_err());
}
