use calculus::monomial::Monomial;
use calculus::num::NumOp;
use calculus::polynomial::Polynomial;

fn arith(op: NumOp, a: u64, b: u64) -> u64 {
    let x = f64::from_bits(a);
    let y = f64::from_bits(b);
    let r = match op {
        NumOp::Add => x + y,
        NumOp::Sub => x - y,
        NumOp::Mul => x * y,
        NumOp::Div => x / y,
        NumOp::Pow => x.powf(y),
        NumOp::Log => y.log(x),
        NumOp::Sin => x.sin(),
        NumOp::Cos => x.cos(),
        NumOp::Tan => x.tan(),
        NumOp::Asin => x.asin(),
        NumOp::Acos => x.acos(),
        NumOp::Atan => x.atan(),
        NumOp::FromInt => a as f64,
    };
    r.to_bits()
}

fn show(b: u64) -> String {
    format!("{}", f64::from_bits(b))
}

fn n(x: f64) -> u64 {
    x.to_bits()
}

fn close(a: f64, b: f64) -> bool {
    (a - b).abs() < 1e-9
}

fn term(c: f64, e: f64) -> Monomial {
    Monomial { variable: "x".to_string(), coefficient: n(c), exponent: n(e) }
}

#[test]
fn monomial_derivative() {
    assert_eq!(term(3.0, 2.0).derivative(&arith), term(6.0, 1.0));
    assert_eq!(term(5.0, 0.0).derivative(&arith), term(0.0, 0.0));
    assert_eq!(term(2.0, -1.0).derivative(&arith), term(-2.0, -2.0));
}

#[test]
fn monomial_integral() {
    assert_eq!(term(6.0, 2.0).integral(&arith).unwrap(), term(2.0, 3.0));
    assert_eq!(term(4.0, 0.0).integral(&arith).unwrap(), term(4.0, 1.0));
    assert_eq!(
        term(1.0, -1.0).integral(&arith).err(),
        Some("integral has ln term when exponent = -1".to_string())
    );
}

#[test]
fn polynomial_termwise() {
    let p = Polynomial::new(vec![term(3.0, 2.0), term(1.0, 0.0)]);
    let d = p.derivative(&arith);
    assert_eq!(d.monomials, vec![term(6.0, 1.0), term(0.0, 0.0)]);
    let i = p.integral(&arith).unwrap();
    assert_eq!(i.monomials, vec![term(1.0, 3.0), term(1.0, 1.0)]);
    let bad = Polynomial::new(vec![term(3.0, 2.0), term(1.0, -1.0)]);
    assert_eq!(
        bad.integral(&arith).err(),
        Some("integral has ln term when exponent = -1".to_string())
    );
}
