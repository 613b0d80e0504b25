use calculus::error::CalcError;
use calculus::function::{caculate, derivative, put};
use calculus::num::NumOp;
use calculus::table::FunctionTable;

fn arith(op: NumOp, a: u64, b: u64) -> u64 {
    let x = f64::from_bits(a);
    let y = f64::from_bits(b);
    let r = match op {
        NumOp::Add => x + y,
        NumOp::Sub => x - y,
        NumOp::Mul => x * y,
        NumOp::Div => x / y,
        NumOp::Pow => x.powf(y),
        NumOp::Log => y.log(x),
        NumOp::Sin => x.sin(),
        NumOp::Cos => x.cos(),
        NumOp::Tan => x.tan(),
        NumOp::Asin => x.asin(),
        NumOp::Acos => x.acos(),
        NumOp::Atan => x.atan(),
        NumOp::FromInt => a as f64,
    };
    r.to_bits()
}

fn show(b: u64) -> String {
    format!("{}", f64::from_bits(b))
}

fn n(x: f64) -> u64 {
    x.to_bits()
}

fn close(a: f64, b: f64) -> bool {
    (a - b).abs() < 1e-9
}

fn value(table: &FunctionTable, name: &str, args: &[f64]) -> Result<f64, CalcError> {
    let bits: Vec<u64> = args.iter().map(|x| x.to_bits()).collect();
    caculate(&name.to_string(), &bits, table, &arith).map(f64::from_bits)
}

#[test]
fn test() {
    let mut table = FunctionTable::new();
    let f = put(&"f(x)=log(2,x)+3^(2*x+1)".to_string(), &mut table, &arith).unwrap();
    assert_eq!(f.name, "f");
    let v = value(&table, "f", &[1.0]).unwrap();
    assert!(close(v, 27.0));
    let d = derivative(&"f".to_string(), 1, &"x".to_string(), &mut table, &arith).unwrap();
    assert_eq!(d.name, "f'");
    assert_eq!(
        d.render(&show),
        "f'(x)=1/x*log(2,e)/log(2,e)^2+3^(2*x+1)*(log(3,e)*2)"
    );
    let dv = value(&table, "f'", &[1.0]).unwrap();
    assert!(close(dv, 2f64.ln() + 54.0 / 3f64.ln()));
}
