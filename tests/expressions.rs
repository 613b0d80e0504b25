use calculus::expr::{Expr, TrigKind};
use calculus::function::{caculate, put};
use calculus::num::{NumOp, E};
use calculus::table::FunctionTable;

fn arith(op: NumOp, a: u64, b: u64) -> u64 {
    let x = f64::from_bits(a);
    let y = f64::from_bits(b);
    let r = match op {
        NumOp::Add => x + y,
        NumOp::Sub => x - y,
        NumOp::Mul => x * y,
        NumOp::Div => x / y,
        NumOp::Pow => x.powf(y),
        NumOp::Log => y.log(x),
        NumOp::Sin => x.sin(),
        NumOp::Cos => x.cos(),
        NumOp::Tan => x.tan(),
        NumOp::Asin => x.asin(),
        NumOp::Acos => x.acos(),
        NumOp::Atan => x.atan(),
        NumOp::FromInt => a as f64,
    };
    r.to_bits()
}

fn show(b: u64) -> String {
    format!("{}", f64::from_bits(b))
}

fn n(x: f64) -> u64 {
    x.to_bits()
}

fn close(a: f64, b: f64) -> bool {
    (a - b).abs() < 1e-9
}

fn var(s: &str) -> Expr {
    Expr::Var(s.to_string())
}

fn c(x: f64) -> Expr {
    Expr::Const(n(x))
}

fn bin(f: fn(Expr, Expr) -> Expr, a: Expr, b: Expr) -> Expr {
    f(a, b)
}

#[test]
fn simplify_zero_times_x_is_zero() {
    let e = bin(Expr::product, c(0.0), var("x"));
    assert!(e.simplify(&arith).same_as(&c(0.0)));
}

#[test]
fn simplify_x_plus_zero_is_x() {
    let e = bin(Expr::sum, var("x"), c(0.0));
    assert!(e.simplify(&arith).same_as(&var("x")));
}

#[test]
fn simplify_x_to_the_one_is_x() {
    let e = bin(Expr::power, var("x"), c(1.0));
    assert!(e.simplify(&arith).same_as(&var("x")));
}

#[test]
fn simplify_other_identities() {
    let x = || var("x");
    let cases = [
        (bin(Expr::sum, c(0.0), x()), x()),
        (bin(Expr::difference, x(), c(0.0)), x()),
        (bin(Expr::product, c(1.0), x()), x()),
        (bin(Expr::product, x(), c(1.0)), x()),
        (bin(Expr::product, x(), c(0.0)), c(0.0)),
        (bin(Expr::quotient, x(), c(1.0)), x()),
        (bin(Expr::quotient, c(0.0), x()), c(0.0)),
        (bin(Expr::power, x(), c(0.0)), c(1.0)),
        (bin(Expr::power, c(0.0), x()), c(0.0)),
        (bin(Expr::power, c(1.0), x()), c(1.0)),
    ];
    for (e, want) in cases.iter() {
        assert!(e.simplify(&arith).same_as(want), "{:?}", e);
    }
}

#[test]
fn simplify_folds_constants() {
    assert!(bin(Expr::sum, c(2.0), c(3.0)).simplify(&arith).same_as(&c(5.0)));
    assert!(bin(Expr::difference, c(2.0), c(3.0)).simplify(&arith).same_as(&c(-1.0)));
    assert!(bin(Expr::product, c(0.0), c(0.0)).simplify(&arith).same_as(&c(0.0)));
    assert!(bin(Expr::quotient, c(3.0), c(2.0)).simplify(&arith).same_as(&c(1.5)));
    assert!(bin(Expr::power, c(2.0), c(0.5)).simplify(&arith).same_as(&c(2f64.powf(0.5))));
    let nested = bin(Expr::sum, bin(Expr::product, c(2.0), c(3.0)), bin(Expr::product, var("x"), c(0.0)));
    assert!(nested.simplify(&arith).same_as(&c(6.0)));
}

#[test]
fn simplify_division_by_zero() {
    let e = bin(Expr::quotient, var("x"), c(0.0));
    assert!(e.simplify(&arith).same_as(&e));
    let k = bin(Expr::quotient, c(1.0), c(0.0));
    assert!(k.simplify(&arith).same_as(&c(f64::INFINITY)));
    match bin(Expr::quotient, c(0.0), c(0.0)).simplify(&arith) {
        Expr::Const(b) => assert!(f64::from_bits(b).is_nan()),
        other => panic!("not folded: {:?}", other),
    }
}

#[test]
fn simplify_inside_log_trig_and_calls() {
    let e = Expr::log(bin(Expr::sum, c(1.0), c(1.0)), bin(Expr::product, var("x"), c(1.0)));
    assert!(e.simplify(&arith).same_as(&Expr::log(c(2.0), var("x"))));
    let t = Expr::trig(TrigKind::Sin, bin(Expr::sum, var("x"), c(0.0)));
    assert!(t.simplify(&arith).same_as(&Expr::trig(TrigKind::Sin, var("x"))));
    let call = Expr::Call("g".to_string(), vec![bin(Expr::sum, c(1.0), c(2.0)), var("y")]);
    let want = Expr::Call("g".to_string(), vec![c(3.0), var("y")]);
    assert!(call.simplify(&arith).same_as(&want));
}

#[test]
fn simplify_twice_is_simplify_once() {
    let e = bin(
        Expr::sum,
        bin(Expr::product, bin(Expr::sum, c(1.0), c(-1.0)), var("x")),
        bin(Expr::power, bin(Expr::quotient, var("y"), c(1.0)), c(2.0)),
    );
    let once = e.simplify(&arith);
    assert!(once.simplify(&arith).same_as(&once));
    assert_eq!(once.render(&show), "y^2");
}

#[test]
fn same_as_compares_constants_as_doubles() {
    assert!(c(0.0).same_as(&c(-0.0)));
    assert!(!c(f64::NAN).same_as(&c(f64::NAN)));
    assert!(!var("x").same_as(&var("y")));
    assert!(c(2.0).same_as(&c(2.0)));
}

#[test]
fn render_parenthesises_by_precedence() {
    let (a, b, cc) = (|| var("a"), || var("b"), || var("c"));
    assert_eq!(bin(Expr::difference, a(), bin(Expr::difference, b(), cc())).render(&show), "a-(b-c)");
    assert_eq!(bin(Expr::difference, bin(Expr::difference, a(), b()), cc()).render(&show), "a-b-c");
    assert_eq!(bin(Expr::quotient, a(), bin(Expr::quotient, b(), cc())).render(&show), "a/(b/c)");
    assert_eq!(bin(Expr::product, a(), bin(Expr::sum, b(), cc())).render(&show), "a*(b+c)");
    assert_eq!(bin(Expr::sum, bin(Expr::product, a(), b()), cc()).render(&show), "a*b+c");
    assert_eq!(bin(Expr::power, a(), bin(Expr::power, b(), cc())).render(&show), "a^(b^c)");
    let eq = Expr::Equal(Box::new(a()), Box::new(bin(Expr::sum, b(), c(2.5))));
    assert_eq!(eq.render(&show), "a=b+2.5");
}

#[test]
fn render_calls_logs_trig_and_e() {
    let e = Expr::Call("g".to_string(), vec![var("x"), c(2.0)]);
    assert_eq!(e.render(&show), "g(x,2)");
    assert_eq!(Expr::log(c(2.0), var("x")).render(&show), "log(2,x)");
    assert_eq!(Expr::trig(TrigKind::Arccos, var("x")).render(&show), "arccos(x)");
    assert_eq!(Expr::Const(E).render(&show), "e");
    assert_eq!(Expr::Const(E + 2000).render(&show), "e");
    assert_eq!(Expr::Const(E + 3000).render(&show), show(E + 3000));
    assert_eq!(Expr::Call("h".to_string(), vec![]).render(&show), "h()");
}

#[test]
fn rendered_body_parses_back_to_the_same_tree() {
    let mut table = FunctionTable::new();
    let f = put(&"f(a,b,c)=a-(b-c)*2/(a+1)+sin(a)^2".to_string(), &mut table, &arith).unwrap();
    let text = f.render(&show);
    assert_eq!(text, "f(a,b,c)=a-(b-c)*2/(a+1)+sin(a)^2");
    let again = format!("g{}", &text[1..]);
    let g = put(&again, &mut table, &arith).unwrap();
    assert!(g.body.same_as(&f.body));
}

#[test]
fn precedence_of_left_to_right_subtraction() {
    let mut table = FunctionTable::new();
    let f = put(&"f(a,b,c)=a-b-c".to_string(), &mut table, &arith).unwrap();
    let text = f.body.render(&show);
    assert_eq!(text, "a-b-c");
    put(&format!("g(a,b,c)={}", text), &mut table, &arith).unwrap();
    let args = vec![n(1.0), n(2.0), n(3.0)];
    let v = f64::from_bits(caculate(&"g".to_string(), &args, &table, &arith).unwrap());
    assert_eq!(v, (1.0 - 2.0) - 3.0);
    assert_ne!(v, 1.0 - (2.0 - 3.0));
}

#[test]
fn rendered_calls_parse_back() {
    let mut table = FunctionTable::new();
    put(&"f(a,b)=a*b".to_string(), &mut table, &arith).unwrap();
    put(&"k()=7".to_string(), &mut table, &arith).unwrap();
    let g = put(&"g(x)=f(x,2)+f(1,x)^2-k()*log(x,tan(x))".to_string(), &mut table, &arith).unwrap();
    let text = g.render(&show);
    assert_eq!(text, "g(x)=f(x,2)+f(1,x)^2-k()*log(x,tan(x))");
    let h = put(&format!("h{}", &text[1..]), &mut table, &arith).unwrap();
    assert!(h.body.same_as(&g.body));
}
