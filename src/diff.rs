//! Symbolic differentiation.
use vstd::prelude::*;
use crate::error::CalcError;
use crate::expr::{Expr, Term, TrigKind};
use crate::num::{NumOp, num_result, is_arith, apply, ZERO, ONE, NEG_ONE, TWO, HALF, E};

verus! {

/// The names that `params` holds.
pub open spec fn names(params: Seq<String>) -> Seq<Seq<char>> {
    params.map_values(|n: String| n@)
}

/// The natural logarithm of `a`, written `Log(a, e)`.
pub open spec fn ln_of(a: Term) -> Term {
    Term::log(a, Term::Const(E))
}

pub open spec fn minus(a: Term) -> Term {
    Term::product(Term::Const(NEG_ONE), a)
}

pub open spec fn squared(a: Term) -> Term {
    Term::power(a, Term::Const(TWO))
}

/// `sqrt(1 - g^2)`.
pub open spec fn root_one_minus_sq(g: Term) -> Term {
    Term::power(Term::difference(Term::Const(ONE), squared(g)), Term::Const(HALF))
}

/// The derivative of `k(g)` where `g` has derivative `dg`.
pub open spec fn trig_rule(k: TrigKind, g: Term, dg: Term) -> Term {
    match k {
        TrigKind::Sin => Term::product(Term::trig(TrigKind::Cos, g), dg),
        TrigKind::Cos => minus(Term::product(Term::trig(TrigKind::Sin, g), dg)),
        TrigKind::Tan => Term::product(squared(Term::trig(TrigKind::Sec, g)), dg),
        TrigKind::Arcsin => Term::quotient(dg, root_one_minus_sq(g)),
        TrigKind::Arccos => minus(Term::quotient(dg, root_one_minus_sq(g))),
        TrigKind::Arctan => Term::quotient(dg, Term::sum(Term::Const(ONE), squared(g))),
        TrigKind::Csc => minus(
            Term::product(
                Term::product(Term::trig(TrigKind::Csc, g), Term::trig(TrigKind::Cot, g)),
                dg,
            ),
        ),
        TrigKind::Sec => Term::product(
            Term::product(Term::trig(TrigKind::Sec, g), Term::trig(TrigKind::Tan, g)),
            dg,
        ),
        TrigKind::Cot => minus(Term::product(squared(Term::trig(TrigKind::Csc, g)), dg)),
    }
}

/// The derivative of `u ^ v`, not both constant, where `u` and `v` have
/// derivatives `du` and `dv`.
pub open spec fn pow_deriv<F: Fn(NumOp, u64, u64) -> u64>(
    u: Term,
    v: Term,
    du: Term,
    dv: Term,
    f: F,
) -> Term {
    match v {
        Term::Const(c) => Term::product(
            Term::product(
                Term::Const(c),
                Term::power(u, Term::Const(num_result(f, NumOp::Sub, c, ONE))),
            ),
            du,
        ),
        _ => match u {
            Term::Const(a) => Term::product(
                Term::power(Term::Const(a), v),
                Term::product(ln_of(Term::Const(a)), dv),
            ),
            _ => Term::product(
                Term::power(u, v),
                Term::sum(Term::product(dv, ln_of(u)), Term::product(v, Term::quotient(du, u))),
            ),
        },
    }
}

/// The derivative of `log_u(v)`, taken as `ln(v) / ln(u)`.
pub open spec fn log_deriv(u: Term, v: Term, du: Term, dv: Term) -> Term {
    Term::quotient(
        Term::difference(
            Term::product(Term::quotient(dv, v), ln_of(u)),
            Term::product(ln_of(v), Term::quotient(du, u)),
        ),
        squared(ln_of(u)),
    )
}

pub open spec fn both_consts(u: Term, v: Term) -> bool {
    u is Const && v is Const
}

/// The derivative of `t` with respect to `x`, where `t` may name the
/// variables `params`.  The derivative of the left operand is taken first,
/// so its error is the one reported.
pub open spec fn deriv<F: Fn(NumOp, u64, u64) -> u64>(
    t: Term,
    x: Seq<char>,
    params: Seq<Seq<char>>,
    f: F,
) -> Result<Term, CalcError>
    decreases t,
{
    match t {
        Term::Const(_) => Ok(Term::Const(ZERO)),
        Term::Var(n) => if !params.contains(n) {
            Err(CalcError::UnknownVariable)
        } else if n == x {
            Ok(Term::Const(ONE))
        } else {
            Ok(Term::Const(ZERO))
        },
        Term::Add(a, b) => match (deriv(*a, x, params, f), deriv(*b, x, params, f)) {
            (Err(e), _) => Err(e),
            (_, Err(e)) => Err(e),
            (Ok(da), Ok(db)) => Ok(Term::sum(da, db)),
        },
        Term::Sub(a, b) => match (deriv(*a, x, params, f), deriv(*b, x, params, f)) {
            (Err(e), _) => Err(e),
            (_, Err(e)) => Err(e),
            (Ok(da), Ok(db)) => Ok(Term::difference(da, db)),
        },
        Term::Mul(a, b) => match (deriv(*a, x, params, f), deriv(*b, x, params, f)) {
            (Err(e), _) => Err(e),
            (_, Err(e)) => Err(e),
            (Ok(da), Ok(db)) => Ok(Term::sum(Term::product(da, *b), Term::product(*a, db))),
        },
        Term::Div(a, b) => match (deriv(*a, x, params, f), deriv(*b, x, params, f)) {
            (Err(e), _) => Err(e),
            (_, Err(e)) => Err(e),
            (Ok(da), Ok(db)) => Ok(
                Term::quotient(
                    Term::difference(Term::product(da, *b), Term::product(*a, db)),
                    squared(*b),
                ),
            ),
        },
        Term::Power(a, b) => if both_consts(*a, *b) {
            Ok(Term::Const(ZERO))
        } else {
            match (deriv(*a, x, params, f), deriv(*b, x, params, f)) {
                (Err(e), _) => Err(e),
                (_, Err(e)) => Err(e),
                (Ok(da), Ok(db)) => Ok(pow_deriv(*a, *b, da, db, f)),
            }
        },
        Term::Log(a, b) => if both_consts(*a, *b) {
            Ok(Term::Const(ZERO))
        } else {
            match (deriv(*a, x, params, f), deriv(*b, x, params, f)) {
                (Err(e), _) => Err(e),
                (_, Err(e)) => Err(e),
                (Ok(da), Ok(db)) => Ok(log_deriv(*a, *b, da, db)),
            }
        },
        Term::Trig(k, g) => match deriv(*g, x, params, f) {
            Err(e) => Err(e),
            Ok(dg) => Ok(trig_rule(k, *g, dg)),
        },
        Term::Call(_, _) => Err(CalcError::NoDerivativeRule),
        Term::Equal(_, _) => Err(CalcError::NoDerivativeRule),
    }
}

/// The model of a result that holds an expression.
pub open spec fn result_view(r: Result<Expr, CalcError>) -> Result<Term, CalcError> {
    match r {
        Ok(e) => Ok(e@),
        Err(err) => Err(err),
    }
}

/// Whether `x` is one of `params`.
pub fn has_name(params: &Vec<String>, x: &String) -> (r: bool)
    ensures
        r == names(params@).contains(x@),
{
    let mut i: usize = 0;
    while i < params.len()
        invariant
            i <= params.len(),
            forall|j: int| 0 <= j < i ==> params@[j]@ != x@,
        decreases params.len() - i,
    {
        if params[i] == *x {
            assert(names(params@)[i as int] == x@);
            return true;
        }
        i += 1;
    }
    proof {
        if names(params@).contains(x@) {
            let j = choose|j: int| 0 <= j < names(params@).len() && names(params@)[j] == x@;
            assert(params@[j]@ == x@);
        }
    }
    false
}

fn neg(a: Expr) -> (r: Expr)
    ensures
        r@ == minus(a@),
{
    Expr::product(Expr::Const(NEG_ONE), a)
}

fn square(a: Expr) -> (r: Expr)
    ensures
        r@ == squared(a@),
{
    Expr::power(a, Expr::Const(TWO))
}

fn ln(a: Expr) -> (r: Expr)
    ensures
        r@ == ln_of(a@),
{
    Expr::log(a, Expr::Const(E))
}

fn trig_derivative(k: TrigKind, g: &Expr, dg: Expr) -> (r: Expr)
    ensures
        r@ == trig_rule(k, g@, dg@),
{
    match k {
        TrigKind::Sin => Expr::product(Expr::trig(TrigKind::Cos, g.copy()), dg),
        TrigKind::Cos => neg(Expr::product(Expr::trig(TrigKind::Sin, g.copy()), dg)),
        TrigKind::Tan => Expr::product(square(Expr::trig(TrigKind::Sec, g.copy())), dg),
        TrigKind::Arcsin => {
            let root = Expr::power(
                Expr::difference(Expr::Const(ONE), square(g.copy())),
                Expr::Const(HALF),
            );
            Expr::quotient(dg, root)
        },
        TrigKind::Arccos => {
            let root = Expr::power(
                Expr::difference(Expr::Const(ONE), square(g.copy())),
                Expr::Const(HALF),
            );
            neg(Expr::quotient(dg, root))
        },
        TrigKind::Arctan => Expr::quotient(dg, Expr::sum(Expr::Const(ONE), square(g.copy()))),
        TrigKind::Csc => {
            let both = Expr::product(
                Expr::trig(TrigKind::Csc, g.copy()),
                Expr::trig(TrigKind::Cot, g.copy()),
            );
            neg(Expr::product(both, dg))
        },
        TrigKind::Sec => {
            let both = Expr::product(
                Expr::trig(TrigKind::Sec, g.copy()),
                Expr::trig(TrigKind::Tan, g.copy()),
            );
            Expr::product(both, dg)
        },
        TrigKind::Cot => neg(Expr::product(square(Expr::trig(TrigKind::Csc, g.copy())), dg)),
    }
}

fn power_derivative<F: Fn(NumOp, u64, u64) -> u64>(
    u: &Expr,
    v: &Expr,
    du: Expr,
    dv: Expr,
    arith: &F,
) -> (r: Expr)
    requires
        is_arith(*arith),
    ensures
        r@ == pow_deriv(u@, v@, du@, dv@, *arith),
{
    match v {
        Expr::Const(c) => {
            let lowered = apply(arith, NumOp::Sub, *c, ONE);
            let p = Expr::power(u.copy(), Expr::Const(lowered));
            Expr::product(Expr::product(Expr::Const(*c), p), du)
        },
        _ => match u {
            Expr::Const(a) => Expr::product(
                Expr::power(Expr::Const(*a), v.copy()),
                Expr::product(ln(Expr::Const(*a)), dv),
            ),
            _ => {
                let left = Expr::product(dv, ln(u.copy()));
                let right = Expr::product(v.copy(), Expr::quotient(du, u.copy()));
                Expr::product(Expr::power(u.copy(), v.copy()), Expr::sum(left, right))
            },
        },
    }
}

fn log_derivative(u: &Expr, v: &Expr, du: Expr, dv: Expr) -> (r: Expr)
    ensures
        r@ == log_deriv(u@, v@, du@, dv@),
{
    let left = Expr::product(Expr::quotient(dv, v.copy()), ln(u.copy()));
    let right = Expr::product(ln(v.copy()), Expr::quotient(du, u.copy()));
    Expr::quotient(Expr::difference(left, right), square(ln(u.copy())))
}

impl Expr {
    /// The derivative with respect to `x`, unsimplified, of an expression
    /// whose variables must be among `params`.
    pub fn derivative<F: Fn(NumOp, u64, u64) -> u64>(
        &self,
        x: &String,
        params: &Vec<String>,
        arith: &F,
    ) -> (r: Result<Expr, CalcError>)
        requires
            is_arith(*arith),
        ensures
            result_view(r) == deriv(self@, x@, names(params@), *arith),
        decreases self,
    {
        match self {
            Expr::Const(_) => Ok(Expr::Const(ZERO)),
            Expr::Var(n) => {
                if !has_name(params, n) {
                    Err(CalcError::UnknownVariable)
                } else if *n == *x {
                    Ok(Expr::Const(ONE))
                } else {
                    Ok(Expr::Const(ZERO))
                }
            },
            Expr::Add(a, b) => {
                let da = a.derivative(x, params, arith)?;
                let db = b.derivative(x, params, arith)?;
                Ok(Expr::sum(da, db))
            },
            Expr::Sub(a, b) => {
                let da = a.derivative(x, params, arith)?;
                let db = b.derivative(x, params, arith)?;
                Ok(Expr::difference(da, db))
            },
            Expr::Mul(a, b) => {
                let da = a.derivative(x, params, arith)?;
                let db = b.derivative(x, params, arith)?;
                Ok(Expr::sum(Expr::product(da, b.copy()), Expr::product(a.copy(), db)))
            },
            Expr::Div(a, b) => {
                let da = a.derivative(x, params, arith)?;
                let db = b.derivative(x, params, arith)?;
                let top = Expr::difference(Expr::product(da, b.copy()), Expr::product(a.copy(), db));
                Ok(Expr::quotient(top, square(b.copy())))
            },
            Expr::Power(a, b) => {
                if a.const_value().is_some() && b.const_value().is_some() {
                    return Ok(Expr::Const(ZERO));
                }
                let da = a.derivative(x, params, arith)?;
                let db = b.derivative(x, params, arith)?;
                Ok(power_derivative(a, b, da, db, arith))
            },
            Expr::Log(a, b) => {
                if a.const_value().is_some() && b.const_value().is_some() {
                    return Ok(Expr::Const(ZERO));
                }
                let da = a.derivative(x, params, arith)?;
                let db = b.derivative(x, params, arith)?;
                Ok(log_derivative(a, b, da, db))
            },
            Expr::Trig(k, g) => {
                let dg = g.derivative(x, params, arith)?;
                Ok(trig_derivative(*k, g, dg))
            },
            Expr::Call(_, _) => Err(CalcError::NoDerivativeRule),
            Expr::Equal(_, _) => Err(CalcError::NoDerivativeRule),
        }
    }
}

} // verus!
