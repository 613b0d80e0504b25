//! Evaluation of expressions at numeric arguments.
//!
//! Every arithmetic step is performed by the arithmetic back end; what is
//! decided here is how variables are bound, how calls are resolved, and which
//! error comes first.
use vstd::prelude::*;
use crate::diff::names;
use crate::error::CalcError;
use crate::expr::{Expr, Term, TrigKind, term_of, terms_of, lemma_terms_of};
use crate::num::{NumOp, num_result, is_arith, apply, ZERO, ONE};
use crate::table::{Function, FunctionModel, FunctionTable};

verus! {

broadcast use vstd::std_specs::vec::group_vec_axioms, vstd::seq::group_seq_axioms;

/// The value bound to `n`: the argument at the first position of `n` among
/// `params`.
pub open spec fn lookup_var(params: Seq<Seq<char>>, args: Seq<u64>, n: Seq<char>) -> Option<u64>
    decreases params.len(),
{
    if params.len() == 0 || args.len() == 0 {
        None
    } else if params[0] == n {
        Some(args[0])
    } else {
        lookup_var(params.drop_first(), args.drop_first(), n)
    }
}

/// The value of `k(v)`.  The reciprocal functions are one over the sine,
/// cosine and tangent.
pub open spec fn trig_value<F: Fn(NumOp, u64, u64) -> u64>(k: TrigKind, v: u64, f: F) -> u64 {
    match k {
        TrigKind::Sin => num_result(f, NumOp::Sin, v, ZERO),
        TrigKind::Cos => num_result(f, NumOp::Cos, v, ZERO),
        TrigKind::Tan => num_result(f, NumOp::Tan, v, ZERO),
        TrigKind::Arcsin => num_result(f, NumOp::Asin, v, ZERO),
        TrigKind::Arccos => num_result(f, NumOp::Acos, v, ZERO),
        TrigKind::Arctan => num_result(f, NumOp::Atan, v, ZERO),
        TrigKind::Csc => num_result(f, NumOp::Div, ONE, num_result(f, NumOp::Sin, v, ZERO)),
        TrigKind::Sec => num_result(f, NumOp::Div, ONE, num_result(f, NumOp::Cos, v, ZERO)),
        TrigKind::Cot => num_result(f, NumOp::Div, ONE, num_result(f, NumOp::Tan, v, ZERO)),
    }
}

/// `op` applied to the values of `a` and `b`, the left evaluated first.
pub open spec fn eval_binary<F: Fn(NumOp, u64, u64) -> u64>(
    op: NumOp,
    a: Result<u64, CalcError>,
    b: Result<u64, CalcError>,
    f: F,
) -> Result<u64, CalcError> {
    match (a, b) {
        (Err(e), _) => Err(e),
        (_, Err(e)) => Err(e),
        (Ok(x), Ok(y)) => Ok(num_result(f, op, x, y)),
    }
}

/// The value of `t` where `params` are bound to `args`, with calls resolved
/// in `table` and at most `depth` calls nested.
pub open spec fn eval<F: Fn(NumOp, u64, u64) -> u64>(
    t: Term,
    params: Seq<Seq<char>>,
    args: Seq<u64>,
    table: Map<Seq<char>, FunctionModel>,
    depth: nat,
    f: F,
) -> Result<u64, CalcError>
    decreases depth, t,
{
    match t {
        Term::Const(c) => Ok(c),
        Term::Var(n) => match lookup_var(params, args, n) {
            Some(v) => Ok(v),
            None => Err(CalcError::UnknownVariable),
        },
        Term::Add(a, b) => eval_binary(
            NumOp::Add,
            eval(*a, params, args, table, depth, f),
            eval(*b, params, args, table, depth, f),
            f,
        ),
        Term::Sub(a, b) => eval_binary(
            NumOp::Sub,
            eval(*a, params, args, table, depth, f),
            eval(*b, params, args, table, depth, f),
            f,
        ),
        Term::Mul(a, b) => eval_binary(
            NumOp::Mul,
            eval(*a, params, args, table, depth, f),
            eval(*b, params, args, table, depth, f),
            f,
        ),
        Term::Div(a, b) => eval_binary(
            NumOp::Div,
            eval(*a, params, args, table, depth, f),
            eval(*b, params, args, table, depth, f),
            f,
        ),
        Term::Power(a, b) => eval_binary(
            NumOp::Pow,
            eval(*a, params, args, table, depth, f),
            eval(*b, params, args, table, depth, f),
            f,
        ),
        Term::Log(a, b) => eval_binary(
            NumOp::Log,
            eval(*a, params, args, table, depth, f),
            eval(*b, params, args, table, depth, f),
            f,
        ),
        Term::Trig(k, a) => match eval(*a, params, args, table, depth, f) {
            Err(e) => Err(e),
            Ok(v) => Ok(trig_value(k, v, f)),
        },
        Term::Call(n, xs) => match eval_all(xs, params, args, table, depth, f) {
            Err(e) => Err(e),
            Ok(vs) => if !(table.contains_key(n) && table[n].params.len() == xs.len()) {
                Err(CalcError::UnknownFunction)
            } else if depth == 0 {
                Err(CalcError::CallCycle)
            } else {
                eval(table[n].body, table[n].params, vs, table, (depth - 1) as nat, f)
            },
        },
        Term::Equal(_, _) => Err(CalcError::NoValue),
    }
}

/// The values of `ts`, evaluated from the first to the last.
pub open spec fn eval_all<F: Fn(NumOp, u64, u64) -> u64>(
    ts: Seq<Term>,
    params: Seq<Seq<char>>,
    args: Seq<u64>,
    table: Map<Seq<char>, FunctionModel>,
    depth: nat,
    f: F,
) -> Result<Seq<u64>, CalcError>
    decreases depth, ts,
{
    if ts.len() == 0 {
        Ok(Seq::empty())
    } else {
        match eval_all(ts.drop_last(), params, args, table, depth, f) {
            Err(e) => Err(e),
            Ok(vs) => match eval(ts.last(), params, args, table, depth, f) {
                Err(e) => Err(e),
                Ok(v) => Ok(vs.push(v)),
            },
        }
    }
}

} // verus!

verus! {

proof fn lemma_lookup_step(params: Seq<Seq<char>>, args: Seq<u64>, n: Seq<char>, i: int)
    requires
        0 <= i < params.len(),
        i < args.len(),
        params[i] != n,
    ensures
        lookup_var(params.subrange(i, params.len() as int), args.subrange(i, args.len() as int), n)
            == lookup_var(
            params.subrange(i + 1, params.len() as int),
            args.subrange(i + 1, args.len() as int),
            n,
        ),
{
    let p = params.subrange(i, params.len() as int);
    let a = args.subrange(i, args.len() as int);
    assert(p.drop_first() =~= params.subrange(i + 1, params.len() as int));
    assert(a.drop_first() =~= args.subrange(i + 1, args.len() as int));
}

/// The argument bound to the variable `n`.
fn bound_value(params: &Vec<String>, args: &Vec<u64>, n: &String) -> (r: Option<u64>)
    ensures
        r == lookup_var(names(params@), args@, n@),
{
    let ghost ps = names(params@);
    let mut i: usize = 0;
    assert(ps.subrange(0, ps.len() as int) =~= ps);
    assert(args@.subrange(0, args@.len() as int) =~= args@);
    while i < params.len() && i < args.len()
        invariant
            ps == names(params@),
            i <= params.len(),
            i <= args.len(),
            lookup_var(ps, args@, n@) == lookup_var(
                ps.subrange(i as int, ps.len() as int),
                args@.subrange(i as int, args@.len() as int),
                n@,
            ),
        decreases params.len() - i,
    {
        if params[i] == *n {
            return Some(args[i]);
        }
        proof {
            lemma_lookup_step(ps, args@, n@, i as int);
        }
        i += 1;
    }
    None
}

fn trig_eval<F: Fn(NumOp, u64, u64) -> u64>(k: TrigKind, v: u64, arith: &F) -> (r: u64)
    requires
        is_arith(*arith),
    ensures
        r == trig_value(k, v, *arith),
{
    match k {
        TrigKind::Sin => apply(arith, NumOp::Sin, v, ZERO),
        TrigKind::Cos => apply(arith, NumOp::Cos, v, ZERO),
        TrigKind::Tan => apply(arith, NumOp::Tan, v, ZERO),
        TrigKind::Arcsin => apply(arith, NumOp::Asin, v, ZERO),
        TrigKind::Arccos => apply(arith, NumOp::Acos, v, ZERO),
        TrigKind::Arctan => apply(arith, NumOp::Atan, v, ZERO),
        TrigKind::Csc => {
            let s = apply(arith, NumOp::Sin, v, ZERO);
            apply(arith, NumOp::Div, ONE, s)
        },
        TrigKind::Sec => {
            let c = apply(arith, NumOp::Cos, v, ZERO);
            apply(arith, NumOp::Div, ONE, c)
        },
        TrigKind::Cot => {
            let t = apply(arith, NumOp::Tan, v, ZERO);
            apply(arith, NumOp::Div, ONE, t)
        },
    }
}

proof fn lemma_eval_all_err<F: Fn(NumOp, u64, u64) -> u64>(
    ts: Seq<Term>,
    i: int,
    params: Seq<Seq<char>>,
    args: Seq<u64>,
    table: Map<Seq<char>, FunctionModel>,
    depth: nat,
    f: F,
)
    requires
        0 <= i <= ts.len(),
        eval_all(ts.take(i), params, args, table, depth, f) is Err,
    ensures
        eval_all(ts, params, args, table, depth, f) == eval_all(ts.take(i), params, args, table, depth, f),
    decreases ts.len() - i,
{
    if i < ts.len() {
        assert(ts.take(i + 1).drop_last() =~= ts.take(i));
        lemma_eval_all_err(ts, i + 1, params, args, table, depth, f);
    } else {
        assert(ts.take(i) =~= ts);
    }
}

/// The value of `e` where `params` are bound to `args`.
pub fn eval_expr<F: Fn(NumOp, u64, u64) -> u64>(
    e: &Expr,
    params: &Vec<String>,
    args: &Vec<u64>,
    table: &FunctionTable,
    depth: usize,
    arith: &F,
) -> (r: Result<u64, CalcError>)
    requires
        is_arith(*arith),
        table.wf(),
    ensures
        r == eval(e@, names(params@), args@, table@, depth as nat, *arith),
    decreases depth, e,
{
    match e {
        Expr::Const(c) => Ok(*c),
        Expr::Var(n) => match bound_value(params, args, n) {
            Some(v) => Ok(v),
            None => Err(CalcError::UnknownVariable),
        },
        Expr::Add(a, b) => {
            let x = eval_expr(a, params, args, table, depth, arith)?;
            let y = eval_expr(b, params, args, table, depth, arith)?;
            Ok(apply(arith, NumOp::Add, x, y))
        },
        Expr::Sub(a, b) => {
            let x = eval_expr(a, params, args, table, depth, arith)?;
            let y = eval_expr(b, params, args, table, depth, arith)?;
            Ok(apply(arith, NumOp::Sub, x, y))
        },
        Expr::Mul(a, b) => {
            let x = eval_expr(a, params, args, table, depth, arith)?;
            let y = eval_expr(b, params, args, table, depth, arith)?;
            Ok(apply(arith, NumOp::Mul, x, y))
        },
        Expr::Div(a, b) => {
            let x = eval_expr(a, params, args, table, depth, arith)?;
            let y = eval_expr(b, params, args, table, depth, arith)?;
            Ok(apply(arith, NumOp::Div, x, y))
        },
        Expr::Power(a, b) => {
            let x = eval_expr(a, params, args, table, depth, arith)?;
            let y = eval_expr(b, params, args, table, depth, arith)?;
            Ok(apply(arith, NumOp::Pow, x, y))
        },
        Expr::Log(a, b) => {
            let x = eval_expr(a, params, args, table, depth, arith)?;
            let y = eval_expr(b, params, args, table, depth, arith)?;
            Ok(apply(arith, NumOp::Log, x, y))
        },
        Expr::Trig(k, a) => {
            let v = eval_expr(a, params, args, table, depth, arith)?;
            Ok(trig_eval(*k, v, arith))
        },
        Expr::Call(n, xs) => {
            let vals = eval_args(xs, params, args, table, depth, arith)?;
            match table.find(n, xs.len()) {
                None => {
                    proof {
                        lemma_terms_of(xs@);
                    }
                    Err(CalcError::UnknownFunction)
                },
                Some(callee) => {
                    proof {
                        lemma_terms_of(xs@);
                    }
                    if depth == 0 {
                        Err(CalcError::CallCycle)
                    } else {
                        eval_expr(&callee.body, &callee.params, &vals, table, depth - 1, arith)
                    }
                },
            }
        },
        Expr::Equal(_, _) => Err(CalcError::NoValue),
    }
}

/// The values of `xs`, evaluated from the first to the last.
fn eval_args<F: Fn(NumOp, u64, u64) -> u64>(
    xs: &Vec<Expr>,
    params: &Vec<String>,
    args: &Vec<u64>,
    table: &FunctionTable,
    depth: usize,
    arith: &F,
) -> (r: Result<Vec<u64>, CalcError>)
    requires
        is_arith(*arith),
        table.wf(),
    ensures
        match r {
            Ok(vs) => eval_all(terms_of(xs@), names(params@), args@, table@, depth as nat, *arith)
                == Ok::<Seq<u64>, CalcError>(vs@),
            Err(e) => eval_all(terms_of(xs@), names(params@), args@, table@, depth as nat, *arith)
                == Err::<Seq<u64>, CalcError>(e),
        },
    decreases depth, xs,
{
    let ghost ts = terms_of(xs@);
    let ghost ps = names(params@);
    proof {
        lemma_terms_of(xs@);
        assert(ts.take(0) =~= Seq::<Term>::empty());
    }
    let mut vals: Vec<u64> = Vec::new();
    let mut i: usize = 0;
    while i < xs.len()
        invariant
            is_arith(*arith),
            table.wf(),
            ts == terms_of(xs@),
            ps == names(params@),
            ts.len() == xs.len(),
            forall|j: int| 0 <= j < xs.len() ==> #[trigger] ts[j] == term_of(xs@[j]),
            i <= xs.len(),
            eval_all(ts.take(i as int), ps, args@, table@, depth as nat, *arith) == Ok::<
                Seq<u64>,
                CalcError,
            >(vals@),
        decreases xs.len() - i,
    {
        proof {
            assert(decreases_to!(xs => xs@[i as int]));
            assert(ts.take(i + 1).drop_last() =~= ts.take(i as int));
            assert(ts.take(i + 1).last() == ts[i as int]);
        }
        match eval_expr(&xs[i], params, args, table, depth, arith) {
            Ok(v) => {
                vals.push(v);
            },
            Err(e) => {
                proof {
                    lemma_eval_all_err(ts, i + 1, ps, args@, table@, depth as nat, *arith);
                }
                return Err(e);
            },
        }
        i += 1;
    }
    assert(ts.take(i as int) =~= ts);
    Ok(vals)
}

impl Function {
    /// The value of the function at `args`.  A chain of calls may not be
    /// longer than the number of functions in `table`: a longer one repeats
    /// a function, which would then call itself without end.
    pub fn caculate<F: Fn(NumOp, u64, u64) -> u64>(
        &self,
        args: &Vec<u64>,
        table: &FunctionTable,
        arith: &F,
    ) -> (r: Result<u64, CalcError>)
        requires
            is_arith(*arith),
            table.wf(),
        ensures
            r == value_of(self@, args@, table@, *arith),
    {
        if args.len() != self.params.len() {
            return Err(CalcError::ArityMismatch);
        }
        let depth = table.len();
        eval_expr(&self.body, &self.params, args, table, depth, arith)
    }
}

/// The value of `func` at `args`; see `Function::caculate`.
pub open spec fn value_of<F: Fn(NumOp, u64, u64) -> u64>(
    func: FunctionModel,
    args: Seq<u64>,
    table: Map<Seq<char>, FunctionModel>,
    f: F,
) -> Result<u64, CalcError> {
    if args.len() != func.params.len() {
        Err(CalcError::ArityMismatch)
    } else {
        eval(func.body, func.params, args, table, table.dom().len(), f)
    }
}

} // verus!

verus! {

/// The call-depth bound only cuts off call chains: an evaluation that did
/// not run out of depth gives the same result with any larger depth.
pub proof fn law_depth_only_cuts_cycles<F: Fn(NumOp, u64, u64) -> u64>(
    t: Term,
    params: Seq<Seq<char>>,
    args: Seq<u64>,
    table: Map<Seq<char>, FunctionModel>,
    depth: nat,
    more: nat,
    f: F,
)
    requires
        depth <= more,
        eval(t, params, args, table, depth, f) != Err::<u64, CalcError>(CalcError::CallCycle),
    ensures
        eval(t, params, args, table, more, f) == eval(t, params, args, table, depth, f),
    decreases depth, t, 1int,
{
    match t {
        Term::Add(a, b) | Term::Sub(a, b) | Term::Mul(a, b) | Term::Div(a, b) | Term::Power(a, b)
        | Term::Log(a, b) => {
            let ra = eval(*a, params, args, table, depth, f);
            if ra != Err::<u64, CalcError>(CalcError::CallCycle) {
                law_depth_only_cuts_cycles(*a, params, args, table, depth, more, f);
            }
            if ra is Ok {
                law_depth_only_cuts_cycles(*b, params, args, table, depth, more, f);
            }
        },
        Term::Trig(_, a) => {
            law_depth_only_cuts_cycles(*a, params, args, table, depth, more, f);
        },
        Term::Call(n, xs) => {
            let rs = eval_all(xs, params, args, table, depth, f);
            lemma_depth_all(xs, params, args, table, depth, more, f);
            if let Ok(vs) = rs {
                if table.contains_key(n) && table[n].params.len() == xs.len() && depth > 0 {
                    law_depth_only_cuts_cycles(
                        table[n].body,
                        table[n].params,
                        vs,
                        table,
                        (depth - 1) as nat,
                        (more - 1) as nat,
                        f,
                    );
                }
            }
        },
        _ => {},
    }
}

proof fn lemma_depth_all<F: Fn(NumOp, u64, u64) -> u64>(
    ts: Seq<Term>,
    params: Seq<Seq<char>>,
    args: Seq<u64>,
    table: Map<Seq<char>, FunctionModel>,
    depth: nat,
    more: nat,
    f: F,
)
    requires
        depth <= more,
        eval_all(ts, params, args, table, depth, f) != Err::<Seq<u64>, CalcError>(CalcError::CallCycle),
    ensures
        eval_all(ts, params, args, table, more, f) == eval_all(ts, params, args, table, depth, f),
    decreases depth, ts, 0int,
{
    if ts.len() > 0 {
        lemma_depth_all(ts.drop_last(), params, args, table, depth, more, f);
        if eval_all(ts.drop_last(), params, args, table, depth, f) is Ok {
            law_depth_only_cuts_cycles(ts.last(), params, args, table, depth, more, f);
        }
    }
}

} // verus!
