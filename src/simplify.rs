//! The bottom-up simplifier: constant folding and identity elimination.
use vstd::prelude::*;
use crate::expr::{Expr, Term, term_of, terms_of, lemma_terms_of};
use crate::num::{NumOp, num_result, is_arith, apply, is_zero, is_one, is_zero_spec, is_one_spec, ZERO, ONE};

verus! {

broadcast use vstd::std_specs::vec::group_vec_axioms, vstd::seq::group_seq_axioms;

/// The constant that `t` is, if it is one.
pub open spec fn const_of(t: Term) -> Option<u64> {
    match t {
        Term::Const(c) => Some(c),
        _ => None,
    }
}

pub open spec fn is_const_zero(t: Term) -> bool {
    const_of(t) is Some && is_zero_spec(const_of(t)->Some_0)
}

pub open spec fn is_const_one(t: Term) -> bool {
    const_of(t) is Some && is_one_spec(const_of(t)->Some_0)
}

/// Folds two constants with `op`.
pub open spec fn fold<F: Fn(NumOp, u64, u64) -> u64>(op: NumOp, l: Term, r: Term, f: F) -> Term {
    Term::Const(num_result(f, op, const_of(l)->Some_0, const_of(r)->Some_0))
}

pub open spec fn both_const(l: Term, r: Term) -> bool {
    const_of(l) is Some && const_of(r) is Some
}

/// `l + r` once both sides are simplified.
pub open spec fn add_rule<F: Fn(NumOp, u64, u64) -> u64>(l: Term, r: Term, f: F) -> Term {
    if both_const(l, r) {
        fold(NumOp::Add, l, r, f)
    } else if is_const_zero(l) {
        r
    } else if is_const_zero(r) {
        l
    } else {
        Term::Add(Box::new(l), Box::new(r))
    }
}

/// `l - r` once both sides are simplified.
pub open spec fn sub_rule<F: Fn(NumOp, u64, u64) -> u64>(l: Term, r: Term, f: F) -> Term {
    if both_const(l, r) {
        fold(NumOp::Sub, l, r, f)
    } else if is_const_zero(r) {
        l
    } else {
        Term::Sub(Box::new(l), Box::new(r))
    }
}

/// `l * r` once both sides are simplified.
pub open spec fn mul_rule<F: Fn(NumOp, u64, u64) -> u64>(l: Term, r: Term, f: F) -> Term {
    if both_const(l, r) {
        fold(NumOp::Mul, l, r, f)
    } else if is_const_zero(l) || is_const_zero(r) {
        Term::Const(ZERO)
    } else if is_const_one(l) {
        r
    } else if is_const_one(r) {
        l
    } else {
        Term::Mul(Box::new(l), Box::new(r))
    }
}

/// `l / r` once both sides are simplified.  Two constants are folded even
/// when the divisor is zero (giving an infinity or NaN); a divisor zero
/// with a non-constant dividend is left as it is.
pub open spec fn div_rule<F: Fn(NumOp, u64, u64) -> u64>(l: Term, r: Term, f: F) -> Term {
    if both_const(l, r) {
        fold(NumOp::Div, l, r, f)
    } else if is_const_zero(l) {
        Term::Const(ZERO)
    } else if is_const_one(r) {
        l
    } else {
        Term::Div(Box::new(l), Box::new(r))
    }
}

/// `l ^ r` once both sides are simplified.
pub open spec fn pow_rule<F: Fn(NumOp, u64, u64) -> u64>(l: Term, r: Term, f: F) -> Term {
    if both_const(l, r) {
        fold(NumOp::Pow, l, r, f)
    } else if is_const_zero(r) {
        Term::Const(ONE)
    } else if is_const_one(r) {
        l
    } else if is_const_zero(l) {
        Term::Const(ZERO)
    } else if is_const_one(l) {
        Term::Const(ONE)
    } else {
        Term::Power(Box::new(l), Box::new(r))
    }
}

/// The simplified form of `t`: children first, then the rule of the node.
pub open spec fn simp<F: Fn(NumOp, u64, u64) -> u64>(t: Term, f: F) -> Term
    decreases t,
{
    match t {
        Term::Const(c) => Term::Const(c),
        Term::Var(n) => Term::Var(n),
        Term::Call(n, args) => Term::Call(n, simp_all(args, f)),
        Term::Add(a, b) => add_rule(simp(*a, f), simp(*b, f), f),
        Term::Sub(a, b) => sub_rule(simp(*a, f), simp(*b, f), f),
        Term::Mul(a, b) => mul_rule(simp(*a, f), simp(*b, f), f),
        Term::Div(a, b) => div_rule(simp(*a, f), simp(*b, f), f),
        Term::Power(a, b) => pow_rule(simp(*a, f), simp(*b, f), f),
        Term::Log(a, b) => Term::Log(Box::new(simp(*a, f)), Box::new(simp(*b, f))),
        Term::Trig(k, a) => Term::Trig(k, Box::new(simp(*a, f))),
        Term::Equal(a, b) => Term::Equal(Box::new(simp(*a, f)), Box::new(simp(*b, f))),
    }
}

/// Each term of `s` simplified.
pub open spec fn simp_all<F: Fn(NumOp, u64, u64) -> u64>(s: Seq<Term>, f: F) -> Seq<Term>
    decreases s,
{
    if s.len() == 0 {
        Seq::empty()
    } else {
        simp_all(s.drop_last(), f).push(simp(s.last(), f))
    }
}

/// `simp_all` keeps the length and simplifies each element.
pub proof fn lemma_simp_all<F: Fn(NumOp, u64, u64) -> u64>(s: Seq<Term>, f: F)
    ensures
        simp_all(s, f).len() == s.len(),
        forall|i: int| 0 <= i < s.len() ==> #[trigger] simp_all(s, f)[i] == simp(s[i], f),
    decreases s.len(),
{
    if s.len() > 0 {
        lemma_simp_all(s.drop_last(), f);
    }
}

impl Expr {
    /// The constant this expression is, if it is one.
    pub fn const_value(&self) -> (r: Option<u64>)
        ensures
            r == const_of(self@),
    {
        match self {
            Expr::Const(c) => Some(*c),
            _ => None,
        }
    }

    /// Simplifies the tree bottom-up, folding constants with `arith`.
    pub fn simplify<F: Fn(NumOp, u64, u64) -> u64>(&self, arith: &F) -> (r: Expr)
        requires
            is_arith(*arith),
        ensures
            r@ == simp(self@, *arith),
        decreases self,
    {
        match self {
            Expr::Const(c) => Expr::Const(*c),
            Expr::Var(n) => Expr::Var(n.clone()),
            Expr::Call(n, args) => {
                let new_args = simplify_all(args, arith);
                Expr::Call(n.clone(), new_args)
            },
            Expr::Add(a, b) => add_node(a.simplify(arith), b.simplify(arith), arith),
            Expr::Sub(a, b) => sub_node(a.simplify(arith), b.simplify(arith), arith),
            Expr::Mul(a, b) => mul_node(a.simplify(arith), b.simplify(arith), arith),
            Expr::Div(a, b) => div_node(a.simplify(arith), b.simplify(arith), arith),
            Expr::Power(a, b) => pow_node(a.simplify(arith), b.simplify(arith), arith),
            Expr::Log(a, b) => Expr::Log(Box::new(a.simplify(arith)), Box::new(b.simplify(arith))),
            Expr::Trig(k, a) => Expr::Trig(*k, Box::new(a.simplify(arith))),
            Expr::Equal(a, b) => Expr::Equal(
                Box::new(a.simplify(arith)),
                Box::new(b.simplify(arith)),
            ),
        }
    }
}

/// Each expression of `args` simplified, in order.
pub fn simplify_all<F: Fn(NumOp, u64, u64) -> u64>(args: &Vec<Expr>, arith: &F) -> (r: Vec<Expr>)
    requires
        is_arith(*arith),
    ensures
        terms_of(r@) == simp_all(terms_of(args@), *arith),
    decreases args,
{
    let mut r: Vec<Expr> = Vec::new();
    let mut i: usize = 0;
    proof {
        lemma_terms_of(args@);
    }
    while i < args.len()
        invariant
            is_arith(*arith),
            i <= args.len(),
            r@.len() == i,
            forall|j: int| 0 <= j < i ==> #[trigger] term_of(r@[j]) == simp(term_of(args@[j]), *arith),
        decreases args.len() - i,
    {
        proof {
            assert(decreases_to!(args => args@[i as int]));
        }
        let s = args[i].simplify(arith);
        r.push(s);
        i += 1;
    }
    proof {
        lemma_terms_of(r@);
        lemma_terms_of(args@);
        lemma_simp_all(terms_of(args@), *arith);
        assert(terms_of(r@) =~= simp_all(terms_of(args@), *arith));
    }
    r
}

fn add_node<F: Fn(NumOp, u64, u64) -> u64>(l: Expr, r: Expr, arith: &F) -> (res: Expr)
    requires
        is_arith(*arith),
    ensures
        res@ == add_rule(l@, r@, *arith),
{
    let lc = l.const_value();
    let rc = r.const_value();
    if lc.is_some() && rc.is_some() {
        Expr::Const(apply(arith, NumOp::Add, lc.unwrap(), rc.unwrap()))
    } else if lc.is_some() && is_zero(lc.unwrap()) {
        r
    } else if rc.is_some() && is_zero(rc.unwrap()) {
        l
    } else {
        Expr::Add(Box::new(l), Box::new(r))
    }
}

fn sub_node<F: Fn(NumOp, u64, u64) -> u64>(l: Expr, r: Expr, arith: &F) -> (res: Expr)
    requires
        is_arith(*arith),
    ensures
        res@ == sub_rule(l@, r@, *arith),
{
    let lc = l.const_value();
    let rc = r.const_value();
    if lc.is_some() && rc.is_some() {
        Expr::Const(apply(arith, NumOp::Sub, lc.unwrap(), rc.unwrap()))
    } else if rc.is_some() && is_zero(rc.unwrap()) {
        l
    } else {
        Expr::Sub(Box::new(l), Box::new(r))
    }
}

fn mul_node<F: Fn(NumOp, u64, u64) -> u64>(l: Expr, r: Expr, arith: &F) -> (res: Expr)
    requires
        is_arith(*arith),
    ensures
        res@ == mul_rule(l@, r@, *arith),
{
    let lc = l.const_value();
    let rc = r.const_value();
    if lc.is_some() && rc.is_some() {
        Expr::Const(apply(arith, NumOp::Mul, lc.unwrap(), rc.unwrap()))
    } else if (lc.is_some() && is_zero(lc.unwrap())) || (rc.is_some() && is_zero(rc.unwrap())) {
        Expr::Const(ZERO)
    } else if lc.is_some() && is_one(lc.unwrap()) {
        r
    } else if rc.is_some() && is_one(rc.unwrap()) {
        l
    } else {
        Expr::Mul(Box::new(l), Box::new(r))
    }
}

fn div_node<F: Fn(NumOp, u64, u64) -> u64>(l: Expr, r: Expr, arith: &F) -> (res: Expr)
    requires
        is_arith(*arith),
    ensures
        res@ == div_rule(l@, r@, *arith),
{
    let lc = l.const_value();
    let rc = r.const_value();
    if lc.is_some() && rc.is_some() {
        Expr::Const(apply(arith, NumOp::Div, lc.unwrap(), rc.unwrap()))
    } else if lc.is_some() && is_zero(lc.unwrap()) {
        Expr::Const(ZERO)
    } else if rc.is_some() && is_one(rc.unwrap()) {
        l
    } else {
        Expr::Div(Box::new(l), Box::new(r))
    }
}

fn pow_node<F: Fn(NumOp, u64, u64) -> u64>(l: Expr, r: Expr, arith: &F) -> (res: Expr)
    requires
        is_arith(*arith),
    ensures
        res@ == pow_rule(l@, r@, *arith),
{
    let lc = l.const_value();
    let rc = r.const_value();
    if lc.is_some() && rc.is_some() {
        Expr::Const(apply(arith, NumOp::Pow, lc.unwrap(), rc.unwrap()))
    } else if rc.is_some() && is_zero(rc.unwrap()) {
        Expr::Const(ONE)
    } else if rc.is_some() && is_one(rc.unwrap()) {
        l
    } else if lc.is_some() && is_zero(lc.unwrap()) {
        Expr::Const(ZERO)
    } else if lc.is_some() && is_one(lc.unwrap()) {
        Expr::Const(ONE)
    } else {
        Expr::Power(Box::new(l), Box::new(r))
    }
}

} // verus!

verus! {

/// Simplification is idempotent: simplifying a simplified term changes
/// nothing.
pub proof fn law_simplify_idempotent<F: Fn(NumOp, u64, u64) -> u64>(t: Term, f: F)
    ensures
        simp(simp(t, f), f) == simp(t, f),
    decreases t,
{
    match t {
        Term::Const(_) => {},
        Term::Var(_) => {},
        Term::Call(n, args) => {
            lemma_simplify_all_idempotent(args, f);
        },
        Term::Add(a, b) | Term::Sub(a, b) | Term::Mul(a, b) | Term::Div(a, b) | Term::Power(a, b)
        | Term::Log(a, b) | Term::Equal(a, b) => {
            law_simplify_idempotent(*a, f);
            law_simplify_idempotent(*b, f);
        },
        Term::Trig(_, a) => {
            law_simplify_idempotent(*a, f);
        },
    }
}

proof fn lemma_simplify_all_idempotent<F: Fn(NumOp, u64, u64) -> u64>(s: Seq<Term>, f: F)
    ensures
        simp_all(simp_all(s, f), f) == simp_all(s, f),
    decreases s,
{
    lemma_simp_all(s, f);
    lemma_simp_all(simp_all(s, f), f);
    assert forall|i: int| 0 <= i < s.len() implies #[trigger] simp_all(simp_all(s, f), f)[i]
        == simp_all(s, f)[i] by {
        law_simplify_idempotent(s[i], f);
    }
    assert(simp_all(simp_all(s, f), f) =~= simp_all(s, f));
}

} // verus!

verus! {

/// Multiplying by zero gives zero, and adding zero, multiplying by one or
/// raising to the power one gives the other operand simplified, whenever
/// that operand does not simplify to a constant (two constants are folded
/// instead).
pub proof fn law_simplifier_identities<F: Fn(NumOp, u64, u64) -> u64>(t: Term, f: F)
    requires
        !(simp(t, f) is Const),
    ensures
        simp(Term::Mul(Box::new(Term::Const(ZERO)), Box::new(t)), f) == Term::Const(ZERO),
        simp(Term::Mul(Box::new(t), Box::new(Term::Const(ZERO))), f) == Term::Const(ZERO),
        simp(Term::Add(Box::new(t), Box::new(Term::Const(ZERO))), f) == simp(t, f),
        simp(Term::Add(Box::new(Term::Const(ZERO)), Box::new(t)), f) == simp(t, f),
        simp(Term::Power(Box::new(t), Box::new(Term::Const(ONE))), f) == simp(t, f),
        simp(Term::Mul(Box::new(t), Box::new(Term::Const(ONE))), f) == simp(t, f),
{
    assert(simp(Term::Const(ZERO), f) == Term::Const(ZERO));
    assert(simp(Term::Const(ONE), f) == Term::Const(ONE));
    assert(const_of(simp(t, f)) is None);
    assert(is_zero_spec(ZERO));
}

} // verus!
