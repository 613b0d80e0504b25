//! The expression tree, its mathematical model, and deep copies.
use vstd::prelude::*;

verus! {

broadcast use vstd::std_specs::vec::group_vec_axioms, vstd::seq::group_seq_axioms;

/// The trigonometric functions that an expression can apply.
#[derive(Clone, Copy, Debug, PartialEq, Eq, Structural)]
pub enum TrigKind {
    Sin,
    Cos,
    Tan,
    Arcsin,
    Arccos,
    Arctan,
    Csc,
    Sec,
    Cot,
}

/// An expression tree.  Each compound node owns its children.
///
/// `Const` holds the bits of an IEEE-754 double (see `num`).
#[derive(Debug)]
pub enum Expr {
    Const(u64),
    Var(String),
    Call(String, Vec<Expr>),
    Add(Box<Expr>, Box<Expr>),
    Sub(Box<Expr>, Box<Expr>),
    Mul(Box<Expr>, Box<Expr>),
    Div(Box<Expr>, Box<Expr>),
    Power(Box<Expr>, Box<Expr>),
    /// `Log(base, argument)`.
    Log(Box<Expr>, Box<Expr>),
    Trig(TrigKind, Box<Expr>),
    Equal(Box<Expr>, Box<Expr>),
}

/// The mathematical model of an `Expr`: names are character sequences and
/// the arguments of a call a sequence of terms.
pub enum Term {
    Const(u64),
    Var(Seq<char>),
    Call(Seq<char>, Seq<Term>),
    Add(Box<Term>, Box<Term>),
    Sub(Box<Term>, Box<Term>),
    Mul(Box<Term>, Box<Term>),
    Div(Box<Term>, Box<Term>),
    Power(Box<Term>, Box<Term>),
    Log(Box<Term>, Box<Term>),
    Trig(TrigKind, Box<Term>),
    Equal(Box<Term>, Box<Term>),
}

pub open spec fn term_of(e: Expr) -> Term
    decreases e,
{
    match e {
        Expr::Const(c) => Term::Const(c),
        Expr::Var(n) => Term::Var(n@),
        Expr::Call(n, args) => Term::Call(n@, terms_of(args@)),
        Expr::Add(a, b) => Term::Add(Box::new(term_of(*a)), Box::new(term_of(*b))),
        Expr::Sub(a, b) => Term::Sub(Box::new(term_of(*a)), Box::new(term_of(*b))),
        Expr::Mul(a, b) => Term::Mul(Box::new(term_of(*a)), Box::new(term_of(*b))),
        Expr::Div(a, b) => Term::Div(Box::new(term_of(*a)), Box::new(term_of(*b))),
        Expr::Power(a, b) => Term::Power(Box::new(term_of(*a)), Box::new(term_of(*b))),
        Expr::Log(a, b) => Term::Log(Box::new(term_of(*a)), Box::new(term_of(*b))),
        Expr::Trig(k, a) => Term::Trig(k, Box::new(term_of(*a))),
        Expr::Equal(a, b) => Term::Equal(Box::new(term_of(*a)), Box::new(term_of(*b))),
    }
}

pub open spec fn terms_of(s: Seq<Expr>) -> Seq<Term>
    decreases s,
{
    if s.len() == 0 {
        Seq::empty()
    } else {
        terms_of(s.drop_last()).push(term_of(s.last()))
    }
}

impl View for Expr {
    type V = Term;

    open spec fn view(&self) -> Term {
        term_of(*self)
    }
}

/// `terms_of` keeps the length and models each element.
pub proof fn lemma_terms_of(s: Seq<Expr>)
    ensures
        terms_of(s).len() == s.len(),
        forall|i: int| 0 <= i < s.len() ==> #[trigger] terms_of(s)[i] == term_of(s[i]),
    decreases s.len(),
{
    if s.len() > 0 {
        lemma_terms_of(s.drop_last());
    }
}

impl Expr {
    /// A copy of the tree.
    pub fn copy(&self) -> (r: Expr)
        ensures
            r@ == self@,
        decreases self,
    {
        match self {
            Expr::Const(c) => Expr::Const(*c),
            Expr::Var(n) => Expr::Var(n.clone()),
            Expr::Call(n, args) => {
                let copied = copy_all(args);
                Expr::Call(n.clone(), copied)
            },
            Expr::Add(a, b) => Expr::Add(Box::new(a.copy()), Box::new(b.copy())),
            Expr::Sub(a, b) => Expr::Sub(Box::new(a.copy()), Box::new(b.copy())),
            Expr::Mul(a, b) => Expr::Mul(Box::new(a.copy()), Box::new(b.copy())),
            Expr::Div(a, b) => Expr::Div(Box::new(a.copy()), Box::new(b.copy())),
            Expr::Power(a, b) => Expr::Power(Box::new(a.copy()), Box::new(b.copy())),
            Expr::Log(a, b) => Expr::Log(Box::new(a.copy()), Box::new(b.copy())),
            Expr::Trig(k, a) => Expr::Trig(*k, Box::new(a.copy())),
            Expr::Equal(a, b) => Expr::Equal(Box::new(a.copy()), Box::new(b.copy())),
        }
    }
}

/// Copies of each expression of `args`, in order.
pub fn copy_all(args: &Vec<Expr>) -> (r: Vec<Expr>)
    ensures
        terms_of(r@) == terms_of(args@),
    decreases args,
{
    let mut r: Vec<Expr> = Vec::new();
    let mut i: usize = 0;
    while i < args.len()
        invariant
            i <= args.len(),
            r@.len() == i,
            forall|j: int| 0 <= j < i ==> #[trigger] term_of(r@[j]) == term_of(args@[j]),
        decreases args.len() - i,
    {
        proof {
            assert(decreases_to!(args => args@[i as int]));
        }
        let c = args[i].copy();
        r.push(c);
        i += 1;
    }
    proof {
        lemma_terms_of(r@);
        lemma_terms_of(args@);
        assert(terms_of(r@) =~= terms_of(args@));
    }
    r
}

} // verus!

verus! {

impl Term {
    pub open spec fn sum(a: Term, b: Term) -> Term {
        Term::Add(Box::new(a), Box::new(b))
    }

    pub open spec fn difference(a: Term, b: Term) -> Term {
        Term::Sub(Box::new(a), Box::new(b))
    }

    pub open spec fn product(a: Term, b: Term) -> Term {
        Term::Mul(Box::new(a), Box::new(b))
    }

    pub open spec fn quotient(a: Term, b: Term) -> Term {
        Term::Div(Box::new(a), Box::new(b))
    }

    pub open spec fn power(a: Term, b: Term) -> Term {
        Term::Power(Box::new(a), Box::new(b))
    }

    pub open spec fn log(base: Term, arg: Term) -> Term {
        Term::Log(Box::new(base), Box::new(arg))
    }

    pub open spec fn trig(k: TrigKind, a: Term) -> Term {
        Term::Trig(k, Box::new(a))
    }
}

impl Expr {
    pub fn sum(a: Expr, b: Expr) -> (r: Expr)
        ensures
            r@ == Term::sum(a@, b@),
    {
        Expr::Add(Box::new(a), Box::new(b))
    }

    pub fn difference(a: Expr, b: Expr) -> (r: Expr)
        ensures
            r@ == Term::difference(a@, b@),
    {
        Expr::Sub(Box::new(a), Box::new(b))
    }

    pub fn product(a: Expr, b: Expr) -> (r: Expr)
        ensures
            r@ == Term::product(a@, b@),
    {
        Expr::Mul(Box::new(a), Box::new(b))
    }

    pub fn quotient(a: Expr, b: Expr) -> (r: Expr)
        ensures
            r@ == Term::quotient(a@, b@),
    {
        Expr::Div(Box::new(a), Box::new(b))
    }

    pub fn power(a: Expr, b: Expr) -> (r: Expr)
        ensures
            r@ == Term::power(a@, b@),
    {
        Expr::Power(Box::new(a), Box::new(b))
    }

    pub fn log(base: Expr, arg: Expr) -> (r: Expr)
        ensures
            r@ == Term::log(base@, arg@),
    {
        Expr::Log(Box::new(base), Box::new(arg))
    }

    pub fn trig(k: TrigKind, a: Expr) -> (r: Expr)
        ensures
            r@ == Term::trig(k, a@),
    {
        Expr::Trig(k, Box::new(a))
    }
}

} // verus!
