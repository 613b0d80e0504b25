//! Rendering expressions and functions as infix text.
//!
//! A subtree is parenthesised exactly when its precedence is below the one
//! its position asks for; the right operand of a binary operator asks for
//! one level more than the operator has, so `a-(b-c)` keeps its
//! parentheses.  Constants are written by a caller-supplied function of the
//! bits, except that a constant within `1e-12` of Euler's number is `e`.
use vstd::prelude::*;
use crate::diff::names;
use crate::expr::{Expr, Term, TrigKind, term_of, terms_of, lemma_terms_of};
use crate::num::{near_e, near_e_spec};
use crate::table::{Function, FunctionModel};

verus! {

broadcast use vstd::std_specs::vec::group_vec_axioms, vstd::seq::group_seq_axioms;

/// The text that `show` gives for the bits `b`.
pub open spec fn shown<G: Fn(u64) -> String>(show: G, b: u64) -> Seq<char> {
    (choose|s: String| show.ensures((b,), s))@
}

/// `show` can be called on all bits and its text depends on the bits alone.
pub open spec fn is_shower<G: Fn(u64) -> String>(show: G) -> bool {
    &&& forall|b: u64| #[trigger] show.requires((b,))
    &&& forall|b: u64, s: String| #[trigger] show.ensures((b,), s) ==> s@ == shown(show, b)
}

/// The precedence of a node: the higher, the tighter it binds.
pub open spec fn prec(t: Term) -> int {
    match t {
        Term::Equal(_, _) => 0,
        Term::Add(_, _) | Term::Sub(_, _) => 1,
        Term::Mul(_, _) | Term::Div(_, _) => 2,
        Term::Power(_, _) => 3,
        _ => 4,
    }
}

pub open spec fn trig_name(k: TrigKind) -> Seq<char> {
    match k {
        TrigKind::Sin => "sin"@,
        TrigKind::Cos => "cos"@,
        TrigKind::Tan => "tan"@,
        TrigKind::Arcsin => "arcsin"@,
        TrigKind::Arccos => "arccos"@,
        TrigKind::Arctan => "arctan"@,
        TrigKind::Csc => "csc"@,
        TrigKind::Sec => "sec"@,
        TrigKind::Cot => "cot"@,
    }
}

/// The text of `t` in a position that asks for precedence `parent`.
pub open spec fn rendered<G: Fn(u64) -> String>(t: Term, parent: int, show: G) -> Seq<char>
    decreases t, 1int,
{
    if prec(t) < parent {
        "("@ + bare(t, show) + ")"@
    } else {
        bare(t, show)
    }
}

/// The text of `t` without parentheses around it.
pub open spec fn bare<G: Fn(u64) -> String>(t: Term, show: G) -> Seq<char>
    decreases t, 0int,
{
    match t {
        Term::Const(c) => if near_e_spec(c) {
            "e"@
        } else {
            shown(show, c)
        },
        Term::Var(n) => n,
        Term::Call(n, args) => n + "("@ + rendered_list(args, show) + ")"@,
        Term::Add(a, b) => rendered(*a, 1, show) + "+"@ + rendered(*b, 2, show),
        Term::Sub(a, b) => rendered(*a, 1, show) + "-"@ + rendered(*b, 2, show),
        Term::Mul(a, b) => rendered(*a, 2, show) + "*"@ + rendered(*b, 3, show),
        Term::Div(a, b) => rendered(*a, 2, show) + "/"@ + rendered(*b, 3, show),
        Term::Power(a, b) => rendered(*a, 3, show) + "^"@ + rendered(*b, 4, show),
        Term::Log(a, b) => "log("@ + rendered(*a, 0, show) + ","@ + rendered(*b, 0, show) + ")"@,
        Term::Trig(k, a) => trig_name(k) + "("@ + rendered(*a, 0, show) + ")"@,
        Term::Equal(a, b) => rendered(*a, 0, show) + "="@ + rendered(*b, 0, show),
    }
}

/// The texts of `ts`, separated by commas.
pub open spec fn rendered_list<G: Fn(u64) -> String>(ts: Seq<Term>, show: G) -> Seq<char>
    decreases ts, 0int,
{
    if ts.len() == 0 {
        Seq::empty()
    } else if ts.len() == 1 {
        rendered(ts[0], 0, show)
    } else {
        rendered_list(ts.drop_last(), show) + ","@ + rendered(ts.last(), 0, show)
    }
}

fn trig_text(k: TrigKind) -> (r: &'static str)
    ensures
        r@ == trig_name(k),
{
    match k {
        TrigKind::Sin => "sin",
        TrigKind::Cos => "cos",
        TrigKind::Tan => "tan",
        TrigKind::Arcsin => "arcsin",
        TrigKind::Arccos => "arccos",
        TrigKind::Arctan => "arctan",
        TrigKind::Csc => "csc",
        TrigKind::Sec => "sec",
        TrigKind::Cot => "cot",
    }
}

fn precedence(e: &Expr) -> (r: u8)
    ensures
        r as int == prec(e@),
{
    match e {
        Expr::Equal(_, _) => 0,
        Expr::Add(_, _) | Expr::Sub(_, _) => 1,
        Expr::Mul(_, _) | Expr::Div(_, _) => 2,
        Expr::Power(_, _) => 3,
        _ => 4,
    }
}

/// Appends the text of `e` in a position that asks for precedence `parent`.
fn fmt_with_prec<G: Fn(u64) -> String>(e: &Expr, out: &mut String, parent: u8, show: &G)
    requires
        is_shower(*show),
    ensures
        final(out)@ == old(out)@ + rendered(e@, parent as int, *show),
    decreases e, 1int,
{
    if precedence(e) < parent {
        out.append("(");
        fmt_bare(e, out, show);
        out.append(")");
    } else {
        fmt_bare(e, out, show);
    }
}

/// Appends the text of `e` without parentheses around it.
fn fmt_bare<G: Fn(u64) -> String>(e: &Expr, out: &mut String, show: &G)
    requires
        is_shower(*show),
    ensures
        final(out)@ == old(out)@ + bare(e@, *show),
    decreases e, 0int,
{
    let ghost start = out@;
    match e {
        Expr::Const(c) => {
            if near_e(*c) {
                out.append("e");
            } else {
                let s = show(*c);
                out.append(s.as_str());
            }
        },
        Expr::Var(n) => {
            out.append(n.as_str());
        },
        Expr::Call(n, args) => {
            out.append(n.as_str());
            out.append("(");
            fmt_list(args, out, show);
            out.append(")");
        },
        Expr::Add(a, b) => {
            fmt_with_prec(a, out, 1, show);
            out.append("+");
            fmt_with_prec(b, out, 2, show);
        },
        Expr::Sub(a, b) => {
            fmt_with_prec(a, out, 1, show);
            out.append("-");
            fmt_with_prec(b, out, 2, show);
        },
        Expr::Mul(a, b) => {
            fmt_with_prec(a, out, 2, show);
            out.append("*");
            fmt_with_prec(b, out, 3, show);
        },
        Expr::Div(a, b) => {
            fmt_with_prec(a, out, 2, show);
            out.append("/");
            fmt_with_prec(b, out, 3, show);
        },
        Expr::Power(a, b) => {
            fmt_with_prec(a, out, 3, show);
            out.append("^");
            fmt_with_prec(b, out, 4, show);
        },
        Expr::Log(a, b) => {
            out.append("log(");
            fmt_with_prec(a, out, 0, show);
            out.append(",");
            fmt_with_prec(b, out, 0, show);
            out.append(")");
        },
        Expr::Trig(k, a) => {
            out.append(trig_text(*k));
            out.append("(");
            fmt_with_prec(a, out, 0, show);
            out.append(")");
        },
        Expr::Equal(a, b) => {
            fmt_with_prec(a, out, 0, show);
            out.append("=");
            fmt_with_prec(b, out, 0, show);
        },
    }
    assert(out@ =~= start + bare(e@, *show));
}

/// Appends the texts of `args`, separated by commas.
fn fmt_list<G: Fn(u64) -> String>(args: &Vec<Expr>, out: &mut String, show: &G)
    requires
        is_shower(*show),
    ensures
        final(out)@ == old(out)@ + rendered_list(terms_of(args@), *show),
    decreases args, 0int,
{
    let ghost start = out@;
    let ghost ts = terms_of(args@);
    proof {
        lemma_terms_of(args@);
        assert(ts.take(0) =~= Seq::<Term>::empty());
        assert(out@ =~= start + rendered_list(ts.take(0), *show));
    }
    let mut i: usize = 0;
    while i < args.len()
        invariant
            is_shower(*show),
            ts == terms_of(args@),
            ts.len() == args.len(),
            forall|j: int| 0 <= j < args.len() ==> #[trigger] ts[j] == term_of(args@[j]),
            i <= args.len(),
            out@ == start + rendered_list(ts.take(i as int), *show),
        decreases args.len() - i,
    {
        proof {
            assert(decreases_to!(args => args@[i as int]));
            assert(ts.take(i + 1).drop_last() =~= ts.take(i as int));
            assert(ts.take(i + 1).last() == ts[i as int]);
        }
        if i > 0 {
            out.append(",");
        }
        fmt_with_prec(&args[i], out, 0, show);
        proof {
            if i == 0 {
                assert(ts.take(1)[0] == ts[0]);
            }
        }
        i += 1;
    }
    assert(ts.take(i as int) =~= ts);
}

impl Expr {
    /// The text of the expression; `show` writes constants.
    pub fn render<G: Fn(u64) -> String>(&self, show: &G) -> (r: String)
        requires
            is_shower(*show),
        ensures
            r@ == rendered(self@, 0, *show),
    {
        let mut out = String::new();
        fmt_with_prec(self, &mut out, 0, show);
        out
    }
}

/// The text `name(x,y,...)=body` of a function.
pub open spec fn function_text<G: Fn(u64) -> String>(f: FunctionModel, show: G) -> Seq<char> {
    f.name + "("@ + rendered_list(f.params.map_values(|p: Seq<char>| Term::Var(p)), show) + ")="@
        + rendered(f.body, 0, show)
}

impl Function {
    /// The text `name(x,y,...)=body`; `show` writes constants.
    pub fn render<G: Fn(u64) -> String>(&self, show: &G) -> (r: String)
        requires
            is_shower(*show),
        ensures
            r@ == function_text(self@, *show),
    {
        let mut vars: Vec<Expr> = Vec::new();
        let mut i: usize = 0;
        while i < self.params.len()
            invariant
                i <= self.params.len(),
                vars@.len() == i,
                forall|j: int| 0 <= j < i ==> #[trigger] vars@[j]@ == Term::Var(self.params@[j]@),
            decreases self.params.len() - i,
        {
            vars.push(Expr::Var(self.params[i].clone()));
            i += 1;
        }
        proof {
            lemma_terms_of(vars@);
            assert forall|j: int| 0 <= j < vars@.len() implies #[trigger] terms_of(vars@)[j]
                == names(self.params@).map_values(|p: Seq<char>| Term::Var(p))[j] by {
                assert(vars@[j]@ == Term::Var(self.params@[j]@));
            }
            assert(terms_of(vars@) =~= names(self.params@).map_values(|p: Seq<char>| Term::Var(p)));
        }
        let mut out = self.name.clone();
        out.append("(");
        fmt_list(&vars, &mut out, show);
        out.append(")=");
        fmt_with_prec(&self.body, &mut out, 0, show);
        out
    }
}

} // verus!
