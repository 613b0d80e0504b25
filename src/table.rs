//! Named functions and the table that holds them.
use vstd::prelude::*;
use crate::diff::names;
use crate::error::CalcError;
use crate::expr::{Expr, Term, term_of, terms_of, lemma_terms_of};
use crate::num::{is_arith, is_nan_spec, num_eq, num_eq_spec, NumOp};
use crate::simplify::simp;

verus! {

broadcast use vstd::std_specs::vec::group_vec_axioms, vstd::seq::group_seq_axioms;

/// A named function: its parameters, in order, and its body.
#[derive(Debug)]
pub struct Function {
    pub name: String,
    pub params: Vec<String>,
    pub body: Expr,
}

/// The model of a `Function`.
pub struct FunctionModel {
    pub name: Seq<char>,
    pub params: Seq<Seq<char>>,
    pub body: Term,
}

impl View for Function {
    type V = FunctionModel;

    open spec fn view(&self) -> FunctionModel {
        FunctionModel { name: self.name@, params: names(self.params@), body: self.body@ }
    }
}

impl Function {
    /// A copy of the function.
    pub fn copy(&self) -> (r: Function)
        ensures
            r@ == self@,
    {
        let mut params: Vec<String> = Vec::new();
        let mut i: usize = 0;
        while i < self.params.len()
            invariant
                i <= self.params.len(),
                params@.len() == i,
                forall|j: int| 0 <= j < i ==> #[trigger] params@[j]@ == self.params@[j]@,
            decreases self.params.len() - i,
        {
            params.push(self.params[i].clone());
            i += 1;
        }
        assert(names(params@) =~= names(self.params@));
        Function { name: self.name.clone(), params, body: self.body.copy() }
    }
}

/// Structural equality in which constants compare as doubles do.
pub open spec fn term_eq(a: Term, b: Term) -> bool
    decreases a,
{
    match (a, b) {
        (Term::Const(x), Term::Const(y)) => num_eq_spec(x, y),
        (Term::Var(x), Term::Var(y)) => x == y,
        (Term::Call(n, xs), Term::Call(m, ys)) => n == m && terms_eq(xs, ys),
        (Term::Add(a1, a2), Term::Add(b1, b2)) => term_eq(*a1, *b1) && term_eq(*a2, *b2),
        (Term::Sub(a1, a2), Term::Sub(b1, b2)) => term_eq(*a1, *b1) && term_eq(*a2, *b2),
        (Term::Mul(a1, a2), Term::Mul(b1, b2)) => term_eq(*a1, *b1) && term_eq(*a2, *b2),
        (Term::Div(a1, a2), Term::Div(b1, b2)) => term_eq(*a1, *b1) && term_eq(*a2, *b2),
        (Term::Power(a1, a2), Term::Power(b1, b2)) => term_eq(*a1, *b1) && term_eq(*a2, *b2),
        (Term::Log(a1, a2), Term::Log(b1, b2)) => term_eq(*a1, *b1) && term_eq(*a2, *b2),
        (Term::Trig(k, a1), Term::Trig(l, b1)) => k == l && term_eq(*a1, *b1),
        (Term::Equal(a1, a2), Term::Equal(b1, b2)) => term_eq(*a1, *b1) && term_eq(*a2, *b2),
        _ => false,
    }
}

/// `xs` and `ys` have the same length and are equal term by term.
pub open spec fn terms_eq(xs: Seq<Term>, ys: Seq<Term>) -> bool
    decreases xs,
{
    if xs.len() != ys.len() {
        false
    } else if xs.len() == 0 {
        true
    } else {
        terms_eq(xs.drop_last(), ys.drop_last()) && term_eq(xs.last(), ys.last())
    }
}

proof fn lemma_terms_eq(xs: Seq<Term>, ys: Seq<Term>)
    requires
        xs.len() == ys.len(),
    ensures
        terms_eq(xs, ys) <==> forall|i: int| 0 <= i < xs.len() ==> #[trigger] term_eq(xs[i], ys[i]),
    decreases xs.len(),
{
    if xs.len() > 0 {
        let n = xs.len() - 1;
        let (xt, yt) = (xs.drop_last(), ys.drop_last());
        lemma_terms_eq(xt, yt);
        assert(terms_eq(xs, ys) == (terms_eq(xt, yt) && term_eq(xs[n], ys[n])));
        if terms_eq(xs, ys) {
            assert forall|i: int| 0 <= i < xs.len() implies #[trigger] term_eq(xs[i], ys[i]) by {
                if i < n {
                    assert(term_eq(xt[i], yt[i]));
                }
            }
        }
        if forall|i: int| 0 <= i < xs.len() ==> #[trigger] term_eq(xs[i], ys[i]) {
            assert forall|i: int| 0 <= i < n implies #[trigger] term_eq(xt[i], yt[i]) by {
                assert(term_eq(xs[i], ys[i]));
            }
            assert(term_eq(xs[n], ys[n]));
        }
    }
}

impl Expr {
    /// Whether the two trees have the same shape, names and constants, with
    /// constants compared as doubles.
    pub fn same_as(&self, other: &Expr) -> (r: bool)
        ensures
            r == term_eq(self@, other@),
        decreases self,
    {
        match (self, other) {
            (Expr::Const(x), Expr::Const(y)) => num_eq(*x, *y),
            (Expr::Var(x), Expr::Var(y)) => *x == *y,
            (Expr::Call(n, xs), Expr::Call(m, ys)) => {
                if !(*n == *m) || xs.len() != ys.len() {
                    proof {
                        lemma_terms_of(xs@);
                        lemma_terms_of(ys@);
                        if xs.len() != ys.len() {
                            assert(!terms_eq(terms_of(xs@), terms_of(ys@)));
                        }
                    }
                    return false;
                }
                same_all(xs, ys)
            },
            (Expr::Add(a1, a2), Expr::Add(b1, b2)) => a1.same_as(b1) && a2.same_as(b2),
            (Expr::Sub(a1, a2), Expr::Sub(b1, b2)) => a1.same_as(b1) && a2.same_as(b2),
            (Expr::Mul(a1, a2), Expr::Mul(b1, b2)) => a1.same_as(b1) && a2.same_as(b2),
            (Expr::Div(a1, a2), Expr::Div(b1, b2)) => a1.same_as(b1) && a2.same_as(b2),
            (Expr::Power(a1, a2), Expr::Power(b1, b2)) => a1.same_as(b1) && a2.same_as(b2),
            (Expr::Log(a1, a2), Expr::Log(b1, b2)) => a1.same_as(b1) && a2.same_as(b2),
            (Expr::Trig(k, a1), Expr::Trig(l, b1)) => *k == *l && a1.same_as(b1),
            (Expr::Equal(a1, a2), Expr::Equal(b1, b2)) => a1.same_as(b1) && a2.same_as(b2),
            _ => false,
        }
    }
}

fn same_all(xs: &Vec<Expr>, ys: &Vec<Expr>) -> (r: bool)
    requires
        xs.len() == ys.len(),
    ensures
        r == terms_eq(terms_of(xs@), terms_of(ys@)),
    decreases xs,
{
    proof {
        lemma_terms_of(xs@);
        lemma_terms_of(ys@);
        lemma_terms_eq(terms_of(xs@), terms_of(ys@));
    }
    let mut i: usize = 0;
    while i < xs.len()
        invariant
            i <= xs.len(),
            xs.len() == ys.len(),
            terms_of(xs@).len() == xs.len(),
            terms_of(ys@).len() == ys.len(),
            forall|j: int| 0 <= j < xs.len() ==> #[trigger] terms_of(xs@)[j] == term_of(xs@[j]),
            forall|j: int| 0 <= j < ys.len() ==> #[trigger] terms_of(ys@)[j] == term_of(ys@[j]),
            forall|j: int| 0 <= j < i ==> #[trigger] term_eq(term_of(xs@[j]), term_of(ys@[j])),
        decreases xs.len() - i,
    {
        proof {
            assert(decreases_to!(xs => xs@[i as int]));
        }
        if !xs[i].same_as(&ys[i]) {
            assert(terms_of(xs@)[i as int] == term_of(xs@[i as int]));
            assert(terms_of(ys@)[i as int] == term_of(ys@[i as int]));
            assert(!term_eq(terms_of(xs@)[i as int], terms_of(ys@)[i as int]));
            proof {
                lemma_terms_eq(terms_of(xs@), terms_of(ys@));
            }
            return false;
        }
        i += 1;
    }
    proof {
        assert forall|j: int| 0 <= j < xs.len() implies #[trigger] term_eq(
            terms_of(xs@)[j],
            terms_of(ys@)[j],
        ) by {
            assert(term_eq(term_of(xs@[j]), term_of(ys@[j])));
        }
    }
    true
}

/// The functions of a table, by name; a later entry of a name replaces an
/// earlier one.
pub open spec fn table_map(s: Seq<(String, Function)>) -> Map<Seq<char>, FunctionModel>
    decreases s.len(),
{
    if s.len() == 0 {
        Map::empty()
    } else {
        table_map(s.drop_last()).insert(s.last().0@, s.last().1@)
    }
}

/// No two entries share a name.
pub open spec fn distinct_keys(s: Seq<(String, Function)>) -> bool {
    forall|i: int, j: int| 0 <= i < j < s.len() ==> s[i].0@ != s[j].0@
}

proof fn lemma_table_map(s: Seq<(String, Function)>)
    requires
        distinct_keys(s),
    ensures
        forall|n: Seq<char>| #[trigger]
            table_map(s).contains_key(n) <==> exists|i: int| 0 <= i < s.len() && s[i].0@ == n,
        forall|i: int| 0 <= i < s.len() ==> #[trigger] table_map(s)[s[i].0@] == s[i].1@,
    decreases s.len(),
{
    if s.len() > 0 {
        let t = s.drop_last();
        lemma_table_map(t);
        assert forall|n: Seq<char>| #[trigger] table_map(s).contains_key(n) implies exists|i: int|
            0 <= i < s.len() && s[i].0@ == n by {
            if n != s.last().0@ {
                assert(table_map(t).contains_key(n));
                let i = choose|i: int| 0 <= i < t.len() && t[i].0@ == n;
                assert(s[i].0@ == n);
            } else {
                assert(s[s.len() - 1].0@ == n);
            }
        }
        assert forall|n: Seq<char>| (exists|i: int| 0 <= i < s.len() && s[i].0@ == n) implies
            #[trigger] table_map(s).contains_key(n) by {
            let i = choose|i: int| 0 <= i < s.len() && s[i].0@ == n;
            if i < s.len() - 1 {
                assert(t[i].0@ == n);
                assert(table_map(t).contains_key(n));
            }
        }
        assert forall|i: int| 0 <= i < s.len() implies #[trigger] table_map(s)[s[i].0@] == s[i].1@ by {
            if i < s.len() - 1 {
                assert(t[i] == s[i]);
                assert(s[i].0@ != s[s.len() - 1].0@);
                assert(table_map(t)[t[i].0@] == t[i].1@);
            }
        }
    }
}

/// The function table: at most one function for each name.
///
/// Lookups ask for a name and an arity, but entries are keyed by the name
/// alone: storing a function replaces the one of the same name whatever its
/// arity, so a name has one arity at a time.
pub struct FunctionTable {
    entries: Vec<(String, Function)>,
}

impl View for FunctionTable {
    type V = Map<Seq<char>, FunctionModel>;

    closed spec fn view(&self) -> Map<Seq<char>, FunctionModel> {
        table_map(self.entries@)
    }
}

impl FunctionTable {
    pub closed spec fn wf(&self) -> bool {
        distinct_keys(self.entries@)
    }

    pub fn new() -> (r: FunctionTable)
        ensures
            r.wf(),
            r@ == Map::<Seq<char>, FunctionModel>::empty(),
    {
        FunctionTable { entries: Vec::new() }
    }

    /// The number of functions held.
    pub fn len(&self) -> (r: usize)
        requires
            self.wf(),
        ensures
            r == self@.dom().len(),
    {
        proof {
            self.lemma_size();
        }
        self.entries.len()
    }

    proof fn lemma_size(&self)
        requires
            self.wf(),
        ensures
            self@.dom().len() == self.entries@.len(),
            self@.dom().finite(),
        decreases self.entries@.len(),
    {
        lemma_dom_len(self.entries@);
    }

    /// The position of the entry named `name`.
    fn position(&self, name: &String) -> (r: Option<usize>)
        requires
            self.wf(),
        ensures
            r is Some <==> self@.contains_key(name@),
            r is Some ==> r->Some_0 < self.entries@.len() && self.entries@[r->Some_0 as int].0@
                == name@,
    {
        proof {
            lemma_table_map(self.entries@);
        }
        let mut i: usize = 0;
        while i < self.entries.len()
            invariant
                self.wf(),
                i <= self.entries@.len(),
                forall|j: int| 0 <= j < i ==> self.entries@[j].0@ != name@,
            decreases self.entries.len() - i,
        {
            if self.entries[i].0 == *name {
                assert(self.entries@[i as int].0@ == name@);
                proof {
                    lemma_table_map(self.entries@);
                }
                assert(exists|j: int| 0 <= j < self.entries@.len() && self.entries@[j].0@ == name@);
                return Some(i);
            }
            i += 1;
        }
        None
    }

    /// Stores `func` under `name`, replacing whatever was stored under it,
    /// whatever its arity.
    pub fn insert(&mut self, name: String, func: Function)
        requires
            old(self).wf(),
        ensures
            final(self).wf(),
            final(self)@ == old(self)@.insert(name@, func@),
    {
        proof {
            lemma_table_map(self.entries@);
        }
        let ghost key = name@;
        let ghost model = func@;
        match self.position(&name) {
            Some(i) => {
                self.entries.set(i, (name, func));
                proof {
                    let olds = old(self).entries@;
                    let news = self.entries@;
                    assert(news == olds.update(i as int, news[i as int]));
                    assert(distinct_keys(news)) by {
                        assert forall|a: int, b: int| 0 <= a < b < news.len() implies news[a].0@
                            != news[b].0@ by {
                            assert(olds[a].0@ != olds[b].0@);
                        }
                    }
                    lemma_table_map(olds);
                    lemma_table_map(news);
                    assert forall|n: Seq<char>| #[trigger] self@.contains_key(n) <==> old(
                        self,
                    )@.insert(key, model).contains_key(n) by {
                        if n != key {
                            if self@.contains_key(n) {
                                let j = choose|j: int| 0 <= j < news.len() && news[j].0@ == n;
                                assert(olds[j].0@ == n);
                            }
                            if old(self)@.contains_key(n) {
                                let j = choose|j: int| 0 <= j < olds.len() && olds[j].0@ == n;
                                assert(news[j].0@ == n);
                            }
                        } else {
                            assert(news[i as int].0@ == n);
                        }
                    }
                    assert forall|n: Seq<char>| #[trigger] self@.contains_key(n) implies self@[n]
                        == old(self)@.insert(key, model)[n] by {
                        let j = choose|j: int| 0 <= j < news.len() && news[j].0@ == n;
                        if j != i {
                            assert(news[j] == olds[j]);
                            assert(table_map(olds)[olds[j].0@] == olds[j].1@);
                        }
                    }
                    assert(self@ =~= old(self)@.insert(key, model));
                }
            },
            None => {
                self.entries.push((name, func));
                assert(self.entries@.drop_last() == old(self).entries@);
            },
        }
    }

    /// The function stored under `name`, if it takes `argc` arguments.
    pub fn find(&self, name: &String, argc: usize) -> (r: Option<&Function>)
        requires
            self.wf(),
        ensures
            r is Some <==> (self@.contains_key(name@) && self@[name@].params.len() == argc),
            r is Some ==> r->Some_0@ == self@[name@],
    {
        proof {
            lemma_table_map(self.entries@);
        }
        match self.position(name) {
            Some(i) => {
                let f = &self.entries[i].1;
                if f.params.len() == argc {
                    Some(f)
                } else {
                    None
                }
            },
            None => None,
        }
    }

    /// Whether `func` may be stored: `Ok(false)` when no function of its
    /// name and arity is held, `Ok(true)` when one is held whose body,
    /// simplified, equals `func`'s simplified body, and a conflict when one
    /// is held with another body.  Constants are folded by `arith`.
    pub fn check_duplicate<F: Fn(NumOp, u64, u64) -> u64>(&self, func: &Function, arith: &F) -> (r:
        Result<bool, CalcError>)
        requires
            self.wf(),
            is_arith(*arith),
        ensures
            r == dup_result(self@, func@, *arith),
    {
        match self.find(&func.name, func.params.len()) {
            Some(existing) => {
                let old_body = existing.body.simplify(arith);
                let new_body = func.body.simplify(arith);
                if old_body.same_as(&new_body) {
                    Ok(true)
                } else {
                    Err(CalcError::Conflict)
                }
            },
            None => Ok(false),
        }
    }
}

/// What `check_duplicate` answers for `f` against the table `t`.
pub open spec fn dup_result<F: Fn(NumOp, u64, u64) -> u64>(
    t: Map<Seq<char>, FunctionModel>,
    f: FunctionModel,
    arith: F,
) -> Result<bool, CalcError> {
    if t.contains_key(f.name) && t[f.name].params.len() == f.params.len() {
        if term_eq(simp(t[f.name].body, arith), simp(f.body, arith)) {
            Ok(true)
        } else {
            Err(CalcError::Conflict)
        }
    } else {
        Ok(false)
    }
}

proof fn lemma_dom_len(s: Seq<(String, Function)>)
    requires
        distinct_keys(s),
    ensures
        table_map(s).dom().len() == s.len(),
        table_map(s).dom().finite(),
    decreases s.len(),
{
    if s.len() > 0 {
        let t = s.drop_last();
        lemma_dom_len(t);
        lemma_table_map(t);
        assert(!table_map(t).contains_key(s.last().0@)) by {
            if table_map(t).contains_key(s.last().0@) {
                let i = choose|i: int| 0 <= i < t.len() && t[i].0@ == s.last().0@;
                assert(s[i].0@ == s[s.len() - 1].0@);
            }
        }
    }
}

} // verus!

verus! {

/// No constant in `t` is a NaN.
pub open spec fn no_nan(t: Term) -> bool
    decreases t,
{
    match t {
        Term::Const(c) => !is_nan_spec(c),
        Term::Var(_) => true,
        Term::Call(_, args) => forall|i: int| 0 <= i < args.len() ==> no_nan(#[trigger] args[i]),
        Term::Add(a, b) | Term::Sub(a, b) | Term::Mul(a, b) | Term::Div(a, b) | Term::Power(a, b)
        | Term::Log(a, b) | Term::Equal(a, b) => no_nan(*a) && no_nan(*b),
        Term::Trig(_, a) => no_nan(*a),
    }
}

/// A term free of NaN constants equals itself.
pub proof fn lemma_term_eq_refl(t: Term)
    requires
        no_nan(t),
    ensures
        term_eq(t, t),
    decreases t,
{
    match t {
        Term::Call(_, args) => {
            assert forall|i: int| 0 <= i < args.len() implies #[trigger] term_eq(args[i], args[i]) by {
                lemma_term_eq_refl(args[i]);
            }
            lemma_terms_eq(args, args);
        },
        Term::Add(a, b) | Term::Sub(a, b) | Term::Mul(a, b) | Term::Div(a, b) | Term::Power(a, b)
        | Term::Log(a, b) | Term::Equal(a, b) => {
            lemma_term_eq_refl(*a);
            lemma_term_eq_refl(*b);
        },
        Term::Trig(_, a) => {
            lemma_term_eq_refl(*a);
        },
        _ => {},
    }
}

} // verus!
