//! A list of terms, differentiated and integrated term by term.
use vstd::prelude::*;
use crate::monomial::{LN_TERM, Monomial, MonomialModel, term_derivative, term_integral};
use crate::num::{NumOp, is_arith};

verus! {

#[derive(Debug)]
pub struct Polynomial {
    pub monomials: Vec<Monomial>,
}

impl View for Polynomial {
    type V = Seq<MonomialModel>;

    open spec fn view(&self) -> Seq<MonomialModel> {
        self.monomials@.map_values(|m: Monomial| m@)
    }
}

/// The term-by-term integral, or `None` if some term has none.
pub open spec fn integral_all<F: Fn(NumOp, u64, u64) -> u64>(ms: Seq<MonomialModel>, f: F) -> Option<
    Seq<MonomialModel>,
> {
    if forall|i: int| 0 <= i < ms.len() ==> #[trigger] term_integral(ms[i], f) is Some {
        Some(ms.map_values(|m: MonomialModel| term_integral(m, f)->Some_0))
    } else {
        None
    }
}

impl Polynomial {
    pub fn new(monomials: Vec<Monomial>) -> (r: Polynomial)
        ensures
            r.monomials == monomials,
    {
        Polynomial { monomials }
    }

    /// The derivative of each term.
    pub fn derivative<F: Fn(NumOp, u64, u64) -> u64>(&self, arith: &F) -> (r: Polynomial)
        requires
            is_arith(*arith),
        ensures
            r@ == self@.map_values(|m: MonomialModel| term_derivative(m, *arith)),
    {
        let mut out: Vec<Monomial> = Vec::new();
        let mut i: usize = 0;
        while i < self.monomials.len()
            invariant
                is_arith(*arith),
                i <= self.monomials.len(),
                out@.len() == i,
                forall|j: int| 0 <= j < i ==> #[trigger] out@[j]@ == term_derivative(
                    self.monomials@[j]@,
                    *arith,
                ),
            decreases self.monomials.len() - i,
        {
            out.push(self.monomials[i].derivative(arith));
            i += 1;
        }
        let r = Polynomial { monomials: out };
        assert(r@ =~= self@.map_values(|m: MonomialModel| term_derivative(m, *arith)));
        r
    }

    /// The integral of each term; the first term without one is an error.
    pub fn integral<F: Fn(NumOp, u64, u64) -> u64>(&self, arith: &F) -> (r: Result<Polynomial, String>)
        requires
            is_arith(*arith),
        ensures
            match integral_all(self@, *arith) {
                Some(ms) => r is Ok && r->Ok_0@ == ms,
                None => r is Err && r->Err_0@ == LN_TERM@,
            },
    {
        let mut out: Vec<Monomial> = Vec::new();
        let mut i: usize = 0;
        while i < self.monomials.len()
            invariant
                is_arith(*arith),
                i <= self.monomials.len(),
                out@.len() == i,
                forall|j: int| 0 <= j < i ==> term_integral(#[trigger] self@[j], *arith) is Some
                    && out@[j]@ == term_integral(self@[j], *arith)->Some_0,
            decreases self.monomials.len() - i,
        {
            match self.monomials[i].integral(arith) {
                Ok(m) => out.push(m),
                Err(e) => {
                    assert(term_integral(self@[i as int], *arith) is None);
                    return Err(e);
                },
            }
            i += 1;
        }
        let r = Polynomial { monomials: out };
        assert(r@ =~= self@.map_values(|m: MonomialModel| term_integral(m, *arith)->Some_0));
        Ok(r)
    }
}

} // verus!
