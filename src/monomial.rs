//! A single term `coefficient * variable ^ exponent`, with its power-rule
//! derivative and antiderivative.  Both numbers are bits of doubles.
use vstd::prelude::*;
use crate::num::{NumOp, num_result, is_arith, apply, NEG_ZERO, ONE, ZERO};

verus! {

/// The error of an integral that would be a logarithm.
pub const LN_TERM: &'static str = "integral has ln term when exponent = -1";

/// Bits of `2^-23`, the machine epsilon of single precision.
pub const EPSILON: u64 = 0x3E80_0000_0000_0000;

/// The magnitude of the double `bits` is below `EPSILON` (a NaN is not).
pub open spec fn tiny_spec(bits: u64) -> bool {
    bits % NEG_ZERO < EPSILON
}

pub fn tiny(bits: u64) -> (r: bool)
    ensures
        r == tiny_spec(bits),
{
    bits % NEG_ZERO < EPSILON
}

#[derive(Clone, Debug, PartialEq)]
pub struct Monomial {
    pub variable: String,
    pub coefficient: u64,
    pub exponent: u64,
}

pub struct MonomialModel {
    pub variable: Seq<char>,
    pub coefficient: u64,
    pub exponent: u64,
}

impl View for Monomial {
    type V = MonomialModel;

    open spec fn view(&self) -> MonomialModel {
        MonomialModel {
            variable: self.variable@,
            coefficient: self.coefficient,
            exponent: self.exponent,
        }
    }
}

/// `d/dx (a x^n) = (a*n) x^(n-1)`; a term whose exponent is within epsilon
/// of zero is a constant, whose derivative is zero.
pub open spec fn term_derivative<F: Fn(NumOp, u64, u64) -> u64>(m: MonomialModel, f: F) -> MonomialModel {
    if tiny_spec(m.exponent) {
        MonomialModel { variable: m.variable, coefficient: ZERO, exponent: ZERO }
    } else {
        MonomialModel {
            variable: m.variable,
            coefficient: num_result(f, NumOp::Mul, m.coefficient, m.exponent),
            exponent: num_result(f, NumOp::Sub, m.exponent, ONE),
        }
    }
}

/// `∫ a x^n dx = a/(n+1) x^(n+1)`, undefined (a logarithm) when `n+1` is
/// within epsilon of zero.
pub open spec fn term_integral<F: Fn(NumOp, u64, u64) -> u64>(m: MonomialModel, f: F) -> Option<
    MonomialModel,
> {
    let up = num_result(f, NumOp::Add, m.exponent, ONE);
    if tiny_spec(up) {
        None
    } else {
        Some(
            MonomialModel {
                variable: m.variable,
                coefficient: num_result(f, NumOp::Div, m.coefficient, up),
                exponent: up,
            },
        )
    }
}

impl Monomial {
    pub fn derivative<F: Fn(NumOp, u64, u64) -> u64>(&self, arith: &F) -> (r: Monomial)
        requires
            is_arith(*arith),
        ensures
            r@ == term_derivative(self@, *arith),
    {
        if tiny(self.exponent) {
            return Monomial { variable: self.variable.clone(), coefficient: ZERO, exponent: ZERO };
        }
        Monomial {
            variable: self.variable.clone(),
            coefficient: apply(arith, NumOp::Mul, self.coefficient, self.exponent),
            exponent: apply(arith, NumOp::Sub, self.exponent, ONE),
        }
    }

    pub fn integral<F: Fn(NumOp, u64, u64) -> u64>(&self, arith: &F) -> (r: Result<Monomial, String>)
        requires
            is_arith(*arith),
        ensures
            match term_integral(self@, *arith) {
                Some(m) => r is Ok && r->Ok_0@ == m,
                None => r is Err && r->Err_0@ == LN_TERM@,
            },
    {
        let up = apply(arith, NumOp::Add, self.exponent, ONE);
        if tiny(up) {
            return Err(String::from_str(LN_TERM));
        }
        Ok(
            Monomial {
                variable: self.variable.clone(),
                coefficient: apply(arith, NumOp::Div, self.coefficient, up),
                exponent: up,
            },
        )
    }
}

} // verus!
