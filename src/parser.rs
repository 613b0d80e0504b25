//! The recursive-descent parser: tokens to expressions and definitions.
//!
//! Grammar, lowest precedence first:
//!
//! ```text
//! definition := IDENT '(' [IDENT (',' IDENT)*] ')' '=' expr
//! expr       := term (('+' | '-') term)*
//! term       := power (('*' | '/') power)*
//! power      := primary ['^' primary]
//! primary    := '(' expr (',' expr)* ')'       -- the last expression is kept
//!             | IDENT '(' [expr (',' expr)*] ')'   -- a call of a known function
//!             | IDENT | CONST
//!             | 'log' '(' expr ',' expr ')'
//!             | TRIG '(' expr ')'
//! ```
use vstd::prelude::*;
use crate::error::CalcError;
use crate::expr::{Expr, Term, terms_of, lemma_terms_of};
use crate::diff::names;
use crate::lexer::lexemes;
use crate::table::{FunctionModel, FunctionTable};
use crate::token::{Token, Lexeme};

verus! {

broadcast use vstd::std_specs::vec::group_vec_axioms, vstd::seq::group_seq_axioms;

/// What a parsing function yields: a term and the position after it.
pub type Parsed = Result<(Term, int), CalcError>;

/// `ts` holds the operator `c` at `p`.
pub open spec fn op_at(ts: Seq<Lexeme>, p: int, c: char) -> bool {
    0 <= p < ts.len() && ts[p] == Lexeme::Op(c)
}

/// The error for a missing operator at `p`.
pub open spec fn missing(ts: Seq<Lexeme>, p: int) -> CalcError {
    if p >= ts.len() {
        CalcError::UnexpectedEnd
    } else {
        CalcError::UnexpectedToken
    }
}

/// A function of this name and arity is in the table.
pub open spec fn known(table: Map<Seq<char>, FunctionModel>, n: Seq<char>, arity: int) -> bool {
    table.contains_key(n) && table[n].params.len() == arity
}

/// `expr` from `p`.
pub open spec fn expr_at(ts: Seq<Lexeme>, p: int, table: Map<Seq<char>, FunctionModel>) -> Parsed
    decreases ts.len() - p, 3int,
{
    match term_at(ts, p, table) {
        Err(e) => Err(e),
        Ok((l, q)) => if q <= p || q > ts.len() {
            Err(CalcError::UnexpectedEnd)
        } else {
            expr_rest(ts, q, l, table)
        },
    }
}

/// The rest of an `expr` whose terms up to `q` make `left`.
pub open spec fn expr_rest(
    ts: Seq<Lexeme>,
    q: int,
    left: Term,
    table: Map<Seq<char>, FunctionModel>,
) -> Parsed
    decreases ts.len() - q, 4int,
{
    if op_at(ts, q, '+') || op_at(ts, q, '-') {
        match term_at(ts, q + 1, table) {
            Err(e) => Err(e),
            Ok((r, q2)) => if q2 <= q || q2 > ts.len() {
                Err(CalcError::UnexpectedEnd)
            } else if op_at(ts, q, '+') {
                expr_rest(ts, q2, Term::sum(left, r), table)
            } else {
                expr_rest(ts, q2, Term::difference(left, r), table)
            },
        }
    } else {
        Ok((left, q))
    }
}

/// `term` from `p`.
pub open spec fn term_at(ts: Seq<Lexeme>, p: int, table: Map<Seq<char>, FunctionModel>) -> Parsed
    decreases ts.len() - p, 2int,
{
    match power_at(ts, p, table) {
        Err(e) => Err(e),
        Ok((l, q)) => if q <= p || q > ts.len() {
            Err(CalcError::UnexpectedEnd)
        } else {
            term_rest(ts, q, l, table)
        },
    }
}

/// The rest of a `term` whose factors up to `q` make `left`.
pub open spec fn term_rest(
    ts: Seq<Lexeme>,
    q: int,
    left: Term,
    table: Map<Seq<char>, FunctionModel>,
) -> Parsed
    decreases ts.len() - q, 4int,
{
    if op_at(ts, q, '*') || op_at(ts, q, '/') {
        match power_at(ts, q + 1, table) {
            Err(e) => Err(e),
            Ok((r, q2)) => if q2 <= q || q2 > ts.len() {
                Err(CalcError::UnexpectedEnd)
            } else if op_at(ts, q, '*') {
                term_rest(ts, q2, Term::product(left, r), table)
            } else {
                term_rest(ts, q2, Term::quotient(left, r), table)
            },
        }
    } else {
        Ok((left, q))
    }
}

/// `power` from `p`.
pub open spec fn power_at(ts: Seq<Lexeme>, p: int, table: Map<Seq<char>, FunctionModel>) -> Parsed
    decreases ts.len() - p, 1int,
{
    match primary_at(ts, p, table) {
        Err(e) => Err(e),
        Ok((l, q)) => if q <= p || q > ts.len() {
            Err(CalcError::UnexpectedEnd)
        } else if op_at(ts, q, '^') {
            match primary_at(ts, q + 1, table) {
                Err(e) => Err(e),
                Ok((r, q2)) => Ok((Term::power(l, r), q2)),
            }
        } else {
            Ok((l, q))
        },
    }
}

/// `primary` from `p`.
pub open spec fn primary_at(ts: Seq<Lexeme>, p: int, table: Map<Seq<char>, FunctionModel>) -> Parsed
    decreases ts.len() - p, 0int,
{
    if p < 0 || p >= ts.len() {
        Err(CalcError::UnexpectedEnd)
    } else {
        match ts[p] {
            Lexeme::Op(c) => if c == '(' {
                match expr_at(ts, p + 1, table) {
                    Err(e) => Err(e),
                    Ok((e, q)) => if q <= p || q > ts.len() {
                        Err(CalcError::UnexpectedEnd)
                    } else {
                        paren_rest(ts, q, e, table)
                    },
                }
            } else {
                Err(CalcError::UnexpectedToken)
            },
            Lexeme::Num(c) => Ok((Term::Const(c), p + 1)),
            Lexeme::Ident(n) => if op_at(ts, p + 1, '(') {
                match args_at(ts, p + 2, Seq::empty(), table) {
                    Err(e) => Err(e),
                    Ok((args, q)) => if known(table, n, args.len() as int) {
                        Ok((Term::Call(n, args), q))
                    } else {
                        Err(CalcError::UnknownFunction)
                    },
                }
            } else {
                Ok((Term::Var(n), p + 1))
            },
            Lexeme::Log => if !op_at(ts, p + 1, '(') {
                Err(missing(ts, p + 1))
            } else {
                match expr_at(ts, p + 2, table) {
                    Err(e) => Err(e),
                    Ok((a, q)) => if q <= p || q > ts.len() {
                        Err(CalcError::UnexpectedEnd)
                    } else if !op_at(ts, q, ',') {
                        Err(missing(ts, q))
                    } else {
                        match expr_at(ts, q + 1, table) {
                            Err(e) => Err(e),
                            Ok((b, q2)) => if !op_at(ts, q2, ')') {
                                Err(missing(ts, q2))
                            } else {
                                Ok((Term::log(a, b), q2 + 1))
                            },
                        }
                    },
                }
            },
            Lexeme::Trig(k) => if !op_at(ts, p + 1, '(') {
                Err(missing(ts, p + 1))
            } else {
                match expr_at(ts, p + 2, table) {
                    Err(e) => Err(e),
                    Ok((a, q)) => if !op_at(ts, q, ')') {
                        Err(missing(ts, q))
                    } else {
                        Ok((Term::trig(k, a), q + 1))
                    },
                }
            },
        }
    }
}

/// The rest of a parenthesised list whose last expression so far is `e`.
pub open spec fn paren_rest(
    ts: Seq<Lexeme>,
    q: int,
    e: Term,
    table: Map<Seq<char>, FunctionModel>,
) -> Parsed
    decreases ts.len() - q, 4int,
{
    if op_at(ts, q, ',') {
        match expr_at(ts, q + 1, table) {
            Err(err) => Err(err),
            Ok((e2, q2)) => if q2 <= q || q2 > ts.len() {
                Err(CalcError::UnexpectedEnd)
            } else {
                paren_rest(ts, q2, e2, table)
            },
        }
    } else if op_at(ts, q, ')') {
        Ok((e, q + 1))
    } else {
        Err(missing(ts, q))
    }
}

/// The arguments of a call from `q`, after the arguments `acc`, up to and
/// including the closing parenthesis.
pub open spec fn args_at(
    ts: Seq<Lexeme>,
    q: int,
    acc: Seq<Term>,
    table: Map<Seq<char>, FunctionModel>,
) -> Result<(Seq<Term>, int), CalcError>
    decreases ts.len() - q, 4int,
{
    if acc.len() == 0 && op_at(ts, q, ')') {
        Ok((acc, q + 1))
    } else {
        match expr_at(ts, q, table) {
            Err(e) => Err(e),
            Ok((e, q2)) => if q2 <= q || q2 > ts.len() {
                Err(CalcError::UnexpectedEnd)
            } else if op_at(ts, q2, ',') {
                args_at(ts, q2 + 1, acc.push(e), table)
            } else if op_at(ts, q2, ')') {
                Ok((acc.push(e), q2 + 1))
            } else {
                Err(missing(ts, q2))
            },
        }
    }
}

} // verus!

verus! {

/// The parameters of a definition from `q`, after the parameters `acc`, up
/// to and including the closing parenthesis.
pub open spec fn params_at(ts: Seq<Lexeme>, q: int, acc: Seq<Seq<char>>) -> Result<
    (Seq<Seq<char>>, int),
    CalcError,
>
    decreases ts.len() - q,
{
    if q < 0 || q > ts.len() {
        Err(CalcError::UnexpectedEnd)
    } else if acc.len() == 0 && op_at(ts, q, ')') {
        Ok((acc, q + 1))
    } else if q == ts.len() {
        Err(CalcError::UnexpectedEnd)
    } else {
        match ts[q] {
            Lexeme::Ident(n) => if op_at(ts, q + 1, ',') {
                params_at(ts, q + 2, acc.push(n))
            } else if op_at(ts, q + 1, ')') {
                Ok((acc.push(n), q + 2))
            } else {
                Err(missing(ts, q + 1))
            },
            _ => Err(CalcError::UnexpectedToken),
        }
    }
}

/// The name, parameters and body of the definition that `ts` spells; every
/// token must be used.
pub open spec fn definition_of(ts: Seq<Lexeme>, table: Map<Seq<char>, FunctionModel>) -> Result<
    (Seq<char>, Seq<Seq<char>>, Term),
    CalcError,
> {
    if ts.len() == 0 {
        Err(CalcError::UnexpectedEnd)
    } else {
        match ts[0] {
            Lexeme::Ident(n) => if !op_at(ts, 1, '(') {
                Err(missing(ts, 1))
            } else {
                match params_at(ts, 2, Seq::empty()) {
                    Err(e) => Err(e),
                    Ok((ps, q)) => if !op_at(ts, q, '=') {
                        Err(missing(ts, q))
                    } else {
                        match expr_at(ts, q + 1, table) {
                            Err(e) => Err(e),
                            Ok((body, q2)) => if q2 < ts.len() {
                                Err(CalcError::UnexpectedToken)
                            } else {
                                Ok((n, ps, body))
                            },
                        }
                    },
                }
            },
            _ => Err(CalcError::UnexpectedToken),
        }
    }
}

/// The model of what an executable parsing function returns.
pub open spec fn pview(r: Result<(Expr, usize), CalcError>) -> Parsed {
    match r {
        Ok((e, q)) => Ok((e@, q as int)),
        Err(err) => Err(err),
    }
}

/// `r` is what `spec` says and, if a term, ends after `p`.
pub open spec fn parsed_as(r: Result<(Expr, usize), CalcError>, spec: Parsed, p: int, len: int) -> bool {
    &&& pview(r) == spec
    &&& r is Ok ==> p < r->Ok_0.1 <= len
}

fn tok_is(ts: &Vec<Token>, p: usize, c: char) -> (r: bool)
    ensures
        r == op_at(lexemes(ts@), p as int, c),
{
    p < ts.len() && ts[p].is_op(c)
}

fn expect(ts: &Vec<Token>, p: usize, c: char) -> (r: Result<(), CalcError>)
    ensures
        r is Ok <==> op_at(lexemes(ts@), p as int, c),
        r is Err ==> r->Err_0 == missing(lexemes(ts@), p as int),
{
    if tok_is(ts, p, c) {
        Ok(())
    } else if p >= ts.len() {
        Err(CalcError::UnexpectedEnd)
    } else {
        Err(CalcError::UnexpectedToken)
    }
}

/// Parses an `expr` from `p`.
pub fn parse_add_or_sub(ts: &Vec<Token>, p: usize, table: &FunctionTable) -> (r: Result<
    (Expr, usize),
    CalcError,
>)
    requires
        table.wf(),
        p <= ts.len(),
    ensures
        parsed_as(r, expr_at(lexemes(ts@), p as int, table@), p as int, ts.len() as int),
    decreases ts.len() - p, 3int,
{
    let ghost l = lexemes(ts@);
    let (first, q0) = parse_mul_or_div(ts, p, table)?;
    let mut left = first;
    let mut q = q0;
    while tok_is(ts, q, '+') || tok_is(ts, q, '-')
        invariant
            table.wf(),
            l == lexemes(ts@),
            p < q <= ts.len(),
            expr_at(l, p as int, table@) == expr_rest(l, q as int, left@, table@),
        decreases ts.len() - q,
    {
        let plus = tok_is(ts, q, '+');
        let (right, q2) = parse_mul_or_div(ts, q + 1, table)?;
        left = if plus {
            Expr::sum(left, right)
        } else {
            Expr::difference(left, right)
        };
        q = q2;
    }
    Ok((left, q))
}

/// Parses a `term` from `p`.
fn parse_mul_or_div(ts: &Vec<Token>, p: usize, table: &FunctionTable) -> (r: Result<
    (Expr, usize),
    CalcError,
>)
    requires
        table.wf(),
        p <= ts.len(),
    ensures
        parsed_as(r, term_at(lexemes(ts@), p as int, table@), p as int, ts.len() as int),
    decreases ts.len() - p, 2int,
{
    let ghost l = lexemes(ts@);
    let (first, q0) = parse_power(ts, p, table)?;
    let mut left = first;
    let mut q = q0;
    while tok_is(ts, q, '*') || tok_is(ts, q, '/')
        invariant
            table.wf(),
            l == lexemes(ts@),
            p < q <= ts.len(),
            term_at(l, p as int, table@) == term_rest(l, q as int, left@, table@),
        decreases ts.len() - q,
    {
        let times = tok_is(ts, q, '*');
        let (right, q2) = parse_power(ts, q + 1, table)?;
        left = if times {
            Expr::product(left, right)
        } else {
            Expr::quotient(left, right)
        };
        q = q2;
    }
    Ok((left, q))
}

/// Parses a `power` from `p`.
fn parse_power(ts: &Vec<Token>, p: usize, table: &FunctionTable) -> (r: Result<
    (Expr, usize),
    CalcError,
>)
    requires
        table.wf(),
        p <= ts.len(),
    ensures
        parsed_as(r, power_at(lexemes(ts@), p as int, table@), p as int, ts.len() as int),
    decreases ts.len() - p, 1int,
{
    let (base, q) = parse_primary(ts, p, table)?;
    if tok_is(ts, q, '^') {
        let (exp, q2) = parse_primary(ts, q + 1, table)?;
        Ok((Expr::power(base, exp), q2))
    } else {
        Ok((base, q))
    }
}

/// Parses a `primary` from `p`.
fn parse_primary(ts: &Vec<Token>, p: usize, table: &FunctionTable) -> (r: Result<
    (Expr, usize),
    CalcError,
>)
    requires
        table.wf(),
        p <= ts.len(),
    ensures
        parsed_as(r, primary_at(lexemes(ts@), p as int, table@), p as int, ts.len() as int),
    decreases ts.len() - p, 0int,
{
    let ghost l = lexemes(ts@);
    if p >= ts.len() {
        return Err(CalcError::UnexpectedEnd);
    }
    assert(l[p as int] == ts@[p as int]@);
    match &ts[p] {
        Token::Operator(c) => {
            if *c != '(' {
                return Err(CalcError::UnexpectedToken);
            }
            let (first, q0) = parse_add_or_sub(ts, p + 1, table)?;
            let mut e = first;
            let mut q = q0;
            while tok_is(ts, q, ',')
                invariant
                    table.wf(),
                    l == lexemes(ts@),
                    p < q <= ts.len(),
                    primary_at(l, p as int, table@) == paren_rest(l, q as int, e@, table@),
                decreases ts.len() - q,
            {
                let (next, q2) = parse_add_or_sub(ts, q + 1, table)?;
                e = next;
                q = q2;
            }
            expect(ts, q, ')')?;
            Ok((e, q + 1))
        },
        Token::Const(c) => Ok((Expr::Const(*c), p + 1)),
        Token::Identifier(n) => {
            if tok_is(ts, p + 1, '(') {
                try_call(ts, p + 2, n, table)
            } else {
                Ok((Expr::Var(n.clone()), p + 1))
            }
        },
        Token::Log => {
            expect(ts, p + 1, '(')?;
            let (base, q) = parse_add_or_sub(ts, p + 2, table)?;
            expect(ts, q, ',')?;
            let (arg, q2) = parse_add_or_sub(ts, q + 1, table)?;
            expect(ts, q2, ')')?;
            Ok((Expr::log(base, arg), q2 + 1))
        },
        Token::Trig(k) => {
            expect(ts, p + 1, '(')?;
            let (arg, q) = parse_add_or_sub(ts, p + 2, table)?;
            expect(ts, q, ')')?;
            Ok((Expr::trig(*k, arg), q + 1))
        },
    }
}

/// Parses the arguments of a call of `name` from `q0`, just after the
/// opening parenthesis; the call must name a function of the table.
fn try_call(ts: &Vec<Token>, q0: usize, name: &String, table: &FunctionTable) -> (r: Result<
    (Expr, usize),
    CalcError,
>)
    requires
        table.wf(),
        2 <= q0 <= ts.len(),
        op_at(lexemes(ts@), q0 - 1, '('),
        lexemes(ts@)[q0 - 2] == Lexeme::Ident(name@),
    ensures
        parsed_as(r, primary_at(lexemes(ts@), q0 - 2, table@), q0 - 2, ts.len() as int),
    decreases ts.len() - q0, 4int,
{
    let ghost l = lexemes(ts@);
    let mut args: Vec<Expr> = Vec::new();
    let mut q = q0;
    let mut done = false;
    if tok_is(ts, q0, ')') {
        done = true;
        q = q0 + 1;
    }
    proof {
        lemma_terms_of(args@);
    }
    while !done
        invariant
            table.wf(),
            l == lexemes(ts@),
            2 <= q0 <= q <= ts.len(),
            op_at(l, q0 - 1, '('),
            l[q0 - 2] == Lexeme::Ident(name@),
            !done ==> args_at(l, q0 as int, Seq::empty(), table@) == args_at(
                l,
                q as int,
                terms_of(args@),
                table@,
            ),
            !done ==> (args@.len() == 0 ==> !op_at(l, q as int, ')')),
            done ==> args_at(l, q0 as int, Seq::empty(), table@) == Ok::<
                (Seq<Term>, int),
                CalcError,
            >((terms_of(args@), q as int)),
        decreases ts.len() - q,
    {
        let (e, q2) = parse_add_or_sub(ts, q, table)?;
        let ghost before = args@;
        args.push(e);
        proof {
            assert(args@.drop_last() == before);
        }
        if tok_is(ts, q2, ',') {
            q = q2 + 1;
        } else if tok_is(ts, q2, ')') {
            q = q2 + 1;
            done = true;
        } else {
            return Err(if q2 >= ts.len() {
                CalcError::UnexpectedEnd
            } else {
                CalcError::UnexpectedToken
            });
        }
    }
    proof {
        lemma_terms_of(args@);
    }
    if table.find(name, args.len()).is_none() {
        return Err(CalcError::UnknownFunction);
    }
    Ok((Expr::Call(name.clone(), args), q))
}

} // verus!

verus! {

/// The model of a parsed definition.
pub open spec fn definition_view(r: Result<(String, Vec<String>, Expr), CalcError>) -> Result<
    (Seq<char>, Seq<Seq<char>>, Term),
    CalcError,
> {
    match r {
        Ok((n, ps, e)) => Ok((n@, names(ps@), e@)),
        Err(err) => Err(err),
    }
}

/// Parses the parameter list from `q0`, just after its opening parenthesis.
fn parse_params(ts: &Vec<Token>, q0: usize) -> (r: Result<(Vec<String>, usize), CalcError>)
    requires
        q0 <= ts.len(),
    ensures
        match r {
            Ok((ps, q)) => params_at(lexemes(ts@), q0 as int, Seq::empty()) == Ok::<
                (Seq<Seq<char>>, int),
                CalcError,
            >((names(ps@), q as int)) && q <= ts.len(),
            Err(e) => params_at(lexemes(ts@), q0 as int, Seq::empty()) == Err::<
                (Seq<Seq<char>>, int),
                CalcError,
            >(e),
        },
{
    let ghost l = lexemes(ts@);
    let mut ps: Vec<String> = Vec::new();
    let mut q = q0;
    let mut done = false;
    if tok_is(ts, q0, ')') {
        done = true;
        q = q0 + 1;
    }
    assert(names(ps@) =~= Seq::<Seq<char>>::empty());
    while !done
        invariant
            l == lexemes(ts@),
            q0 <= q <= ts.len(),
            !done ==> params_at(l, q0 as int, Seq::empty()) == params_at(l, q as int, names(ps@)),
            !done ==> (ps@.len() == 0 ==> !op_at(l, q as int, ')')),
            done ==> params_at(l, q0 as int, Seq::empty()) == Ok::<
                (Seq<Seq<char>>, int),
                CalcError,
            >((names(ps@), q as int)),
        decreases ts.len() - q,
    {
        if q >= ts.len() {
            return Err(CalcError::UnexpectedEnd);
        }
        assert(l[q as int] == ts@[q as int]@);
        let n = ts[q].as_identifier()?;
        let ghost before = ps@;
        ps.push(n);
        assert(names(ps@) =~= names(before).push(n@));
        if tok_is(ts, q + 1, ',') {
            q = q + 2;
        } else if tok_is(ts, q + 1, ')') {
            q = q + 2;
            done = true;
        } else {
            return Err(if q + 1 >= ts.len() {
                CalcError::UnexpectedEnd
            } else {
                CalcError::UnexpectedToken
            });
        }
    }
    Ok((ps, q))
}

/// Parses a whole definition `name(params)=body`; calls in the body must
/// name functions of `table`.
pub fn parse_definition(ts: &Vec<Token>, table: &FunctionTable) -> (r: Result<
    (String, Vec<String>, Expr),
    CalcError,
>)
    requires
        table.wf(),
    ensures
        definition_view(r) == definition_of(lexemes(ts@), table@),
{
    let ghost l = lexemes(ts@);
    if ts.len() == 0 {
        return Err(CalcError::UnexpectedEnd);
    }
    assert(l[0] == ts@[0]@);
    let name = ts[0].as_identifier()?;
    expect(ts, 1, '(')?;
    let (params, q) = parse_params(ts, 2)?;
    expect(ts, q, '=')?;
    let (body, q2) = parse_add_or_sub(ts, q + 1, table)?;
    if q2 < ts.len() {
        return Err(CalcError::UnexpectedToken);
    }
    Ok((name, params, body))
}

} // verus!

verus! {

/// `t1` and `t2` agree on every call that `ts` spells from position `from`
/// on: on whether a function of that name and a given arity is held.
pub open spec fn agree_on_calls(
    ts: Seq<Lexeme>,
    from: int,
    t1: Map<Seq<char>, FunctionModel>,
    t2: Map<Seq<char>, FunctionModel>,
) -> bool {
    forall|i: int, k: int|
        from <= i < ts.len() && ts[i] is Ident && op_at(ts, i + 1, '(') ==> (#[trigger] known(
            t1,
            ts[i]->Ident_0,
            k,
        ) == known(t2, ts[i]->Ident_0, k))
}

proof fn lemma_frame_expr(
    ts: Seq<Lexeme>,
    p: int,
    from: int,
    t1: Map<Seq<char>, FunctionModel>,
    t2: Map<Seq<char>, FunctionModel>,
)
    requires
        agree_on_calls(ts, from, t1, t2),
        from <= p <= ts.len(),
    ensures
        expr_at(ts, p, t1) == expr_at(ts, p, t2),
    decreases ts.len() - p, 3int,
{
    lemma_frame_term(ts, p, from, t1, t2);
    if let Ok((l, q)) = term_at(ts, p, t1) {
        if p < q <= ts.len() {
            lemma_frame_expr_rest(ts, q, l, from, t1, t2);
        }
    }
}

proof fn lemma_frame_expr_rest(
    ts: Seq<Lexeme>,
    q: int,
    left: Term,
    from: int,
    t1: Map<Seq<char>, FunctionModel>,
    t2: Map<Seq<char>, FunctionModel>,
)
    requires
        agree_on_calls(ts, from, t1, t2),
        from <= q <= ts.len(),
    ensures
        expr_rest(ts, q, left, t1) == expr_rest(ts, q, left, t2),
    decreases ts.len() - q, 4int,
{
    if op_at(ts, q, '+') || op_at(ts, q, '-') {
        lemma_frame_term(ts, q + 1, from, t1, t2);
        if let Ok((r, q2)) = term_at(ts, q + 1, t1) {
            if q < q2 <= ts.len() {
                lemma_frame_expr_rest(ts, q2, Term::sum(left, r), from, t1, t2);
                lemma_frame_expr_rest(ts, q2, Term::difference(left, r), from, t1, t2);
            }
        }
    }
}

proof fn lemma_frame_term(
    ts: Seq<Lexeme>,
    p: int,
    from: int,
    t1: Map<Seq<char>, FunctionModel>,
    t2: Map<Seq<char>, FunctionModel>,
)
    requires
        agree_on_calls(ts, from, t1, t2),
        from <= p <= ts.len(),
    ensures
        term_at(ts, p, t1) == term_at(ts, p, t2),
    decreases ts.len() - p, 2int,
{
    lemma_frame_power(ts, p, from, t1, t2);
    if let Ok((l, q)) = power_at(ts, p, t1) {
        if p < q <= ts.len() {
            lemma_frame_term_rest(ts, q, l, from, t1, t2);
        }
    }
}

proof fn lemma_frame_term_rest(
    ts: Seq<Lexeme>,
    q: int,
    left: Term,
    from: int,
    t1: Map<Seq<char>, FunctionModel>,
    t2: Map<Seq<char>, FunctionModel>,
)
    requires
        agree_on_calls(ts, from, t1, t2),
        from <= q <= ts.len(),
    ensures
        term_rest(ts, q, left, t1) == term_rest(ts, q, left, t2),
    decreases ts.len() - q, 4int,
{
    if op_at(ts, q, '*') || op_at(ts, q, '/') {
        lemma_frame_power(ts, q + 1, from, t1, t2);
        if let Ok((r, q2)) = power_at(ts, q + 1, t1) {
            if q < q2 <= ts.len() {
                lemma_frame_term_rest(ts, q2, Term::product(left, r), from, t1, t2);
                lemma_frame_term_rest(ts, q2, Term::quotient(left, r), from, t1, t2);
            }
        }
    }
}

proof fn lemma_frame_power(
    ts: Seq<Lexeme>,
    p: int,
    from: int,
    t1: Map<Seq<char>, FunctionModel>,
    t2: Map<Seq<char>, FunctionModel>,
)
    requires
        agree_on_calls(ts, from, t1, t2),
        from <= p <= ts.len(),
    ensures
        power_at(ts, p, t1) == power_at(ts, p, t2),
    decreases ts.len() - p, 1int,
{
    lemma_frame_primary(ts, p, from, t1, t2);
    if let Ok((l, q)) = primary_at(ts, p, t1) {
        if p < q <= ts.len() && op_at(ts, q, '^') {
            lemma_frame_primary(ts, q + 1, from, t1, t2);
        }
    }
}

proof fn lemma_frame_primary(
    ts: Seq<Lexeme>,
    p: int,
    from: int,
    t1: Map<Seq<char>, FunctionModel>,
    t2: Map<Seq<char>, FunctionModel>,
)
    requires
        agree_on_calls(ts, from, t1, t2),
        from <= p <= ts.len(),
    ensures
        primary_at(ts, p, t1) == primary_at(ts, p, t2),
    decreases ts.len() - p, 0int,
{
    if p < ts.len() {
        match ts[p] {
            Lexeme::Op(c) => {
                if c == '(' {
                    lemma_frame_expr(ts, p + 1, from, t1, t2);
                    if let Ok((e, q)) = expr_at(ts, p + 1, t1) {
                        if p < q <= ts.len() {
                            lemma_frame_paren(ts, q, e, from, t1, t2);
                        }
                    }
                }
            },
            Lexeme::Ident(n) => {
                if op_at(ts, p + 1, '(') {
                    lemma_frame_args(ts, p + 2, Seq::empty(), from, t1, t2);
                    if let Ok((args, q)) = args_at(ts, p + 2, Seq::empty(), t1) {
                        assert(known(t1, ts[p]->Ident_0, args.len() as int) == known(
                            t2,
                            ts[p]->Ident_0,
                            args.len() as int,
                        ));
                    }
                }
            },
            Lexeme::Log => {
                if op_at(ts, p + 1, '(') {
                    lemma_frame_expr(ts, p + 2, from, t1, t2);
                    if let Ok((a, q)) = expr_at(ts, p + 2, t1) {
                        if p < q <= ts.len() && op_at(ts, q, ',') {
                            lemma_frame_expr(ts, q + 1, from, t1, t2);
                        }
                    }
                }
            },
            Lexeme::Trig(k) => {
                if op_at(ts, p + 1, '(') {
                    lemma_frame_expr(ts, p + 2, from, t1, t2);
                }
            },
            Lexeme::Num(_) => {},
        }
    }
}

proof fn lemma_frame_paren(
    ts: Seq<Lexeme>,
    q: int,
    e: Term,
    from: int,
    t1: Map<Seq<char>, FunctionModel>,
    t2: Map<Seq<char>, FunctionModel>,
)
    requires
        agree_on_calls(ts, from, t1, t2),
        from <= q <= ts.len(),
    ensures
        paren_rest(ts, q, e, t1) == paren_rest(ts, q, e, t2),
    decreases ts.len() - q, 4int,
{
    if op_at(ts, q, ',') {
        lemma_frame_expr(ts, q + 1, from, t1, t2);
        if let Ok((e2, q2)) = expr_at(ts, q + 1, t1) {
            if q < q2 <= ts.len() {
                lemma_frame_paren(ts, q2, e2, from, t1, t2);
            }
        }
    }
}

proof fn lemma_frame_args(
    ts: Seq<Lexeme>,
    q: int,
    acc: Seq<Term>,
    from: int,
    t1: Map<Seq<char>, FunctionModel>,
    t2: Map<Seq<char>, FunctionModel>,
)
    requires
        agree_on_calls(ts, from, t1, t2),
        from <= q <= ts.len(),
    ensures
        args_at(ts, q, acc, t1) == args_at(ts, q, acc, t2),
    decreases ts.len() - q, 4int,
{
    if !(acc.len() == 0 && op_at(ts, q, ')')) {
        lemma_frame_expr(ts, q, from, t1, t2);
        if let Ok((e, q2)) = expr_at(ts, q, t1) {
            if q < q2 <= ts.len() && op_at(ts, q2, ',') {
                lemma_frame_args(ts, q2 + 1, acc.push(e), from, t1, t2);
            }
        }
    }
}

/// A definition parses the same against two tables that agree on every
/// call it spells.
pub proof fn lemma_frame_definition(
    ts: Seq<Lexeme>,
    t1: Map<Seq<char>, FunctionModel>,
    t2: Map<Seq<char>, FunctionModel>,
)
    requires
        agree_on_calls(ts, 1, t1, t2),
    ensures
        definition_of(ts, t1) == definition_of(ts, t2),
{
    if ts.len() > 0 && ts[0] is Ident && op_at(ts, 1, '(') {
        if let Ok((ps, q)) = params_at(ts, 2, Seq::empty()) {
            if op_at(ts, q, '=') {
                lemma_frame_expr(ts, q + 1, 1, t1, t2);
            }
        }
    }
}

} // verus!
