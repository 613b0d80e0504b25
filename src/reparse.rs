//! Rendering, lexing and parsing: the text of a tree lexes to the tokens
//! that the tree spells, and those parse back to the tree.
//!
//! This holds for the trees that rendering spells unambiguously: no
//! equation, no power as the base of a power (`(a^b)^c` is written
//! `a^b^c`, which the grammar rejects), no constant close to `e` (it is
//! written as the name `e`), and calls only of functions that the table
//! holds with that arity.  Names must be words that are no keyword, and
//! the constants must be written as decimal digits that convert back to
//! them (`pi` or `0.5` are not).
use vstd::prelude::*;
use crate::error::CalcError;
use crate::expr::{Term, TrigKind};
use crate::num::{near_e_spec, num_result, NumOp, ZERO};
use crate::parser::{args_at, expr_at, expr_rest, known, op_at, paren_rest, power_at, primary_at, term_at, term_rest};
use crate::lexer::{is_digit, is_op_char, is_word_char, keyword, lex_from, numeral, run_end};
use crate::render::{bare, prec, rendered, rendered_list, shown, trig_name};
use crate::table::FunctionModel;
use crate::token::Lexeme;

verus! {

/// The trees that rendering spells unambiguously.
pub open spec fn printable(t: Term) -> bool
    decreases t,
{
    match t {
        Term::Const(c) => !near_e_spec(c),
        Term::Var(_) => true,
        Term::Call(_, args) => forall|i: int| 0 <= i < args.len() ==> printable(#[trigger] args[i]),
        Term::Add(a, b) | Term::Sub(a, b) | Term::Mul(a, b) | Term::Div(a, b) | Term::Log(a, b) =>
            printable(*a) && printable(*b),
        Term::Power(a, b) => !(*a is Power) && printable(*a) && printable(*b),
        Term::Trig(_, a) => printable(*a),
        Term::Equal(_, _) => false,
    }
}

pub open spec fn op(c: char) -> Seq<Lexeme> {
    seq![Lexeme::Op(c)]
}

/// Every call in `t` names a function of `table` with its arity.
pub open spec fn calls_known(t: Term, table: Map<Seq<char>, FunctionModel>) -> bool
    decreases t,
{
    match t {
        Term::Const(_) | Term::Var(_) => true,
        Term::Call(n, args) => known(table, n, args.len() as int) && forall|i: int|
            0 <= i < args.len() ==> calls_known(#[trigger] args[i], table),
        Term::Add(a, b) | Term::Sub(a, b) | Term::Mul(a, b) | Term::Div(a, b) | Term::Power(a, b)
        | Term::Log(a, b) | Term::Equal(a, b) => calls_known(*a, table) && calls_known(*b, table),
        Term::Trig(_, a) => calls_known(*a, table),
    }
}

/// The tokens of `t` in a position that asks for precedence `parent`: the
/// tokens that its rendered text spells.
pub open spec fn toks(t: Term, parent: int) -> Seq<Lexeme>
    decreases t, 1int,
{
    if prec(t) < parent {
        op('(') + btoks(t) + op(')')
    } else {
        btoks(t)
    }
}

/// The tokens of `t` without parentheses around it.
pub open spec fn btoks(t: Term) -> Seq<Lexeme>
    decreases t, 0int,
{
    match t {
        Term::Const(c) => seq![Lexeme::Num(c)],
        Term::Var(n) => seq![Lexeme::Ident(n)],
        Term::Call(n, args) => seq![Lexeme::Ident(n)] + op('(') + toks_list(args) + op(')'),
        Term::Add(a, b) => toks(*a, 1) + op('+') + toks(*b, 2),
        Term::Sub(a, b) => toks(*a, 1) + op('-') + toks(*b, 2),
        Term::Mul(a, b) => toks(*a, 2) + op('*') + toks(*b, 3),
        Term::Div(a, b) => toks(*a, 2) + op('/') + toks(*b, 3),
        Term::Power(a, b) => toks(*a, 3) + op('^') + toks(*b, 4),
        Term::Log(a, b) => seq![Lexeme::Log] + op('(') + toks(*a, 0) + op(',') + toks(*b, 0) + op(')'),
        Term::Trig(k, a) => seq![Lexeme::Trig(k)] + op('(') + toks(*a, 0) + op(')'),
        Term::Equal(a, b) => toks(*a, 0) + op('=') + toks(*b, 0),
    }
}

/// The tokens of `ts`, separated by commas.
pub open spec fn toks_list(ts: Seq<Term>) -> Seq<Lexeme>
    decreases ts, 0int,
{
    if ts.len() == 0 {
        Seq::empty()
    } else if ts.len() == 1 {
        toks(ts[0], 0)
    } else {
        toks_list(ts.drop_last()) + op(',') + toks(ts.last(), 0)
    }
}

/// `ts` holds `w` from position `p` on.
pub open spec fn holds_at<A>(ts: Seq<A>, p: int, w: Seq<A>) -> bool {
    0 <= p && p + w.len() <= ts.len() && ts.subrange(p, p + w.len()) == w
}

proof fn lemma_holds_split<A>(ts: Seq<A>, p: int, a: Seq<A>, b: Seq<A>)
    requires
        holds_at(ts, p, a + b),
    ensures
        holds_at(ts, p, a),
        holds_at(ts, p + a.len(), b),
{
    let w = ts.subrange(p, p + (a + b).len());
    assert(w == a + b);
    assert(ts.subrange(p, p + a.len()) =~= w.subrange(0, a.len() as int));
    assert(w.subrange(0, a.len() as int) =~= a);
    assert(ts.subrange(p + a.len(), p + a.len() + b.len()) =~= w.subrange(
        a.len() as int,
        w.len() as int,
    ));
    assert(w.subrange(a.len() as int, w.len() as int) =~= b);
}

proof fn lemma_printable_prec(t: Term)
    requires
        printable(t),
    ensures
        prec(t) >= 1,
{
}

proof fn lemma_holds_op(ts: Seq<Lexeme>, p: int, c: char)
    requires
        holds_at(ts, p, op(c)),
    ensures
        op_at(ts, p, c),
{
    assert(ts[p] == ts.subrange(p, p + 1)[0]);
}

/// What may follow the tokens of an operand of `+` or `-` (the end, or a
/// token that no term continues with).
pub open spec fn ends_sum(ts: Seq<Lexeme>, q: int) -> bool {
    !op_at(ts, q, '*') && !op_at(ts, q, '/') && !op_at(ts, q, '^') && !op_at(ts, q, '(')
}

pub open spec fn ends_term(ts: Seq<Lexeme>, q: int) -> bool {
    !op_at(ts, q, '^') && !op_at(ts, q, '(')
}

/// Which lemma may call which on the same tree: the measure that decreases.
pub open spec fn rank_sum(t: Term) -> int {
    if prec(t) == 1 { 0 } else if prec(t) == 2 { 1 } else if prec(t) == 3 { 2 } else { 4 }
}

pub open spec fn rank_term(t: Term) -> int {
    if prec(t) == 2 { 0 } else if prec(t) == 3 { 1 } else if prec(t) == 4 { 3 } else { 4 }
}

pub open spec fn rank_power(t: Term) -> int {
    if prec(t) == 3 { 0 } else if prec(t) == 4 { 2 } else if prec(t) == 1 { 3 } else { 4 }
}

pub open spec fn rank_primary(t: Term) -> int {
    if prec(t) == 4 { 1 } else { rank_sum(t) + 2 }
}

/// The tokens of a tree at the precedence of a sum parse, from `p`, to the
/// state of the sum loop after that tree.
proof fn lemma_sum(ts: Seq<Lexeme>, p: int, t: Term, table: Map<Seq<char>, FunctionModel>)
    requires
        printable(t),
        calls_known(t, table),
        holds_at(ts, p, toks(t, 1)),
        ends_sum(ts, p + toks(t, 1).len()),
    ensures
        toks(t, 1).len() > 0,
        expr_at(ts, p, table) == expr_rest(ts, p + toks(t, 1).len(), t, table),
    decreases t, rank_sum(t),
{
    let q = p + toks(t, 1).len();
    match t {
        Term::Add(a, b) | Term::Sub(a, b) => {
            let ta = toks(*a, 1);
            let tb = toks(*b, 2);
            let c = if t is Add { '+' } else { '-' };
            assert(toks(t, 1) == ta + op(c) + tb);
            lemma_holds_split(ts, p, ta + op(c), tb);
            lemma_holds_split(ts, p, ta, op(c));
            lemma_holds_op(ts, p + ta.len(), c);
            lemma_sum(ts, p, *a, table);
            lemma_term(ts, p + ta.len() + 1, *b, table);
            assert(term_at(ts, p + ta.len() + 1, table) == Ok::<(Term, int), CalcError>((*b, q)));
        },
        _ => {
            assert(toks(t, 1) == toks(t, 2));
            lemma_term(ts, p, t, table);
        },
    }
}

/// The tokens of a tree at the precedence of a term parse, from `p`, to the
/// state of the term loop after that tree.
proof fn lemma_term(ts: Seq<Lexeme>, p: int, t: Term, table: Map<Seq<char>, FunctionModel>)
    requires
        printable(t),
        calls_known(t, table),
        holds_at(ts, p, toks(t, 2)),
        ends_term(ts, p + toks(t, 2).len()),
    ensures
        toks(t, 2).len() > 0,
        term_at(ts, p, table) == term_rest(ts, p + toks(t, 2).len(), t, table),
    decreases t, rank_term(t),
{
    let q = p + toks(t, 2).len();
    match t {
        Term::Mul(a, b) | Term::Div(a, b) => {
            let ta = toks(*a, 2);
            let tb = toks(*b, 3);
            let c = if t is Mul { '*' } else { '/' };
            assert(toks(t, 2) == ta + op(c) + tb);
            lemma_holds_split(ts, p, ta + op(c), tb);
            lemma_holds_split(ts, p, ta, op(c));
            lemma_holds_op(ts, p + ta.len(), c);
            lemma_term(ts, p, *a, table);
            lemma_power(ts, p + ta.len() + 1, *b, table);
        },
        _ => {
            assert(toks(t, 2) == toks(t, 3));
            lemma_power(ts, p, t, table);
        },
    }
}

/// The tokens of a tree at the precedence of a power parse to the tree.
proof fn lemma_power(ts: Seq<Lexeme>, p: int, t: Term, table: Map<Seq<char>, FunctionModel>)
    requires
        printable(t),
        calls_known(t, table),
        holds_at(ts, p, toks(t, 3)),
        ends_term(ts, p + toks(t, 3).len()),
    ensures
        toks(t, 3).len() > 0,
        power_at(ts, p, table) == Ok::<(Term, int), CalcError>(
            (t, p + toks(t, 3).len()),
        ),
    decreases t, rank_power(t),
{
    match t {
        Term::Power(a, b) => {
            let ta = toks(*a, 3);
            let tb = toks(*b, 4);
            assert(toks(t, 3) == ta + op('^') + tb);
            lemma_holds_split(ts, p, ta + op('^'), tb);
            lemma_holds_split(ts, p, ta, op('^'));
            lemma_holds_op(ts, p + ta.len(), '^');
            lemma_primary(ts, p, *a, 3, table);
            lemma_primary(ts, p + ta.len() + 1, *b, 4, table);
        },
        _ => {
            lemma_primary(ts, p, t, 3, table);
        },
    }
}

/// The tokens of a primary, or of a parenthesised tree, parse to the tree.
proof fn lemma_primary(
    ts: Seq<Lexeme>,
    p: int,
    t: Term,
    level: int,
    table: Map<Seq<char>, FunctionModel>,
)
    requires
        printable(t),
        calls_known(t, table),
        level == 3 || level == 4,
        prec(t) == 4 || prec(t) < level,
        holds_at(ts, p, toks(t, level)),
        !op_at(ts, p + toks(t, level).len(), '('),
    ensures
        toks(t, level).len() > 0,
        primary_at(ts, p, table) == Ok::<(Term, int), CalcError>((t, p + toks(t, level).len())),
    decreases t, rank_primary(t),
{
    let w = toks(t, level);
    assert(ts[p] == ts.subrange(p, p + w.len())[0]);
    if prec(t) < level {
        lemma_paren(ts, p, t, level, table);
    } else {
        match t {
            Term::Log(a, b) => lemma_log(ts, p, t, level, table),
            Term::Trig(k, a) => lemma_trig(ts, p, t, level, table),
            Term::Call(n, args) => lemma_call(ts, p, t, level, table),
            _ => {},
        }
    }
}

proof fn lemma_paren(
    ts: Seq<Lexeme>,
    p: int,
    t: Term,
    level: int,
    table: Map<Seq<char>, FunctionModel>,
)
    requires
        printable(t),
        calls_known(t, table),
        prec(t) < level <= 4,
        holds_at(ts, p, toks(t, level)),
    ensures
        toks(t, level).len() > 0,
        primary_at(ts, p, table) == Ok::<(Term, int), CalcError>((t, p + toks(t, level).len())),
    decreases t, rank_sum(t) + 1,
{
    let w = toks(t, level);
    let inner = btoks(t);
    assert(w == op('(') + inner + op(')'));
    lemma_holds_split(ts, p, op('(') + inner, op(')'));
    lemma_holds_split(ts, p, op('('), inner);
    lemma_holds_op(ts, p, '(');
    lemma_holds_op(ts, p + inner.len() + 1, ')');
    lemma_printable_prec(t);
    assert(toks(t, 1) == inner);
    lemma_sum(ts, p + 1, t, table);
    assert(expr_at(ts, p + 1, table) == Ok::<(Term, int), CalcError>((t, p + 1 + inner.len())));
}

proof fn lemma_log(
    ts: Seq<Lexeme>,
    p: int,
    t: Term,
    level: int,
    table: Map<Seq<char>, FunctionModel>,
)
    requires
        printable(t),
        calls_known(t, table),
        t is Log,
        level <= 4,
        holds_at(ts, p, toks(t, level)),
    ensures
        primary_at(ts, p, table) == Ok::<(Term, int), CalcError>((t, p + toks(t, level).len())),
    decreases t, 0int,
{
    let (a, b) = (*t->Log_0, *t->Log_1);
    let w = toks(t, level);
    let ta = toks(a, 0);
    let tb = toks(b, 0);
    let head = seq![Lexeme::Log];
    assert(w == head + op('(') + ta + op(',') + tb + op(')'));
    lemma_holds_split(ts, p, head + op('(') + ta + op(',') + tb, op(')'));
    lemma_holds_split(ts, p, head + op('(') + ta + op(','), tb);
    lemma_holds_split(ts, p, head + op('(') + ta, op(','));
    lemma_holds_split(ts, p, head + op('('), ta);
    lemma_holds_split(ts, p, head, op('('));
    assert(ts[p] == ts.subrange(p, p + 1)[0]);
    lemma_holds_op(ts, p + 1, '(');
    lemma_holds_op(ts, p + 2 + ta.len(), ',');
    lemma_holds_op(ts, p + 3 + ta.len() + tb.len(), ')');
    lemma_printable_prec(a);
    lemma_printable_prec(b);
    assert(toks(a, 1) == ta);
    assert(toks(b, 1) == tb);
    lemma_sum(ts, p + 2, a, table);
    lemma_sum(ts, p + 3 + ta.len(), b, table);
}

proof fn lemma_trig(
    ts: Seq<Lexeme>,
    p: int,
    t: Term,
    level: int,
    table: Map<Seq<char>, FunctionModel>,
)
    requires
        printable(t),
        calls_known(t, table),
        t is Trig,
        level <= 4,
        holds_at(ts, p, toks(t, level)),
    ensures
        primary_at(ts, p, table) == Ok::<(Term, int), CalcError>((t, p + toks(t, level).len())),
    decreases t, 0int,
{
    let (k, a) = (t->Trig_0, *t->Trig_1);
    let w = toks(t, level);
    let ta = toks(a, 0);
    let head = seq![Lexeme::Trig(k)];
    assert(w == head + op('(') + ta + op(')'));
    lemma_holds_split(ts, p, head + op('(') + ta, op(')'));
    lemma_holds_split(ts, p, head + op('('), ta);
    lemma_holds_split(ts, p, head, op('('));
    assert(ts[p] == ts.subrange(p, p + 1)[0]);
    lemma_holds_op(ts, p + 1, '(');
    lemma_holds_op(ts, p + 2 + ta.len(), ')');
    lemma_printable_prec(a);
    assert(toks(a, 1) == ta);
    lemma_sum(ts, p + 2, a, table);
}

} // verus!

verus! {

/// The tokens that the text of a printable tree spells parse, as an
/// expression, back to the tree.
pub proof fn lemma_tokens_parse_back(t: Term, table: Map<Seq<char>, FunctionModel>)
    requires
        printable(t),
        calls_known(t, table),
    ensures
        expr_at(toks(t, 0), 0, table) == Ok::<(Term, int), CalcError>((t, toks(t, 0).len() as int)),
{
    let ts = toks(t, 0);
    lemma_printable_prec(t);
    assert(toks(t, 1) == ts);
    assert(ts.subrange(0, ts.len() as int) =~= ts);
    lemma_sum(ts, 0, t, table);
}

} // verus!

verus! {

/// A name that lexes back to itself: letters only, and no keyword.
pub open spec fn is_name(n: Seq<char>) -> bool {
    &&& n.len() > 0
    &&& forall|k: int| 0 <= k < n.len() ==> is_word_char(#[trigger] n[k]) && !is_digit(n[k]) && !is_op_char(n[k])
    &&& keyword(n) == Lexeme::Ident(n)
}

/// `show` writes the constant `c` as decimal digits that convert back to
/// `c`.
pub open spec fn spelled<F: Fn(NumOp, u64, u64) -> u64, G: Fn(u64) -> String>(
    c: u64,
    show: G,
    f: F,
) -> bool {
    let d = shown(show, c);
    &&& d.len() > 0
    &&& forall|k: int| 0 <= k < d.len() ==> is_digit(#[trigger] d[k])
    &&& numeral(d) <= u64::MAX
    &&& num_result(f, NumOp::FromInt, numeral(d) as u64, ZERO) == c
}

/// Every name of `t` is a name that lexes back to itself and every constant
/// is written as digits that convert back to it.
pub open spec fn spellable<F: Fn(NumOp, u64, u64) -> u64, G: Fn(u64) -> String>(
    t: Term,
    show: G,
    f: F,
) -> bool
    decreases t,
{
    match t {
        Term::Const(c) => spelled(c, show, f),
        Term::Var(n) => is_name(n),
        Term::Call(n, args) => is_name(n) && forall|i: int|
            0 <= i < args.len() ==> spellable(#[trigger] args[i], show, f),
        Term::Add(a, b) | Term::Sub(a, b) | Term::Mul(a, b) | Term::Div(a, b) | Term::Power(a, b)
        | Term::Log(a, b) | Term::Equal(a, b) => spellable(*a, show, f) && spellable(*b, show, f),
        Term::Trig(_, a) => spellable(*a, show, f),
    }
}

/// The tokens `w` followed by the outcome of lexing the rest.
pub open spec fn then_lex(w: Seq<Lexeme>, rest: Result<Seq<Lexeme>, CalcError>) -> Result<
    Seq<Lexeme>,
    CalcError,
> {
    match rest {
        Ok(ls) => Ok(w + ls),
        Err(e) => Err(e),
    }
}

/// Where a word or a numeral must end: at the end of the text or at an
/// operator.
pub open spec fn boundary(s: Seq<char>, j: int) -> bool {
    j == s.len() || (0 <= j < s.len() && is_op_char(s[j]))
}

proof fn lemma_then_assoc(a: Seq<Lexeme>, b: Seq<Lexeme>, r: Result<Seq<Lexeme>, CalcError>)
    ensures
        then_lex(a, then_lex(b, r)) == then_lex(a + b, r),
{
    if let Ok(ls) = r {
        assert(a + (b + ls) =~= (a + b) + ls);
    }
}

proof fn lemma_run_exact(s: Seq<char>, i: int, j: int, letters: bool)
    requires
        0 <= i <= j <= s.len(),
        forall|k: int| i <= k < j ==> (if letters {
            is_word_char(#[trigger] s[k])
        } else {
            is_digit(s[k])
        }),
        boundary(s, j),
    ensures
        run_end(s, i, letters) == j,
    decreases j - i,
{
    if i < j {
        lemma_run_exact(s, i + 1, j, letters);
    }
}

proof fn lemma_lex_op<F: Fn(NumOp, u64, u64) -> u64>(s: Seq<char>, i: int, c: char, f: F)
    requires
        0 <= i < s.len(),
        s[i] == c,
        is_op_char(c),
    ensures
        lex_from(s, i, f) == then_lex(seq![Lexeme::Op(c)], lex_from(s, i + 1, f)),
{
}

proof fn lemma_lex_word<F: Fn(NumOp, u64, u64) -> u64>(s: Seq<char>, i: int, w: Seq<char>, f: F)
    requires
        holds_at(s, i, w),
        w.len() > 0,
        forall|k: int| 0 <= k < w.len() ==> is_word_char(#[trigger] w[k]) && !is_digit(w[k]) && !is_op_char(w[k]),
        boundary(s, i + w.len()),
    ensures
        lex_from(s, i, f) == then_lex(seq![keyword(w)], lex_from(s, i + w.len(), f)),
{
    assert forall|k: int| i <= k < i + w.len() implies is_word_char(#[trigger] s[k]) by {
        assert(s[k] == s.subrange(i, i + w.len())[k - i]);
    }
    assert(s[i] == s.subrange(i, i + w.len())[0]);
    lemma_run_exact(s, i, i + w.len(), true);
}

proof fn lemma_lex_number<F: Fn(NumOp, u64, u64) -> u64>(s: Seq<char>, i: int, d: Seq<char>, f: F)
    requires
        holds_at(s, i, d),
        d.len() > 0,
        forall|k: int| 0 <= k < d.len() ==> is_digit(#[trigger] d[k]),
        numeral(d) <= u64::MAX,
        boundary(s, i + d.len()),
    ensures
        lex_from(s, i, f) == then_lex(
            seq![Lexeme::Num(num_result(f, NumOp::FromInt, numeral(d) as u64, ZERO))],
            lex_from(s, i + d.len(), f),
        ),
{
    assert forall|k: int| i <= k < i + d.len() implies is_digit(#[trigger] s[k]) by {
        assert(s[k] == s.subrange(i, i + d.len())[k - i]);
    }
    assert(s[i] == s.subrange(i, i + d.len())[0]);
    lemma_run_exact(s, i, i + d.len(), false);
}

proof fn lemma_trig_keyword(k: TrigKind)
    ensures
        keyword(trig_name(k)) == Lexeme::Trig(k),
        trig_name(k).len() > 0,
        forall|m: int| 0 <= m < trig_name(k).len() ==> is_word_char(#[trigger] trig_name(k)[m])
            && !is_digit(trig_name(k)[m]) && !is_op_char(trig_name(k)[m]),
{
    reveal_strlit("log");
    reveal_strlit("sin");
    reveal_strlit("cos");
    reveal_strlit("tan");
    reveal_strlit("arcsin");
    reveal_strlit("arccos");
    reveal_strlit("arctan");
    reveal_strlit("csc");
    reveal_strlit("sec");
    reveal_strlit("cot");
    reveal_strlit("pi");
    let n = trig_name(k);
    assert(n[0] != 'l');
    match k {
        TrigKind::Sin => {},
        TrigKind::Cos => {
            assert(n != "sin"@) by { assert(n[0] != "sin"@[0]); }
        },
        TrigKind::Tan => {
            assert(n != "sin"@) by { assert(n[0] != "sin"@[0]); }
            assert(n != "cos"@) by { assert(n[0] != "cos"@[0]); }
        },
        TrigKind::Arcsin => {
            assert(n != "sin"@) by { assert(n[0] != "sin"@[0]); }
            assert(n != "cos"@) by { assert(n[0] != "cos"@[0]); }
            assert(n != "tan"@) by { assert(n[0] != "tan"@[0]); }
        },
        TrigKind::Arccos => {
            assert(n != "sin"@) by { assert(n[0] != "sin"@[0]); }
            assert(n != "cos"@) by { assert(n[0] != "cos"@[0]); }
            assert(n != "tan"@) by { assert(n[0] != "tan"@[0]); }
            assert(n != "arcsin"@) by { assert(n[3] != "arcsin"@[3]); }
        },
        TrigKind::Arctan => {
            assert(n != "sin"@) by { assert(n[0] != "sin"@[0]); }
            assert(n != "cos"@) by { assert(n[0] != "cos"@[0]); }
            assert(n != "tan"@) by { assert(n[0] != "tan"@[0]); }
            assert(n != "arcsin"@) by { assert(n[3] != "arcsin"@[3]); }
            assert(n != "arccos"@) by { assert(n[3] != "arccos"@[3]); }
        },
        TrigKind::Csc => {
            assert(n != "sin"@) by { assert(n[0] != "sin"@[0]); }
            assert(n != "cos"@) by { assert(n[1] != "cos"@[1]); }
            assert(n != "tan"@) by { assert(n[0] != "tan"@[0]); }
            assert(n != "arcsin"@) by { assert(n.len() != "arcsin"@.len()); }
            assert(n != "arccos"@) by { assert(n.len() != "arccos"@.len()); }
            assert(n != "arctan"@) by { assert(n.len() != "arctan"@.len()); }
        },
        TrigKind::Sec => {
            assert(n != "sin"@) by { assert(n[1] != "sin"@[1]); }
            assert(n != "cos"@) by { assert(n[0] != "cos"@[0]); }
            assert(n != "tan"@) by { assert(n[0] != "tan"@[0]); }
            assert(n != "arcsin"@) by { assert(n.len() != "arcsin"@.len()); }
            assert(n != "arccos"@) by { assert(n.len() != "arccos"@.len()); }
            assert(n != "arctan"@) by { assert(n.len() != "arctan"@.len()); }
            assert(n != "csc"@) by { assert(n[1] != "csc"@[1]); }
        },
        TrigKind::Cot => {
            assert(n != "sin"@) by { assert(n[0] != "sin"@[0]); }
            assert(n != "cos"@) by { assert(n[2] != "cos"@[2]); }
            assert(n != "tan"@) by { assert(n[0] != "tan"@[0]); }
            assert(n != "arcsin"@) by { assert(n.len() != "arcsin"@.len()); }
            assert(n != "arccos"@) by { assert(n.len() != "arccos"@.len()); }
            assert(n != "arctan"@) by { assert(n.len() != "arctan"@.len()); }
            assert(n != "csc"@) by { assert(n[1] != "csc"@[1]); }
            assert(n != "sec"@) by { assert(n[0] != "sec"@[0]); }
        },
    }
}

} // verus!

verus! {

/// Lexing the text of `t` at precedence `level`, found at `i`, yields the
/// tokens of `t` and then whatever lexing after it yields.
proof fn lemma_lex_rendered<F: Fn(NumOp, u64, u64) -> u64, G: Fn(u64) -> String>(
    s: Seq<char>,
    i: int,
    t: Term,
    level: int,
    show: G,
    f: F,
)
    requires
        printable(t),
        spellable(t, show, f),
        holds_at(s, i, rendered(t, level, show)),
        boundary(s, i + rendered(t, level, show).len()),
    ensures
        lex_from(s, i, f) == then_lex(
            toks(t, level),
            lex_from(s, i + rendered(t, level, show).len(), f),
        ),
    decreases t, 2int,
{
    let r = rendered(t, level, show);
    let b = bare(t, show);
    if prec(t) < level {
        reveal_strlit("(");
        reveal_strlit(")");
        assert(r == seq!['('] + b + seq![')']);
        lemma_holds_split(s, i, seq!['('] + b, seq![')']);
        lemma_holds_split(s, i, seq!['('], b);
        assert(s[i] == s.subrange(i, i + 1)[0]);
        let e = i + 1 + b.len();
        assert(s[e] == s.subrange(e, e + 1)[0]);
        lemma_lex_op(s, i, '(', f);
        lemma_lex_bare(s, i + 1, t, show, f);
        lemma_lex_op(s, e, ')', f);
        lemma_then_assoc(btoks(t), op(')'), lex_from(s, e + 1, f));
        lemma_then_assoc(op('('), btoks(t) + op(')'), lex_from(s, e + 1, f));
        assert(op('(') + (btoks(t) + op(')')) =~= toks(t, level));
    } else {
        lemma_lex_bare(s, i, t, show, f);
    }
}

proof fn lemma_lex_bare<F: Fn(NumOp, u64, u64) -> u64, G: Fn(u64) -> String>(
    s: Seq<char>,
    i: int,
    t: Term,
    show: G,
    f: F,
)
    requires
        printable(t),
        spellable(t, show, f),
        holds_at(s, i, bare(t, show)),
        boundary(s, i + bare(t, show).len()),
    ensures
        lex_from(s, i, f) == then_lex(btoks(t), lex_from(s, i + bare(t, show).len(), f)),
    decreases t, 1int,
{
    match t {
        Term::Const(c) => {
            lemma_lex_number(s, i, shown(show, c), f);
        },
        Term::Var(n) => {
            lemma_lex_word(s, i, n, f);
        },
        Term::Log(a, b) => {
            lemma_lex_log(s, i, t, show, f);
        },
        Term::Trig(k, a) => {
            lemma_lex_trig(s, i, t, show, f);
        },
        Term::Call(_, _) => {
            lemma_lex_call(s, i, t, show, f);
        },
        Term::Add(_, _) | Term::Sub(_, _) | Term::Mul(_, _) | Term::Div(_, _) | Term::Power(_, _) => {
            lemma_lex_binary(s, i, t, show, f);
        },
        _ => {},
    }
}

proof fn lemma_lex_binary<F: Fn(NumOp, u64, u64) -> u64, G: Fn(u64) -> String>(
    s: Seq<char>,
    i: int,
    t: Term,
    show: G,
    f: F,
)
    requires
        t is Add || t is Sub || t is Mul || t is Div || t is Power,
        printable(t),
        spellable(t, show, f),
        holds_at(s, i, bare(t, show)),
        boundary(s, i + bare(t, show).len()),
    ensures
        lex_from(s, i, f) == then_lex(btoks(t), lex_from(s, i + bare(t, show).len(), f)),
    decreases t, 0int,
{
    reveal_strlit("+");
    reveal_strlit("-");
    reveal_strlit("*");
    reveal_strlit("/");
    reveal_strlit("^");
    let (a, b, la, lb, c) = match t {
        Term::Add(a, b) => (*a, *b, 1int, 2int, '+'),
        Term::Sub(a, b) => (*a, *b, 1int, 2int, '-'),
        Term::Mul(a, b) => (*a, *b, 2int, 3int, '*'),
        Term::Div(a, b) => (*a, *b, 2int, 3int, '/'),
        Term::Power(a, b) => (*a, *b, 3int, 4int, '^'),
        _ => (t, t, 0int, 0int, ' '),
    };
    let ra = rendered(a, la, show);
    let rb = rendered(b, lb, show);
    assert(bare(t, show) == ra + seq![c] + rb);
    assert(btoks(t) == toks(a, la) + op(c) + toks(b, lb));
    lemma_holds_split(s, i, ra + seq![c], rb);
    lemma_holds_split(s, i, ra, seq![c]);
    let m = i + ra.len();
    assert(s[m] == s.subrange(m, m + 1)[0]);
    lemma_lex_rendered(s, i, a, la, show, f);
    lemma_lex_op(s, m, c, f);
    lemma_lex_rendered(s, m + 1, b, lb, show, f);
    let rest = lex_from(s, m + 1 + rb.len(), f);
    lemma_then_assoc(op(c), toks(b, lb), rest);
    lemma_then_assoc(toks(a, la), op(c) + toks(b, lb), rest);
    assert(toks(a, la) + (op(c) + toks(b, lb)) =~= btoks(t));
}

#[verifier::rlimit(40)]
#[verifier::spinoff_prover]
proof fn lemma_lex_log<F: Fn(NumOp, u64, u64) -> u64, G: Fn(u64) -> String>(
    s: Seq<char>,
    i: int,
    t: Term,
    show: G,
    f: F,
)
    requires
        t is Log,
        printable(t),
        spellable(t, show, f),
        holds_at(s, i, bare(t, show)),
        boundary(s, i + bare(t, show).len()),
    ensures
        lex_from(s, i, f) == then_lex(btoks(t), lex_from(s, i + bare(t, show).len(), f)),
    decreases t, 0int,
{
    reveal_strlit("log(");
    reveal_strlit("log");
    reveal_strlit(",");
    reveal_strlit(")");
    let (a, b) = (*t->Log_0, *t->Log_1);
    let ra = rendered(a, 0, show);
    let rb = rendered(b, 0, show);
    let w = seq!['l', 'o', 'g'];
    assert(w == "log"@);
    assert(bare(t, show) == w + seq!['('] + ra + seq![','] + rb + seq![')']);
    lemma_holds_split(s, i, w + seq!['('] + ra + seq![','] + rb, seq![')']);
    lemma_holds_split(s, i, w + seq!['('] + ra + seq![','], rb);
    lemma_holds_split(s, i, w + seq!['('] + ra, seq![',']);
    lemma_holds_split(s, i, w + seq!['('], ra);
    lemma_holds_split(s, i, w, seq!['(']);
    let lp = i + 3;
    let cm = lp + 1 + ra.len();
    let rp = cm + 1 + rb.len();
    assert(s[lp] == s.subrange(lp, lp + 1)[0]);
    assert(s[cm] == s.subrange(cm, cm + 1)[0]);
    assert(s[rp] == s.subrange(rp, rp + 1)[0]);
    lemma_lex_word(s, i, w, f);
    lemma_lex_op(s, lp, '(', f);
    lemma_lex_rendered(s, lp + 1, a, 0, show, f);
    lemma_lex_op(s, cm, ',', f);
    lemma_lex_rendered(s, cm + 1, b, 0, show, f);
    lemma_lex_op(s, rp, ')', f);
    let rest = lex_from(s, rp + 1, f);
    lemma_then_assoc(toks(b, 0), op(')'), rest);
    lemma_then_assoc(op(','), toks(b, 0) + op(')'), rest);
    lemma_then_assoc(toks(a, 0), op(',') + (toks(b, 0) + op(')')), rest);
    lemma_then_assoc(op('('), toks(a, 0) + (op(',') + (toks(b, 0) + op(')'))), rest);
    lemma_then_assoc(
        seq![Lexeme::Log],
        op('(') + (toks(a, 0) + (op(',') + (toks(b, 0) + op(')')))),
        rest,
    );
    assert(seq![Lexeme::Log] + (op('(') + (toks(a, 0) + (op(',') + (toks(b, 0) + op(')')))))
        =~= btoks(t));
}

proof fn lemma_lex_trig<F: Fn(NumOp, u64, u64) -> u64, G: Fn(u64) -> String>(
    s: Seq<char>,
    i: int,
    t: Term,
    show: G,
    f: F,
)
    requires
        t is Trig,
        printable(t),
        spellable(t, show, f),
        holds_at(s, i, bare(t, show)),
        boundary(s, i + bare(t, show).len()),
    ensures
        lex_from(s, i, f) == then_lex(btoks(t), lex_from(s, i + bare(t, show).len(), f)),
    decreases t, 0int,
{
    reveal_strlit("(");
    reveal_strlit(")");
    let (k, a) = (t->Trig_0, *t->Trig_1);
    let ra = rendered(a, 0, show);
    let w = trig_name(k);
    lemma_trig_keyword(k);
    assert(bare(t, show) == w + seq!['('] + ra + seq![')']);
    lemma_holds_split(s, i, w + seq!['('] + ra, seq![')']);
    lemma_holds_split(s, i, w + seq!['('], ra);
    lemma_holds_split(s, i, w, seq!['(']);
    let lp = i + w.len();
    let rp = lp + 1 + ra.len();
    assert(s[lp] == s.subrange(lp, lp + 1)[0]);
    assert(s[rp] == s.subrange(rp, rp + 1)[0]);
    lemma_lex_word(s, i, w, f);
    lemma_lex_op(s, lp, '(', f);
    lemma_lex_rendered(s, lp + 1, a, 0, show, f);
    lemma_lex_op(s, rp, ')', f);
    let rest = lex_from(s, rp + 1, f);
    lemma_then_assoc(toks(a, 0), op(')'), rest);
    lemma_then_assoc(op('('), toks(a, 0) + op(')'), rest);
    lemma_then_assoc(seq![Lexeme::Trig(k)], op('(') + (toks(a, 0) + op(')')), rest);
    assert(seq![Lexeme::Trig(k)] + (op('(') + (toks(a, 0) + op(')'))) =~= btoks(t));
}

/// Rendering a tree, lexing the text and parsing the tokens as an
/// expression gives the tree back.  This holds of every tree that rendering
/// spells unambiguously (`printable`), whose calls name functions of the
/// table (`calls_known`), and whose names and constants spell back to
/// themselves (`spellable`).
pub proof fn law_render_then_parse<F: Fn(NumOp, u64, u64) -> u64, G: Fn(u64) -> String>(
    t: Term,
    table: Map<Seq<char>, FunctionModel>,
    show: G,
    f: F,
)
    requires
        printable(t),
        calls_known(t, table),
        spellable(t, show, f),
    ensures
        lex_from(rendered(t, 0, show), 0, f) == Ok::<Seq<Lexeme>, CalcError>(toks(t, 0)),
        expr_at(toks(t, 0), 0, table) == Ok::<(Term, int), CalcError>((t, toks(t, 0).len() as int)),
{
    let s = rendered(t, 0, show);
    assert(s.subrange(0, s.len() as int) =~= s);
    lemma_lex_rendered(s, 0, t, 0, show, f);
    assert(toks(t, 0) + Seq::<Lexeme>::empty() =~= toks(t, 0));
    lemma_tokens_parse_back(t, table);
}

} // verus!

verus! {

proof fn lemma_first_tok(t: Term, level: int)
    ensures
        toks(t, level).len() > 0,
        toks(t, level)[0] != Lexeme::Op(')'),
    decreases t,
{
    if prec(t) >= level {
        match t {
            Term::Add(a, b) => lemma_first_tok(*a, 1),
            Term::Sub(a, b) => lemma_first_tok(*a, 1),
            Term::Mul(a, b) => lemma_first_tok(*a, 2),
            Term::Div(a, b) => lemma_first_tok(*a, 2),
            Term::Power(a, b) => lemma_first_tok(*a, 3),
            Term::Equal(a, b) => lemma_first_tok(*a, 0),
            _ => {},
        }
    }
}

proof fn lemma_toks_list_front(s: Seq<Term>)
    requires
        s.len() >= 2,
    ensures
        toks_list(s) == toks(s[0], 0) + op(',') + toks_list(s.drop_first()),
    decreases s.len(),
{
    let dl = s.drop_last();
    let df = s.drop_first();
    assert(dl[0] == s[0]);
    if s.len() == 2 {
        assert(df[0] == s[1]);
        assert(toks_list(dl) == toks(s[0], 0));
        assert(toks_list(df) == toks(s[1], 0));
        assert(s.last() == s[1]);
    } else {
        lemma_toks_list_front(dl);
        assert(df.drop_last() =~= dl.drop_first());
        assert(df.last() == s.last());
        assert(toks_list(df) == toks_list(df.drop_last()) + op(',') + toks(df.last(), 0));
        assert(toks_list(s) =~= toks(s[0], 0) + op(',') + toks_list(df));
    }
}

proof fn lemma_rendered_list_front<G: Fn(u64) -> String>(s: Seq<Term>, show: G)
    requires
        s.len() >= 2,
    ensures
        rendered_list(s, show) == rendered(s[0], 0, show) + ","@ + rendered_list(s.drop_first(), show),
    decreases s.len(),
{
    let dl = s.drop_last();
    let df = s.drop_first();
    assert(dl[0] == s[0]);
    if s.len() == 2 {
        assert(df[0] == s[1]);
        assert(rendered_list(dl, show) == rendered(s[0], 0, show));
        assert(rendered_list(df, show) == rendered(s[1], 0, show));
        assert(s.last() == s[1]);
    } else {
        lemma_rendered_list_front(dl, show);
        assert(df.drop_last() =~= dl.drop_first());
        assert(df.last() == s.last());
        assert(rendered_list(df, show) == rendered_list(df.drop_last(), show) + ","@ + rendered(
            df.last(),
            0,
            show,
        ));
        assert(rendered_list(s, show) =~= rendered(s[0], 0, show) + ","@ + rendered_list(df, show));
    }
}

/// The tokens of a nonempty argument list and its closing parenthesis
/// parse to the arguments, after those already read.
proof fn lemma_args(
    ts: Seq<Lexeme>,
    q: int,
    acc: Seq<Term>,
    s: Seq<Term>,
    table: Map<Seq<char>, FunctionModel>,
)
    requires
        s.len() >= 1,
        forall|i: int| 0 <= i < s.len() ==> printable(#[trigger] s[i]) && calls_known(s[i], table),
        holds_at(ts, q, toks_list(s) + op(')')),
    ensures
        args_at(ts, q, acc, table) == Ok::<(Seq<Term>, int), CalcError>(
            (acc + s, q + toks_list(s).len() + 1),
        ),
    decreases s, 0int,
{
    let x = s[0];
    let tx = toks(x, 0);
    assert(printable(x) && calls_known(x, table));
    lemma_printable_prec(x);
    assert(toks(x, 1) == tx);
    lemma_first_tok(x, 0);
    if s.len() == 1 {
        assert(toks_list(s) == tx);
        lemma_holds_split(ts, q, tx, op(')'));
        lemma_holds_op(ts, q + tx.len(), ')');
        assert(ts[q] == ts.subrange(q, q + tx.len())[0]);
        lemma_sum(ts, q, x, table);
        assert(acc.push(x) =~= acc + s);
    } else {
        let rest = s.drop_first();
        lemma_toks_list_front(s);
        assert(toks_list(s) + op(')') =~= tx + op(',') + (toks_list(rest) + op(')')));
        lemma_holds_split(ts, q, tx + op(','), toks_list(rest) + op(')'));
        lemma_holds_split(ts, q, tx, op(','));
        lemma_holds_op(ts, q + tx.len(), ',');
        assert(ts[q] == ts.subrange(q, q + tx.len())[0]);
        lemma_sum(ts, q, x, table);
        assert forall|i: int| 0 <= i < rest.len() implies printable(#[trigger] rest[i])
            && calls_known(rest[i], table) by {
            assert(rest[i] == s[i + 1]);
        }
        lemma_args(ts, q + tx.len() + 1, acc.push(x), rest, table);
        assert(acc.push(x) + rest =~= acc + s);
    }
}

proof fn lemma_call(
    ts: Seq<Lexeme>,
    p: int,
    t: Term,
    level: int,
    table: Map<Seq<char>, FunctionModel>,
)
    requires
        printable(t),
        calls_known(t, table),
        t is Call,
        level <= 4,
        holds_at(ts, p, toks(t, level)),
    ensures
        primary_at(ts, p, table) == Ok::<(Term, int), CalcError>((t, p + toks(t, level).len())),
    decreases t, 0int,
{
    let (n, args) = (t->Call_0, t->Call_1);
    let w = toks(t, level);
    let tl = toks_list(args);
    let head = seq![Lexeme::Ident(n)];
    assert(w == head + op('(') + (tl + op(')')));
    lemma_holds_split(ts, p, head + op('('), tl + op(')'));
    lemma_holds_split(ts, p, head, op('('));
    assert(ts[p] == ts.subrange(p, p + 1)[0]);
    lemma_holds_op(ts, p + 1, '(');
    if args.len() == 0 {
        assert(tl == Seq::<Lexeme>::empty());
        assert(tl + op(')') =~= op(')'));
        lemma_holds_op(ts, p + 2, ')');
        assert(args =~= Seq::<Term>::empty());
    } else {
        assert forall|i: int| 0 <= i < args.len() implies printable(#[trigger] args[i])
            && calls_known(args[i], table) by {}
        lemma_args(ts, p + 2, Seq::empty(), args, table);
        assert(Seq::<Term>::empty() + args =~= args);
    }
}

proof fn lemma_lex_list<F: Fn(NumOp, u64, u64) -> u64, G: Fn(u64) -> String>(
    s: Seq<char>,
    i: int,
    xs: Seq<Term>,
    show: G,
    f: F,
)
    requires
        xs.len() >= 1,
        forall|k: int| 0 <= k < xs.len() ==> printable(#[trigger] xs[k]) && spellable(xs[k], show, f),
        holds_at(s, i, rendered_list(xs, show)),
        boundary(s, i + rendered_list(xs, show).len()),
    ensures
        lex_from(s, i, f) == then_lex(toks_list(xs), lex_from(s, i + rendered_list(xs, show).len(), f)),
    decreases xs, 0int,
{
    let x = xs[0];
    assert(printable(x) && spellable(x, show, f));
    if xs.len() == 1 {
        lemma_lex_rendered(s, i, x, 0, show, f);
    } else {
        reveal_strlit(",");
        let rest = xs.drop_first();
        let rx = rendered(x, 0, show);
        lemma_rendered_list_front(xs, show);
        lemma_toks_list_front(xs);
        assert(rendered_list(xs, show) == rx + seq![','] + rendered_list(rest, show));
        lemma_holds_split(s, i, rx + seq![','], rendered_list(rest, show));
        lemma_holds_split(s, i, rx, seq![',']);
        let m = i + rx.len();
        assert(s[m] == s.subrange(m, m + 1)[0]);
        lemma_lex_rendered(s, i, x, 0, show, f);
        lemma_lex_op(s, m, ',', f);
        assert forall|k: int| 0 <= k < rest.len() implies printable(#[trigger] rest[k])
            && spellable(rest[k], show, f) by {
            assert(rest[k] == xs[k + 1]);
        }
        lemma_lex_list(s, m + 1, rest, show, f);
        let after = lex_from(s, m + 1 + rendered_list(rest, show).len(), f);
        lemma_then_assoc(op(','), toks_list(rest), after);
        lemma_then_assoc(toks(x, 0), op(',') + toks_list(rest), after);
        assert(toks(x, 0) + (op(',') + toks_list(rest)) =~= toks_list(xs));
    }
}

proof fn lemma_lex_call<F: Fn(NumOp, u64, u64) -> u64, G: Fn(u64) -> String>(
    s: Seq<char>,
    i: int,
    t: Term,
    show: G,
    f: F,
)
    requires
        t is Call,
        printable(t),
        spellable(t, show, f),
        holds_at(s, i, bare(t, show)),
        boundary(s, i + bare(t, show).len()),
    ensures
        lex_from(s, i, f) == then_lex(btoks(t), lex_from(s, i + bare(t, show).len(), f)),
    decreases t, 0int,
{
    reveal_strlit("(");
    reveal_strlit(")");
    let (n, args) = (t->Call_0, t->Call_1);
    let rl = rendered_list(args, show);
    assert(bare(t, show) == n + seq!['('] + rl + seq![')']);
    lemma_holds_split(s, i, n + seq!['('] + rl, seq![')']);
    lemma_holds_split(s, i, n + seq!['('], rl);
    lemma_holds_split(s, i, n, seq!['(']);
    let lp = i + n.len();
    let rp = lp + 1 + rl.len();
    assert(s[lp] == s.subrange(lp, lp + 1)[0]);
    assert(s[rp] == s.subrange(rp, rp + 1)[0]);
    lemma_lex_word(s, i, n, f);
    lemma_lex_op(s, lp, '(', f);
    let rest = lex_from(s, rp + 1, f);
    lemma_lex_op(s, rp, ')', f);
    if args.len() == 0 {
        assert(rl == Seq::<char>::empty());
        assert(toks_list(args) == Seq::<Lexeme>::empty());
        lemma_then_assoc(op('('), op(')'), rest);
        lemma_then_assoc(seq![Lexeme::Ident(n)], op('(') + op(')'), rest);
        assert(seq![Lexeme::Ident(n)] + (op('(') + op(')')) =~= btoks(t));
    } else {
        assert forall|k: int| 0 <= k < args.len() implies printable(#[trigger] args[k])
            && spellable(args[k], show, f) by {}
        lemma_lex_list(s, lp + 1, args, show, f);
        lemma_then_assoc(toks_list(args), op(')'), rest);
        lemma_then_assoc(op('('), toks_list(args) + op(')'), rest);
        lemma_then_assoc(seq![Lexeme::Ident(n)], op('(') + (toks_list(args) + op(')')), rest);
        assert(seq![Lexeme::Ident(n)] + (op('(') + (toks_list(args) + op(')'))) =~= btoks(t));
    }
}

} // verus!
