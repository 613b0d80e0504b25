//! Defining functions, differentiating them, and the three operations of a
//! session: define, evaluate, differentiate.
use vstd::prelude::*;
use crate::diff::deriv;
use crate::error::CalcError;
use crate::eval::value_of;
use crate::lexer::{lex_from, lexemes, Tokenlizer};
use crate::num::{NumOp, is_arith};
use crate::parser::{agree_on_calls, definition_of, known, lemma_frame_definition, op_at, parse_definition};
use crate::simplify::{law_simplify_idempotent, simp};
use crate::table::{dup_result, lemma_term_eq_refl, no_nan, term_eq, Function, FunctionModel, FunctionTable};
use crate::token::{Lexeme, Token};

verus! {

/// The function that the tokens `ts` define against `table`, its body
/// simplified.
pub open spec fn defined<F: Fn(NumOp, u64, u64) -> u64>(
    ts: Seq<Lexeme>,
    table: Map<Seq<char>, FunctionModel>,
    f: F,
) -> Result<FunctionModel, CalcError> {
    match definition_of(ts, table) {
        Err(e) => Err(e),
        Ok((n, ps, body)) => Ok(FunctionModel { name: n, params: ps, body: simp(body, f) }),
    }
}

/// The table after a definition that yields `fm` (or fails): unchanged
/// when the definition fails, conflicts or repeats an existing function,
/// else with `fm` stored under its name.
pub open spec fn table_after<F: Fn(NumOp, u64, u64) -> u64>(
    table: Map<Seq<char>, FunctionModel>,
    fm: Result<FunctionModel, CalcError>,
    f: F,
) -> Map<Seq<char>, FunctionModel> {
    match fm {
        Ok(m) => if dup_result(table, m, f) == Ok::<bool, CalcError>(false) {
            table.insert(m.name, m)
        } else {
            table
        },
        Err(_) => table,
    }
}

/// What a definition that yields `fm` (or fails) returns.
pub open spec fn define_result<F: Fn(NumOp, u64, u64) -> u64>(
    table: Map<Seq<char>, FunctionModel>,
    fm: Result<FunctionModel, CalcError>,
    f: F,
) -> Result<FunctionModel, CalcError> {
    match fm {
        Ok(m) => match dup_result(table, m, f) {
            Err(e) => Err(e),
            Ok(_) => Ok(m),
        },
        Err(e) => Err(e),
    }
}

pub open spec fn function_view(r: Result<Function, CalcError>) -> Result<FunctionModel, CalcError> {
    match r {
        Ok(f) => Ok(f@),
        Err(e) => Err(e),
    }
}

/// The derivative of `func` with respect to `x`, simplified, as a function
/// named after `func` with a trailing `'`.
pub open spec fn derived<F: Fn(NumOp, u64, u64) -> u64>(
    func: FunctionModel,
    x: Seq<char>,
    f: F,
) -> Result<FunctionModel, CalcError> {
    match deriv(func.body, x, func.params, f) {
        Err(e) => Err(e),
        Ok(d) => Ok(
            FunctionModel { name: func.name + seq!['\''], params: func.params, body: simp(d, f) },
        ),
    }
}

impl Function {
    /// Parses the definition that `tokens` spell, simplifies its body, and
    /// stores it in `table` unless a function of the same name and arity is
    /// there already: with an equal body the definition is accepted and the
    /// table left as it is, with another body it is a conflict.
    pub fn new<F: Fn(NumOp, u64, u64) -> u64>(
        tokens: &Vec<Token>,
        table: &mut FunctionTable,
        arith: &F,
    ) -> (r: Result<Function, CalcError>)
        requires
            is_arith(*arith),
            old(table).wf(),
        ensures
            final(table).wf(),
            function_view(r) == define_result(
                old(table)@,
                defined(lexemes(tokens@), old(table)@, *arith),
                *arith,
            ),
            final(table)@ == table_after(
                old(table)@,
                defined(lexemes(tokens@), old(table)@, *arith),
                *arith,
            ),
    {
        let (name, params, body) = parse_definition(tokens, table)?;
        let func = Function { name, params, body: body.simplify(arith) };
        let exists = table.check_duplicate(&func, arith)?;
        if !exists {
            table.insert(func.name.clone(), func.copy());
        }
        Ok(func)
    }

    /// The derivative with respect to `x`, simplified, as a new function
    /// whose name is this one's with `'` appended.
    pub fn derivative<F: Fn(NumOp, u64, u64) -> u64>(&self, x: &String, arith: &F) -> (r: Result<
        Function,
        CalcError,
    >)
        requires
            is_arith(*arith),
        ensures
            function_view(r) == derived(self@, x@, *arith),
    {
        let d = self.body.derivative(x, &self.params, arith)?;
        let body = d.simplify(arith);
        let mut name = self.name.clone();
        proof {
            reveal_strlit("'");
        }
        name.append("'");
        assert(name@ =~= self.name@ + seq!['\'']);
        let copied = self.copy();
        let func = Function { name, params: copied.params, body };
        assert(func@.params == self@.params);
        Ok(func)
    }
}

/// Defines the function that `line` spells (see `Function::new`).
pub fn put<F: Fn(NumOp, u64, u64) -> u64>(
    line: &String,
    table: &mut FunctionTable,
    arith: &F,
) -> (r: Result<Function, CalcError>)
    requires
        is_arith(*arith),
        old(table).wf(),
    ensures
        final(table).wf(),
        match lex_from(line@, 0, *arith) {
            Err(e) => r == Err::<Function, CalcError>(e) && final(table)@ == old(table)@,
            Ok(ts) => function_view(r) == define_result(
                old(table)@,
                defined(ts, old(table)@, *arith),
                *arith,
            ) && final(table)@ == table_after(old(table)@, defined(ts, old(table)@, *arith), *arith),
        },
{
    let mut lexer = Tokenlizer::new(line);
    let tokens = lexer.tokenlize(arith)?;
    Function::new(&tokens, table, arith)
}

/// The value of the function `name` of `table` at `args`; it must take as
/// many arguments as `args` holds.
pub fn caculate<F: Fn(NumOp, u64, u64) -> u64>(
    name: &String,
    args: &Vec<u64>,
    table: &FunctionTable,
    arith: &F,
) -> (r: Result<u64, CalcError>)
    requires
        is_arith(*arith),
        table.wf(),
    ensures
        if table@.contains_key(name@) && table@[name@].params.len() == args.len() {
            r == value_of(table@[name@], args@, table@, *arith)
        } else {
            r == Err::<u64, CalcError>(CalcError::UnknownFunction)
        },
{
    match table.find(name, args.len()) {
        Some(func) => func.caculate(args, table, arith),
        None => Err(CalcError::UnknownFunction),
    }
}

/// Differentiates the function `name` of arity `argc` with respect to `x`,
/// stores the derivative in `table` under its own name, and returns it.
pub fn derivative<F: Fn(NumOp, u64, u64) -> u64>(
    name: &String,
    argc: usize,
    x: &String,
    table: &mut FunctionTable,
    arith: &F,
) -> (r: Result<Function, CalcError>)
    requires
        is_arith(*arith),
        old(table).wf(),
    ensures
        final(table).wf(),
        if old(table)@.contains_key(name@) && old(table)@[name@].params.len() == argc {
            function_view(r) == derived(old(table)@[name@], x@, *arith) && match r {
                Ok(d) => final(table)@ == old(table)@.insert(d@.name, d@),
                Err(_) => final(table)@ == old(table)@,
            }
        } else {
            r == Err::<Function, CalcError>(CalcError::UnknownFunction) && final(table)@ == old(
                table,
            )@
        },
{
    let d = match table.find(name, argc) {
        Some(func) => func.derivative(x, arith)?,
        None => return Err(CalcError::UnknownFunction),
    };
    table.insert(d.name.clone(), d.copy());
    Ok(d)
}

} // verus!

verus! {

/// Defining the same text a second time succeeds with the same function and
/// leaves the table as the first definition left it, provided the text
/// calls no function of the name it defines and the simplified body holds
/// no NaN constant (a NaN equals nothing, so such a body conflicts with
/// itself).
pub proof fn law_define_twice<F: Fn(NumOp, u64, u64) -> u64>(
    ts: Seq<Lexeme>,
    table: Map<Seq<char>, FunctionModel>,
    f: F,
)
    requires
        define_result(table, defined(ts, table, f), f) is Ok,
        forall|i: int|
            1 <= i < ts.len() && op_at(ts, i + 1, '(') ==> #[trigger] ts[i] != Lexeme::Ident(
                defined(ts, table, f)->Ok_0.name,
            ),
        no_nan(defined(ts, table, f)->Ok_0.body),
    ensures
        ({
            let first = defined(ts, table, f);
            let t2 = table_after(table, first, f);
            &&& defined(ts, t2, f) == first
            &&& define_result(t2, defined(ts, t2, f), f) == define_result(table, first, f)
            &&& table_after(t2, defined(ts, t2, f), f) == t2
        }),
{
    let first = defined(ts, table, f);
    let fm = first->Ok_0;
    let t2 = table_after(table, first, f);
    assert(agree_on_calls(ts, 1, table, t2)) by {
        assert forall|i: int, k: int|
            1 <= i < ts.len() && ts[i] is Ident && op_at(ts, i + 1, '(') implies #[trigger] known(
            table,
            ts[i]->Ident_0,
            k,
        ) == known(t2, ts[i]->Ident_0, k) by {
            assert(ts[i]->Ident_0 != fm.name);
        }
    }
    lemma_frame_definition(ts, table, t2);
    assert(defined(ts, t2, f) == first);
    law_simplify_idempotent(definition_of(ts, table)->Ok_0.2, f);
    lemma_term_eq_refl(fm.body);
}

/// A function whose name and arity the table holds with a body that does
/// not simplify to the same tree is a conflict: the definition fails and
/// the table keeps the function it had.
pub proof fn law_conflict_keeps_table<F: Fn(NumOp, u64, u64) -> u64>(
    table: Map<Seq<char>, FunctionModel>,
    fm: FunctionModel,
    f: F,
)
    requires
        table.contains_key(fm.name),
        table[fm.name].params.len() == fm.params.len(),
        !term_eq(simp(table[fm.name].body, f), simp(fm.body, f)),
    ensures
        define_result(table, Ok(fm), f) == Err::<FunctionModel, CalcError>(CalcError::Conflict),
        table_after(table, Ok(fm), f) == table,
{
}

/// The table is keyed by name alone: a function whose name the table holds
/// with another arity (or not at all) is accepted, and replaces whatever
/// the name held, so the table holds no more names than before plus this
/// one.
pub proof fn law_name_keyed<F: Fn(NumOp, u64, u64) -> u64>(
    table: Map<Seq<char>, FunctionModel>,
    fm: FunctionModel,
    f: F,
)
    requires
        table.contains_key(fm.name) ==> table[fm.name].params.len() != fm.params.len(),
    ensures
        define_result(table, Ok(fm), f) == Ok::<FunctionModel, CalcError>(fm),
        table_after(table, Ok(fm), f) == table.insert(fm.name, fm),
        table.contains_key(fm.name) ==> table_after(table, Ok(fm), f).dom() == table.dom(),
{
    if table.contains_key(fm.name) {
        assert(table.insert(fm.name, fm).dom() =~= table.dom());
    }
}

} // verus!
