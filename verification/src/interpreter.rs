//! The interpreter.
//!
//! `eval_expr_s` / `exec_stmt_s` give the language's semantics as total
//! spec functions over spec-level states, ASTs and values, with a step
//! budget (`fuel`) so that every run is finite: a budget is consumed only
//! at function calls and loop iterations, and exhausting it is a distinct
//! outcome.  The executable interpreter then carries contracts saying it
//! returns exactly what the spec functions say, state included — so
//! evaluation is deterministic and every observable effect (bindings,
//! printed lines, diagnostics) is pinned down.

use vstd::prelude::*;

use crate::ast::{BinaryOp, Expr, ExprV, Locatable, Location, Stmt, StmtV, UnaryOp};
use crate::environment::{
    assign_scope, lookup_scope, spec_assign_at, spec_define, spec_get_at, spec_push_child,
    wf_state, Environment, StateV,
};
use crate::error::{Error, RuntimeError};
use crate::numbers;
use crate::resolver::DistanceTable;
use crate::text;
use crate::value::{spec_is_truthy, spec_repr, ValueV, Value};

verus! {

/// How variable uses are looked up: dynamically, walking the scope chain
/// from the innermost scope; or through resolver distances, where an
/// unlisted use is a global.
pub enum Lookup {
    Dynamic,
    Resolved(DistanceTable),
}

/// The spec-level form of a lookup mode.
pub enum LookupV {
    Dynamic,
    Resolved(Map<int, nat>),
}

impl View for Lookup {
    type V = LookupV;

    open spec fn view(&self) -> LookupV {
        match *self {
            Lookup::Dynamic => LookupV::Dynamic,
            Lookup::Resolved(ref t) => LookupV::Resolved(t@),
        }
    }
}

/// A failure during evaluation.
pub enum RunErrV {
    TypeMismatch { location: Location },
    IdentifierNotFound { name: Seq<u8>, location: Location },
    NotCallable { location: Location },
    ArityMismatch { expected: nat, actual: nat, location: Location },
    AssertFailed { location: Location },
}

/// The outcome of evaluating an expression.
pub enum ExprOut {
    Val(ValueV),
    Fail(RunErrV),
    Stop,
}

/// The outcome of evaluating an argument list.
pub enum ArgsOut {
    Vals(Seq<ValueV>),
    Fail(RunErrV),
    Stop,
}

/// The outcome of executing a statement.
pub enum StmtOut {
    Done,
    Ret(ValueV),
    Fail(RunErrV),
    Stop,
}

/// The decimal digits of a number.
pub open spec fn spec_dec_digits(n: nat) -> Seq<u8>
    decreases n,
{
    if n < 10 {
        seq![(48 + n) as u8]
    } else {
        spec_dec_digits(n / 10).push((48 + n % 10) as u8)
    }
}

/// The synthetic name of an anonymous function literal at offset `start`.
pub open spec fn spec_anon_name(start: nat) -> Seq<u8> {
    text::ascii_bytes("<anon@"@) + spec_dec_digits(start) + text::ascii_bytes(">"@)
}

/// The resolver distance recorded for the use at `loc`, if any.
pub open spec fn table_dist(m: Map<int, nat>, loc: Location) -> Option<nat> {
    if m.contains_key(loc.start as int) {
        Option::Some(m[loc.start as int])
    } else {
        Option::None
    }
}

/// Look a variable up under the given mode.
pub open spec fn mode_lookup(st: StateV, lk: LookupV, name: Seq<u8>, loc: Location) -> Option<
    ValueV,
> {
    match lk {
        LookupV::Dynamic => lookup_scope(st, st.cur, name),
        LookupV::Resolved(m) => spec_get_at(st, table_dist(m, loc), name),
    }
}

/// Assign to a variable under the given mode; None where it is unbound.
pub open spec fn mode_assign(
    st: StateV,
    lk: LookupV,
    name: Seq<u8>,
    loc: Location,
    v: ValueV,
) -> Option<StateV> {
    match lk {
        LookupV::Dynamic => assign_scope(st, st.cur, name, v),
        LookupV::Resolved(m) => spec_assign_at(st, table_dist(m, loc), name, v),
    }
}

/// The language's `==`: structural on nil, numbers (IEEE equality),
/// booleans and strings; false across variants and on functions.
pub open spec fn spec_values_eq(l: ValueV, r: ValueV) -> bool {
    match (l, r) {
        (ValueV::Number(a), ValueV::Number(b)) => numbers::spec_num_eq(a, b),
        (ValueV::String(a), ValueV::String(b)) => a == b,
        (ValueV::Boolean(a), ValueV::Boolean(b)) => a == b,
        (ValueV::Nil, ValueV::Nil) => true,
        _ => false,
    }
}

/// Apply a binary operator to two evaluated operands.  A type mismatch is
/// reported at the right operand's span.
pub open spec fn spec_binary(op: BinaryOp, l: ValueV, r: ValueV, rloc: Location) -> ExprOut {
    match op {
        BinaryOp::Add => match (l, r) {
            (ValueV::Number(a), ValueV::Number(b)) => ExprOut::Val(
                ValueV::Number(numbers::num_add(a, b)),
            ),
            (ValueV::String(a), ValueV::String(b)) => ExprOut::Val(ValueV::String(a + b)),
            _ => ExprOut::Fail(RunErrV::TypeMismatch { location: rloc }),
        },
        BinaryOp::Sub => match (l, r) {
            (ValueV::Number(a), ValueV::Number(b)) => ExprOut::Val(
                ValueV::Number(numbers::num_sub(a, b)),
            ),
            _ => ExprOut::Fail(RunErrV::TypeMismatch { location: rloc }),
        },
        BinaryOp::Mul => match (l, r) {
            (ValueV::Number(a), ValueV::Number(b)) => ExprOut::Val(
                ValueV::Number(numbers::num_mul(a, b)),
            ),
            _ => ExprOut::Fail(RunErrV::TypeMismatch { location: rloc }),
        },
        BinaryOp::Div => match (l, r) {
            (ValueV::Number(a), ValueV::Number(b)) => ExprOut::Val(
                ValueV::Number(numbers::num_div(a, b)),
            ),
            _ => ExprOut::Fail(RunErrV::TypeMismatch { location: rloc }),
        },
        BinaryOp::Mod => match (l, r) {
            (ValueV::Number(a), ValueV::Number(b)) => ExprOut::Val(
                ValueV::Number(numbers::num_rem(a, b)),
            ),
            _ => ExprOut::Fail(RunErrV::TypeMismatch { location: rloc }),
        },
        BinaryOp::Eq => ExprOut::Val(ValueV::Boolean(spec_values_eq(l, r))),
        BinaryOp::Ne => ExprOut::Val(ValueV::Boolean(!spec_values_eq(l, r))),
        BinaryOp::Lt => match (l, r) {
            (ValueV::Number(a), ValueV::Number(b)) => ExprOut::Val(
                ValueV::Boolean(numbers::spec_num_lt(a, b)),
            ),
            _ => ExprOut::Fail(RunErrV::TypeMismatch { location: rloc }),
        },
        BinaryOp::Le => match (l, r) {
            (ValueV::Number(a), ValueV::Number(b)) => ExprOut::Val(
                ValueV::Boolean(numbers::spec_num_le(a, b)),
            ),
            _ => ExprOut::Fail(RunErrV::TypeMismatch { location: rloc }),
        },
        BinaryOp::Gt => match (l, r) {
            (ValueV::Number(a), ValueV::Number(b)) => ExprOut::Val(
                ValueV::Boolean(numbers::spec_num_lt(b, a)),
            ),
            _ => ExprOut::Fail(RunErrV::TypeMismatch { location: rloc }),
        },
        BinaryOp::Ge => match (l, r) {
            (ValueV::Number(a), ValueV::Number(b)) => ExprOut::Val(
                ValueV::Boolean(numbers::spec_num_le(b, a)),
            ),
            _ => ExprOut::Fail(RunErrV::TypeMismatch { location: rloc }),
        },
    }
}

/// Evaluate an expression: the state after it and its outcome.
pub open spec fn eval_expr_s(st: StateV, lk: LookupV, e: ExprV, fuel: nat) -> (StateV, ExprOut)
    decreases fuel, e, 0nat,
{
    match e {
        ExprV::Nil { .. } => (st, ExprOut::Val(ValueV::Nil)),
        ExprV::Number { value, .. } => (st, ExprOut::Val(ValueV::Number(value))),
        ExprV::Boolean { value, .. } => (st, ExprOut::Val(ValueV::Boolean(value))),
        ExprV::String { value, .. } => (st, ExprOut::Val(ValueV::String(value))),
        ExprV::Unary { op, right, .. } => {
            let (st1, o) = eval_expr_s(st, lk, *right, fuel);
            match o {
                ExprOut::Val(v) => match op {
                    UnaryOp::Invert => match v {
                        ValueV::Boolean(b) => (st1, ExprOut::Val(ValueV::Boolean(!b))),
                        _ => (
                            st1,
                            ExprOut::Fail(RunErrV::TypeMismatch { location: right.loc() }),
                        ),
                    },
                    UnaryOp::Negate => match v {
                        ValueV::Number(n) => (
                            st1,
                            ExprOut::Val(ValueV::Number(numbers::spec_num_neg(n))),
                        ),
                        _ => (
                            st1,
                            ExprOut::Fail(RunErrV::TypeMismatch { location: right.loc() }),
                        ),
                    },
                },
                _ => (st1, o),
            }
        }
        ExprV::Binary { left, op, right, .. } => {
            let (st1, lo) = eval_expr_s(st, lk, *left, fuel);
            match lo {
                ExprOut::Val(lv) => {
                    let (st2, ro) = eval_expr_s(st1, lk, *right, fuel);
                    match ro {
                        ExprOut::Val(rv) => (st2, spec_binary(op, lv, rv, right.loc())),
                        _ => (st2, ro),
                    }
                }
                _ => (st1, lo),
            }
        }
        ExprV::Var { name, location } => match mode_lookup(st, lk, name, location) {
            Option::Some(v) => (st, ExprOut::Val(v)),
            Option::None => (
                st,
                ExprOut::Fail(RunErrV::IdentifierNotFound { name, location }),
            ),
        },
        ExprV::Assignment { name, rhs, location } => {
            let (st1, o) = eval_expr_s(st, lk, *rhs, fuel);
            match o {
                ExprOut::Val(v) => match mode_assign(st1, lk, name, location, v) {
                    Option::Some(st2) => (st2, ExprOut::Val(v)),
                    Option::None => (
                        st1,
                        ExprOut::Fail(RunErrV::IdentifierNotFound { name, location }),
                    ),
                },
                _ => (st1, o),
            }
        }
        ExprV::Call { callee, args, .. } => {
            let (st1, co) = eval_expr_s(st, lk, *callee, fuel);
            match co {
                ExprOut::Val(cv) => {
                    let (st2, ao) = eval_exprs_s(st1, lk, args, 0, Seq::empty(), fuel);
                    match ao {
                        ArgsOut::Vals(argv) => if fuel == 0 {
                            (st2, ExprOut::Stop)
                        } else {
                            call_value_s(st2, lk, cv, argv, callee.loc(), (fuel - 1) as nat)
                        },
                        ArgsOut::Fail(er) => (st2, ExprOut::Fail(er)),
                        ArgsOut::Stop => (st2, ExprOut::Stop),
                    }
                }
                _ => (st1, co),
            }
        }
        ExprV::Fun { params, body, location } => (
            st,
            ExprOut::Val(
                ValueV::Function {
                    name: spec_anon_name(location.start as nat),
                    closure: st.cur,
                    params,
                    body: *body,
                },
            ),
        ),
    }
}

/// Evaluate the expressions of a list from `i` on, left to right,
/// appending their values to `acc`.
pub open spec fn eval_exprs_s(
    st: StateV,
    lk: LookupV,
    es: Seq<ExprV>,
    i: int,
    acc: Seq<ValueV>,
    fuel: nat,
) -> (StateV, ArgsOut)
    decreases fuel, es, es.len() - i,
{
    if i < 0 || i >= es.len() {
        (st, ArgsOut::Vals(acc))
    } else {
        let (st1, o) = eval_expr_s(st, lk, es[i], fuel);
        match o {
            ExprOut::Val(v) => eval_exprs_s(st1, lk, es, i + 1, acc.push(v), fuel),
            ExprOut::Fail(er) => (st1, ArgsOut::Fail(er)),
            ExprOut::Stop => (st1, ArgsOut::Stop),
        }
    }
}

/// Bind each parameter to its argument in the current scope.
pub open spec fn define_params_s(
    st: StateV,
    params: Seq<Seq<u8>>,
    argv: Seq<ValueV>,
    i: int,
) -> StateV
    decreases params.len() - i,
{
    if i < 0 || i >= params.len() || i >= argv.len() {
        st
    } else {
        define_params_s(spec_define(st, params[i], argv[i]), params, argv, i + 1)
    }
}

/// The body a function value carries (placeholder for other values).
pub open spec fn spec_body_of(cv: ValueV) -> StmtV {
    match cv {
        ValueV::Function { body, .. } => body,
        _ => StmtV::Empty,
    }
}

/// Call an evaluated callee on evaluated arguments.  The callee and the
/// arguments were evaluated first, so a bad callee or arity is reported
/// only now, at the callee's span.  A native call consumes the next
/// ambient sample and returns its number encoding.
pub open spec fn call_value_s(
    st: StateV,
    lk: LookupV,
    cv: ValueV,
    argv: Seq<ValueV>,
    loc: Location,
    fuel: nat,
) -> (StateV, ExprOut)
    decreases fuel, spec_body_of(cv), 1nat,
{
    match cv {
        ValueV::Native { arity, .. } => if argv.len() != arity {
            (
                st,
                ExprOut::Fail(
                    RunErrV::ArityMismatch { expected: arity, actual: argv.len(), location: loc },
                ),
            )
        } else {
            (
                StateV { tick: st.tick + 1, ..st },
                ExprOut::Val(ValueV::Number(numbers::num_from_u64(st.ticks[st.tick as int]))),
            )
        },
        ValueV::Function { closure, params, body, .. } => if argv.len() != params.len() {
            (
                st,
                ExprOut::Fail(
                    RunErrV::ArityMismatch {
                        expected: params.len(),
                        actual: argv.len(),
                        location: loc,
                    },
                ),
            )
        } else if closure < st.scopes.len() {
            let st1 = spec_push_child(st, closure);
            let st2 = define_params_s(st1, params, argv, 0);
            let (st3, o) = exec_stmt_s(st2, lk, body, fuel);
            let st4 = StateV { cur: st.cur, ..st3 };
            match o {
                StmtOut::Done => (st4, ExprOut::Val(ValueV::Nil)),
                StmtOut::Ret(v) => (st4, ExprOut::Val(v)),
                StmtOut::Fail(er) => (st4, ExprOut::Fail(er)),
                StmtOut::Stop => (st4, ExprOut::Stop),
            }
        } else {
            // a function value whose captured scope is not in the arena
            // cannot arise in a run
            (st, ExprOut::Fail(RunErrV::NotCallable { location: loc }))
        },
        _ => (st, ExprOut::Fail(RunErrV::NotCallable { location: loc })),
    }
}

/// Execute a statement: the state after it and its outcome.
pub open spec fn exec_stmt_s(st: StateV, lk: LookupV, s: StmtV, fuel: nat) -> (StateV, StmtOut)
    decreases fuel, s, 0nat,
{
    match s {
        StmtV::Empty => (st, StmtOut::Done),
        StmtV::Expr(e) => {
            let (st1, o) = eval_expr_s(st, lk, e, fuel);
            match o {
                ExprOut::Val(_) => (st1, StmtOut::Done),
                ExprOut::Fail(er) => (st1, StmtOut::Fail(er)),
                ExprOut::Stop => (st1, StmtOut::Stop),
            }
        }
        StmtV::Print(e) => {
            let (st1, o) = eval_expr_s(st, lk, e, fuel);
            match o {
                ExprOut::Val(v) => (
                    StateV { output: st1.output.push(spec_repr(v)), ..st1 },
                    StmtOut::Done,
                ),
                ExprOut::Fail(er) => (st1, StmtOut::Fail(er)),
                ExprOut::Stop => (st1, StmtOut::Stop),
            }
        }
        StmtV::Assert { expr, location } => {
            let (st1, o) = eval_expr_s(st, lk, expr, fuel);
            match o {
                ExprOut::Val(v) => if spec_is_truthy(v) {
                    (st1, StmtOut::Done)
                } else {
                    (st1, StmtOut::Fail(RunErrV::AssertFailed { location }))
                },
                ExprOut::Fail(er) => (st1, StmtOut::Fail(er)),
                ExprOut::Stop => (st1, StmtOut::Stop),
            }
        }
        StmtV::Return(opt) => match opt {
            Option::Some(e) => {
                let (st1, o) = eval_expr_s(st, lk, e, fuel);
                match o {
                    ExprOut::Val(v) => (st1, StmtOut::Ret(v)),
                    ExprOut::Fail(er) => (st1, StmtOut::Fail(er)),
                    ExprOut::Stop => (st1, StmtOut::Stop),
                }
            }
            Option::None => (st, StmtOut::Ret(ValueV::Nil)),
        },
        StmtV::VarDecl(name, init) => {
            let (st1, o) = eval_expr_s(st, lk, init, fuel);
            match o {
                ExprOut::Val(v) => (spec_define(st1, name, v), StmtOut::Done),
                ExprOut::Fail(er) => (st1, StmtOut::Fail(er)),
                ExprOut::Stop => (st1, StmtOut::Stop),
            }
        }
        StmtV::FunDecl { name, params, body, .. } => {
            let f = ValueV::Function { name, closure: st.cur, params, body: *body };
            (spec_define(st, name, f), StmtOut::Done)
        }
        StmtV::Block(ss) => {
            let st1 = spec_push_child(st, st.cur);
            let (st2, o) = exec_stmts_s(st1, lk, ss, 0, fuel);
            (StateV { cur: st.cur, ..st2 }, o)
        }
        StmtV::If { cond, then, else_ } => {
            let (st1, o) = eval_expr_s(st, lk, cond, fuel);
            match o {
                ExprOut::Val(ValueV::Boolean(true)) => exec_stmt_s(st1, lk, *then, fuel),
                ExprOut::Val(ValueV::Boolean(false)) => exec_stmt_s(st1, lk, *else_, fuel),
                ExprOut::Val(_) => (
                    st1,
                    StmtOut::Fail(RunErrV::TypeMismatch { location: cond.loc() }),
                ),
                ExprOut::Fail(er) => (st1, StmtOut::Fail(er)),
                ExprOut::Stop => (st1, StmtOut::Stop),
            }
        }
        StmtV::While { cond, body } => {
            let (st1, o) = eval_expr_s(st, lk, cond, fuel);
            match o {
                ExprOut::Val(ValueV::Boolean(true)) => {
                    let (st2, bo) = exec_stmt_s(st1, lk, *body, fuel);
                    match bo {
                        StmtOut::Done => if fuel == 0 {
                            (st2, StmtOut::Stop)
                        } else {
                            exec_stmt_s(st2, lk, s, (fuel - 1) as nat)
                        },
                        _ => (st2, bo),
                    }
                }
                ExprOut::Val(ValueV::Boolean(false)) => (st1, StmtOut::Done),
                ExprOut::Val(_) => (
                    st1,
                    StmtOut::Fail(RunErrV::TypeMismatch { location: cond.loc() }),
                ),
                ExprOut::Fail(er) => (st1, StmtOut::Fail(er)),
                ExprOut::Stop => (st1, StmtOut::Stop),
            }
        }
    }
}

/// Execute the statements of a list from `i` on, in order, stopping at the
/// first non-normal outcome.
pub open spec fn exec_stmts_s(st: StateV, lk: LookupV, ss: Seq<StmtV>, i: int, fuel: nat) -> (
    StateV,
    StmtOut,
)
    decreases fuel, ss, ss.len() - i,
{
    if i < 0 || i >= ss.len() {
        (st, StmtOut::Done)
    } else {
        let (st1, o) = exec_stmt_s(st, lk, ss[i], fuel);
        match o {
            StmtOut::Done => exec_stmts_s(st1, lk, ss, i + 1, fuel),
            _ => (st1, o),
        }
    }
}

/// Exec-level statement outcome: fell through, or returned a value.
#[derive(Debug, PartialEq)]
pub enum Flow {
    Done,
    Ret(Value),
}

/// The spec-level form of each value of a sequence.
pub open spec fn vals_view(s: Seq<Value>) -> Seq<ValueV> {
    s.map_values(|v: Value| v@)
}

/// The spec-level failure an `Error` denotes, if any.
pub open spec fn err_view(er: Error) -> Option<RunErrV> {
    match er {
        Error::Runtime(re) => Option::Some(
            match re {
                RuntimeError::TypeMismatch { location } => RunErrV::TypeMismatch { location },
                RuntimeError::IdentifierNotFound { name, location } => RunErrV::IdentifierNotFound {
                    name: name@,
                    location,
                },
                RuntimeError::NotCallable { location } => RunErrV::NotCallable { location },
                RuntimeError::ArityMismatch { expected, actual, location } => RunErrV::ArityMismatch {
                    expected: expected as nat,
                    actual: actual as nat,
                    location,
                },
            },
        ),
        Error::Assert { location } => Option::Some(RunErrV::AssertFailed { location }),
        _ => Option::None,
    }
}

/// Whether an executable expression result realises a spec outcome.
pub open spec fn expr_result_matches(r: Result<Value, Error>, out: ExprOut) -> bool {
    match r {
        Result::Ok(v) => out == ExprOut::Val(v@),
        Result::Err(er) => match out {
            ExprOut::Fail(fe) => err_view(er) == Option::Some(fe),
            ExprOut::Stop => er matches Error::StepLimit,
            ExprOut::Val(_) => false,
        },
    }
}

/// Whether an executable statement result realises a spec outcome.
pub open spec fn stmt_result_matches(r: Result<Flow, Error>, out: StmtOut) -> bool {
    match r {
        Result::Ok(f) => match f {
            Flow::Done => out == StmtOut::Done,
            Flow::Ret(v) => out == StmtOut::Ret(v@),
        },
        Result::Err(er) => match out {
            StmtOut::Fail(fe) => err_view(er) == Option::Some(fe),
            StmtOut::Stop => er matches Error::StepLimit,
            _ => false,
        },
    }
}

/// Whether an executable argument-list result realises a spec outcome.
pub open spec fn args_result_matches(r: Result<Vec<Value>, Error>, out: ArgsOut) -> bool {
    match r {
        Result::Ok(vs) => out == ArgsOut::Vals(vals_view(vs@)),
        Result::Err(er) => match out {
            ArgsOut::Fail(fe) => err_view(er) == Option::Some(fe),
            ArgsOut::Stop => er matches Error::StepLimit,
            ArgsOut::Vals(_) => false,
        },
    }
}

/// Binding parameters touches no scope count.
pub proof fn lemma_define_params_len(st: StateV, params: Seq<Seq<u8>>, argv: Seq<ValueV>, i: int)
    requires
        st.cur < st.scopes.len(),
    ensures
        define_params_s(st, params, argv, i).scopes.len() == st.scopes.len(),
        define_params_s(st, params, argv, i).cur == st.cur,
        define_params_s(st, params, argv, i).output == st.output,
    decreases params.len() - i,
{
    if 0 <= i && i < params.len() && i < argv.len() {
        lemma_define_params_len(spec_define(st, params[i], argv[i]), params, argv, i + 1);
    }
}

/// Evaluation never drops a scope: the arena only grows.
pub proof fn lemma_grow_expr(st: StateV, lk: LookupV, e: ExprV, fuel: nat)
    requires
        st.cur < st.scopes.len(),
    ensures
        eval_expr_s(st, lk, e, fuel).0.scopes.len() >= st.scopes.len(),
        eval_expr_s(st, lk, e, fuel).0.cur < eval_expr_s(st, lk, e, fuel).0.scopes.len(),
    decreases fuel, e, 0nat,
{
    match e {
        ExprV::Unary { right, .. } => {
            lemma_grow_expr(st, lk, *right, fuel);
        }
        ExprV::Binary { left, right, .. } => {
            lemma_grow_expr(st, lk, *left, fuel);
            let (st1, lo) = eval_expr_s(st, lk, *left, fuel);
            if lo is Val {
                lemma_grow_expr(st1, lk, *right, fuel);
            }
        }
        ExprV::Assignment { name, rhs, location } => {
            lemma_grow_expr(st, lk, *rhs, fuel);
            let (st1, o) = eval_expr_s(st, lk, *rhs, fuel);
            match o {
                ExprOut::Val(v) => match lk {
                    LookupV::Dynamic => {
                        crate::environment::lemma_assign_scope_len(st1, st1.cur, name, v);
                    }
                    LookupV::Resolved(m) => {
                        crate::environment::lemma_assign_at_len(
                            st1,
                            table_dist(m, location),
                            name,
                            v,
                        );
                    }
                },
                _ => {}
            }
        }
        ExprV::Call { callee, args, .. } => {
            lemma_grow_expr(st, lk, *callee, fuel);
            let (st1, co) = eval_expr_s(st, lk, *callee, fuel);
            match co {
                ExprOut::Val(cv) => {
                    lemma_grow_args(st1, lk, args, 0, Seq::empty(), fuel);
                    let (st2, ao) = eval_exprs_s(st1, lk, args, 0, Seq::empty(), fuel);
                    match ao {
                        ArgsOut::Vals(argv) => if fuel > 0 {
                            lemma_grow_call(st2, lk, cv, argv, callee.loc(), (fuel - 1) as nat);
                        },
                        _ => {}
                    }
                }
                _ => {}
            }
        }
        _ => {}
    }
}

/// Evaluation never drops a scope: the arena only grows.
pub proof fn lemma_grow_args(
    st: StateV,
    lk: LookupV,
    es: Seq<ExprV>,
    i: int,
    acc: Seq<ValueV>,
    fuel: nat,
)
    requires
        st.cur < st.scopes.len(),
    ensures
        eval_exprs_s(st, lk, es, i, acc, fuel).0.scopes.len() >= st.scopes.len(),
        eval_exprs_s(st, lk, es, i, acc, fuel).0.cur < eval_exprs_s(
            st,
            lk,
            es,
            i,
            acc,
            fuel,
        ).0.scopes.len(),
    decreases fuel, es, es.len() - i,
{
    if 0 <= i && i < es.len() {
        lemma_grow_expr(st, lk, es[i], fuel);
        let (st1, o) = eval_expr_s(st, lk, es[i], fuel);
        match o {
            ExprOut::Val(v) => {
                lemma_grow_args(st1, lk, es, i + 1, acc.push(v), fuel);
            }
            _ => {}
        }
    }
}

/// Evaluation never drops a scope: the arena only grows.
pub proof fn lemma_grow_call(
    st: StateV,
    lk: LookupV,
    cv: ValueV,
    argv: Seq<ValueV>,
    loc: Location,
    fuel: nat,
)
    requires
        st.cur < st.scopes.len(),
    ensures
        call_value_s(st, lk, cv, argv, loc, fuel).0.scopes.len() >= st.scopes.len(),
        call_value_s(st, lk, cv, argv, loc, fuel).0.cur < call_value_s(
            st,
            lk,
            cv,
            argv,
            loc,
            fuel,
        ).0.scopes.len(),
    decreases fuel, spec_body_of(cv), 1nat,
{
    match cv {
        ValueV::Function { closure, params, body, .. } => {
            if argv.len() == params.len() && closure < st.scopes.len() {
                let st1 = spec_push_child(st, closure);
                let st2 = define_params_s(st1, params, argv, 0);
                lemma_define_params_len(st1, params, argv, 0);
                lemma_grow_stmt(st2, lk, body, fuel);
            }
        }
        _ => {}
    }
}

/// Execution never drops a scope: the arena only grows.
pub proof fn lemma_grow_stmt(st: StateV, lk: LookupV, s: StmtV, fuel: nat)
    requires
        st.cur < st.scopes.len(),
    ensures
        exec_stmt_s(st, lk, s, fuel).0.scopes.len() >= st.scopes.len(),
        exec_stmt_s(st, lk, s, fuel).0.cur < exec_stmt_s(st, lk, s, fuel).0.scopes.len(),
    decreases fuel, s, 0nat,
{
    match s {
        StmtV::Expr(e) => {
            lemma_grow_expr(st, lk, e, fuel);
        }
        StmtV::Print(e) => {
            lemma_grow_expr(st, lk, e, fuel);
        }
        StmtV::Assert { expr, .. } => {
            lemma_grow_expr(st, lk, expr, fuel);
        }
        StmtV::Return(opt) => match opt {
            Option::Some(e) => {
                lemma_grow_expr(st, lk, e, fuel);
            }
            Option::None => {}
        },
        StmtV::VarDecl(_, init) => {
            lemma_grow_expr(st, lk, init, fuel);
        }
        StmtV::Block(ss) => {
            lemma_grow_stmts(spec_push_child(st, st.cur), lk, ss, 0, fuel);
        }
        StmtV::If { cond, then, else_ } => {
            lemma_grow_expr(st, lk, cond, fuel);
            let (st1, o) = eval_expr_s(st, lk, cond, fuel);
            match o {
                ExprOut::Val(ValueV::Boolean(true)) => {
                    lemma_grow_stmt(st1, lk, *then, fuel);
                }
                ExprOut::Val(ValueV::Boolean(false)) => {
                    lemma_grow_stmt(st1, lk, *else_, fuel);
                }
                _ => {}
            }
        }
        StmtV::While { cond, body } => {
            lemma_grow_expr(st, lk, cond, fuel);
            let (st1, o) = eval_expr_s(st, lk, cond, fuel);
            match o {
                ExprOut::Val(ValueV::Boolean(true)) => {
                    lemma_grow_stmt(st1, lk, *body, fuel);
                    let (st2, bo) = exec_stmt_s(st1, lk, *body, fuel);
                    match bo {
                        StmtOut::Done => if fuel > 0 {
                            lemma_grow_stmt(st2, lk, s, (fuel - 1) as nat);
                        },
                        _ => {}
                    }
                }
                _ => {}
            }
        }
        _ => {}
    }
}

/// Execution never drops a scope: the arena only grows.
pub proof fn lemma_grow_stmts(st: StateV, lk: LookupV, ss: Seq<StmtV>, i: int, fuel: nat)
    requires
        st.cur < st.scopes.len(),
    ensures
        exec_stmts_s(st, lk, ss, i, fuel).0.scopes.len() >= st.scopes.len(),
        exec_stmts_s(st, lk, ss, i, fuel).0.cur < exec_stmts_s(st, lk, ss, i, fuel).0.scopes.len(),
    decreases fuel, ss, ss.len() - i,
{
    if 0 <= i && i < ss.len() {
        lemma_grow_stmt(st, lk, ss[i], fuel);
        let (st1, o) = exec_stmt_s(st, lk, ss[i], fuel);
        match o {
            StmtOut::Done => {
                lemma_grow_stmts(st1, lk, ss, i + 1, fuel);
            }
            _ => {}
        }
    }
}


/// The body a function value carries, at the executable level.
pub open spec fn exec_body_of(cv: Value) -> Stmt {
    match cv {
        Value::LoxFunction { body, .. } => *body,
        _ => Stmt::Empty,
    }
}

/// The language's `==` on two evaluated values.
fn values_eq(l: &Value, r: &Value) -> (b: bool)
    ensures
        b == spec_values_eq(l@, r@),
{
    match (l, r) {
        (Value::Number(a), Value::Number(b)) => numbers::number_eq(*a, *b),
        (Value::String(a), Value::String(b)) => text::bytes_eq(a, b),
        (Value::Boolean(a), Value::Boolean(b)) => *a == *b,
        (Value::Nil, Value::Nil) => true,
        _ => false,
    }
}

/// Apply a binary operator to two evaluated operands.
fn apply_binary(op: BinaryOp, l: Value, r: Value, rloc: Location) -> (res: Result<Value, Error>)
    ensures
        expr_result_matches(res, spec_binary(op, l@, r@, rloc)),
{
    match op {
        BinaryOp::Add => match (l, r) {
            (Value::Number(a), Value::Number(b)) => Result::Ok(
                Value::Number(numbers::fl_add(a, b)),
            ),
            (Value::String(a), Value::String(b)) => {
                let mut s = a;
                text::push_bytes(&mut s, &b);
                Result::Ok(Value::String(s))
            }
            _ => Result::Err(Error::Runtime(RuntimeError::TypeMismatch { location: rloc })),
        },
        BinaryOp::Sub => match (l, r) {
            (Value::Number(a), Value::Number(b)) => Result::Ok(
                Value::Number(numbers::fl_sub(a, b)),
            ),
            _ => Result::Err(Error::Runtime(RuntimeError::TypeMismatch { location: rloc })),
        },
        BinaryOp::Mul => match (l, r) {
            (Value::Number(a), Value::Number(b)) => Result::Ok(
                Value::Number(numbers::fl_mul(a, b)),
            ),
            _ => Result::Err(Error::Runtime(RuntimeError::TypeMismatch { location: rloc })),
        },
        BinaryOp::Div => match (l, r) {
            (Value::Number(a), Value::Number(b)) => Result::Ok(
                Value::Number(numbers::fl_div(a, b)),
            ),
            _ => Result::Err(Error::Runtime(RuntimeError::TypeMismatch { location: rloc })),
        },
        BinaryOp::Mod => match (l, r) {
            (Value::Number(a), Value::Number(b)) => Result::Ok(
                Value::Number(numbers::fl_rem(a, b)),
            ),
            _ => Result::Err(Error::Runtime(RuntimeError::TypeMismatch { location: rloc })),
        },
        BinaryOp::Eq => Result::Ok(Value::Boolean(values_eq(&l, &r))),
        BinaryOp::Ne => Result::Ok(Value::Boolean(!values_eq(&l, &r))),
        BinaryOp::Lt => match (l, r) {
            (Value::Number(a), Value::Number(b)) => Result::Ok(
                Value::Boolean(numbers::number_lt(a, b)),
            ),
            _ => Result::Err(Error::Runtime(RuntimeError::TypeMismatch { location: rloc })),
        },
        BinaryOp::Le => match (l, r) {
            (Value::Number(a), Value::Number(b)) => Result::Ok(
                Value::Boolean(numbers::number_le(a, b)),
            ),
            _ => Result::Err(Error::Runtime(RuntimeError::TypeMismatch { location: rloc })),
        },
        BinaryOp::Gt => match (l, r) {
            (Value::Number(a), Value::Number(b)) => Result::Ok(
                Value::Boolean(numbers::number_lt(b, a)),
            ),
            _ => Result::Err(Error::Runtime(RuntimeError::TypeMismatch { location: rloc })),
        },
        BinaryOp::Ge => match (l, r) {
            (Value::Number(a), Value::Number(b)) => Result::Ok(
                Value::Boolean(numbers::number_le(b, a)),
            ),
            _ => Result::Err(Error::Runtime(RuntimeError::TypeMismatch { location: rloc })),
        },
    }
}

/// The decimal digits of a number.
fn dec_digits(n: u64) -> (r: Vec<u8>)
    ensures
        r@ == spec_dec_digits(n as nat),
    decreases n,
{
    if n < 10 {
        let mut v: Vec<u8> = Vec::new();
        v.push(48 + n as u8);
        proof {
            assert(v@ =~= spec_dec_digits(n as nat));
        }
        v
    } else {
        let mut v = dec_digits(n / 10);
        v.push(48 + (n % 10) as u8);
        v
    }
}

/// The synthetic name of an anonymous function literal.
fn anon_name(start: usize) -> (r: Vec<u8>)
    ensures
        r@ == spec_anon_name(start as nat),
{
    proof {
        reveal_strlit("<anon@");
        assert(vstd::utf8::is_ascii_chars("<anon@"@));
        reveal_strlit(">");
        assert(vstd::utf8::is_ascii_chars(">"@));
    }
    let mut out = text::lit("<anon@");
    let digits = dec_digits(start as u64);
    text::push_bytes(&mut out, &digits);
    let close = text::lit(">");
    text::push_bytes(&mut out, &close);
    out
}

/// Evaluate an expression.
fn eval_expr(env: &mut Environment, lk: &Lookup, e: &Expr, fuel: u64) -> (r: Result<Value, Error>)
    requires
        wf_state(old(env)@),
    ensures
        wf_state(final(env)@),
        final(env)@ == eval_expr_s(old(env)@, lk@, e@, fuel as nat).0,
        expr_result_matches(r, eval_expr_s(old(env)@, lk@, e@, fuel as nat).1),
    decreases fuel, *e, 0nat,
{
    broadcast use crate::ast::lemma_view_loc;

    match e {
        Expr::Nil { .. } => Result::Ok(Value::Nil),
        Expr::Number { value, .. } => Result::Ok(Value::Number(*value)),
        Expr::Boolean { value, .. } => Result::Ok(Value::Boolean(*value)),
        Expr::String { value, .. } => Result::Ok(Value::String(text::clone_bytes(value))),
        Expr::Unary { op, right, location } => {
            let v = match eval_expr(env, lk, right, fuel) {
                Result::Ok(v) => v,
                Result::Err(er) => {
                    return Result::Err(er);
                }
            };
            match op {
                UnaryOp::Invert => match v {
                    Value::Boolean(b) => Result::Ok(Value::Boolean(!b)),
                    _ => Result::Err(
                        Error::Runtime(RuntimeError::TypeMismatch { location: right.location() }),
                    ),
                },
                UnaryOp::Negate => match v {
                    Value::Number(n) => Result::Ok(Value::Number(numbers::number_neg(n))),
                    _ => Result::Err(
                        Error::Runtime(RuntimeError::TypeMismatch { location: right.location() }),
                    ),
                },
            }
        }
        Expr::Binary { left, op, right, .. } => {
            let lv = match eval_expr(env, lk, left, fuel) {
                Result::Ok(v) => v,
                Result::Err(er) => {
                    return Result::Err(er);
                }
            };
            let rv = match eval_expr(env, lk, right, fuel) {
                Result::Ok(v) => v,
                Result::Err(er) => {
                    return Result::Err(er);
                }
            };
            apply_binary(*op, lv, rv, right.location())
        }
        Expr::Var { name, location } => {
            let found = match lk {
                Lookup::Dynamic => env.get(name),
                Lookup::Resolved(t) => {
                    let d = t.get(location.start);
                    env.get_at(d, name)
                }
            };
            match found {
                Option::Some(v) => Result::Ok(v),
                Option::None => Result::Err(
                    Error::Runtime(
                        RuntimeError::IdentifierNotFound {
                            name: text::clone_bytes(name),
                            location: *location,
                        },
                    ),
                ),
            }
        }
        Expr::Assignment { name, rhs, location } => {
            let v = match eval_expr(env, lk, rhs, fuel) {
                Result::Ok(v) => v,
                Result::Err(er) => {
                    return Result::Err(er);
                }
            };
            let assigned = match lk {
                Lookup::Dynamic => env.assign(name, v),
                Lookup::Resolved(t) => {
                    let d = t.get(location.start);
                    env.assign_at(d, name, v)
                }
            };
            match assigned {
                Result::Ok(v2) => Result::Ok(v2),
                Result::Err(_) => Result::Err(
                    Error::Runtime(
                        RuntimeError::IdentifierNotFound {
                            name: text::clone_bytes(name),
                            location: *location,
                        },
                    ),
                ),
            }
        }
        Expr::Call { callee, args, .. } => {
            let cv = match eval_expr(env, lk, callee, fuel) {
                Result::Ok(v) => v,
                Result::Err(er) => {
                    return Result::Err(er);
                }
            };
            let acc: Vec<Value> = Vec::new();
            proof {
                assert(vals_view(acc@) =~= Seq::<ValueV>::empty());
            }
            let argv = match eval_args(env, lk, args, 0, acc, fuel) {
                Result::Ok(vs) => vs,
                Result::Err(er) => {
                    return Result::Err(er);
                }
            };
            if fuel == 0 {
                return Result::Err(Error::StepLimit);
            }
            call_value(env, lk, cv, argv, callee.location(), fuel - 1)
        }
        Expr::Fun { params, body, location } => Result::Ok(
            Value::LoxFunction {
                name: anon_name(location.start),
                closure: env.current(),
                params: crate::ast::clone_params(params),
                body: Box::new(crate::ast::clone_stmt(body)),
            },
        ),
    }
}

/// Evaluate the expressions of a list from `i` on, appending their values
/// to `acc`.
fn eval_args(
    env: &mut Environment,
    lk: &Lookup,
    es: &Vec<Expr>,
    i: usize,
    acc: Vec<Value>,
    fuel: u64,
) -> (r: Result<Vec<Value>, Error>)
    requires
        wf_state(old(env)@),
    ensures
        wf_state(final(env)@),
        final(env)@ == eval_exprs_s(
            old(env)@,
            lk@,
            crate::ast::view_exprs(es@),
            i as int,
            vals_view(acc@),
            fuel as nat,
        ).0,
        args_result_matches(
            r,
            eval_exprs_s(
                old(env)@,
                lk@,
                crate::ast::view_exprs(es@),
                i as int,
                vals_view(acc@),
                fuel as nat,
            ).1,
        ),
    decreases fuel, *es, es@.len() - i,
{
    proof {
        crate::ast::lemma_view_exprs_index(es@);
    }
    if i >= es.len() {
        return Result::Ok(acc);
    }
    proof {
        assert(decreases_to!(*es => es@[i as int]));
    }
    let v = match eval_expr(env, lk, &es[i], fuel) {
        Result::Ok(v) => v,
        Result::Err(er) => {
            return Result::Err(er);
        }
    };
    let ghost old_acc = acc@;
    let mut acc2 = acc;
    acc2.push(v);
    proof {
        assert(vals_view(acc2@) =~= vals_view(old_acc).push(v@));
    }
    eval_args(env, lk, es, i + 1, acc2, fuel)
}

/// Bind each parameter to its argument in the current scope.
fn define_params(env: &mut Environment, params: &Vec<Vec<u8>>, argv: &Vec<Value>, i: usize)
    requires
        wf_state(old(env)@),
    ensures
        wf_state(final(env)@),
        final(env)@ == define_params_s(
            old(env)@,
            params.deep_view(),
            vals_view(argv@),
            i as int,
        ),
    decreases params@.len() - i,
{
    if i >= params.len() || i >= argv.len() {
        return ;
    }
    proof {
        assert(params.deep_view()[i as int] =~= params@[i as int]@);
        assert(vals_view(argv@)[i as int] == argv@[i as int]@);
    }
    env.define(&params[i], crate::value::clone_value(&argv[i]));
    define_params(env, params, argv, i + 1);
}

/// Call an evaluated callee on evaluated arguments.
fn call_value(
    env: &mut Environment,
    lk: &Lookup,
    cv: Value,
    argv: Vec<Value>,
    loc: Location,
    fuel: u64,
) -> (r: Result<Value, Error>)
    requires
        wf_state(old(env)@),
    ensures
        wf_state(final(env)@),
        final(env)@ == call_value_s(old(env)@, lk@, cv@, vals_view(argv@), loc, fuel as nat).0,
        expr_result_matches(
            r,
            call_value_s(old(env)@, lk@, cv@, vals_view(argv@), loc, fuel as nat).1,
        ),
    decreases fuel, exec_body_of(cv), 1nat,
{
    match &cv {
        Value::NativeFunction { arity, .. } => {
            if argv.len() != *arity {
                Result::Err(
                    Error::Runtime(
                        RuntimeError::ArityMismatch {
                            expected: *arity,
                            actual: argv.len(),
                            location: loc,
                        },
                    ),
                )
            } else {
                let ghost st0 = env@;
                let sample = crate::bindings::clock_sample(env);
                proof {
                    assert forall|i: int| 0 <= i < env@.scopes.len() implies #[trigger] crate::environment::scope_wf(
                        env@,
                        i,
                    ) by {
                        assert(crate::environment::scope_wf(st0, i));
                    }
                }
                Result::Ok(Value::Number(numbers::fl_from_u64(sample)))
            }
        }
        Value::LoxFunction { closure, params, body, .. } => {
            if argv.len() != params.len() {
                return Result::Err(
                    Error::Runtime(
                        RuntimeError::ArityMismatch {
                            expected: params.len(),
                            actual: argv.len(),
                            location: loc,
                        },
                    ),
                );
            }
            if *closure < env.scope_count() {
                let prev = env.current();
                let ghost st = env@;
                env.enter_child_of(*closure);
                define_params(env, params, &argv, 0);
                let res = exec_stmt(env, lk, body, fuel);
                proof {
                    let st1 = spec_push_child(st, *closure as nat);
                    let st2 = define_params_s(st1, params.deep_view(), vals_view(argv@), 0);
                    lemma_define_params_len(st1, params.deep_view(), vals_view(argv@), 0);
                    lemma_grow_stmt(st2, lk@, (**body)@, fuel as nat);
                }
                env.set_current(prev);
                match res {
                    Result::Ok(Flow::Done) => Result::Ok(Value::Nil),
                    Result::Ok(Flow::Ret(v)) => Result::Ok(v),
                    Result::Err(er) => Result::Err(er),
                }
            } else {
                Result::Err(Error::Runtime(RuntimeError::NotCallable { location: loc }))
            }
        }
        _ => Result::Err(Error::Runtime(RuntimeError::NotCallable { location: loc })),
    }
}

/// Execute a statement.
fn exec_stmt(env: &mut Environment, lk: &Lookup, s: &Stmt, fuel: u64) -> (r: Result<Flow, Error>)
    requires
        wf_state(old(env)@),
    ensures
        wf_state(final(env)@),
        final(env)@ == exec_stmt_s(old(env)@, lk@, s@, fuel as nat).0,
        stmt_result_matches(r, exec_stmt_s(old(env)@, lk@, s@, fuel as nat).1),
    decreases fuel, *s, 0nat,
{
    broadcast use crate::ast::lemma_view_loc;

    match s {
        Stmt::Empty => Result::Ok(Flow::Done),
        Stmt::Expr(e) => {
            match eval_expr(env, lk, e, fuel) {
                Result::Ok(_) => Result::Ok(Flow::Done),
                Result::Err(er) => Result::Err(er),
            }
        }
        Stmt::Print(e) => {
            let v = match eval_expr(env, lk, e, fuel) {
                Result::Ok(v) => v,
                Result::Err(er) => {
                    return Result::Err(er);
                }
            };
            let line = crate::value::print_repr(&v);
            env.push_output(line);
            Result::Ok(Flow::Done)
        }
        Stmt::Assert { expr, location } => {
            let v = match eval_expr(env, lk, expr, fuel) {
                Result::Ok(v) => v,
                Result::Err(er) => {
                    return Result::Err(er);
                }
            };
            if crate::value::is_truthy(&v) {
                Result::Ok(Flow::Done)
            } else {
                Result::Err(Error::Assert { location: *location })
            }
        }
        Stmt::Return(opt) => match opt {
            Option::Some(e) => {
                match eval_expr(env, lk, e, fuel) {
                    Result::Ok(v) => Result::Ok(Flow::Ret(v)),
                    Result::Err(er) => Result::Err(er),
                }
            }
            Option::None => Result::Ok(Flow::Ret(Value::Nil)),
        },
        Stmt::VarDecl(name, init) => {
            let v = match eval_expr(env, lk, init, fuel) {
                Result::Ok(v) => v,
                Result::Err(er) => {
                    return Result::Err(er);
                }
            };
            env.define(name, v);
            Result::Ok(Flow::Done)
        }
        Stmt::FunDecl { name, params, body, .. } => {
            let f = Value::LoxFunction {
                name: text::clone_bytes(name),
                closure: env.current(),
                params: crate::ast::clone_params(params),
                body: Box::new(crate::ast::clone_stmt(body)),
            };
            env.define(name, f);
            Result::Ok(Flow::Done)
        }
        Stmt::Block(ss) => {
            let ghost st = env@;
            let prev = env.with_enclosing();
            let r = exec_stmts(env, lk, ss, 0, fuel);
            proof {
                lemma_grow_stmts(
                    spec_push_child(st, st.cur),
                    lk@,
                    crate::ast::view_stmts(ss@),
                    0,
                    fuel as nat,
                );
            }
            env.set_current(prev);
            r
        }
        Stmt::If { cond, then, else_ } => {
            let v = match eval_expr(env, lk, cond, fuel) {
                Result::Ok(v) => v,
                Result::Err(er) => {
                    return Result::Err(er);
                }
            };
            match v {
                Value::Boolean(true) => exec_stmt(env, lk, then, fuel),
                Value::Boolean(false) => exec_stmt(env, lk, else_, fuel),
                _ => Result::Err(
                    Error::Runtime(RuntimeError::TypeMismatch { location: cond.location() }),
                ),
            }
        }
        Stmt::While { cond, body } => {
            let v = match eval_expr(env, lk, cond, fuel) {
                Result::Ok(v) => v,
                Result::Err(er) => {
                    return Result::Err(er);
                }
            };
            match v {
                Value::Boolean(true) => {
                    let r = exec_stmt(env, lk, body, fuel);
                    match r {
                        Result::Ok(Flow::Done) => {
                            if fuel == 0 {
                                Result::Err(Error::StepLimit)
                            } else {
                                exec_stmt(env, lk, s, fuel - 1)
                            }
                        }
                        other => other,
                    }
                }
                Value::Boolean(false) => Result::Ok(Flow::Done),
                _ => Result::Err(
                    Error::Runtime(RuntimeError::TypeMismatch { location: cond.location() }),
                ),
            }
        }
    }
}

/// Execute the statements of a list from `i` on.
fn exec_stmts(env: &mut Environment, lk: &Lookup, ss: &Vec<Stmt>, i: usize, fuel: u64) -> (r:
    Result<Flow, Error>)
    requires
        wf_state(old(env)@),
    ensures
        wf_state(final(env)@),
        final(env)@ == exec_stmts_s(
            old(env)@,
            lk@,
            crate::ast::view_stmts(ss@),
            i as int,
            fuel as nat,
        ).0,
        stmt_result_matches(
            r,
            exec_stmts_s(old(env)@, lk@, crate::ast::view_stmts(ss@), i as int, fuel as nat).1,
        ),
    decreases fuel, *ss, ss@.len() - i,
{
    proof {
        crate::ast::lemma_view_stmts_index(ss@);
    }
    if i >= ss.len() {
        return Result::Ok(Flow::Done);
    }
    proof {
        assert(decreases_to!(*ss => ss@[i as int]));
    }
    let r = exec_stmt(env, lk, &ss[i], fuel);
    match r {
        Result::Ok(Flow::Done) => exec_stmts(env, lk, ss, i + 1, fuel),
        other => other,
    }
}

/// Whether an executable program result realises a spec outcome: a
/// `return` escaping the top level surfaces as `Error::Return`.
pub open spec fn program_result_matches(r: Result<(), Error>, out: StmtOut) -> bool {
    match r {
        Result::Ok(_) => out == StmtOut::Done,
        Result::Err(er) => match out {
            StmtOut::Ret(v) => er matches Error::Return(rv) && rv@ == v,
            StmtOut::Fail(fe) => err_view(er) == Option::Some(fe),
            StmtOut::Stop => er matches Error::StepLimit,
            StmtOut::Done => false,
        },
    }
}

/// Run a program's statements in order under the given lookup mode and
/// step budget.
pub fn interpret_statements(
    statements: &Vec<Stmt>,
    environment: &mut Environment,
    lookup: &Lookup,
    fuel: u64,
) -> (r: Result<(), Error>)
    requires
        wf_state(old(environment)@),
    ensures
        wf_state(final(environment)@),
        final(environment)@ == exec_stmts_s(
            old(environment)@,
            lookup@,
            crate::ast::view_stmts(statements@),
            0,
            fuel as nat,
        ).0,
        program_result_matches(
            r,
            exec_stmts_s(
                old(environment)@,
                lookup@,
                crate::ast::view_stmts(statements@),
                0,
                fuel as nat,
            ).1,
        ),
{
    match exec_stmts(environment, lookup, statements, 0, fuel) {
        Result::Ok(Flow::Done) => Result::Ok(()),
        Result::Ok(Flow::Ret(v)) => Result::Err(Error::Return(v)),
        Result::Err(er) => Result::Err(er),
    }
}

/// Run one statement under the given lookup mode and step budget.
pub fn interpret_statement(
    statement: &Stmt,
    environment: &mut Environment,
    lookup: &Lookup,
    fuel: u64,
) -> (r: Result<(), Error>)
    requires
        wf_state(old(environment)@),
    ensures
        wf_state(final(environment)@),
        final(environment)@ == exec_stmt_s(
            old(environment)@,
            lookup@,
            statement@,
            fuel as nat,
        ).0,
        program_result_matches(
            r,
            exec_stmt_s(old(environment)@, lookup@, statement@, fuel as nat).1,
        ),
{
    match exec_stmt(environment, lookup, statement, fuel) {
        Result::Ok(Flow::Done) => Result::Ok(()),
        Result::Ok(Flow::Ret(v)) => Result::Err(Error::Return(v)),
        Result::Err(er) => Result::Err(er),
    }
}

/// Evaluate one expression by dynamic lookup, with the full step budget.
pub fn evaluate(expr: &Expr, environment: &mut Environment) -> (r: Result<Value, Error>)
    requires
        wf_state(old(environment)@),
    ensures
        wf_state(final(environment)@),
        final(environment)@ == eval_expr_s(
            old(environment)@,
            LookupV::Dynamic,
            expr@,
            u64::MAX as nat,
        ).0,
        expr_result_matches(
            r,
            eval_expr_s(old(environment)@, LookupV::Dynamic, expr@, u64::MAX as nat).1,
        ),
{
    let lk = Lookup::Dynamic;
    eval_expr(environment, &lk, expr, u64::MAX)
}


/// Run a whole source text: lex, parse, resolve, then interpret the
/// program under resolved lookup with the full step budget.  Everything
/// printed stays in the environment's output; the first failure of any
/// stage is returned.
pub fn interpret_source(source: &str, environment: &mut Environment) -> (r: Result<(), Error>)
    requires
        wf_state(old(environment)@),
    ensures
        wf_state(final(environment)@),
        ({
            let src = vstd::string::StringSliceAdditionalSpecFns::spec_bytes(source);
            match crate::lexer::spec_lex(src) {
                Result::Err(pv) => {
                    &&& r matches Result::Err(Error::Parse(pe))
                    &&& crate::lexer::parse_err_matches(pe, pv)
                    &&& final(environment)@ == old(environment)@
                },
                Result::Ok(toks) => match crate::parser::parse_program_s(toks) {
                    Result::Err(pv) => {
                        &&& r matches Result::Err(Error::Parse(pe))
                        &&& crate::lexer::parse_err_matches(pe, pv)
                        &&& final(environment)@ == old(environment)@
                    },
                    Result::Ok(prog) => match crate::resolver::spec_resolve_program(prog) {
                        Result::Err(loc) => {
                            &&& r == Result::<(), Error>::Err(Error::Resolve { location: loc })
                            &&& final(environment)@ == old(environment)@
                        },
                        Result::Ok(table) => {
                            let (st2, out) = exec_stmts_s(
                                old(environment)@,
                                LookupV::Resolved(table),
                                prog,
                                0,
                                u64::MAX as nat,
                            );
                            &&& final(environment)@ == st2
                            &&& program_result_matches(r, out)
                        },
                    },
                },
            }
        }),
{
    let bytes = vstd::slice::slice_to_vec(source.as_bytes());
    let tokens = match crate::lexer::lex(&bytes) {
        Result::Ok(ts) => ts,
        Result::Err(pe) => {
            return Result::Err(Error::Parse(pe));
        }
    };
    let program = match crate::parser::parse_program(&tokens) {
        Result::Ok(p) => p,
        Result::Err(pe) => {
            return Result::Err(Error::Parse(pe));
        }
    };
    let table = match crate::resolver::resolve_locals(&program) {
        Result::Ok(t) => t,
        Result::Err(er) => {
            return Result::Err(er);
        }
    };
    let lookup = Lookup::Resolved(table);
    interpret_statements(&program, environment, &lookup, u64::MAX)
}

/// Evaluation is deterministic: the semantics is a function of the state
/// — which includes the stream of samples the host hands to native calls
/// — the lookup mode, the expression and the budget, so evaluating the
/// same expression twice in the same state gives the same state and
/// value; the executable evaluator returns exactly this function's
/// result.
pub proof fn lemma_evaluation_deterministic(
    st1: StateV,
    st2: StateV,
    lk: LookupV,
    e: ExprV,
    fuel: nat,
)
    requires
        st1 == st2,
    ensures
        eval_expr_s(st1, lk, e, fuel) == eval_expr_s(st2, lk, e, fuel),
{
}

/// An assertion passes exactly when its expression's value is neither nil
/// nor false: every other value — zero, the empty string, functions —
/// passes.
pub proof fn lemma_assert_passes_iff(
    st: StateV,
    lk: LookupV,
    expr: ExprV,
    location: Location,
    fuel: nat,
)
    ensures
        ({
            let (st1, o) = eval_expr_s(st, lk, expr, fuel);
            match o {
                ExprOut::Val(v) => exec_stmt_s(st, lk, StmtV::Assert { expr, location }, fuel) == (
                    st1,
                    if v == ValueV::Nil || v == ValueV::Boolean(false) {
                        StmtOut::Fail(RunErrV::AssertFailed { location })
                    } else {
                        StmtOut::Done
                    },
                ),
                _ => true,
            }
        }),
{
    let (st1, o) = eval_expr_s(st, lk, expr, fuel);
    match o {
        ExprOut::Val(v) => {
            match v {
                ValueV::Nil => {}
                ValueV::Boolean(b) => {}
                _ => {}
            }
        }
        _ => {}
    }
}


/// Closures capture their scope by reference.  A call of a function value
/// enters a fresh scope whose parent is the very scope the function
/// captured, binds the parameters there, and runs the body; everything
/// the body changes in enclosing scopes stays changed in the returned
/// state — only the current-scope handle is restored.  So successive
/// calls through one closure see one another's assignments to the
/// captured bindings.
pub proof fn lemma_call_runs_in_captured_scope(
    st: StateV,
    lk: LookupV,
    cv: ValueV,
    argv: Seq<ValueV>,
    loc: Location,
    fuel: nat,
)
    requires
        cv matches ValueV::Function { closure, params, .. } && argv.len() == params.len()
            && closure < st.scopes.len(),
    ensures
        match cv {
            ValueV::Function { closure, params, body, .. } => {
                let entered = define_params_s(spec_push_child(st, closure), params, argv, 0);
                let run = exec_stmt_s(entered, lk, body, fuel);
                call_value_s(st, lk, cv, argv, loc, fuel) == (
                    (StateV { cur: st.cur, ..run.0 }),
                    match run.1 {
                        StmtOut::Done => ExprOut::Val(ValueV::Nil),
                        StmtOut::Ret(v) => ExprOut::Val(v),
                        StmtOut::Fail(er) => ExprOut::Fail(er),
                        StmtOut::Stop => ExprOut::Stop,
                    },
                )
            },
            _ => true,
        },
{
}

} // verus!
