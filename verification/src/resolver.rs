//! The resolver: a pre-execution pass that computes, for every variable
//! use, how many scopes up the chain its binding lives.
//!
//! The result is a table keyed by the byte offset at which the use starts
//! (every use starts at a distinct offset).  A use without an entry is a
//! global.  The one static error is reading a local variable inside its
//! own initialiser.

use vstd::prelude::*;

use crate::ast;
use crate::ast::{Expr, ExprV, Location, Stmt, StmtV};
use crate::environment::{lookup_direct, lookup_scope, scope_at, spec_get_at, StateV};
use crate::error::Error;
use crate::text;

verus! {

/// Resolver distances, keyed by the byte offset of the variable use.
pub struct DistanceTable {
    pub entries: Vec<(usize, usize)>,
}

/// The bindings of an offset table, later entries winning.
pub open spec fn table_map(entries: Seq<(usize, usize)>) -> Map<int, nat>
    decreases entries,
{
    if entries.len() == 0 {
        Map::empty()
    } else {
        table_map(entries.drop_last()).insert(
            entries.last().0 as int,
            entries.last().1 as nat,
        )
    }
}

impl View for DistanceTable {
    type V = Map<int, nat>;

    open spec fn view(&self) -> Map<int, nat> {
        table_map(self.entries@)
    }
}

/// An entry whose key has no later duplicate gives the table's binding.
proof fn lemma_table_found(entries: Seq<(usize, usize)>, i: int)
    requires
        0 <= i < entries.len(),
        forall|k: int| i < k < entries.len() ==> #[trigger] entries[k].0 != entries[i].0,
    ensures
        table_map(entries).contains_key(entries[i].0 as int),
        table_map(entries)[entries[i].0 as int] == entries[i].1 as nat,
    decreases entries.len(),
{
    if i < entries.len() - 1 {
        assert(entries.drop_last()[i] == entries[i]);
        lemma_table_found(entries.drop_last(), i);
    }
}

/// A key matching no entry is absent from the table.
proof fn lemma_table_absent(entries: Seq<(usize, usize)>, key: usize)
    requires
        forall|k: int| 0 <= k < entries.len() ==> #[trigger] entries[k].0 != key,
    ensures
        !table_map(entries).contains_key(key as int),
    decreases entries.len(),
{
    if entries.len() > 0 {
        lemma_table_absent(entries.drop_last(), key);
    }
}

impl DistanceTable {
    /// An empty table.
    pub fn new() -> (t: DistanceTable)
        ensures
            t@ == Map::<int, nat>::empty(),
    {
        let t = DistanceTable { entries: Vec::new() };
        t
    }

    /// Record the distance of the use at `key`.
    pub fn set(&mut self, key: usize, distance: usize)
        ensures
            final(self)@ == old(self)@.insert(key as int, distance as nat),
    {
        self.entries.push((key, distance));
        proof {
            assert(self.entries@.drop_last() =~= old(self).entries@);
        }
    }

    /// The recorded distance of the use at `key`, if any.
    pub fn get(&self, key: usize) -> (r: Option<usize>)
        ensures
            match r {
                Option::Some(d) => self@.contains_key(key as int) && self@[key as int]
                    == d as nat,
                Option::None => !self@.contains_key(key as int),
            },
    {
        let mut j: usize = self.entries.len();
        while j > 0
            invariant
                j <= self.entries@.len(),
                forall|k: int| j <= k < self.entries@.len() ==> #[trigger] self.entries@[k].0
                    != key,
            decreases j,
        {
            j = j - 1;
            if self.entries[j].0 == key {
                proof {
                    lemma_table_found(self.entries@, j as int);
                }
                return Option::Some(self.entries[j].1);
            }
        }
        proof {
            lemma_table_absent(self.entries@, key);
        }
        Option::None
    }
}


/// One resolver scope: whether each declared name is fully defined yet
/// (false between its declaration and the end of its initialiser).
pub struct RScope {
    pub entries: Vec<(Vec<u8>, bool)>,
}

/// The flags of an entry list, later entries winning.
pub open spec fn flag_map(entries: Seq<(Vec<u8>, bool)>) -> Map<Seq<u8>, bool>
    decreases entries,
{
    if entries.len() == 0 {
        Map::empty()
    } else {
        flag_map(entries.drop_last()).insert(entries.last().0@, entries.last().1)
    }
}

impl View for RScope {
    type V = Map<Seq<u8>, bool>;

    open spec fn view(&self) -> Map<Seq<u8>, bool> {
        flag_map(self.entries@)
    }
}

/// An entry whose key has no later duplicate gives the map's binding.
proof fn lemma_flag_found(entries: Seq<(Vec<u8>, bool)>, i: int)
    requires
        0 <= i < entries.len(),
        forall|k: int| i < k < entries.len() ==> #[trigger] entries[k].0@ != entries[i].0@,
    ensures
        flag_map(entries).contains_key(entries[i].0@),
        flag_map(entries)[entries[i].0@] == entries[i].1,
    decreases entries.len(),
{
    if i < entries.len() - 1 {
        assert(entries.drop_last()[i] == entries[i]);
        lemma_flag_found(entries.drop_last(), i);
    }
}

/// A key matching no entry is absent from the map.
proof fn lemma_flag_absent(entries: Seq<(Vec<u8>, bool)>, name: Seq<u8>)
    requires
        forall|k: int| 0 <= k < entries.len() ==> #[trigger] entries[k].0@ != name,
    ensures
        !flag_map(entries).contains_key(name),
    decreases entries.len(),
{
    if entries.len() > 0 {
        lemma_flag_absent(entries.drop_last(), name);
    }
}

/// Find the flag of the last entry of a key, if any.
fn find_flag(entries: &Vec<(Vec<u8>, bool)>, name: &Vec<u8>) -> (r: Option<bool>)
    ensures
        match r {
            Option::Some(b) => flag_map(entries@).contains_key(name@) && flag_map(entries@)[name@]
                == b,
            Option::None => !flag_map(entries@).contains_key(name@),
        },
{
    let mut j: usize = entries.len();
    while j > 0
        invariant
            j <= entries@.len(),
            forall|k: int| j <= k < entries@.len() ==> #[trigger] entries@[k].0@ != name@,
        decreases j,
    {
        j = j - 1;
        if text::bytes_eq(&entries[j].0, name) {
            proof {
                lemma_flag_found(entries@, j as int);
            }
            return Option::Some(entries[j].1);
        }
    }
    proof {
        lemma_flag_absent(entries@, name@);
    }
    Option::None
}

/// The spec-level resolver state: the scope stack (innermost last) and
/// the distances recorded so far.
pub struct RStateV {
    pub stack: Seq<Map<Seq<u8>, bool>>,
    pub table: Map<int, nat>,
}

/// The spec-level form of a scope stack.
pub open spec fn view_rstack(s: Seq<RScope>) -> Seq<Map<Seq<u8>, bool>> {
    s.map_values(|sc: RScope| sc@)
}

/// The resolver's working state.
pub struct Resolver {
    pub stack: Vec<RScope>,
    pub table: DistanceTable,
}

impl View for Resolver {
    type V = RStateV;

    open spec fn view(&self) -> RStateV {
        RStateV { stack: view_rstack(self.stack@), table: self.table@ }
    }
}

/// Mark a name declared-but-not-yet-defined in the innermost scope;
/// globals (an empty stack) are not tracked.
pub open spec fn declare_s(rs: RStateV, name: Seq<u8>) -> RStateV {
    if rs.stack.len() > 0 {
        RStateV {
            stack: rs.stack.update(rs.stack.len() - 1, rs.stack.last().insert(name, false)),
            ..rs
        }
    } else {
        rs
    }
}

/// Mark a name defined in the innermost scope; globals are not tracked.
pub open spec fn define_s(rs: RStateV, name: Seq<u8>) -> RStateV {
    if rs.stack.len() > 0 {
        RStateV {
            stack: rs.stack.update(rs.stack.len() - 1, rs.stack.last().insert(name, true)),
            ..rs
        }
    } else {
        rs
    }
}

/// The number of scopes between the innermost and the nearest one that
/// tracks the name, or None for a global.
pub open spec fn distance_to_s(stack: Seq<Map<Seq<u8>, bool>>, name: Seq<u8>) -> Option<nat>
    decreases stack,
{
    if stack.len() == 0 {
        Option::None
    } else if stack.last().contains_key(name) {
        Option::Some(0)
    } else {
        match distance_to_s(stack.drop_last(), name) {
            Option::Some(d) => Option::Some((d + 1) as nat),
            Option::None => Option::None,
        }
    }
}

/// Record the distance of a variable use, leaving globals unrecorded.
pub open spec fn record_s(rs: RStateV, loc: Location, name: Seq<u8>) -> RStateV {
    match distance_to_s(rs.stack, name) {
        Option::Some(d) => RStateV { table: rs.table.insert(loc.start as int, d), ..rs },
        Option::None => rs,
    }
}

/// A fresh empty scope entered.
pub open spec fn push_scope_s(rs: RStateV) -> RStateV {
    RStateV { stack: rs.stack.push(Map::empty()), ..rs }
}

/// The innermost scope left.
pub open spec fn pop_scope_s(rs: RStateV) -> RStateV {
    RStateV { stack: rs.stack.drop_last(), ..rs }
}

/// Resolve each parameter as defined in the innermost scope.
pub open spec fn define_params_rs(rs: RStateV, params: Seq<Seq<u8>>, i: int) -> RStateV
    decreases params.len() - i,
{
    if i < 0 || i >= params.len() {
        rs
    } else {
        define_params_rs(define_s(rs, params[i]), params, i + 1)
    }
}

/// Resolve an expression: annotate its variable uses, or report reading a
/// local inside its own initialiser.
pub open spec fn resolve_expr_s(rs: RStateV, e: ExprV) -> Result<RStateV, Location>
    decreases e, 0nat,
{
    match e {
        ExprV::Nil { .. } => Result::Ok(rs),
        ExprV::Number { .. } => Result::Ok(rs),
        ExprV::Boolean { .. } => Result::Ok(rs),
        ExprV::String { .. } => Result::Ok(rs),
        ExprV::Unary { right, .. } => resolve_expr_s(rs, *right),
        ExprV::Binary { left, right, .. } => match resolve_expr_s(rs, *left) {
            Result::Ok(rs1) => resolve_expr_s(rs1, *right),
            Result::Err(l) => Result::Err(l),
        },
        ExprV::Var { name, location } => if rs.stack.len() > 0 && rs.stack.last().contains_key(
            name,
        ) && !rs.stack.last()[name] {
            Result::Err(location)
        } else {
            Result::Ok(record_s(rs, location, name))
        },
        ExprV::Assignment { name, rhs, location } => match resolve_expr_s(rs, *rhs) {
            Result::Ok(rs1) => Result::Ok(record_s(rs1, location, name)),
            Result::Err(l) => Result::Err(l),
        },
        ExprV::Call { callee, args, .. } => match resolve_expr_s(rs, *callee) {
            Result::Ok(rs1) => resolve_exprs_s(rs1, args, 0),
            Result::Err(l) => Result::Err(l),
        },
        ExprV::Fun { params, body, .. } => {
            let rs1 = define_params_rs(push_scope_s(rs), params, 0);
            match resolve_stmt_s(rs1, *body) {
                Result::Ok(rs2) => Result::Ok(pop_scope_s(rs2)),
                Result::Err(l) => Result::Err(l),
            }
        },
    }
}

/// Resolve each expression of a list from `i` on.
pub open spec fn resolve_exprs_s(rs: RStateV, es: Seq<ExprV>, i: int) -> Result<RStateV, Location>
    decreases es, es.len() - i,
{
    if i < 0 || i >= es.len() {
        Result::Ok(rs)
    } else {
        match resolve_expr_s(rs, es[i]) {
            Result::Ok(rs1) => resolve_exprs_s(rs1, es, i + 1),
            Result::Err(l) => Result::Err(l),
        }
    }
}

/// Resolve a statement.
pub open spec fn resolve_stmt_s(rs: RStateV, s: StmtV) -> Result<RStateV, Location>
    decreases s, 0nat,
{
    match s {
        StmtV::Empty => Result::Ok(rs),
        StmtV::Expr(e) => resolve_expr_s(rs, e),
        StmtV::Print(e) => resolve_expr_s(rs, e),
        StmtV::Assert { expr, .. } => resolve_expr_s(rs, expr),
        StmtV::Return(opt) => match opt {
            Option::Some(e) => resolve_expr_s(rs, e),
            Option::None => Result::Ok(rs),
        },
        StmtV::VarDecl(name, init) => match resolve_expr_s(declare_s(rs, name), init) {
            Result::Ok(rs1) => Result::Ok(define_s(rs1, name)),
            Result::Err(l) => Result::Err(l),
        },
        StmtV::FunDecl { name, params, body, .. } => {
            let rs1 = define_params_rs(push_scope_s(define_s(rs, name)), params, 0);
            match resolve_stmt_s(rs1, *body) {
                Result::Ok(rs2) => Result::Ok(pop_scope_s(rs2)),
                Result::Err(l) => Result::Err(l),
            }
        },
        StmtV::Block(ss) => match resolve_stmts_s(push_scope_s(rs), ss, 0) {
            Result::Ok(rs1) => Result::Ok(pop_scope_s(rs1)),
            Result::Err(l) => Result::Err(l),
        },
        StmtV::If { cond, then, else_ } => match resolve_expr_s(rs, cond) {
            Result::Ok(rs1) => match resolve_stmt_s(rs1, *then) {
                Result::Ok(rs2) => resolve_stmt_s(rs2, *else_),
                Result::Err(l) => Result::Err(l),
            },
            Result::Err(l) => Result::Err(l),
        },
        StmtV::While { cond, body } => match resolve_expr_s(rs, cond) {
            Result::Ok(rs1) => resolve_stmt_s(rs1, *body),
            Result::Err(l) => Result::Err(l),
        },
    }
}

/// Resolve each statement of a list from `i` on.
pub open spec fn resolve_stmts_s(rs: RStateV, ss: Seq<StmtV>, i: int) -> Result<RStateV, Location>
    decreases ss, ss.len() - i,
{
    if i < 0 || i >= ss.len() {
        Result::Ok(rs)
    } else {
        match resolve_stmt_s(rs, ss[i]) {
            Result::Ok(rs1) => resolve_stmts_s(rs1, ss, i + 1),
            Result::Err(l) => Result::Err(l),
        }
    }
}

/// The distances of a whole program, resolved from an empty stack: the
/// specification of `resolve_locals`.
pub open spec fn spec_resolve_program(ss: Seq<StmtV>) -> Result<Map<int, nat>, Location> {
    match resolve_stmts_s(RStateV { stack: Seq::empty(), table: Map::empty() }, ss, 0) {
        Result::Ok(rs) => Result::Ok(rs.table),
        Result::Err(l) => Result::Err(l),
    }
}


/// Mark a name declared in the innermost scope, if any.
fn declare(r: &mut Resolver, name: &Vec<u8>)
    ensures
        final(r)@ == declare_s(old(r)@, name@),
{
    push_flag(r, name, false);
}

/// Mark a name defined in the innermost scope, if any.
fn define(r: &mut Resolver, name: &Vec<u8>)
    ensures
        final(r)@ == define_s(old(r)@, name@),
{
    push_flag(r, name, true);
}

/// Append a flag entry to the innermost scope, if any.
fn push_flag(r: &mut Resolver, name: &Vec<u8>, flag: bool)
    ensures
        final(r)@ == (if flag {
            define_s(old(r)@, name@)
        } else {
            declare_s(old(r)@, name@)
        }),
{
    let n = r.stack.len();
    if n == 0 {
        return ;
    }
    let ghost old_stack = r.stack@;
    let sc = &mut r.stack[n - 1];
    let ghost old_entries = sc.entries@;
    sc.entries.push((text::clone_bytes(name), flag));
    proof {
        assert(sc.entries@.drop_last() =~= old_entries);
        assert(sc@ =~= old_stack[n - 1]@.insert(name@, flag));
        assert(view_rstack(r.stack@) =~= view_rstack(old_stack).update(
            n - 1,
            old_stack[n - 1]@.insert(name@, flag),
        ));
    }
}

/// The distance from the innermost scope to the nearest of the first `m`
/// scopes that tracks the name.
fn distance_within(r: &Resolver, m: usize, name: &Vec<u8>) -> (d: Option<usize>)
    requires
        m <= r.stack@.len(),
    ensures
        match d {
            Option::Some(k) => distance_to_s(view_rstack(r.stack@).take(m as int), name@)
                == Option::Some(k as nat) && k < m,
            Option::None => distance_to_s(view_rstack(r.stack@).take(m as int), name@)
                == Option::<nat>::None,
        },
    decreases m,
{
    if m == 0 {
        proof {
            assert(view_rstack(r.stack@).take(0).len() == 0);
        }
        return Option::None;
    }
    let ghost stk = view_rstack(r.stack@);
    proof {
        assert(stk.take(m as int).last() == stk[m - 1]);
        assert(stk.take(m as int).drop_last() =~= stk.take(m - 1));
    }
    match find_flag(&r.stack[m - 1].entries, name) {
        Option::Some(_) => Option::Some(0),
        Option::None => {
            match distance_within(r, m - 1, name) {
                Option::Some(k) => Option::Some(k + 1),
                Option::None => Option::None,
            }
        }
    }
}

/// Record a use's distance, leaving globals unrecorded.
fn record(r: &mut Resolver, loc: Location, name: &Vec<u8>)
    ensures
        final(r)@ == record_s(old(r)@, loc, name@),
{
    let n = r.stack.len();
    proof {
        assert(view_rstack(r.stack@).take(n as int) =~= view_rstack(r.stack@));
    }
    match distance_within(r, n, name) {
        Option::Some(d) => {
            r.table.set(loc.start, d);
        }
        Option::None => {}
    }
}

/// Resolve an expression.
fn resolve_expr(r: &mut Resolver, e: &Expr) -> (res: Result<(), Location>)
    ensures
        match res {
            Result::Ok(_) => resolve_expr_s(old(r)@, e@) == Result::<RStateV, Location>::Ok(
                final(r)@,
            ) && final(r)@.stack.len() == old(r)@.stack.len(),
            Result::Err(l) => resolve_expr_s(old(r)@, e@) == Result::<RStateV, Location>::Err(l),
        },
    decreases *e, 0nat,
{
    match e {
        Expr::Nil { .. } => Result::Ok(()),
        Expr::Number { .. } => Result::Ok(()),
        Expr::Boolean { .. } => Result::Ok(()),
        Expr::String { .. } => Result::Ok(()),
        Expr::Unary { right, .. } => resolve_expr(r, right),
        Expr::Binary { left, right, .. } => {
            match resolve_expr(r, left) {
                Result::Ok(_) => resolve_expr(r, right),
                Result::Err(l) => Result::Err(l),
            }
        }
        Expr::Var { name, location } => {
            let n = r.stack.len();
            if n > 0 {
                let flag = find_flag(&r.stack[n - 1].entries, name);
                proof {
                    assert(view_rstack(r.stack@).last() == r.stack@[n - 1]@);
                }
                match flag {
                    Option::Some(false) => {
                        return Result::Err(*location);
                    }
                    _ => {}
                }
            }
            record(r, *location, name);
            Result::Ok(())
        }
        Expr::Assignment { name, rhs, location } => {
            match resolve_expr(r, rhs) {
                Result::Ok(_) => {
                    record(r, *location, name);
                    Result::Ok(())
                }
                Result::Err(l) => Result::Err(l),
            }
        }
        Expr::Call { callee, args, .. } => {
            match resolve_expr(r, callee) {
                Result::Ok(_) => resolve_exprs(r, args, 0),
                Result::Err(l) => Result::Err(l),
            }
        }
        Expr::Fun { params, body, .. } => {
            push_scope(r);
            define_params(r, params, 0);
            match resolve_stmt(r, body) {
                Result::Ok(_) => {
                    pop_scope(r);
                    Result::Ok(())
                }
                Result::Err(l) => Result::Err(l),
            }
        }
    }
}

/// Enter a fresh scope.
fn push_scope(r: &mut Resolver)
    ensures
        final(r)@ == push_scope_s(old(r)@),
{
    let ghost old_stack = r.stack@;
    r.stack.push(RScope { entries: Vec::new() });
    proof {
        assert(r.stack@[old_stack.len() as int]@ =~= Map::<Seq<u8>, bool>::empty());
        assert(view_rstack(r.stack@) =~= view_rstack(old_stack).push(Map::empty()));
    }
}

/// Leave the innermost scope.
fn pop_scope(r: &mut Resolver)
    requires
        old(r)@.stack.len() > 0,
    ensures
        final(r)@ == pop_scope_s(old(r)@),
{
    let ghost old_stack = r.stack@;
    let _ = r.stack.pop();
    proof {
        assert(view_rstack(r.stack@) =~= view_rstack(old_stack).drop_last());
    }
}

/// Mark each parameter defined in the innermost scope.
fn define_params(r: &mut Resolver, params: &Vec<Vec<u8>>, i: usize)
    ensures
        final(r)@ == define_params_rs(old(r)@, params.deep_view(), i as int),
        final(r)@.stack.len() == old(r)@.stack.len(),
    decreases params@.len() - i,
{
    if i >= params.len() {
        return ;
    }
    proof {
        assert(params.deep_view()[i as int] =~= params@[i as int]@);
    }
    define(r, &params[i]);
    define_params(r, params, i + 1);
}

/// Resolve each expression of a list from `i` on.
fn resolve_exprs(r: &mut Resolver, es: &Vec<Expr>, i: usize) -> (res: Result<(), Location>)
    ensures
        match res {
            Result::Ok(_) => resolve_exprs_s(old(r)@, ast::view_exprs(es@), i as int)
                == Result::<RStateV, Location>::Ok(final(r)@) && final(r)@.stack.len() == old(
                r,
            )@.stack.len(),
            Result::Err(l) => resolve_exprs_s(old(r)@, ast::view_exprs(es@), i as int)
                == Result::<RStateV, Location>::Err(l),
        },
    decreases *es, es@.len() - i,
{
    proof {
        ast::lemma_view_exprs_index(es@);
    }
    if i >= es.len() {
        return Result::Ok(());
    }
    proof {
        assert(decreases_to!(*es => es@[i as int]));
    }
    match resolve_expr(r, &es[i]) {
        Result::Ok(_) => resolve_exprs(r, es, i + 1),
        Result::Err(l) => Result::Err(l),
    }
}

/// Resolve a statement.
fn resolve_stmt(r: &mut Resolver, s: &Stmt) -> (res: Result<(), Location>)
    ensures
        match res {
            Result::Ok(_) => resolve_stmt_s(old(r)@, s@) == Result::<RStateV, Location>::Ok(
                final(r)@,
            ) && final(r)@.stack.len() == old(r)@.stack.len(),
            Result::Err(l) => resolve_stmt_s(old(r)@, s@) == Result::<RStateV, Location>::Err(l),
        },
    decreases *s, 0nat,
{
    match s {
        Stmt::Empty => Result::Ok(()),
        Stmt::Expr(e) => resolve_expr(r, e),
        Stmt::Print(e) => resolve_expr(r, e),
        Stmt::Assert { expr, .. } => resolve_expr(r, expr),
        Stmt::Return(opt) => match opt {
            Option::Some(e) => resolve_expr(r, e),
            Option::None => Result::Ok(()),
        },
        Stmt::VarDecl(name, init) => {
            declare(r, name);
            match resolve_expr(r, init) {
                Result::Ok(_) => {
                    define(r, name);
                    Result::Ok(())
                }
                Result::Err(l) => Result::Err(l),
            }
        }
        Stmt::FunDecl { name, params, body, .. } => {
            define(r, name);
            push_scope(r);
            define_params(r, params, 0);
            match resolve_stmt(r, body) {
                Result::Ok(_) => {
                    pop_scope(r);
                    Result::Ok(())
                }
                Result::Err(l) => Result::Err(l),
            }
        }
        Stmt::Block(ss) => {
            push_scope(r);
            match resolve_stmts(r, ss, 0) {
                Result::Ok(_) => {
                    pop_scope(r);
                    Result::Ok(())
                }
                Result::Err(l) => Result::Err(l),
            }
        }
        Stmt::If { cond, then, else_ } => {
            match resolve_expr(r, cond) {
                Result::Ok(_) => match resolve_stmt(r, then) {
                    Result::Ok(_) => resolve_stmt(r, else_),
                    Result::Err(l) => Result::Err(l),
                },
                Result::Err(l) => Result::Err(l),
            }
        }
        Stmt::While { cond, body } => {
            match resolve_expr(r, cond) {
                Result::Ok(_) => resolve_stmt(r, body),
                Result::Err(l) => Result::Err(l),
            }
        }
    }
}

/// Resolve each statement of a list from `i` on.
fn resolve_stmts(r: &mut Resolver, ss: &Vec<Stmt>, i: usize) -> (res: Result<(), Location>)
    ensures
        match res {
            Result::Ok(_) => resolve_stmts_s(old(r)@, ast::view_stmts(ss@), i as int)
                == Result::<RStateV, Location>::Ok(final(r)@) && final(r)@.stack.len() == old(
                r,
            )@.stack.len(),
            Result::Err(l) => resolve_stmts_s(old(r)@, ast::view_stmts(ss@), i as int)
                == Result::<RStateV, Location>::Err(l),
        },
    decreases *ss, ss@.len() - i,
{
    proof {
        ast::lemma_view_stmts_index(ss@);
    }
    if i >= ss.len() {
        return Result::Ok(());
    }
    proof {
        assert(decreases_to!(*ss => ss@[i as int]));
    }
    match resolve_stmt(r, &ss[i]) {
        Result::Ok(_) => resolve_stmts(r, ss, i + 1),
        Result::Err(l) => Result::Err(l),
    }
}

/// Annotate every variable use of a program with its scope distance, or
/// report the one static error: reading a local inside its own
/// initialiser.
pub fn resolve_locals(statements: &Vec<Stmt>) -> (r: Result<DistanceTable, Error>)
    ensures
        match r {
            Result::Ok(t) => spec_resolve_program(ast::view_stmts(statements@))
                == Result::<Map<int, nat>, Location>::Ok(t@),
            Result::Err(er) => {
                &&& spec_resolve_program(ast::view_stmts(statements@)) matches Result::Err(l)
                &&& er == (Error::Resolve { location: l })
            },
        },
{
    let mut r = Resolver { stack: Vec::new(), table: DistanceTable::new() };
    proof {
        assert(view_rstack(r.stack@) =~= Seq::<Map<Seq<u8>, bool>>::empty());
    }
    match resolve_stmts(&mut r, statements, 0) {
        Result::Ok(_) => Result::Ok(r.table),
        Result::Err(l) => Result::Err(Error::Resolve { location: l }),
    }
}


/// Whether the runtime scope chain from `h` mirrors a resolver scope
/// stack: the scopes bind exactly the names the stack tracks at each
/// level, and below the tracked levels sits the global scope itself.
pub open spec fn chain_matches(st: StateV, h: nat, stack: Seq<Map<Seq<u8>, bool>>) -> bool
    decreases stack.len(),
{
    if stack.len() == 0 {
        h == 0 && 0 < st.scopes.len() && st.scopes[0].enclosing is None
    } else {
        &&& h < st.scopes.len()
        &&& st.scopes[h as int].vals.dom() == stack.last().dom()
        &&& match st.scopes[h as int].enclosing {
            Option::Some(p) => p < h && chain_matches(st, p, stack.drop_last()),
            Option::None => false,
        }
    }
}

/// Lookup at the distance the resolver computes agrees with dynamic
/// innermost-outward lookup, at any scope whose runtime chain mirrors the
/// resolver's static stack level for level.  This is the lookup-level
/// core of the two interpretation modes' equivalence; a `var` executed
/// after a closure captured its scope can grow that scope past what the
/// static stack held, and exactly there the hypothesis fails.
pub proof fn lemma_resolved_lookup_agrees(
    st: StateV,
    h: nat,
    stack: Seq<Map<Seq<u8>, bool>>,
    name: Seq<u8>,
)
    requires
        chain_matches(st, h, stack),
    ensures
        match distance_to_s(stack, name) {
            Option::Some(d) => scope_at(st, h, d) matches Option::Some(g) && lookup_direct(
                st,
                g,
                name,
            ) == lookup_scope(st, h, name),
            Option::None => lookup_direct(st, 0, name) == lookup_scope(st, h, name),
        },
    decreases stack.len(),
{
    if stack.len() == 0 {
    } else {
        let sc = st.scopes[h as int];
        assert(sc.vals.contains_key(name) == stack.last().dom().contains(name));
        if stack.last().contains_key(name) {
            assert(scope_at(st, h, 0) == Option::Some(h));
        } else {
            match sc.enclosing {
                Option::Some(p) => {
                    lemma_resolved_lookup_agrees(st, p, stack.drop_last(), name);
                    match distance_to_s(stack.drop_last(), name) {
                        Option::Some(d) => {
                            assert(scope_at(st, h, d + 1) == scope_at(st, p, d));
                        }
                        Option::None => {}
                    }
                }
                Option::None => {}
            }
        }
    }
}

/// The same agreement, phrased through the lookup the interpreter does:
/// under a mirrored chain, the resolver's distance addressed through
/// `spec_get_at` finds what walking the chain finds.
pub proof fn lemma_resolved_get_agrees(st: StateV, stack: Seq<Map<Seq<u8>, bool>>, name: Seq<u8>)
    requires
        chain_matches(st, st.cur, stack),
    ensures
        spec_get_at(st, distance_to_s(stack, name), name) == lookup_scope(st, st.cur, name),
{
    lemma_resolved_lookup_agrees(st, st.cur, stack, name);
}

} // verus!
