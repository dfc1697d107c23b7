//! Source locations and the abstract syntax tree.
//!
//! Every node carries a byte-offset span `[start, end)` into the source
//! text.  Identifiers and string literals are carried as byte vectors;
//! numbers as IEEE-754 double encodings.

use vstd::prelude::*;

verus! {

/// A byte-offset span `[start, end)` into the source text.
#[derive(Debug, Clone, Copy, PartialEq, Eq, Structural)]
pub struct Location {
    pub start: usize,
    pub end: usize,
}

/// Build a location from its two offsets.
pub fn location(s: usize, e: usize) -> (l: Location)
    ensures
        l == (Location { start: s, end: e }),
{
    Location { start: s, end: e }
}

/// An operator of a unary expression.
#[derive(Debug, Clone, Copy, PartialEq, Eq, Structural)]
pub enum UnaryOp {
    Invert,
    Negate,
}

/// An operator of a binary expression.
#[derive(Debug, Clone, Copy, PartialEq, Eq, Structural)]
pub enum BinaryOp {
    Mul,
    Div,
    Mod,
    Add,
    Sub,
    Eq,
    Ne,
    Lt,
    Le,
    Gt,
    Ge,
}

/// An expression.  `Number` carries the IEEE-754 encoding of its value;
/// names and string contents are byte vectors.
#[derive(Debug, PartialEq)]
#[verifier::ext_equal]
#[allow(inconsistent_fields)]
pub enum Expr {
    Nil { location: Location },
    Number { value: u64, location: Location },
    Boolean { value: bool, location: Location },
    String { value: Vec<u8>, location: Location },
    Unary { op: UnaryOp, right: Box<Expr>, location: Location },
    Binary { left: Box<Expr>, op: BinaryOp, right: Box<Expr>, location: Location },
    Var { name: Vec<u8>, location: Location },
    Assignment { name: Vec<u8>, rhs: Box<Expr>, location: Location },
    Call { callee: Box<Expr>, args: Vec<Expr>, location: Location },
    Fun { params: Vec<Vec<u8>>, body: Box<Stmt>, location: Location },
}

/// A statement.
#[derive(Debug, PartialEq)]
#[verifier::ext_equal]
pub enum Stmt {
    Empty,
    Expr(Expr),
    Print(Expr),
    Assert { expr: Expr, location: Location },
    Return(Option<Expr>),
    VarDecl(Vec<u8>, Expr),
    FunDecl { name: Vec<u8>, params: Vec<Vec<u8>>, body: Box<Stmt>, location: Location },
    Block(Vec<Stmt>),
    If { cond: Expr, then: Box<Stmt>, else_: Box<Stmt> },
    While { cond: Expr, body: Box<Stmt> },
}

impl Expr {
    /// The span of an expression.
    pub open spec fn spec_location(&self) -> Location {
        match *self {
            Expr::Nil { location } => location,
            Expr::Number { location, .. } => location,
            Expr::Boolean { location, .. } => location,
            Expr::String { location, .. } => location,
            Expr::Unary { location, .. } => location,
            Expr::Binary { location, .. } => location,
            Expr::Var { location, .. } => location,
            Expr::Assignment { location, .. } => location,
            Expr::Call { location, .. } => location,
            Expr::Fun { location, .. } => location,
        }
    }
}

/// Anything that carries a source span.
pub trait Locatable {
    /// The span, as a spec-level value.
    spec fn loc(&self) -> Location;

    /// The span.
    fn location(&self) -> (l: Location)
        ensures
            l == self.loc(),
    ;
}

impl Locatable for Expr {
    open spec fn loc(&self) -> Location {
        self.spec_location()
    }

    fn location(&self) -> (l: Location) {
        match self {
            Expr::Nil { location } => *location,
            Expr::Number { location, .. } => *location,
            Expr::Boolean { location, .. } => *location,
            Expr::String { location, .. } => *location,
            Expr::Unary { location, .. } => *location,
            Expr::Binary { location, .. } => *location,
            Expr::Var { location, .. } => *location,
            Expr::Assignment { location, .. } => *location,
            Expr::Call { location, .. } => *location,
            Expr::Fun { location, .. } => *location,
        }
    }
}

/// The spec-level form of an expression: lists as sequences, names and
/// string contents as byte sequences.
#[allow(inconsistent_fields)]
pub enum ExprV {
    Nil { location: Location },
    Number { value: u64, location: Location },
    Boolean { value: bool, location: Location },
    String { value: Seq<u8>, location: Location },
    Unary { op: UnaryOp, right: Box<ExprV>, location: Location },
    Binary { left: Box<ExprV>, op: BinaryOp, right: Box<ExprV>, location: Location },
    Var { name: Seq<u8>, location: Location },
    Assignment { name: Seq<u8>, rhs: Box<ExprV>, location: Location },
    Call { callee: Box<ExprV>, args: Seq<ExprV>, location: Location },
    Fun { params: Seq<Seq<u8>>, body: Box<StmtV>, location: Location },
}

/// The spec-level form of a statement.
pub enum StmtV {
    Empty,
    Expr(ExprV),
    Print(ExprV),
    Assert { expr: ExprV, location: Location },
    Return(Option<ExprV>),
    VarDecl(Seq<u8>, ExprV),
    FunDecl { name: Seq<u8>, params: Seq<Seq<u8>>, body: Box<StmtV>, location: Location },
    Block(Seq<StmtV>),
    If { cond: ExprV, then: Box<StmtV>, else_: Box<StmtV> },
    While { cond: ExprV, body: Box<StmtV> },
}

impl ExprV {
    /// The span of a spec-level expression.
    pub open spec fn loc(&self) -> Location {
        match *self {
            ExprV::Nil { location } => location,
            ExprV::Number { location, .. } => location,
            ExprV::Boolean { location, .. } => location,
            ExprV::String { location, .. } => location,
            ExprV::Unary { location, .. } => location,
            ExprV::Binary { location, .. } => location,
            ExprV::Var { location, .. } => location,
            ExprV::Assignment { location, .. } => location,
            ExprV::Call { location, .. } => location,
            ExprV::Fun { location, .. } => location,
        }
    }
}

/// The spec-level form of an expression.
pub open spec fn view_expr(e: Expr) -> ExprV
    decreases e,
{
    match e {
        Expr::Nil { location } => ExprV::Nil { location },
        Expr::Number { value, location } => ExprV::Number { value, location },
        Expr::Boolean { value, location } => ExprV::Boolean { value, location },
        Expr::String { value, location } => ExprV::String { value: value@, location },
        Expr::Unary { op, right, location } => ExprV::Unary {
            op,
            right: Box::new(view_expr(*right)),
            location,
        },
        Expr::Binary { left, op, right, location } => ExprV::Binary {
            left: Box::new(view_expr(*left)),
            op,
            right: Box::new(view_expr(*right)),
            location,
        },
        Expr::Var { name, location } => ExprV::Var { name: name@, location },
        Expr::Assignment { name, rhs, location } => ExprV::Assignment {
            name: name@,
            rhs: Box::new(view_expr(*rhs)),
            location,
        },
        Expr::Call { callee, args, location } => ExprV::Call {
            callee: Box::new(view_expr(*callee)),
            args: view_exprs(args@),
            location,
        },
        Expr::Fun { params, body, location } => ExprV::Fun {
            params: params.deep_view(),
            body: Box::new(view_stmt(*body)),
            location,
        },
    }
}

impl View for Expr {
    type V = ExprV;

    open spec fn view(&self) -> ExprV {
        view_expr(*self)
    }
}

/// A view keeps its expression's span.
pub broadcast proof fn lemma_view_loc(e: Expr)
    ensures
        #[trigger] view_expr(e).loc() == e.spec_location(),
{
    match e {
        Expr::Nil { .. } => {}
        Expr::Number { .. } => {}
        Expr::Boolean { .. } => {}
        Expr::String { .. } => {}
        Expr::Unary { .. } => {}
        Expr::Binary { .. } => {}
        Expr::Var { .. } => {}
        Expr::Assignment { .. } => {}
        Expr::Call { .. } => {}
        Expr::Fun { .. } => {}
    }
}

/// The spec-level form of each expression of a sequence.
pub open spec fn view_exprs(s: Seq<Expr>) -> Seq<ExprV>
    decreases s,
{
    if s.len() == 0 {
        Seq::empty()
    } else {
        view_exprs(s.drop_last()).push(view_expr(s.last()))
    }
}

/// The spec-level form of a statement.
pub open spec fn view_stmt(s: Stmt) -> StmtV
    decreases s,
{
    match s {
        Stmt::Empty => StmtV::Empty,
        Stmt::Expr(e) => StmtV::Expr(view_expr(e)),
        Stmt::Print(e) => StmtV::Print(view_expr(e)),
        Stmt::Assert { expr, location } => StmtV::Assert { expr: view_expr(expr), location },
        Stmt::Return(opt) => StmtV::Return(
            match opt {
                Option::Some(e) => Option::Some(view_expr(e)),
                Option::None => Option::None,
            },
        ),
        Stmt::VarDecl(name, init) => StmtV::VarDecl(name@, view_expr(init)),
        Stmt::FunDecl { name, params, body, location } => StmtV::FunDecl {
            name: name@,
            params: params.deep_view(),
            body: Box::new(view_stmt(*body)),
            location,
        },
        Stmt::Block(stmts) => StmtV::Block(view_stmts(stmts@)),
        Stmt::If { cond, then, else_ } => StmtV::If {
            cond: view_expr(cond),
            then: Box::new(view_stmt(*then)),
            else_: Box::new(view_stmt(*else_)),
        },
        Stmt::While { cond, body } => StmtV::While {
            cond: view_expr(cond),
            body: Box::new(view_stmt(*body)),
        },
    }
}

impl View for Stmt {
    type V = StmtV;

    open spec fn view(&self) -> StmtV {
        view_stmt(*self)
    }
}

/// The spec-level form of each statement of a sequence.
pub open spec fn view_stmts(s: Seq<Stmt>) -> Seq<StmtV>
    decreases s,
{
    if s.len() == 0 {
        Seq::empty()
    } else {
        view_stmts(s.drop_last()).push(view_stmt(s.last()))
    }
}

/// Appending an expression appends its spec-level form.
pub proof fn lemma_view_exprs_push(s: Seq<Expr>, x: Expr)
    ensures
        view_exprs(s.push(x)) == view_exprs(s).push(x@),
{
    assert(s.push(x).drop_last() =~= s);
    assert(s.push(x).last() == x);
}

/// Appending a statement appends its spec-level form.
pub proof fn lemma_view_stmts_push(s: Seq<Stmt>, x: Stmt)
    ensures
        view_stmts(s.push(x)) == view_stmts(s).push(x@),
{
    assert(s.push(x).drop_last() =~= s);
    assert(s.push(x).last() == x);
}

/// The spec-level form of a sequence has the same length and the
/// elements' forms.
pub proof fn lemma_view_exprs_index(s: Seq<Expr>)
    ensures
        view_exprs(s).len() == s.len(),
        forall|i: int| #![trigger view_exprs(s)[i]] #![trigger s[i]@] 0 <= i < s.len() ==> view_exprs(s)[i] == s[i]@,
    decreases s,
{
    if s.len() > 0 {
        lemma_view_exprs_index(s.drop_last());
        assert forall|i: int| #![trigger view_exprs(s)[i]] #![trigger s[i]@] 0 <= i < s.len() implies view_exprs(s)[i] == s[i]@ by {
            if i < s.len() - 1 {
                assert(s.drop_last()[i] == s[i]);
            } else {
                assert(s[i] == s.last());
            }
        }
    }
}

/// The spec-level form of a sequence has the same length and the
/// elements' forms.
pub proof fn lemma_view_stmts_index(s: Seq<Stmt>)
    ensures
        view_stmts(s).len() == s.len(),
        forall|i: int| #![trigger view_stmts(s)[i]] #![trigger s[i]@] 0 <= i < s.len() ==> view_stmts(s)[i] == s[i]@,
    decreases s,
{
    if s.len() > 0 {
        lemma_view_stmts_index(s.drop_last());
        assert forall|i: int| #![trigger view_stmts(s)[i]] #![trigger s[i]@] 0 <= i < s.len() implies view_stmts(s)[i] == s[i]@ by {
            if i < s.len() - 1 {
                assert(s.drop_last()[i] == s[i]);
            } else {
                assert(s[i] == s.last());
            }
        }
    }
}

/// Copy a parameter list.
pub fn clone_params(p: &Vec<Vec<u8>>) -> (r: Vec<Vec<u8>>)
    ensures
        r.deep_view() == p.deep_view(),
{
    let mut out: Vec<Vec<u8>> = Vec::new();
    let mut i: usize = 0;
    while i < p.len()
        invariant
            i <= p.len(),
            out@.len() == i,
            forall|j: int| 0 <= j < i ==> #[trigger] out@[j]@ == p@[j]@,
        decreases p.len() - i,
    {
        out.push(crate::text::clone_bytes(&p[i]));
        i = i + 1;
    }
    proof {
        assert forall|j: int| 0 <= j < p@.len() implies out.deep_view()[j]
            == p.deep_view()[j] by {
            assert(out.deep_view()[j] =~= out@[j]@);
            assert(p.deep_view()[j] =~= p@[j]@);
        }
        assert(out.deep_view() =~= p.deep_view());
    }
    out
}

/// Copy an expression.
pub fn clone_expr(e: &Expr) -> (r: Expr)
    ensures
        r@ == e@,
    decreases *e,
{
    match e {
        Expr::Nil { location } => Expr::Nil { location: *location },
        Expr::Number { value, location } => Expr::Number { value: *value, location: *location },
        Expr::Boolean { value, location } => Expr::Boolean { value: *value, location: *location },
        Expr::String { value, location } => Expr::String {
            value: crate::text::clone_bytes(value),
            location: *location,
        },
        Expr::Unary { op, right, location } => Expr::Unary {
            op: *op,
            right: Box::new(clone_expr(right)),
            location: *location,
        },
        Expr::Binary { left, op, right, location } => Expr::Binary {
            left: Box::new(clone_expr(left)),
            op: *op,
            right: Box::new(clone_expr(right)),
            location: *location,
        },
        Expr::Var { name, location } => Expr::Var {
            name: crate::text::clone_bytes(name),
            location: *location,
        },
        Expr::Assignment { name, rhs, location } => Expr::Assignment {
            name: crate::text::clone_bytes(name),
            rhs: Box::new(clone_expr(rhs)),
            location: *location,
        },
        Expr::Call { callee, args, location } => {
            let new_callee = Box::new(clone_expr(callee));
            let new_args = clone_exprs(args);
            Expr::Call { callee: new_callee, args: new_args, location: *location }
        }
        Expr::Fun { params, body, location } => Expr::Fun {
            params: clone_params(params),
            body: Box::new(clone_stmt(body)),
            location: *location,
        },
    }
}

/// Copy each expression of a list.
pub fn clone_exprs(es: &Vec<Expr>) -> (r: Vec<Expr>)
    ensures
        view_exprs(r@) == view_exprs(es@),
    decreases *es,
{
    let mut out: Vec<Expr> = Vec::new();
    let mut i: usize = 0;
    while i < es.len()
        invariant
            i <= es.len(),
            view_exprs(out@) =~= view_exprs(es@.take(i as int)),
        decreases es.len() - i,
    {
        proof {
            assert(decreases_to!(*es => es@[i as int]));
        }
        let c = clone_expr(&es[i]);
        proof {
            lemma_view_exprs_push(out@, c);
            assert(es@.take(i + 1).drop_last() =~= es@.take(i as int));
            assert(es@.take(i + 1).last() == es@[i as int]);
        }
        out.push(c);
        i = i + 1;
    }
    proof {
        assert(es@.take(es@.len() as int) =~= es@);
    }
    out
}

/// Copy each statement of a list.
pub fn clone_stmts(ss: &Vec<Stmt>) -> (r: Vec<Stmt>)
    ensures
        view_stmts(r@) == view_stmts(ss@),
    decreases *ss,
{
    let mut out: Vec<Stmt> = Vec::new();
    let mut i: usize = 0;
    while i < ss.len()
        invariant
            i <= ss.len(),
            view_stmts(out@) =~= view_stmts(ss@.take(i as int)),
        decreases ss.len() - i,
    {
        proof {
            assert(decreases_to!(*ss => ss@[i as int]));
        }
        let c = clone_stmt(&ss[i]);
        proof {
            lemma_view_stmts_push(out@, c);
            assert(ss@.take(i + 1).drop_last() =~= ss@.take(i as int));
            assert(ss@.take(i + 1).last() == ss@[i as int]);
        }
        out.push(c);
        i = i + 1;
    }
    proof {
        assert(ss@.take(ss@.len() as int) =~= ss@);
    }
    out
}

/// Copy a statement.
pub fn clone_stmt(s: &Stmt) -> (r: Stmt)
    ensures
        r@ == s@,
    decreases *s,
{
    match s {
        Stmt::Empty => Stmt::Empty,
        Stmt::Expr(e) => Stmt::Expr(clone_expr(e)),
        Stmt::Print(e) => Stmt::Print(clone_expr(e)),
        Stmt::Assert { expr, location } => Stmt::Assert {
            expr: clone_expr(expr),
            location: *location,
        },
        Stmt::Return(opt) => match opt {
            Option::Some(e) => Stmt::Return(Option::Some(clone_expr(e))),
            Option::None => Stmt::Return(Option::None),
        },
        Stmt::VarDecl(name, init) => Stmt::VarDecl(crate::text::clone_bytes(name), clone_expr(init)),
        Stmt::FunDecl { name, params, body, location } => Stmt::FunDecl {
            name: crate::text::clone_bytes(name),
            params: clone_params(params),
            body: Box::new(clone_stmt(body)),
            location: *location,
        },
        Stmt::Block(stmts) => Stmt::Block(clone_stmts(stmts)),
        Stmt::If { cond, then, else_ } => Stmt::If {
            cond: clone_expr(cond),
            then: Box::new(clone_stmt(then)),
            else_: Box::new(clone_stmt(else_)),
        },
        Stmt::While { cond, body } => Stmt::While {
            cond: clone_expr(cond),
            body: Box::new(clone_stmt(body)),
        },
    }
}

/// Whether `r` is the block `{ init; while (cond) { body; incr; } }`.
pub open spec fn is_desugared_for(r: Stmt, init: Stmt, cond: Expr, incr: Expr, body: Stmt) -> bool {
    &&& r matches Stmt::Block(outer)
    &&& outer@.len() == 2
    &&& outer@[0] == init
    &&& outer@[1] matches Stmt::While { cond: c, body: b }
    &&& c == cond
    &&& *b matches Stmt::Block(inner)
    &&& inner@.len() == 2
    &&& inner@[0] == body
    &&& inner@[1] == Stmt::Expr(incr)
}

/// Desugar `for (init; cond; incr) body`, supplying the default condition
/// `true` and empty initialiser and increment where they are absent.
pub fn desugar_for(
    location: Location,
    init: Option<Stmt>,
    cond: Option<Expr>,
    incr: Option<Expr>,
    body: Stmt,
) -> (r: Stmt)
    ensures
        is_desugared_for(
            r,
            match init {
                Option::Some(s) => s,
                Option::None => Stmt::Empty,
            },
            match cond {
                Option::Some(c) => c,
                Option::None => (Expr::Boolean { value: true, location }),
            },
            match incr {
                Option::Some(x) => x,
                Option::None => (Expr::Nil { location }),
            },
            body,
        ),
{
    let init_stmt = match init {
        Option::Some(s) => s,
        Option::None => Stmt::Empty,
    };
    let cond_expr = match cond {
        Option::Some(c) => c,
        Option::None => Expr::Boolean { value: true, location },
    };
    let incr_expr = match incr {
        Option::Some(x) => x,
        Option::None => Expr::Nil { location },
    };
    desugar_for_(init_stmt, cond_expr, incr_expr, body)
}

/// Desugar a fully supplied `for` head into a block around a `while`.
pub fn desugar_for_(init: Stmt, cond: Expr, incr: Expr, body: Stmt) -> (r: Stmt)
    ensures
        is_desugared_for(r, init, cond, incr, body),
{
    let mut inner: Vec<Stmt> = Vec::new();
    inner.push(body);
    inner.push(Stmt::Expr(incr));
    let whole = Stmt::While { cond: cond, body: Box::new(Stmt::Block(inner)) };
    let mut outer: Vec<Stmt> = Vec::new();
    outer.push(init);
    outer.push(whole);
    Stmt::Block(outer)
}


/// The span invariant of a single location: start at or before end, both
/// within the source of length `n`.
pub open spec fn spec_location_wf(l: Location, n: int) -> bool {
    l.start <= l.end <= n
}

/// Every location of an expression satisfies the span invariant.
pub open spec fn locs_wf_expr(e: ExprV, n: int) -> bool
    decreases e, 0nat,
{
    match e {
        ExprV::Nil { location } => spec_location_wf(location, n),
        ExprV::Number { location, .. } => spec_location_wf(location, n),
        ExprV::Boolean { location, .. } => spec_location_wf(location, n),
        ExprV::String { location, .. } => spec_location_wf(location, n),
        ExprV::Unary { right, location, .. } => spec_location_wf(location, n) && locs_wf_expr(
            *right,
            n,
        ),
        ExprV::Binary { left, right, location, .. } => spec_location_wf(location, n)
            && locs_wf_expr(*left, n) && locs_wf_expr(*right, n),
        ExprV::Var { location, .. } => spec_location_wf(location, n),
        ExprV::Assignment { rhs, location, .. } => spec_location_wf(location, n) && locs_wf_expr(
            *rhs,
            n,
        ),
        ExprV::Call { callee, args, location } => spec_location_wf(location, n) && locs_wf_expr(
            *callee,
            n,
        ) && locs_wf_exprs(args, 0, n),
        ExprV::Fun { body, location, .. } => spec_location_wf(location, n) && locs_wf_stmt(
            *body,
            n,
        ),
    }
}

/// Every location of the expressions from `i` on satisfies the span
/// invariant.
pub open spec fn locs_wf_exprs(es: Seq<ExprV>, i: int, n: int) -> bool
    decreases es, es.len() - i,
{
    if i < 0 || i >= es.len() {
        true
    } else {
        locs_wf_expr(es[i], n) && locs_wf_exprs(es, i + 1, n)
    }
}

/// Every location of a statement satisfies the span invariant.
pub open spec fn locs_wf_stmt(s: StmtV, n: int) -> bool
    decreases s, 0nat,
{
    match s {
        StmtV::Empty => true,
        StmtV::Expr(e) => locs_wf_expr(e, n),
        StmtV::Print(e) => locs_wf_expr(e, n),
        StmtV::Assert { expr, location } => spec_location_wf(location, n) && locs_wf_expr(expr, n),
        StmtV::Return(opt) => match opt {
            Option::Some(e) => locs_wf_expr(e, n),
            Option::None => true,
        },
        StmtV::VarDecl(_, init) => locs_wf_expr(init, n),
        StmtV::FunDecl { body, location, .. } => spec_location_wf(location, n) && locs_wf_stmt(
            *body,
            n,
        ),
        StmtV::Block(ss) => locs_wf_stmts(ss, 0, n),
        StmtV::If { cond, then, else_ } => locs_wf_expr(cond, n) && locs_wf_stmt(*then, n)
            && locs_wf_stmt(*else_, n),
        StmtV::While { cond, body } => locs_wf_expr(cond, n) && locs_wf_stmt(*body, n),
    }
}

/// Every location of the statements from `i` on satisfies the span
/// invariant.
pub open spec fn locs_wf_stmts(ss: Seq<StmtV>, i: int, n: int) -> bool
    decreases ss, ss.len() - i,
{
    if i < 0 || i >= ss.len() {
        true
    } else {
        locs_wf_stmt(ss[i], n) && locs_wf_stmts(ss, i + 1, n)
    }
}

} // verus!
