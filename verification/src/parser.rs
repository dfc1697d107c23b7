//! The parser: tokens to the abstract syntax tree.
//!
//! A recursive descent over the token list, one function per precedence
//! level; assignment is right-associative, the other binary operators
//! left-associative, and `for` heads are desugared into a block around a
//! `while`.  The `*_s` spec functions are the specification; the
//! executable functions return exactly what they say.
//!
//! Each sub-parse consumes at least one token; the explicit
//! position-advance checks below keep the recursion measures plain and
//! can never fail.

use vstd::prelude::*;

use crate::ast;
use crate::ast::{BinaryOp, Expr, ExprV, Locatable, Location, Stmt, StmtV, UnaryOp};
use crate::error::ParseError;
use crate::lexer::{lemma_view_tokens_index, parse_err_matches, tokens_ok, view_tokens, ParseErrorV, TokKind, TokKindV, Token, TokenV};
use crate::text;

verus! {

use vstd::string::is_ascii;
use vstd::utf8::is_ascii_chars;

/// The place an unexpected end of input is reported at: just after the
/// last token.
pub open spec fn eof_loc(ts: Seq<TokenV>) -> Location {
    if ts.len() > 0 {
        Location { start: ts.last().end, end: ts.last().end }
    } else {
        Location { start: 0, end: 0 }
    }
}

/// The span of a token.
pub open spec fn tok_loc(t: TokenV) -> Location {
    Location { start: t.start, end: t.end }
}

/// An unexpected-end error.
pub open spec fn eof_err(ts: Seq<TokenV>) -> ParseErrorV {
    ParseErrorV::UnexpectedEof { location: eof_loc(ts) }
}

/// An unrecognized-token error with one expected item.
pub open spec fn unrec(t: TokenV, what: Seq<u8>) -> ParseErrorV {
    ParseErrorV::UnrecognizedToken { location: tok_loc(t), expected: seq![what] }
}

/// Parse a primary expression: a literal, a variable, a parenthesized
/// expression, or a function literal.
#[verifier::opaque]
pub open spec fn parse_primary_s(ts: Seq<TokenV>, i: int) -> Result<(ExprV, int), ParseErrorV>
    decreases ts.len() - i, 2nat,
{
    if i < 0 || i >= ts.len() {
        Result::Err(eof_err(ts))
    } else {
        let t = ts[i];
        match t.kind {
            TokKindV::KwNil => Result::Ok((ExprV::Nil { location: tok_loc(t) }, i + 1)),
            TokKindV::KwTrue => Result::Ok(
                (ExprV::Boolean { value: true, location: tok_loc(t) }, i + 1),
            ),
            TokKindV::KwFalse => Result::Ok(
                (ExprV::Boolean { value: false, location: tok_loc(t) }, i + 1),
            ),
            TokKindV::Num(bits) => Result::Ok(
                (ExprV::Number { value: bits, location: tok_loc(t) }, i + 1),
            ),
            TokKindV::Str(sv) => Result::Ok(
                (ExprV::String { value: sv, location: tok_loc(t) }, i + 1),
            ),
            TokKindV::Ident(name) => Result::Ok(
                (ExprV::Var { name, location: tok_loc(t) }, i + 1),
            ),
            TokKindV::LParen => match parse_expr_s(ts, i + 1) {
                Result::Ok((e, j)) => if j < ts.len() && (ts[j].kind matches TokKindV::RParen) {
                    Result::Ok((e, j + 1))
                } else if j < ts.len() {
                    Result::Err(unrec(ts[j], text::ascii_bytes(")"@)))
                } else {
                    Result::Err(eof_err(ts))
                },
                Result::Err(e) => Result::Err(e),
            },
            TokKindV::KwFun => if i + 1 < ts.len() && (ts[i + 1].kind matches TokKindV::LParen) {
                match parse_params_s(ts, i + 2) {
                    Result::Ok((params, j)) => if j > i && j < ts.len() && (ts[j].kind matches TokKindV::RParen) {
                        match parse_block_s(ts, j + 1) {
                            Result::Ok((body, k)) => if k > j && k <= ts.len() {
                                Result::Ok(
                                    (
                                        ExprV::Fun {
                                            params,
                                            body: Box::new(body),
                                            location: Location {
                                                start: t.start,
                                                end: ts[k - 1].end,
                                            },
                                        },
                                        k,
                                    ),
                                )
                            } else {
                                Result::Err(eof_err(ts))
                            },
                            Result::Err(e) => Result::Err(e),
                        }
                    } else if j < ts.len() {
                        Result::Err(unrec(ts[j], text::ascii_bytes(")"@)))
                    } else {
                        Result::Err(eof_err(ts))
                    },
                    Result::Err(e) => Result::Err(e),
                }
            } else if i + 1 < ts.len() {
                Result::Err(unrec(ts[i + 1], text::ascii_bytes("("@)))
            } else {
                Result::Err(eof_err(ts))
            },
            _ => Result::Err(unrec(t, text::ascii_bytes("expression"@))),
        }
    }
}

/// Parse a comma-separated parameter list, ending before `)`.
#[verifier::opaque]
pub open spec fn parse_params_s(ts: Seq<TokenV>, i: int) -> Result<(Seq<Seq<u8>>, int), ParseErrorV>
    decreases ts.len() - i, 1nat,
{
    if i < 0 || i >= ts.len() {
        Result::Err(eof_err(ts))
    } else {
        match ts[i].kind {
            TokKindV::RParen => Result::Ok((Seq::empty(), i)),
            TokKindV::Ident(name) => if i + 1 < ts.len() && (ts[i + 1].kind
                matches TokKindV::Comma) {
                match parse_params_s(ts, i + 2) {
                    Result::Ok((rest, j)) => Result::Ok((seq![name] + rest, j)),
                    Result::Err(e) => Result::Err(e),
                }
            } else {
                Result::Ok((seq![name], i + 1))
            },
            _ => Result::Err(unrec(ts[i], text::ascii_bytes("identifier"@))),
        }
    }
}

/// Parse a comma-separated argument list, ending before `)`.
#[verifier::opaque]
pub open spec fn parse_args_s(ts: Seq<TokenV>, i: int) -> Result<(Seq<ExprV>, int), ParseErrorV>
    decreases ts.len() - i, 10nat,
{
    if i < 0 || i >= ts.len() {
        Result::Err(eof_err(ts))
    } else if (ts[i].kind matches TokKindV::RParen) {
        Result::Ok((Seq::empty(), i))
    } else {
        match parse_expr_s(ts, i) {
            Result::Ok((e, j)) => if j > i {
                if j < ts.len() && (ts[j].kind matches TokKindV::Comma) {
                    match parse_args_s(ts, j + 1) {
                        Result::Ok((rest, k)) => Result::Ok((seq![e] + rest, k)),
                        Result::Err(er) => Result::Err(er),
                    }
                } else {
                    Result::Ok((seq![e], j))
                }
            } else {
                Result::Err(eof_err(ts))
            },
            Result::Err(er) => Result::Err(er),
        }
    }
}

/// Parse call suffixes: zero or more `( args )` applied to `callee`.
#[verifier::opaque]
pub open spec fn parse_call_tail_s(ts: Seq<TokenV>, callee: ExprV, i: int) -> Result<
    (ExprV, int),
    ParseErrorV,
>
    decreases ts.len() - i, 11nat,
{
    if 0 <= i && i < ts.len() && (ts[i].kind matches TokKindV::LParen) {
        match parse_args_s(ts, i + 1) {
            Result::Ok((args, j)) => if j >= i && j < ts.len() && (ts[j].kind matches TokKindV::RParen) {
                let call = ExprV::Call {
                    callee: Box::new(callee),
                    args,
                    location: Location { start: callee.loc().start, end: ts[j].end },
                };
                if j + 1 > i {
                    parse_call_tail_s(ts, call, j + 1)
                } else {
                    Result::Err(eof_err(ts))
                }
            } else if j < ts.len() {
                Result::Err(unrec(ts[j], text::ascii_bytes(")"@)))
            } else {
                Result::Err(eof_err(ts))
            },
            Result::Err(er) => Result::Err(er),
        }
    } else {
        Result::Ok((callee, i))
    }
}

/// Parse a call expression: a primary and its call suffixes.
#[verifier::opaque]
pub open spec fn parse_call_s(ts: Seq<TokenV>, i: int) -> Result<(ExprV, int), ParseErrorV>
    decreases ts.len() - i, 3nat,
{
    match parse_primary_s(ts, i) {
        Result::Ok((e, j)) => if j > i && j <= ts.len() {
            parse_call_tail_s(ts, e, j)
        } else {
            Result::Err(eof_err(ts))
        },
        Result::Err(er) => Result::Err(er),
    }
}

/// Parse a unary expression: `!` or `-` chains, then a call.
#[verifier::opaque]
pub open spec fn parse_unary_s(ts: Seq<TokenV>, i: int) -> Result<(ExprV, int), ParseErrorV>
    decreases ts.len() - i, 4nat,
{
    if 0 <= i && i < ts.len() && ((ts[i].kind matches TokKindV::Bang) || (ts[i].kind matches TokKindV::Minus)) {
        let op = if (ts[i].kind matches TokKindV::Bang) {
            UnaryOp::Invert
        } else {
            UnaryOp::Negate
        };
        match parse_unary_s(ts, i + 1) {
            Result::Ok((e, j)) => Result::Ok(
                (
                    ExprV::Unary {
                        op,
                        right: Box::new(e),
                        location: Location { start: ts[i].start, end: e.loc().end },
                    },
                    j,
                ),
            ),
            Result::Err(er) => Result::Err(er),
        }
    } else {
        parse_call_s(ts, i)
    }
}

/// The factor operator a token denotes, if any.
pub open spec fn factor_op(k: TokKindV) -> Option<BinaryOp> {
    match k {
        TokKindV::Star => Option::Some(BinaryOp::Mul),
        TokKindV::Slash => Option::Some(BinaryOp::Div),
        TokKindV::Percent => Option::Some(BinaryOp::Mod),
        _ => Option::None,
    }
}

/// The term operator a token denotes, if any.
pub open spec fn term_op(k: TokKindV) -> Option<BinaryOp> {
    match k {
        TokKindV::Plus => Option::Some(BinaryOp::Add),
        TokKindV::Minus => Option::Some(BinaryOp::Sub),
        _ => Option::None,
    }
}

/// The comparison operator a token denotes, if any.
pub open spec fn comparison_op(k: TokKindV) -> Option<BinaryOp> {
    match k {
        TokKindV::Lt => Option::Some(BinaryOp::Lt),
        TokKindV::Le => Option::Some(BinaryOp::Le),
        TokKindV::Gt => Option::Some(BinaryOp::Gt),
        TokKindV::Ge => Option::Some(BinaryOp::Ge),
        _ => Option::None,
    }
}

/// The equality operator a token denotes, if any.
pub open spec fn equality_op(k: TokKindV) -> Option<BinaryOp> {
    match k {
        TokKindV::EqEq => Option::Some(BinaryOp::Eq),
        TokKindV::BangEq => Option::Some(BinaryOp::Ne),
        _ => Option::None,
    }
}

/// Combine two operands under a binary operator, spanning both.
pub open spec fn mk_binary(l: ExprV, op: BinaryOp, r: ExprV) -> ExprV {
    ExprV::Binary {
        left: Box::new(l),
        op,
        right: Box::new(r),
        location: Location { start: l.loc().start, end: r.loc().end },
    }
}

/// Left-associated factor suffixes: `* / %` chains after `left`.
#[verifier::opaque]
pub open spec fn parse_factor_tail_s(ts: Seq<TokenV>, left: ExprV, i: int) -> Result<
    (ExprV, int),
    ParseErrorV,
>
    decreases ts.len() - i, 12nat,
{
    if 0 <= i && i < ts.len() && factor_op(ts[i].kind) is Some {
        let op = factor_op(ts[i].kind)->0;
        match parse_unary_s(ts, i + 1) {
            Result::Ok((r, j)) => if j > i && j <= ts.len() {
                parse_factor_tail_s(ts, mk_binary(left, op, r), j)
            } else {
                Result::Err(eof_err(ts))
            },
            Result::Err(er) => Result::Err(er),
        }
    } else {
        Result::Ok((left, i))
    }
}

/// Parse a factor: unary expressions under `* / %`.
#[verifier::opaque]
pub open spec fn parse_factor_s(ts: Seq<TokenV>, i: int) -> Result<(ExprV, int), ParseErrorV>
    decreases ts.len() - i, 5nat,
{
    match parse_unary_s(ts, i) {
        Result::Ok((e, j)) => if j > i && j <= ts.len() {
            parse_factor_tail_s(ts, e, j)
        } else {
            Result::Err(eof_err(ts))
        },
        Result::Err(er) => Result::Err(er),
    }
}

/// Left-associated term suffixes: `+ -` chains after `left`.
#[verifier::opaque]
pub open spec fn parse_term_tail_s(ts: Seq<TokenV>, left: ExprV, i: int) -> Result<
    (ExprV, int),
    ParseErrorV,
>
    decreases ts.len() - i, 13nat,
{
    if 0 <= i && i < ts.len() && term_op(ts[i].kind) is Some {
        let op = term_op(ts[i].kind)->0;
        match parse_factor_s(ts, i + 1) {
            Result::Ok((r, j)) => if j > i && j <= ts.len() {
                parse_term_tail_s(ts, mk_binary(left, op, r), j)
            } else {
                Result::Err(eof_err(ts))
            },
            Result::Err(er) => Result::Err(er),
        }
    } else {
        Result::Ok((left, i))
    }
}

/// Parse a term: factors under `+ -`.
#[verifier::opaque]
pub open spec fn parse_term_s(ts: Seq<TokenV>, i: int) -> Result<(ExprV, int), ParseErrorV>
    decreases ts.len() - i, 6nat,
{
    match parse_factor_s(ts, i) {
        Result::Ok((e, j)) => if j > i && j <= ts.len() {
            parse_term_tail_s(ts, e, j)
        } else {
            Result::Err(eof_err(ts))
        },
        Result::Err(er) => Result::Err(er),
    }
}

/// Left-associated comparison suffixes after `left`.
#[verifier::opaque]
pub open spec fn parse_comparison_tail_s(ts: Seq<TokenV>, left: ExprV, i: int) -> Result<
    (ExprV, int),
    ParseErrorV,
>
    decreases ts.len() - i, 14nat,
{
    if 0 <= i && i < ts.len() && comparison_op(ts[i].kind) is Some {
        let op = comparison_op(ts[i].kind)->0;
        match parse_term_s(ts, i + 1) {
            Result::Ok((r, j)) => if j > i && j <= ts.len() {
                parse_comparison_tail_s(ts, mk_binary(left, op, r), j)
            } else {
                Result::Err(eof_err(ts))
            },
            Result::Err(er) => Result::Err(er),
        }
    } else {
        Result::Ok((left, i))
    }
}

/// Parse a comparison: terms under `< <= > >=`.
#[verifier::opaque]
pub open spec fn parse_comparison_s(ts: Seq<TokenV>, i: int) -> Result<(ExprV, int), ParseErrorV>
    decreases ts.len() - i, 7nat,
{
    match parse_term_s(ts, i) {
        Result::Ok((e, j)) => if j > i && j <= ts.len() {
            parse_comparison_tail_s(ts, e, j)
        } else {
            Result::Err(eof_err(ts))
        },
        Result::Err(er) => Result::Err(er),
    }
}

/// Left-associated equality suffixes after `left`.
#[verifier::opaque]
pub open spec fn parse_equality_tail_s(ts: Seq<TokenV>, left: ExprV, i: int) -> Result<
    (ExprV, int),
    ParseErrorV,
>
    decreases ts.len() - i, 15nat,
{
    if 0 <= i && i < ts.len() && equality_op(ts[i].kind) is Some {
        let op = equality_op(ts[i].kind)->0;
        match parse_comparison_s(ts, i + 1) {
            Result::Ok((r, j)) => if j > i && j <= ts.len() {
                parse_equality_tail_s(ts, mk_binary(left, op, r), j)
            } else {
                Result::Err(eof_err(ts))
            },
            Result::Err(er) => Result::Err(er),
        }
    } else {
        Result::Ok((left, i))
    }
}

/// Parse an equality: comparisons under `== !=`.
#[verifier::opaque]
pub open spec fn parse_equality_s(ts: Seq<TokenV>, i: int) -> Result<(ExprV, int), ParseErrorV>
    decreases ts.len() - i, 8nat,
{
    match parse_comparison_s(ts, i) {
        Result::Ok((e, j)) => if j > i && j <= ts.len() {
            parse_equality_tail_s(ts, e, j)
        } else {
            Result::Err(eof_err(ts))
        },
        Result::Err(er) => Result::Err(er),
    }
}

/// Parse an expression: right-associative assignment over equality.
#[verifier::opaque]
pub open spec fn parse_expr_s(ts: Seq<TokenV>, i: int) -> Result<(ExprV, int), ParseErrorV>
    decreases ts.len() - i, 9nat,
{
    if 0 <= i && i + 1 < ts.len() && (ts[i].kind matches TokKindV::Ident(_)) && (ts[i + 1].kind
        matches TokKindV::Assign) {
        match ts[i].kind {
            TokKindV::Ident(name) => match parse_expr_s(ts, i + 2) {
                Result::Ok((rhs, j)) => Result::Ok(
                    (
                        ExprV::Assignment {
                            name,
                            rhs: Box::new(rhs),
                            location: Location { start: ts[i].start, end: rhs.loc().end },
                        },
                        j,
                    ),
                ),
                Result::Err(er) => Result::Err(er),
            },
            _ => parse_equality_s(ts, i),
        }
    } else {
        parse_equality_s(ts, i)
    }
}

/// Parse a `var` declaration: `var NAME ( = expr )? ;`, a missing
/// initialiser standing for nil.
#[verifier::opaque]
pub open spec fn parse_var_decl_s(ts: Seq<TokenV>, i: int) -> Result<(StmtV, int), ParseErrorV>
    decreases ts.len() - i, 15nat,
{
    if i < 0 || i >= ts.len() || !(ts[i].kind matches TokKindV::KwVar) {
        Result::Err(eof_err(ts))
    } else if i + 1 >= ts.len() {
        Result::Err(eof_err(ts))
    } else {
        match ts[i + 1].kind {
            TokKindV::Ident(name) => if i + 2 >= ts.len() {
                Result::Err(eof_err(ts))
            } else if (ts[i + 2].kind matches TokKindV::Assign) {
                match parse_expr_s(ts, i + 3) {
                    Result::Ok((e, j)) => if j < ts.len() && (ts[j].kind matches TokKindV::Semi) {
                        Result::Ok((StmtV::VarDecl(name, e), j + 1))
                    } else if j < ts.len() {
                        Result::Err(unrec(ts[j], text::ascii_bytes(";"@)))
                    } else {
                        Result::Err(eof_err(ts))
                    },
                    Result::Err(er) => Result::Err(er),
                }
            } else if (ts[i + 2].kind matches TokKindV::Semi) {
                Result::Ok(
                    (
                        StmtV::VarDecl(name, ExprV::Nil { location: tok_loc(ts[i + 1]) }),
                        i + 3,
                    ),
                )
            } else {
                Result::Err(unrec(ts[i + 2], text::ascii_bytes(";"@)))
            },
            _ => Result::Err(unrec(ts[i + 1], text::ascii_bytes("identifier"@))),
        }
    }
}

/// Parse the statements of a block or program, stopping before `}` or the
/// end.
#[verifier::opaque]
pub open spec fn parse_stmt_list_s(ts: Seq<TokenV>, i: int) -> Result<
    (Seq<StmtV>, int),
    ParseErrorV,
>
    decreases ts.len() - i, 17nat,
{
    if i < 0 || i >= ts.len() || (ts[i].kind matches TokKindV::RBrace) {
        Result::Ok((Seq::empty(), i))
    } else {
        match parse_stmt_s(ts, i) {
            Result::Ok((st, j)) => if j > i && j <= ts.len() {
                match parse_stmt_list_s(ts, j) {
                    Result::Ok((rest, k)) => Result::Ok((seq![st] + rest, k)),
                    Result::Err(er) => Result::Err(er),
                }
            } else {
                Result::Err(eof_err(ts))
            },
            Result::Err(er) => Result::Err(er),
        }
    }
}

/// Parse a braced block.
#[verifier::opaque]
pub open spec fn parse_block_s(ts: Seq<TokenV>, i: int) -> Result<(StmtV, int), ParseErrorV>
    decreases ts.len() - i, 0nat,
{
    if i < 0 || i >= ts.len() {
        Result::Err(eof_err(ts))
    } else if !(ts[i].kind matches TokKindV::LBrace) {
        Result::Err(unrec(ts[i], text::ascii_bytes("{"@)))
    } else {
        match parse_stmt_list_s(ts, i + 1) {
            Result::Ok((ss, j)) => if j < ts.len() && (ts[j].kind matches TokKindV::RBrace) {
                Result::Ok((StmtV::Block(ss), j + 1))
            } else if j < ts.len() {
                Result::Err(unrec(ts[j], text::ascii_bytes("}"@)))
            } else {
                Result::Err(eof_err(ts))
            },
            Result::Err(er) => Result::Err(er),
        }
    }
}

/// Parse one statement.
#[verifier::opaque]
pub open spec fn parse_stmt_s(ts: Seq<TokenV>, i: int) -> Result<(StmtV, int), ParseErrorV>
    decreases ts.len() - i, 16nat,
{
    if i < 0 || i >= ts.len() {
        Result::Err(eof_err(ts))
    } else {
        let t = ts[i];
        match t.kind {
            TokKindV::Semi => Result::Ok((StmtV::Empty, i + 1)),
            TokKindV::KwPrint => match parse_expr_s(ts, i + 1) {
                Result::Ok((e, j)) => if j < ts.len() && (ts[j].kind matches TokKindV::Semi) {
                    Result::Ok((StmtV::Print(e), j + 1))
                } else if j < ts.len() {
                    Result::Err(unrec(ts[j], text::ascii_bytes(";"@)))
                } else {
                    Result::Err(eof_err(ts))
                },
                Result::Err(er) => Result::Err(er),
            },
            TokKindV::KwAssert => match parse_expr_s(ts, i + 1) {
                Result::Ok((e, j)) => if j < ts.len() && (ts[j].kind matches TokKindV::Semi) {
                    Result::Ok((StmtV::Assert { expr: e, location: e.loc() }, j + 1))
                } else if j < ts.len() {
                    Result::Err(unrec(ts[j], text::ascii_bytes(";"@)))
                } else {
                    Result::Err(eof_err(ts))
                },
                Result::Err(er) => Result::Err(er),
            },
            TokKindV::KwVar => parse_var_decl_s(ts, i),
            TokKindV::KwFun => if i + 1 >= ts.len() {
                Result::Err(eof_err(ts))
            } else {
                match ts[i + 1].kind {
                    TokKindV::Ident(name) => if i + 2 < ts.len() && (ts[i + 2].kind
                        matches TokKindV::LParen) {
                        match parse_params_s(ts, i + 3) {
                            Result::Ok((ps, j)) => if j > i && j < ts.len() && (ts[j].kind
                                matches TokKindV::RParen) {
                                match parse_block_s(ts, j + 1) {
                                    Result::Ok((body, k)) => if k > j && k <= ts.len() {
                                        Result::Ok(
                                            (
                                                StmtV::FunDecl {
                                                    name,
                                                    params: ps,
                                                    body: Box::new(body),
                                                    location: Location {
                                                        start: t.start,
                                                        end: ts[k - 1].end,
                                                    },
                                                },
                                                k,
                                            ),
                                        )
                                    } else {
                                        Result::Err(eof_err(ts))
                                    },
                                    Result::Err(er) => Result::Err(er),
                                }
                            } else if j < ts.len() {
                                Result::Err(unrec(ts[j], text::ascii_bytes(")"@)))
                            } else {
                                Result::Err(eof_err(ts))
                            },
                            Result::Err(er) => Result::Err(er),
                        }
                    } else if i + 2 < ts.len() {
                        Result::Err(unrec(ts[i + 2], text::ascii_bytes("("@)))
                    } else {
                        Result::Err(eof_err(ts))
                    },
                    _ => Result::Err(unrec(ts[i + 1], text::ascii_bytes("identifier"@))),
                }
            },
            TokKindV::LBrace => parse_block_s(ts, i),
            TokKindV::KwIf => if i + 1 < ts.len() && (ts[i + 1].kind matches TokKindV::LParen) {
                match parse_expr_s(ts, i + 2) {
                    Result::Ok((cond, j)) => if j > i + 1 && j < ts.len() && (ts[j].kind
                        matches TokKindV::RParen) {
                        match parse_stmt_s(ts, j + 1) {
                            Result::Ok((th, k)) => if k > j {
                                if k < ts.len() && (ts[k].kind matches TokKindV::KwElse) {
                                    match parse_stmt_s(ts, k + 1) {
                                        Result::Ok((el, m)) => Result::Ok(
                                            (
                                                StmtV::If {
                                                    cond,
                                                    then: Box::new(th),
                                                    else_: Box::new(el),
                                                },
                                                m,
                                            ),
                                        ),
                                        Result::Err(er) => Result::Err(er),
                                    }
                                } else {
                                    Result::Ok(
                                        (
                                            StmtV::If {
                                                cond,
                                                then: Box::new(th),
                                                else_: Box::new(StmtV::Empty),
                                            },
                                            k,
                                        ),
                                    )
                                }
                            } else {
                                Result::Err(eof_err(ts))
                            },
                            Result::Err(er) => Result::Err(er),
                        }
                    } else if j < ts.len() {
                        Result::Err(unrec(ts[j], text::ascii_bytes(")"@)))
                    } else {
                        Result::Err(eof_err(ts))
                    },
                    Result::Err(er) => Result::Err(er),
                }
            } else if i + 1 < ts.len() {
                Result::Err(unrec(ts[i + 1], text::ascii_bytes("("@)))
            } else {
                Result::Err(eof_err(ts))
            },
            TokKindV::KwWhile => if i + 1 < ts.len() && (ts[i + 1].kind matches TokKindV::LParen) {
                match parse_expr_s(ts, i + 2) {
                    Result::Ok((cond, j)) => if j > i + 1 && j < ts.len() && (ts[j].kind
                        matches TokKindV::RParen) {
                        match parse_stmt_s(ts, j + 1) {
                            Result::Ok((body, k)) => Result::Ok(
                                (StmtV::While { cond, body: Box::new(body) }, k),
                            ),
                            Result::Err(er) => Result::Err(er),
                        }
                    } else if j < ts.len() {
                        Result::Err(unrec(ts[j], text::ascii_bytes(")"@)))
                    } else {
                        Result::Err(eof_err(ts))
                    },
                    Result::Err(er) => Result::Err(er),
                }
            } else if i + 1 < ts.len() {
                Result::Err(unrec(ts[i + 1], text::ascii_bytes("("@)))
            } else {
                Result::Err(eof_err(ts))
            },
            TokKindV::KwReturn => if i + 1 < ts.len() && (ts[i + 1].kind matches TokKindV::Semi) {
                Result::Ok((StmtV::Return(Option::None), i + 2))
            } else {
                match parse_expr_s(ts, i + 1) {
                    Result::Ok((e, j)) => if j < ts.len() && (ts[j].kind matches TokKindV::Semi) {
                        Result::Ok((StmtV::Return(Option::Some(e)), j + 1))
                    } else if j < ts.len() {
                        Result::Err(unrec(ts[j], text::ascii_bytes(";"@)))
                    } else {
                        Result::Err(eof_err(ts))
                    },
                    Result::Err(er) => Result::Err(er),
                }
            },
            TokKindV::KwFor => parse_for_s(ts, i),
            _ => match parse_expr_s(ts, i) {
                Result::Ok((e, j)) => if j < ts.len() && (ts[j].kind matches TokKindV::Semi) {
                    Result::Ok((StmtV::Expr(e), j + 1))
                } else if j < ts.len() {
                    Result::Err(unrec(ts[j], text::ascii_bytes(";"@)))
                } else {
                    Result::Err(eof_err(ts))
                },
                Result::Err(er) => Result::Err(er),
            },
        }
    }
}

/// Desugar at the spec level: `{ init; while (cond) { body; incr; } }`.
pub open spec fn for_desugar(init: StmtV, cond: ExprV, incr: ExprV, body: StmtV) -> StmtV {
    StmtV::Block(
        seq![
            init,
            StmtV::While {
                cond,
                body: Box::new(StmtV::Block(seq![body, StmtV::Expr(incr)])),
            },
        ],
    )
}

/// Parse a `for` statement and desugar it: the head's three parts default
/// to an empty initialiser, a true condition and a nil increment.
#[verifier::opaque]
pub open spec fn parse_for_s(ts: Seq<TokenV>, i: int) -> Result<(StmtV, int), ParseErrorV>
    decreases ts.len() - i, 15nat,
{
    if i < 0 || i >= ts.len() || !(ts[i].kind matches TokKindV::KwFor) {
        Result::Err(eof_err(ts))
    } else if !(i + 1 < ts.len() && (ts[i + 1].kind matches TokKindV::LParen)) {
        if i + 1 < ts.len() {
            Result::Err(unrec(ts[i + 1], text::ascii_bytes("("@)))
        } else {
            Result::Err(eof_err(ts))
        }
    } else {
        let floc = tok_loc(ts[i]);
        let init_r: Result<(StmtV, int), ParseErrorV> = if i + 2 < ts.len() && (ts[i + 2].kind
            matches TokKindV::Semi) {
            Result::Ok((StmtV::Empty, i + 3))
        } else if i + 2 < ts.len() && (ts[i + 2].kind matches TokKindV::KwVar) {
            parse_var_decl_s(ts, i + 2)
        } else {
            match parse_expr_s(ts, i + 2) {
                Result::Ok((e, j)) => if j < ts.len() && (ts[j].kind matches TokKindV::Semi) {
                    Result::Ok((StmtV::Expr(e), j + 1))
                } else if j < ts.len() {
                    Result::Err(unrec(ts[j], text::ascii_bytes(";"@)))
                } else {
                    Result::Err(eof_err(ts))
                },
                Result::Err(er) => Result::Err(er),
            }
        };
        match init_r {
            Result::Ok((init, j)) => if j <= i + 2 || j > ts.len() {
                Result::Err(eof_err(ts))
            } else {
                let cond_r: Result<(ExprV, int), ParseErrorV> = if j < ts.len() && (ts[j].kind
                    matches TokKindV::Semi) {
                    Result::Ok((ExprV::Boolean { value: true, location: floc }, j + 1))
                } else {
                    match parse_expr_s(ts, j) {
                        Result::Ok((c, k)) => if k < ts.len() && (ts[k].kind
                            matches TokKindV::Semi) {
                            Result::Ok((c, k + 1))
                        } else if k < ts.len() {
                            Result::Err(unrec(ts[k], text::ascii_bytes(";"@)))
                        } else {
                            Result::Err(eof_err(ts))
                        },
                        Result::Err(er) => Result::Err(er),
                    }
                };
                match cond_r {
                    Result::Ok((cond, k)) => if k <= j || k > ts.len() {
                        Result::Err(eof_err(ts))
                    } else {
                        let incr_r: Result<(ExprV, int), ParseErrorV> = if k < ts.len() && (
                        ts[k].kind matches TokKindV::RParen) {
                            Result::Ok((ExprV::Nil { location: floc }, k))
                        } else {
                            parse_expr_s(ts, k)
                        };
                        match incr_r {
                            Result::Ok((incr, m)) => if m >= k && m < ts.len() && (ts[m].kind
                                matches TokKindV::RParen) {
                                match parse_stmt_s(ts, m + 1) {
                                    Result::Ok((body, n)) => Result::Ok(
                                        (for_desugar(init, cond, incr, body), n),
                                    ),
                                    Result::Err(er) => Result::Err(er),
                                }
                            } else if m < ts.len() {
                                Result::Err(unrec(ts[m], text::ascii_bytes(")"@)))
                            } else {
                                Result::Err(eof_err(ts))
                            },
                            Result::Err(er) => Result::Err(er),
                        }
                    },
                    Result::Err(er) => Result::Err(er),
                }
            },
            Result::Err(er) => Result::Err(er),
        }
    }
}

/// Parse a whole program: statements to the end of the tokens.
#[verifier::opaque]
pub open spec fn parse_program_s(ts: Seq<TokenV>) -> Result<Seq<StmtV>, ParseErrorV> {
    match parse_stmt_list_s(ts, 0) {
        Result::Ok((ss, j)) => if j >= ts.len() {
            Result::Ok(ss)
        } else {
            Result::Err(unrec(ts[j], text::ascii_bytes("statement"@)))
        },
        Result::Err(er) => Result::Err(er),
    }
}

/// The expected-item text used in diagnostics.
fn sym(which: u8) -> (r: Vec<u8>)
    ensures
        r@ == sym_s(which),
{
    proof {
        reveal_strlit(";");
        assert(is_ascii_chars(";"@));
        reveal_strlit(")");
        assert(is_ascii_chars(")"@));
        reveal_strlit("(");
        assert(is_ascii_chars("("@));
        reveal_strlit("{");
        assert(is_ascii_chars("{"@));
        reveal_strlit("}");
        assert(is_ascii_chars("}"@));
        reveal_strlit("identifier");
        assert(is_ascii_chars("identifier"@));
        reveal_strlit("expression");
        assert(is_ascii_chars("expression"@));
        reveal_strlit("statement");
        assert(is_ascii_chars("statement"@));
        reveal_strlit("end of input");
        assert(is_ascii_chars("end of input"@));
    }
    if which == 0 {
        text::lit(";")
    } else if which == 1 {
        text::lit(")")
    } else if which == 2 {
        text::lit("(")
    } else if which == 3 {
        text::lit("{")
    } else if which == 4 {
        text::lit("}")
    } else if which == 5 {
        text::lit("identifier")
    } else if which == 6 {
        text::lit("expression")
    } else if which == 7 {
        text::lit("statement")
    } else {
        text::lit("end of input")
    }
}

/// The expected-item text, at the spec level.
pub open spec fn sym_s(which: u8) -> Seq<u8> {
    if which == 0 {
        text::ascii_bytes(";"@)
    } else if which == 1 {
        text::ascii_bytes(")"@)
    } else if which == 2 {
        text::ascii_bytes("("@)
    } else if which == 3 {
        text::ascii_bytes("{"@)
    } else if which == 4 {
        text::ascii_bytes("}"@)
    } else if which == 5 {
        text::ascii_bytes("identifier"@)
    } else if which == 6 {
        text::ascii_bytes("expression"@)
    } else if which == 7 {
        text::ascii_bytes("statement"@)
    } else {
        text::ascii_bytes("end of input"@)
    }
}

/// An unexpected-end error, at the executable level.
fn eof_error(ts: &Vec<Token>) -> (r: ParseError)
    ensures
        parse_err_matches(r, eof_err(view_tokens(ts@))),
{
    proof {
        lemma_view_tokens_index(ts@);
    }
    if ts.len() > 0 {
        let e = ts[ts.len() - 1].end;
        ParseError::UnexpectedEof { location: Location { start: e, end: e } }
    } else {
        ParseError::UnexpectedEof { location: Location { start: 0, end: 0 } }
    }
}

/// An unrecognized-token error with one expected item, at the executable
/// level.
fn unrec_error(ts: &Vec<Token>, i: usize, which: u8) -> (r: ParseError)
    requires
        i < ts@.len(),
    ensures
        parse_err_matches(r, unrec(view_tokens(ts@)[i as int], sym_s(which))),
{
    proof {
        lemma_view_tokens_index(ts@);
    }
    let what = sym(which);
    let mut expected: Vec<Vec<u8>> = Vec::new();
    expected.push(what);
    proof {
        assert(expected@[0].deep_view() =~= expected@[0]@);
        assert(expected.deep_view().len() == 1);
        assert(expected.deep_view()[0] == expected@[0].deep_view());
        assert(expected.deep_view() =~= seq![sym_s(which)]);
    }
    ParseError::UnrecognizedToken {
        location: Location { start: ts[i].start, end: ts[i].end },
        expected,
    }
}

/// Parse a primary expression.
#[verifier::rlimit(100)]
#[verifier::spinoff_prover]
fn parse_primary(ts: &Vec<Token>, i: usize) -> (r: Result<(Expr, usize), ParseError>)
    ensures
        ({
            let sr = parse_primary_s(view_tokens(ts@), i as int);
            match r {
                Result::Ok((e, j)) => sr == Result::<(ExprV, int), ParseErrorV>::Ok(
                    (e@, j as int),
                ),
                Result::Err(pe) => sr matches Result::Err(pv) && parse_err_matches(pe, pv),
            }
        }),
    decreases ts@.len() - i, 2nat,
{
    proof {
        reveal(parse_primary_s);
        lemma_view_tokens_index(ts@);
    }
    proof {
        lemma_view_tokens_index(ts@);
    }
    if i >= ts.len() {
        return Result::Err(eof_error(ts));
    }
    let start = ts[i].start;
    let end = ts[i].end;
    match &ts[i].kind {
        TokKind::KwNil => Result::Ok((Expr::Nil { location: Location { start, end } }, i + 1)),
        TokKind::KwTrue => Result::Ok(
            (Expr::Boolean { value: true, location: Location { start, end } }, i + 1),
        ),
        TokKind::KwFalse => Result::Ok(
            (Expr::Boolean { value: false, location: Location { start, end } }, i + 1),
        ),
        TokKind::Num(bits) => Result::Ok(
            (Expr::Number { value: *bits, location: Location { start, end } }, i + 1),
        ),
        TokKind::Str(sv) => Result::Ok(
            (
                Expr::String { value: text::clone_bytes(sv), location: Location { start, end } },
                i + 1,
            ),
        ),
        TokKind::Ident(name) => Result::Ok(
            (
                Expr::Var { name: text::clone_bytes(name), location: Location { start, end } },
                i + 1,
            ),
        ),
        TokKind::LParen => {
            match parse_expr(ts, i + 1) {
                Result::Ok((e, j)) => {
                    if j < ts.len() && matches!(&ts[j].kind, TokKind::RParen) {
                        Result::Ok((e, j + 1))
                    } else if j < ts.len() {
                        Result::Err(unrec_error(ts, j, 1))
                    } else {
                        Result::Err(eof_error(ts))
                    }
                }
                Result::Err(e) => Result::Err(e),
            }
        }
        TokKind::KwFun => {
            if i + 1 < ts.len() && matches!(&ts[i + 1].kind, TokKind::LParen) {
                match parse_params(ts, i + 2) {
                    Result::Ok((params, j)) => {
                        if j > i && j < ts.len() && matches!(&ts[j].kind, TokKind::RParen) {
                            match parse_block(ts, j + 1) {
                                Result::Ok((body, k)) => {
                                    if k > j && k <= ts.len() {
                                        Result::Ok(
                                            (
                                                Expr::Fun {
                                                    params,
                                                    body: Box::new(body),
                                                    location: Location {
                                                        start,
                                                        end: ts[k - 1].end,
                                                    },
                                                },
                                                k,
                                            ),
                                        )
                                    } else {
                                        Result::Err(eof_error(ts))
                                    }
                                }
                                Result::Err(e) => Result::Err(e),
                            }
                        } else if j < ts.len() {
                            Result::Err(unrec_error(ts, j, 1))
                        } else {
                            Result::Err(eof_error(ts))
                        }
                    }
                    Result::Err(e) => Result::Err(e),
                }
            } else if i + 1 < ts.len() {
                Result::Err(unrec_error(ts, i + 1, 2))
            } else {
                Result::Err(eof_error(ts))
            }
        }
        _ => Result::Err(unrec_error(ts, i, 6)),
    }
}

/// Parse a comma-separated parameter list, ending before `)`.
#[verifier::rlimit(100)]
#[verifier::spinoff_prover]
fn parse_params(ts: &Vec<Token>, i: usize) -> (r: Result<(Vec<Vec<u8>>, usize), ParseError>)
    ensures
        ({
            let sr = parse_params_s(view_tokens(ts@), i as int);
            match r {
                Result::Ok((ps, j)) => sr == Result::<(Seq<Seq<u8>>, int), ParseErrorV>::Ok(
                    (ps.deep_view(), j as int),
                ),
                Result::Err(pe) => sr matches Result::Err(pv) && parse_err_matches(pe, pv),
            }
        }),
    decreases ts@.len() - i, 1nat,
{
    proof {
        reveal(parse_params_s);
        lemma_view_tokens_index(ts@);
    }
    proof {
        lemma_view_tokens_index(ts@);
    }
    if i >= ts.len() {
        return Result::Err(eof_error(ts));
    }
    match &ts[i].kind {
        TokKind::RParen => {
            let out: Vec<Vec<u8>> = Vec::new();
            proof {
                assert(out.deep_view() =~= Seq::<Seq<u8>>::empty());
            }
            Result::Ok((out, i))
        }
        TokKind::Ident(name) => {
            if i + 1 < ts.len() && matches!(&ts[i + 1].kind, TokKind::Comma) {
                match parse_params(ts, i + 2) {
                    Result::Ok((rest, j)) => {
                        let ghost rest_dv = rest.deep_view();
                        let mut out = rest;
                        out.insert(0, text::clone_bytes(name));
                        proof {
                            assert forall|q: int| 0 <= q < out.deep_view().len() implies
                                out.deep_view()[q] == (seq![name@] + rest_dv)[q] by {
                                assert(out@[q].deep_view() =~= out@[q]@);
                            }
                            assert(out.deep_view() =~= seq![name@] + rest_dv);
                        }
                        Result::Ok((out, j))
                    }
                    Result::Err(e) => Result::Err(e),
                }
            } else {
                let mut out: Vec<Vec<u8>> = Vec::new();
                out.push(text::clone_bytes(name));
                proof {
                    assert(out@[0].deep_view() =~= out@[0]@);
                    assert(out.deep_view() =~= seq![name@]);
                }
                Result::Ok((out, i + 1))
            }
        }
        _ => Result::Err(unrec_error(ts, i, 5)),
    }
}

/// Parse a comma-separated argument list, ending before `)`.
#[verifier::rlimit(100)]
#[verifier::spinoff_prover]
fn parse_args(ts: &Vec<Token>, i: usize) -> (r: Result<(Vec<Expr>, usize), ParseError>)
    ensures
        ({
            let sr = parse_args_s(view_tokens(ts@), i as int);
            match r {
                Result::Ok((es, j)) => sr == Result::<(Seq<ExprV>, int), ParseErrorV>::Ok(
                    (ast::view_exprs(es@), j as int),
                ),
                Result::Err(pe) => sr matches Result::Err(pv) && parse_err_matches(pe, pv),
            }
        }),
    decreases ts@.len() - i, 10nat,
{
    proof {
        reveal(parse_args_s);
        lemma_view_tokens_index(ts@);
    }
    proof {
        lemma_view_tokens_index(ts@);
    }
    if i >= ts.len() {
        return Result::Err(eof_error(ts));
    }
    if matches!(&ts[i].kind, TokKind::RParen) {
        let out: Vec<Expr> = Vec::new();
        proof {
            assert(ast::view_exprs(out@) =~= Seq::<ExprV>::empty());
        }
        return Result::Ok((out, i));
    }
    match parse_expr(ts, i) {
        Result::Ok((e, j)) => {
            if j > i {
                if j < ts.len() && matches!(&ts[j].kind, TokKind::Comma) {
                    match parse_args(ts, j + 1) {
                        Result::Ok((rest, k)) => {
                            let ghost rest_seq = rest@;
                            let ghost rest_v = ast::view_exprs(rest_seq);
                            let ghost e_v = e@;
                            let mut out = rest;
                            out.insert(0, e);
                            proof {
                                ast::lemma_view_exprs_index(out@);
                                ast::lemma_view_exprs_index(rest_seq);
                                assert(ast::view_exprs(out@) =~= seq![e_v] + rest_v);
                            }
                            Result::Ok((out, k))
                        }
                        Result::Err(er) => Result::Err(er),
                    }
                } else {
                    let mut out: Vec<Expr> = Vec::new();
                    let ghost e_v = e@;
                    out.push(e);
                    proof {
                        ast::lemma_view_exprs_index(out@);
                        assert(ast::view_exprs(out@) =~= seq![e_v]);
                    }
                    Result::Ok((out, j))
                }
            } else {
                Result::Err(eof_error(ts))
            }
        }
        Result::Err(er) => Result::Err(er),
    }
}

/// Parse call suffixes applied to `callee`.
#[verifier::rlimit(100)]
#[verifier::spinoff_prover]
fn parse_call_tail(ts: &Vec<Token>, callee: Expr, i: usize) -> (r: Result<
    (Expr, usize),
    ParseError,
>)
    ensures
        ({
            let sr = parse_call_tail_s(view_tokens(ts@), callee@, i as int);
            match r {
                Result::Ok((e, j)) => sr == Result::<(ExprV, int), ParseErrorV>::Ok(
                    (e@, j as int),
                ),
                Result::Err(pe) => sr matches Result::Err(pv) && parse_err_matches(pe, pv),
            }
        }),
    decreases ts@.len() - i, 11nat,
{
    proof {
        reveal(parse_call_tail_s);
        lemma_view_tokens_index(ts@);
    }
    broadcast use crate::ast::lemma_view_loc;

    proof {
        lemma_view_tokens_index(ts@);
    }
    if i < ts.len() && matches!(&ts[i].kind, TokKind::LParen) {
        match parse_args(ts, i + 1) {
            Result::Ok((args, j)) => {
                if j >= i && j < ts.len() && matches!(&ts[j].kind, TokKind::RParen) {
                    let cloc = callee.location();
                    let call = Expr::Call {
                        callee: Box::new(callee),
                        args,
                        location: Location { start: cloc.start, end: ts[j].end },
                    };
                    if j + 1 > i {
                        parse_call_tail(ts, call, j + 1)
                    } else {
                        Result::Err(eof_error(ts))
                    }
                } else if j < ts.len() {
                    Result::Err(unrec_error(ts, j, 1))
                } else {
                    Result::Err(eof_error(ts))
                }
            }
            Result::Err(er) => Result::Err(er),
        }
    } else {
        Result::Ok((callee, i))
    }
}

/// Parse a call expression.
#[verifier::rlimit(100)]
#[verifier::spinoff_prover]
fn parse_call(ts: &Vec<Token>, i: usize) -> (r: Result<(Expr, usize), ParseError>)
    ensures
        ({
            let sr = parse_call_s(view_tokens(ts@), i as int);
            match r {
                Result::Ok((e, j)) => sr == Result::<(ExprV, int), ParseErrorV>::Ok(
                    (e@, j as int),
                ),
                Result::Err(pe) => sr matches Result::Err(pv) && parse_err_matches(pe, pv),
            }
        }),
    decreases ts@.len() - i, 3nat,
{
    proof {
        reveal(parse_call_s);
        lemma_view_tokens_index(ts@);
    }
    match parse_primary(ts, i) {
        Result::Ok((e, j)) => {
            if j > i && j <= ts.len() {
                parse_call_tail(ts, e, j)
            } else {
                Result::Err(eof_error(ts))
            }
        }
        Result::Err(er) => Result::Err(er),
    }
}

/// Parse a unary expression.
#[verifier::rlimit(100)]
#[verifier::spinoff_prover]
fn parse_unary(ts: &Vec<Token>, i: usize) -> (r: Result<(Expr, usize), ParseError>)
    ensures
        ({
            let sr = parse_unary_s(view_tokens(ts@), i as int);
            match r {
                Result::Ok((e, j)) => sr == Result::<(ExprV, int), ParseErrorV>::Ok(
                    (e@, j as int),
                ),
                Result::Err(pe) => sr matches Result::Err(pv) && parse_err_matches(pe, pv),
            }
        }),
    decreases ts@.len() - i, 4nat,
{
    proof {
        reveal(parse_unary_s);
        lemma_view_tokens_index(ts@);
    }
    broadcast use crate::ast::lemma_view_loc;

    proof {
        lemma_view_tokens_index(ts@);
    }
    if i < ts.len() && (matches!(&ts[i].kind, TokKind::Bang) || matches!(
        &ts[i].kind,
        TokKind::Minus,
    )) {
        let op = if matches!(&ts[i].kind, TokKind::Bang) {
            UnaryOp::Invert
        } else {
            UnaryOp::Negate
        };
        let start = ts[i].start;
        match parse_unary(ts, i + 1) {
            Result::Ok((e, j)) => {
                let eloc = e.location();
                Result::Ok(
                    (
                        Expr::Unary {
                            op,
                            right: Box::new(e),
                            location: Location { start, end: eloc.end },
                        },
                        j,
                    ),
                )
            }
            Result::Err(er) => Result::Err(er),
        }
    } else {
        parse_call(ts, i)
    }
}

/// Left-associated `* / %` suffixes after `left`.
#[verifier::rlimit(100)]
#[verifier::spinoff_prover]
fn parse_factor_tail(ts: &Vec<Token>, left: Expr, i: usize) -> (r: Result<
    (Expr, usize),
    ParseError,
>)
    ensures
        ({
            let sr = parse_factor_tail_s(view_tokens(ts@), left@, i as int);
            match r {
                Result::Ok((e, j)) => sr == Result::<(ExprV, int), ParseErrorV>::Ok(
                    (e@, j as int),
                ),
                Result::Err(pe) => sr matches Result::Err(pv) && parse_err_matches(pe, pv),
            }
        }),
    decreases ts@.len() - i, 12nat,
{
    proof {
        reveal(parse_factor_tail_s);
        lemma_view_tokens_index(ts@);
    }
    broadcast use crate::ast::lemma_view_loc;

    proof {
        lemma_view_tokens_index(ts@);
    }
    let op_found: Option<BinaryOp> = if i < ts.len() {
        match &ts[i].kind {
            TokKind::Star => Option::Some(BinaryOp::Mul),
            TokKind::Slash => Option::Some(BinaryOp::Div),
            TokKind::Percent => Option::Some(BinaryOp::Mod),
            _ => Option::None,
        }
    } else {
        Option::None
    };
    match op_found {
        Option::Some(op) => {
            proof {
                assert(factor_op(view_tokens(ts@)[i as int].kind) == Option::Some(op));
            }
            match parse_unary(ts, i + 1) {
                Result::Ok((rv, j)) => {
                    if j > i && j <= ts.len() {
                        let lloc = left.location();
                        let rloc = rv.location();
                        let combined = Expr::Binary {
                            left: Box::new(left),
                            op,
                            right: Box::new(rv),
                            location: Location { start: lloc.start, end: rloc.end },
                        };
                        parse_factor_tail(ts, combined, j)
                    } else {
                        Result::Err(eof_error(ts))
                    }
                }
                Result::Err(er) => Result::Err(er),
            }
        }
        Option::None => {
            proof {
                if i < ts@.len() {
                    assert(factor_op(view_tokens(ts@)[i as int].kind) is None);
                }
            }
            Result::Ok((left, i))
        }
    }
}

/// Parse a `* / %` level expression.
#[verifier::rlimit(100)]
#[verifier::spinoff_prover]
fn parse_factor(ts: &Vec<Token>, i: usize) -> (r: Result<(Expr, usize), ParseError>)
    ensures
        ({
            let sr = parse_factor_s(view_tokens(ts@), i as int);
            match r {
                Result::Ok((e, j)) => sr == Result::<(ExprV, int), ParseErrorV>::Ok(
                    (e@, j as int),
                ),
                Result::Err(pe) => sr matches Result::Err(pv) && parse_err_matches(pe, pv),
            }
        }),
    decreases ts@.len() - i, 5nat,
{
    proof {
        reveal(parse_factor_s);
        lemma_view_tokens_index(ts@);
    }
    match parse_unary(ts, i) {
        Result::Ok((e, j)) => {
            if j > i && j <= ts.len() {
                parse_factor_tail(ts, e, j)
            } else {
                Result::Err(eof_error(ts))
            }
        }
        Result::Err(er) => Result::Err(er),
    }
}

/// Left-associated `+ -` suffixes after `left`.
#[verifier::rlimit(100)]
#[verifier::spinoff_prover]
fn parse_term_tail(ts: &Vec<Token>, left: Expr, i: usize) -> (r: Result<
    (Expr, usize),
    ParseError,
>)
    ensures
        ({
            let sr = parse_term_tail_s(view_tokens(ts@), left@, i as int);
            match r {
                Result::Ok((e, j)) => sr == Result::<(ExprV, int), ParseErrorV>::Ok(
                    (e@, j as int),
                ),
                Result::Err(pe) => sr matches Result::Err(pv) && parse_err_matches(pe, pv),
            }
        }),
    decreases ts@.len() - i, 13nat,
{
    proof {
        reveal(parse_term_tail_s);
        lemma_view_tokens_index(ts@);
    }
    broadcast use crate::ast::lemma_view_loc;

    proof {
        lemma_view_tokens_index(ts@);
    }
    let op_found: Option<BinaryOp> = if i < ts.len() {
        match &ts[i].kind {
            TokKind::Plus => Option::Some(BinaryOp::Add),
            TokKind::Minus => Option::Some(BinaryOp::Sub),
            _ => Option::None,
        }
    } else {
        Option::None
    };
    match op_found {
        Option::Some(op) => {
            proof {
                assert(term_op(view_tokens(ts@)[i as int].kind) == Option::Some(op));
            }
            match parse_factor(ts, i + 1) {
                Result::Ok((rv, j)) => {
                    if j > i && j <= ts.len() {
                        let lloc = left.location();
                        let rloc = rv.location();
                        let combined = Expr::Binary {
                            left: Box::new(left),
                            op,
                            right: Box::new(rv),
                            location: Location { start: lloc.start, end: rloc.end },
                        };
                        parse_term_tail(ts, combined, j)
                    } else {
                        Result::Err(eof_error(ts))
                    }
                }
                Result::Err(er) => Result::Err(er),
            }
        }
        Option::None => {
            proof {
                if i < ts@.len() {
                    assert(term_op(view_tokens(ts@)[i as int].kind) is None);
                }
            }
            Result::Ok((left, i))
        }
    }
}

/// Parse a `+ -` level expression.
#[verifier::rlimit(100)]
#[verifier::spinoff_prover]
fn parse_term(ts: &Vec<Token>, i: usize) -> (r: Result<(Expr, usize), ParseError>)
    ensures
        ({
            let sr = parse_term_s(view_tokens(ts@), i as int);
            match r {
                Result::Ok((e, j)) => sr == Result::<(ExprV, int), ParseErrorV>::Ok(
                    (e@, j as int),
                ),
                Result::Err(pe) => sr matches Result::Err(pv) && parse_err_matches(pe, pv),
            }
        }),
    decreases ts@.len() - i, 6nat,
{
    proof {
        reveal(parse_term_s);
        lemma_view_tokens_index(ts@);
    }
    match parse_factor(ts, i) {
        Result::Ok((e, j)) => {
            if j > i && j <= ts.len() {
                parse_term_tail(ts, e, j)
            } else {
                Result::Err(eof_error(ts))
            }
        }
        Result::Err(er) => Result::Err(er),
    }
}

/// Left-associated ordering suffixes after `left`.
#[verifier::rlimit(100)]
#[verifier::spinoff_prover]
fn parse_comparison_tail(ts: &Vec<Token>, left: Expr, i: usize) -> (r: Result<
    (Expr, usize),
    ParseError,
>)
    ensures
        ({
            let sr = parse_comparison_tail_s(view_tokens(ts@), left@, i as int);
            match r {
                Result::Ok((e, j)) => sr == Result::<(ExprV, int), ParseErrorV>::Ok(
                    (e@, j as int),
                ),
                Result::Err(pe) => sr matches Result::Err(pv) && parse_err_matches(pe, pv),
            }
        }),
    decreases ts@.len() - i, 14nat,
{
    proof {
        reveal(parse_comparison_tail_s);
        lemma_view_tokens_index(ts@);
    }
    broadcast use crate::ast::lemma_view_loc;

    proof {
        lemma_view_tokens_index(ts@);
    }
    let op_found: Option<BinaryOp> = if i < ts.len() {
        match &ts[i].kind {
            TokKind::Lt => Option::Some(BinaryOp::Lt),
            TokKind::Le => Option::Some(BinaryOp::Le),
            TokKind::Gt => Option::Some(BinaryOp::Gt),
            TokKind::Ge => Option::Some(BinaryOp::Ge),
            _ => Option::None,
        }
    } else {
        Option::None
    };
    match op_found {
        Option::Some(op) => {
            proof {
                assert(comparison_op(view_tokens(ts@)[i as int].kind) == Option::Some(op));
            }
            match parse_term(ts, i + 1) {
                Result::Ok((rv, j)) => {
                    if j > i && j <= ts.len() {
                        let lloc = left.location();
                        let rloc = rv.location();
                        let combined = Expr::Binary {
                            left: Box::new(left),
                            op,
                            right: Box::new(rv),
                            location: Location { start: lloc.start, end: rloc.end },
                        };
                        parse_comparison_tail(ts, combined, j)
                    } else {
                        Result::Err(eof_error(ts))
                    }
                }
                Result::Err(er) => Result::Err(er),
            }
        }
        Option::None => {
            proof {
                if i < ts@.len() {
                    assert(comparison_op(view_tokens(ts@)[i as int].kind) is None);
                }
            }
            Result::Ok((left, i))
        }
    }
}

/// Parse a ordering level expression.
#[verifier::rlimit(100)]
#[verifier::spinoff_prover]
fn parse_comparison(ts: &Vec<Token>, i: usize) -> (r: Result<(Expr, usize), ParseError>)
    ensures
        ({
            let sr = parse_comparison_s(view_tokens(ts@), i as int);
            match r {
                Result::Ok((e, j)) => sr == Result::<(ExprV, int), ParseErrorV>::Ok(
                    (e@, j as int),
                ),
                Result::Err(pe) => sr matches Result::Err(pv) && parse_err_matches(pe, pv),
            }
        }),
    decreases ts@.len() - i, 7nat,
{
    proof {
        reveal(parse_comparison_s);
        lemma_view_tokens_index(ts@);
    }
    match parse_term(ts, i) {
        Result::Ok((e, j)) => {
            if j > i && j <= ts.len() {
                parse_comparison_tail(ts, e, j)
            } else {
                Result::Err(eof_error(ts))
            }
        }
        Result::Err(er) => Result::Err(er),
    }
}

/// Left-associated `== !=` suffixes after `left`.
#[verifier::rlimit(100)]
#[verifier::spinoff_prover]
fn parse_equality_tail(ts: &Vec<Token>, left: Expr, i: usize) -> (r: Result<
    (Expr, usize),
    ParseError,
>)
    ensures
        ({
            let sr = parse_equality_tail_s(view_tokens(ts@), left@, i as int);
            match r {
                Result::Ok((e, j)) => sr == Result::<(ExprV, int), ParseErrorV>::Ok(
                    (e@, j as int),
                ),
                Result::Err(pe) => sr matches Result::Err(pv) && parse_err_matches(pe, pv),
            }
        }),
    decreases ts@.len() - i, 15nat,
{
    proof {
        reveal(parse_equality_tail_s);
        lemma_view_tokens_index(ts@);
    }
    broadcast use crate::ast::lemma_view_loc;

    proof {
        lemma_view_tokens_index(ts@);
    }
    let op_found: Option<BinaryOp> = if i < ts.len() {
        match &ts[i].kind {
            TokKind::EqEq => Option::Some(BinaryOp::Eq),
            TokKind::BangEq => Option::Some(BinaryOp::Ne),
            _ => Option::None,
        }
    } else {
        Option::None
    };
    match op_found {
        Option::Some(op) => {
            proof {
                assert(equality_op(view_tokens(ts@)[i as int].kind) == Option::Some(op));
            }
            match parse_comparison(ts, i + 1) {
                Result::Ok((rv, j)) => {
                    if j > i && j <= ts.len() {
                        let lloc = left.location();
                        let rloc = rv.location();
                        let combined = Expr::Binary {
                            left: Box::new(left),
                            op,
                            right: Box::new(rv),
                            location: Location { start: lloc.start, end: rloc.end },
                        };
                        parse_equality_tail(ts, combined, j)
                    } else {
                        Result::Err(eof_error(ts))
                    }
                }
                Result::Err(er) => Result::Err(er),
            }
        }
        Option::None => {
            proof {
                if i < ts@.len() {
                    assert(equality_op(view_tokens(ts@)[i as int].kind) is None);
                }
            }
            Result::Ok((left, i))
        }
    }
}

/// Parse a `== !=` level expression.
#[verifier::rlimit(100)]
#[verifier::spinoff_prover]
fn parse_equality(ts: &Vec<Token>, i: usize) -> (r: Result<(Expr, usize), ParseError>)
    ensures
        ({
            let sr = parse_equality_s(view_tokens(ts@), i as int);
            match r {
                Result::Ok((e, j)) => sr == Result::<(ExprV, int), ParseErrorV>::Ok(
                    (e@, j as int),
                ),
                Result::Err(pe) => sr matches Result::Err(pv) && parse_err_matches(pe, pv),
            }
        }),
    decreases ts@.len() - i, 8nat,
{
    proof {
        reveal(parse_equality_s);
        lemma_view_tokens_index(ts@);
    }
    match parse_comparison(ts, i) {
        Result::Ok((e, j)) => {
            if j > i && j <= ts.len() {
                parse_equality_tail(ts, e, j)
            } else {
                Result::Err(eof_error(ts))
            }
        }
        Result::Err(er) => Result::Err(er),
    }
}

/// Parse an expression: right-associative assignment over equality.
#[verifier::rlimit(100)]
#[verifier::spinoff_prover]
fn parse_expr(ts: &Vec<Token>, i: usize) -> (r: Result<(Expr, usize), ParseError>)
    ensures
        ({
            let sr = parse_expr_s(view_tokens(ts@), i as int);
            match r {
                Result::Ok((e, j)) => sr == Result::<(ExprV, int), ParseErrorV>::Ok(
                    (e@, j as int),
                ),
                Result::Err(pe) => sr matches Result::Err(pv) && parse_err_matches(pe, pv),
            }
        }),
    decreases ts@.len() - i, 9nat,
{
    proof {
        reveal(parse_expr_s);
        lemma_view_tokens_index(ts@);
    }
    broadcast use crate::ast::lemma_view_loc;

    proof {
        lemma_view_tokens_index(ts@);
    }
    if i < ts.len() && i + 1 < ts.len() && matches!(&ts[i].kind, TokKind::Ident(_)) && matches!(
        &ts[i + 1].kind,
        TokKind::Assign,
    ) {
        match &ts[i].kind {
            TokKind::Ident(name) => {
                let start = ts[i].start;
                let cname = text::clone_bytes(name);
                match parse_expr(ts, i + 2) {
                    Result::Ok((rhs, j)) => {
                        let rloc = rhs.location();
                        Result::Ok(
                            (
                                Expr::Assignment {
                                    name: cname,
                                    rhs: Box::new(rhs),
                                    location: Location { start, end: rloc.end },
                                },
                                j,
                            ),
                        )
                    }
                    Result::Err(er) => Result::Err(er),
                }
            }
            _ => parse_equality(ts, i),
        }
    } else {
        parse_equality(ts, i)
    }
}

/// Parse a `var` declaration.
#[verifier::rlimit(100)]
#[verifier::spinoff_prover]
fn parse_var_decl(ts: &Vec<Token>, i: usize) -> (r: Result<(Stmt, usize), ParseError>)
    ensures
        ({
            let sr = parse_var_decl_s(view_tokens(ts@), i as int);
            match r {
                Result::Ok((st, j)) => sr == Result::<(StmtV, int), ParseErrorV>::Ok(
                    (st@, j as int),
                ),
                Result::Err(pe) => sr matches Result::Err(pv) && parse_err_matches(pe, pv),
            }
        }),
    decreases ts@.len() - i, 15nat,
{
    proof {
        reveal(parse_var_decl_s);
        lemma_view_tokens_index(ts@);
    }
    proof {
        lemma_view_tokens_index(ts@);
    }
    if i >= ts.len() || !matches!(&ts[i].kind, TokKind::KwVar) {
        return Result::Err(eof_error(ts));
    }
    if i + 1 >= ts.len() {
        return Result::Err(eof_error(ts));
    }
    match &ts[i + 1].kind {
        TokKind::Ident(name) => {
            let cname = text::clone_bytes(name);
            if i + 2 >= ts.len() {
                Result::Err(eof_error(ts))
            } else if matches!(&ts[i + 2].kind, TokKind::Assign) {
                match parse_expr(ts, i + 3) {
                    Result::Ok((e, j)) => {
                        if j < ts.len() && matches!(&ts[j].kind, TokKind::Semi) {
                            Result::Ok((Stmt::VarDecl(cname, e), j + 1))
                        } else if j < ts.len() {
                            Result::Err(unrec_error(ts, j, 0))
                        } else {
                            Result::Err(eof_error(ts))
                        }
                    }
                    Result::Err(er) => Result::Err(er),
                }
            } else if matches!(&ts[i + 2].kind, TokKind::Semi) {
                let loc = Location { start: ts[i + 1].start, end: ts[i + 1].end };
                proof {
                    assert(ast::view_expr(Expr::Nil { location: loc }) == (ExprV::Nil {
                        location: loc,
                    }));
                }
                Result::Ok((Stmt::VarDecl(cname, Expr::Nil { location: loc }), i + 3))
            } else {
                Result::Err(unrec_error(ts, i + 2, 0))
            }
        }
        _ => Result::Err(unrec_error(ts, i + 1, 5)),
    }
}

/// Parse the statements of a block or program.
#[verifier::rlimit(100)]
#[verifier::spinoff_prover]
fn parse_stmt_list(ts: &Vec<Token>, i: usize) -> (r: Result<(Vec<Stmt>, usize), ParseError>)
    ensures
        ({
            let sr = parse_stmt_list_s(view_tokens(ts@), i as int);
            match r {
                Result::Ok((ss, j)) => sr == Result::<(Seq<StmtV>, int), ParseErrorV>::Ok(
                    (ast::view_stmts(ss@), j as int),
                ),
                Result::Err(pe) => sr matches Result::Err(pv) && parse_err_matches(pe, pv),
            }
        }),
    decreases ts@.len() - i, 17nat,
{
    proof {
        reveal(parse_stmt_list_s);
        lemma_view_tokens_index(ts@);
    }
    proof {
        lemma_view_tokens_index(ts@);
    }
    if i >= ts.len() || matches!(&ts[i].kind, TokKind::RBrace) {
        let out: Vec<Stmt> = Vec::new();
        proof {
            assert(ast::view_stmts(out@) =~= Seq::<StmtV>::empty());
        }
        return Result::Ok((out, i));
    }
    match parse_stmt(ts, i) {
        Result::Ok((st, j)) => {
            if j > i && j <= ts.len() {
                match parse_stmt_list(ts, j) {
                    Result::Ok((rest, k)) => {
                        let ghost rest_seq = rest@;
                        let ghost rest_v = ast::view_stmts(rest_seq);
                        let ghost st_v = st@;
                        let mut out = rest;
                        out.insert(0, st);
                        proof {
                            ast::lemma_view_stmts_index(out@);
                            ast::lemma_view_stmts_index(rest_seq);
                            assert(ast::view_stmts(out@) =~= seq![st_v] + rest_v);
                        }
                        Result::Ok((out, k))
                    }
                    Result::Err(er) => Result::Err(er),
                }
            } else {
                Result::Err(eof_error(ts))
            }
        }
        Result::Err(er) => Result::Err(er),
    }
}

/// Parse a braced block.
#[verifier::rlimit(100)]
#[verifier::spinoff_prover]
fn parse_block(ts: &Vec<Token>, i: usize) -> (r: Result<(Stmt, usize), ParseError>)
    ensures
        ({
            let sr = parse_block_s(view_tokens(ts@), i as int);
            match r {
                Result::Ok((st, j)) => sr == Result::<(StmtV, int), ParseErrorV>::Ok(
                    (st@, j as int),
                ),
                Result::Err(pe) => sr matches Result::Err(pv) && parse_err_matches(pe, pv),
            }
        }),
    decreases ts@.len() - i, 0nat,
{
    proof {
        reveal(parse_block_s);
        lemma_view_tokens_index(ts@);
    }
    proof {
        lemma_view_tokens_index(ts@);
    }
    if i >= ts.len() {
        return Result::Err(eof_error(ts));
    }
    if !matches!(&ts[i].kind, TokKind::LBrace) {
        return Result::Err(unrec_error(ts, i, 3));
    }
    match parse_stmt_list(ts, i + 1) {
        Result::Ok((ss, j)) => {
            if j < ts.len() && matches!(&ts[j].kind, TokKind::RBrace) {
                Result::Ok((Stmt::Block(ss), j + 1))
            } else if j < ts.len() {
                Result::Err(unrec_error(ts, j, 4))
            } else {
                Result::Err(eof_error(ts))
            }
        }
        Result::Err(er) => Result::Err(er),
    }
}

/// Parse one statement.
#[verifier::rlimit(100)]
#[verifier::spinoff_prover]
fn parse_stmt(ts: &Vec<Token>, i: usize) -> (r: Result<(Stmt, usize), ParseError>)
    ensures
        ({
            let sr = parse_stmt_s(view_tokens(ts@), i as int);
            match r {
                Result::Ok((st, j)) => sr == Result::<(StmtV, int), ParseErrorV>::Ok(
                    (st@, j as int),
                ),
                Result::Err(pe) => sr matches Result::Err(pv) && parse_err_matches(pe, pv),
            }
        }),
    decreases ts@.len() - i, 16nat,
{
    proof {
        reveal(parse_stmt_s);
        lemma_view_tokens_index(ts@);
    }
    broadcast use crate::ast::lemma_view_loc;

    proof {
        lemma_view_tokens_index(ts@);
    }
    if i >= ts.len() {
        return Result::Err(eof_error(ts));
    }
    let start = ts[i].start;
    match &ts[i].kind {
        TokKind::Semi => Result::Ok((Stmt::Empty, i + 1)),
        TokKind::KwPrint => {
            match parse_expr(ts, i + 1) {
                Result::Ok((e, j)) => {
                    if j < ts.len() && matches!(&ts[j].kind, TokKind::Semi) {
                        Result::Ok((Stmt::Print(e), j + 1))
                    } else if j < ts.len() {
                        Result::Err(unrec_error(ts, j, 0))
                    } else {
                        Result::Err(eof_error(ts))
                    }
                }
                Result::Err(er) => Result::Err(er),
            }
        }
        TokKind::KwAssert => {
            match parse_expr(ts, i + 1) {
                Result::Ok((e, j)) => {
                    if j < ts.len() && matches!(&ts[j].kind, TokKind::Semi) {
                        let eloc = e.location();
                        Result::Ok((Stmt::Assert { expr: e, location: eloc }, j + 1))
                    } else if j < ts.len() {
                        Result::Err(unrec_error(ts, j, 0))
                    } else {
                        Result::Err(eof_error(ts))
                    }
                }
                Result::Err(er) => Result::Err(er),
            }
        }
        TokKind::KwVar => parse_var_decl(ts, i),
        TokKind::KwFun => {
            if i + 1 >= ts.len() {
                return Result::Err(eof_error(ts));
            }
            match &ts[i + 1].kind {
                TokKind::Ident(name) => {
                    let cname = text::clone_bytes(name);
                    if i + 2 < ts.len() && matches!(&ts[i + 2].kind, TokKind::LParen) {
                        match parse_params(ts, i + 3) {
                            Result::Ok((ps, j)) => {
                                if j > i && j < ts.len() && matches!(&ts[j].kind, TokKind::RParen) {
                                    match parse_block(ts, j + 1) {
                                        Result::Ok((body, k)) => {
                                            if k > j && k <= ts.len() {
                                                Result::Ok(
                                                    (
                                                        Stmt::FunDecl {
                                                            name: cname,
                                                            params: ps,
                                                            body: Box::new(body),
                                                            location: Location {
                                                                start,
                                                                end: ts[k - 1].end,
                                                            },
                                                        },
                                                        k,
                                                    ),
                                                )
                                            } else {
                                                Result::Err(eof_error(ts))
                                            }
                                        }
                                        Result::Err(er) => Result::Err(er),
                                    }
                                } else if j < ts.len() {
                                    Result::Err(unrec_error(ts, j, 1))
                                } else {
                                    Result::Err(eof_error(ts))
                                }
                            }
                            Result::Err(er) => Result::Err(er),
                        }
                    } else if i + 2 < ts.len() {
                        Result::Err(unrec_error(ts, i + 2, 2))
                    } else {
                        Result::Err(eof_error(ts))
                    }
                }
                _ => Result::Err(unrec_error(ts, i + 1, 5)),
            }
        }
        TokKind::LBrace => parse_block(ts, i),
        TokKind::KwIf => {
            if i + 1 < ts.len() && matches!(&ts[i + 1].kind, TokKind::LParen) {
                match parse_expr(ts, i + 2) {
                    Result::Ok((cond, j)) => {
                        if j > i + 1 && j < ts.len() && matches!(&ts[j].kind, TokKind::RParen) {
                            match parse_stmt(ts, j + 1) {
                                Result::Ok((th, k)) => {
                                    if k > j {
                                        if k < ts.len() && matches!(&ts[k].kind, TokKind::KwElse) {
                                            match parse_stmt(ts, k + 1) {
                                                Result::Ok((el, m)) => Result::Ok(
                                                    (
                                                        Stmt::If {
                                                            cond,
                                                            then: Box::new(th),
                                                            else_: Box::new(el),
                                                        },
                                                        m,
                                                    ),
                                                ),
                                                Result::Err(er) => Result::Err(er),
                                            }
                                        } else {
                                            proof {
                                                assert(ast::view_stmt(Stmt::Empty)
                                                    == StmtV::Empty);
                                            }
                                            Result::Ok(
                                                (
                                                    Stmt::If {
                                                        cond,
                                                        then: Box::new(th),
                                                        else_: Box::new(Stmt::Empty),
                                                    },
                                                    k,
                                                ),
                                            )
                                        }
                                    } else {
                                        Result::Err(eof_error(ts))
                                    }
                                }
                                Result::Err(er) => Result::Err(er),
                            }
                        } else if j < ts.len() {
                            Result::Err(unrec_error(ts, j, 1))
                        } else {
                            Result::Err(eof_error(ts))
                        }
                    }
                    Result::Err(er) => Result::Err(er),
                }
            } else if i + 1 < ts.len() {
                Result::Err(unrec_error(ts, i + 1, 2))
            } else {
                Result::Err(eof_error(ts))
            }
        }
        TokKind::KwWhile => {
            if i + 1 < ts.len() && matches!(&ts[i + 1].kind, TokKind::LParen) {
                match parse_expr(ts, i + 2) {
                    Result::Ok((cond, j)) => {
                        if j > i + 1 && j < ts.len() && matches!(&ts[j].kind, TokKind::RParen) {
                            match parse_stmt(ts, j + 1) {
                                Result::Ok((body, k)) => Result::Ok(
                                    (Stmt::While { cond, body: Box::new(body) }, k),
                                ),
                                Result::Err(er) => Result::Err(er),
                            }
                        } else if j < ts.len() {
                            Result::Err(unrec_error(ts, j, 1))
                        } else {
                            Result::Err(eof_error(ts))
                        }
                    }
                    Result::Err(er) => Result::Err(er),
                }
            } else if i + 1 < ts.len() {
                Result::Err(unrec_error(ts, i + 1, 2))
            } else {
                Result::Err(eof_error(ts))
            }
        }
        TokKind::KwReturn => {
            if i + 1 < ts.len() && matches!(&ts[i + 1].kind, TokKind::Semi) {
                Result::Ok((Stmt::Return(Option::None), i + 2))
            } else {
                match parse_expr(ts, i + 1) {
                    Result::Ok((e, j)) => {
                        if j < ts.len() && matches!(&ts[j].kind, TokKind::Semi) {
                            Result::Ok((Stmt::Return(Option::Some(e)), j + 1))
                        } else if j < ts.len() {
                            Result::Err(unrec_error(ts, j, 0))
                        } else {
                            Result::Err(eof_error(ts))
                        }
                    }
                    Result::Err(er) => Result::Err(er),
                }
            }
        }
        TokKind::KwFor => parse_for(ts, i),
        _ => {
            match parse_expr(ts, i) {
                Result::Ok((e, j)) => {
                    if j < ts.len() && matches!(&ts[j].kind, TokKind::Semi) {
                        Result::Ok((Stmt::Expr(e), j + 1))
                    } else if j < ts.len() {
                        Result::Err(unrec_error(ts, j, 0))
                    } else {
                        Result::Err(eof_error(ts))
                    }
                }
                Result::Err(er) => Result::Err(er),
            }
        }
    }
}

/// Parse a `for` statement and desugar it.
#[verifier::rlimit(100)]
#[verifier::spinoff_prover]
fn parse_for(ts: &Vec<Token>, i: usize) -> (r: Result<(Stmt, usize), ParseError>)
    ensures
        ({
            let sr = parse_for_s(view_tokens(ts@), i as int);
            match r {
                Result::Ok((st, j)) => sr == Result::<(StmtV, int), ParseErrorV>::Ok(
                    (st@, j as int),
                ),
                Result::Err(pe) => sr matches Result::Err(pv) && parse_err_matches(pe, pv),
            }
        }),
    decreases ts@.len() - i, 15nat,
{
    proof {
        reveal(parse_for_s);
        lemma_view_tokens_index(ts@);
    }
    proof {
        lemma_view_tokens_index(ts@);
    }
    if i >= ts.len() || !matches!(&ts[i].kind, TokKind::KwFor) {
        return Result::Err(eof_error(ts));
    }
    if !(i + 1 < ts.len() && matches!(&ts[i + 1].kind, TokKind::LParen)) {
        if i + 1 < ts.len() {
            return Result::Err(unrec_error(ts, i + 1, 2));
        } else {
            return Result::Err(eof_error(ts));
        }
    }
    let floc = Location { start: ts[i].start, end: ts[i].end };
    let init_r: Result<(Stmt, usize), ParseError> = if i + 2 < ts.len() && matches!(
        &ts[i + 2].kind,
        TokKind::Semi,
    ) {
        Result::Ok((Stmt::Empty, i + 3))
    } else if i + 2 < ts.len() && matches!(&ts[i + 2].kind, TokKind::KwVar) {
        parse_var_decl(ts, i + 2)
    } else {
        match parse_expr(ts, i + 2) {
            Result::Ok((e, j)) => {
                if j < ts.len() && matches!(&ts[j].kind, TokKind::Semi) {
                    Result::Ok((Stmt::Expr(e), j + 1))
                } else if j < ts.len() {
                    Result::Err(unrec_error(ts, j, 0))
                } else {
                    Result::Err(eof_error(ts))
                }
            }
            Result::Err(er) => Result::Err(er),
        }
    };
    match init_r {
        Result::Ok((init, j)) => {
            if j <= i + 2 || j > ts.len() {
                Result::Err(eof_error(ts))
            } else {
                let cond_r: Result<(Expr, usize), ParseError> = if j < ts.len() && matches!(
                    &ts[j].kind,
                    TokKind::Semi,
                ) {
                    Result::Ok((Expr::Boolean { value: true, location: floc }, j + 1))
                } else {
                    match parse_expr(ts, j) {
                        Result::Ok((c, k)) => {
                            if k < ts.len() && matches!(&ts[k].kind, TokKind::Semi) {
                                Result::Ok((c, k + 1))
                            } else if k < ts.len() {
                                Result::Err(unrec_error(ts, k, 0))
                            } else {
                                Result::Err(eof_error(ts))
                            }
                        }
                        Result::Err(er) => Result::Err(er),
                    }
                };
                match cond_r {
                    Result::Ok((cond, k)) => {
                        if k <= j || k > ts.len() {
                            Result::Err(eof_error(ts))
                        } else {
                            let incr_r: Result<(Expr, usize), ParseError> = if k < ts.len()
                                && matches!(&ts[k].kind, TokKind::RParen) {
                                Result::Ok((Expr::Nil { location: floc }, k))
                            } else {
                                parse_expr(ts, k)
                            };
                            match incr_r {
                                Result::Ok((incr, m)) => {
                                    if m >= k && m < ts.len() && matches!(
                                        &ts[m].kind,
                                        TokKind::RParen,
                                    ) {
                                        match parse_stmt(ts, m + 1) {
                                            Result::Ok((body, n)) => {
                                                let ghost gi = init@;
                                                let ghost gc = cond@;
                                                let ghost gx = incr@;
                                                let ghost gb = body@;
                                                let ghost gbody = body;
                                                let ghost gincr = incr;
                                                let mut inner: Vec<Stmt> = Vec::new();
                                                inner.push(body);
                                                inner.push(Stmt::Expr(incr));
                                                let ghost ginner = inner@;
                                                let ghost ginner_vec = inner;
                                                let ghost gcond = cond;
                                                let whole = Stmt::While {
                                                    cond,
                                                    body: Box::new(Stmt::Block(inner)),
                                                };
                                                let ghost gwhole = whole;
                                                let mut outer: Vec<Stmt> = Vec::new();
                                                outer.push(init);
                                                outer.push(whole);
                                                let ghost gouter = outer@;
                                                let desugared = Stmt::Block(outer);
                                                proof {
                                                    ast::lemma_view_stmts_index(gouter);
                                                    ast::lemma_view_stmts_index(ginner);
                                                    assert(ginner =~= seq![
                                                        gbody,
                                                        Stmt::Expr(gincr),
                                                    ]);
                                                    assert(ast::view_stmt(Stmt::Expr(gincr))
                                                        == StmtV::Expr(gx));
                                                    assert(ast::view_stmts(ginner) =~= seq![
                                                        gb,
                                                        StmtV::Expr(gx),
                                                    ]);
                                                    assert(ast::view_stmt(Stmt::Block(
                                                        ginner_vec,
                                                    )) == StmtV::Block(ast::view_stmts(ginner)));
                                                    assert(gwhole == (Stmt::While {
                                                        cond: gcond,
                                                        body: Box::new(
                                                            Stmt::Block(ginner_vec),
                                                        ),
                                                    }));
                                                    assert(ast::view_stmt(gwhole)
                                                        == (StmtV::While {
                                                        cond: gc,
                                                        body: Box::new(
                                                            StmtV::Block(
                                                                seq![gb, StmtV::Expr(gx)],
                                                            ),
                                                        ),
                                                    }));
                                                    assert(ast::view_stmts(gouter) =~= seq![
                                                        gi,
                                                        StmtV::While {
                                                            cond: gc,
                                                            body: Box::new(
                                                                StmtV::Block(
                                                                    seq![gb, StmtV::Expr(gx)],
                                                                ),
                                                            ),
                                                        },
                                                    ]);
                                                }
                                                Result::Ok((desugared, n))
                                            }
                                            Result::Err(er) => Result::Err(er),
                                        }
                                    } else if m < ts.len() {
                                        Result::Err(unrec_error(ts, m, 1))
                                    } else {
                                        Result::Err(eof_error(ts))
                                    }
                                }
                                Result::Err(er) => Result::Err(er),
                            }
                        }
                    }
                    Result::Err(er) => Result::Err(er),
                }
            }
        }
        Result::Err(er) => Result::Err(er),
    }
}

/// Parse a whole program.
#[verifier::rlimit(100)]
#[verifier::spinoff_prover]
pub fn parse_program(tokens: &Vec<Token>) -> (r: Result<Vec<Stmt>, ParseError>)
    ensures
        ({
            let sr = parse_program_s(view_tokens(tokens@));
            match r {
                Result::Ok(ss) => sr == Result::<Seq<StmtV>, ParseErrorV>::Ok(
                    ast::view_stmts(ss@),
                ) && (forall|n: int|
                    #[trigger] tokens_ok(view_tokens(tokens@), n) ==> ast::locs_wf_stmts(
                        ast::view_stmts(ss@),
                        0,
                        n,
                    )),
                Result::Err(pe) => sr matches Result::Err(pv) && parse_err_matches(pe, pv),
            }
        }),
{
    proof {
        reveal(parse_program_s);
        lemma_view_tokens_index(tokens@);
    }
    match parse_stmt_list(tokens, 0) {
        Result::Ok((ss, j)) => {
            if j >= tokens.len() {
                proof {
                    assert forall|n: int| #[trigger] tokens_ok(view_tokens(tokens@), n) implies
                        ast::locs_wf_stmts(ast::view_stmts(ss@), 0, n) by {
                        lemma_parse_program_wf(view_tokens(tokens@), n);
                    }
                }
                Result::Ok(ss)
            } else {
                Result::Err(unrec_error(tokens, j, 7))
            }
        }
        Result::Err(er) => Result::Err(er),
    }
}

/// Parse exactly one expression spanning the whole token list.
#[verifier::opaque]
pub open spec fn parse_expression_s(ts: Seq<TokenV>) -> Result<ExprV, ParseErrorV> {
    match parse_expr_s(ts, 0) {
        Result::Ok((e, j)) => if j >= ts.len() {
            Result::Ok(e)
        } else {
            Result::Err(unrec(ts[j], text::ascii_bytes("end of input"@)))
        },
        Result::Err(er) => Result::Err(er),
    }
}

/// Parse exactly one expression spanning the whole token list.
#[verifier::rlimit(100)]
#[verifier::spinoff_prover]
pub fn parse_expression(tokens: &Vec<Token>) -> (r: Result<Expr, ParseError>)
    ensures
        ({
            let sr = parse_expression_s(view_tokens(tokens@));
            match r {
                Result::Ok(e) => sr == Result::<ExprV, ParseErrorV>::Ok(e@) && (forall|n: int|
                    #[trigger] tokens_ok(view_tokens(tokens@), n) ==> ast::locs_wf_expr(e@, n)),
                Result::Err(pe) => sr matches Result::Err(pv) && parse_err_matches(pe, pv),
            }
        }),
{
    proof {
        reveal(parse_expression_s);
        lemma_view_tokens_index(tokens@);
    }
    match parse_expr(tokens, 0) {
        Result::Ok((e, j)) => {
            if j >= tokens.len() {
                proof {
                    assert forall|n: int| #[trigger] tokens_ok(view_tokens(tokens@), n) implies
                        ast::locs_wf_expr(e@, n) by {
                        lemma_wf_expr(view_tokens(tokens@), 0, n);
                    }
                }
                Result::Ok(e)
            } else {
                Result::Err(unrec_error(tokens, j, 8))
            }
        }
        Result::Err(er) => Result::Err(er),
    }
}

/// Parse exactly one statement spanning the whole token list.
#[verifier::opaque]
pub open spec fn parse_statement_s(ts: Seq<TokenV>) -> Result<StmtV, ParseErrorV> {
    match parse_stmt_s(ts, 0) {
        Result::Ok((st, j)) => if j >= ts.len() {
            Result::Ok(st)
        } else {
            Result::Err(unrec(ts[j], text::ascii_bytes("end of input"@)))
        },
        Result::Err(er) => Result::Err(er),
    }
}

/// Parse exactly one statement spanning the whole token list.
#[verifier::rlimit(100)]
#[verifier::spinoff_prover]
pub fn parse_statement(tokens: &Vec<Token>) -> (r: Result<Stmt, ParseError>)
    ensures
        ({
            let sr = parse_statement_s(view_tokens(tokens@));
            match r {
                Result::Ok(st) => sr == Result::<StmtV, ParseErrorV>::Ok(st@) && (forall|n: int|
                    #[trigger] tokens_ok(view_tokens(tokens@), n) ==> ast::locs_wf_stmt(st@, n)),
                Result::Err(pe) => sr matches Result::Err(pv) && parse_err_matches(pe, pv),
            }
        }),
{
    proof {
        reveal(parse_statement_s);
        lemma_view_tokens_index(tokens@);
    }
    match parse_stmt(tokens, 0) {
        Result::Ok((st, j)) => {
            if j >= tokens.len() {
                proof {
                    assert forall|n: int| #[trigger] tokens_ok(view_tokens(tokens@), n) implies
                        ast::locs_wf_stmt(st@, n) by {
                        lemma_wf_stmt(view_tokens(tokens@), 0, n);
                    }
                }
                Result::Ok(st)
            } else {
                Result::Err(unrec_error(tokens, j, 8))
            }
        }
        Result::Err(er) => Result::Err(er),
    }
}



/// A well-spanned expression's own span satisfies the invariant.
proof fn lemma_wf_loc_of(e: ExprV, n: int)
    requires
        ast::locs_wf_expr(e, n),
    ensures
        ast::spec_location_wf(e.loc(), n),
{
    match e {
        ExprV::Nil { .. } => {}
        ExprV::Number { .. } => {}
        ExprV::Boolean { .. } => {}
        ExprV::String { .. } => {}
        ExprV::Unary { .. } => {}
        ExprV::Binary { .. } => {}
        ExprV::Var { .. } => {}
        ExprV::Assignment { .. } => {}
        ExprV::Call { .. } => {}
        ExprV::Fun { .. } => {}
    }
}

/// Token spans only move forward: any earlier token ends (and starts)
/// no later than any later one.
#[verifier::rlimit(100)]
#[verifier::spinoff_prover]
proof fn lemma_token_le(ts: Seq<TokenV>, n: int, a: int, b: int)
    requires
        tokens_ok(ts, n),
        0 <= a <= b < ts.len(),
    ensures
        ts[a].start <= ts[b].start,
        ts[a].end <= ts[b].end,
        ts[a].start <= ts[b].end,
    decreases b - a,
{
    if a < b {
        lemma_token_le(ts, n, a, b - 1);
        assert(ts[b - 1].end <= ts[b].start);
    }
}

/// Prepending an expression shifts the well-formedness scan by one.
#[verifier::rlimit(100)]
#[verifier::spinoff_prover]
proof fn lemma_wf_exprs_cons(e: ExprV, rest: Seq<ExprV>, k: int, n: int)
    requires
        k >= 0,
    ensures
        ast::locs_wf_exprs(seq![e] + rest, k + 1, n) == ast::locs_wf_exprs(rest, k, n),
    decreases rest.len() - k,
{
    if 0 <= k < rest.len() {
        assert((seq![e] + rest)[k + 1] == rest[k]);
        lemma_wf_exprs_cons(e, rest, k + 1, n);
    }
}

/// Prepending a statement shifts the well-formedness scan by one.
#[verifier::rlimit(100)]
#[verifier::spinoff_prover]
proof fn lemma_wf_stmts_cons(st: StmtV, rest: Seq<StmtV>, k: int, n: int)
    requires
        k >= 0,
    ensures
        ast::locs_wf_stmts(seq![st] + rest, k + 1, n) == ast::locs_wf_stmts(rest, k, n),
    decreases rest.len() - k,
{
    if 0 <= k < rest.len() {
        assert((seq![st] + rest)[k + 1] == rest[k]);
        lemma_wf_stmts_cons(st, rest, k + 1, n);
    }
}

/// A parsed primary expression's spans satisfy the invariant and lie
/// within the tokens it consumed.
#[verifier::rlimit(100)]
#[verifier::spinoff_prover]
proof fn lemma_wf_primary(ts: Seq<TokenV>, i: int, n: int)
    requires
        tokens_ok(ts, n),
    ensures
        match parse_primary_s(ts, i) {
            Result::Ok((e, j)) => {
                &&& 0 <= i < ts.len()
                &&& i < j <= ts.len()
                &&& ast::locs_wf_expr(e, n)
                &&& ts[i].start <= e.loc().start
                &&& e.loc().end <= ts[j - 1].end
            },
            Result::Err(_) => true,
        },
    decreases ts.len() - i, 2nat,
{
    reveal(parse_primary_s);
    if 0 <= i && i < ts.len() {
        let t = ts[i];
        match t.kind {
            TokKindV::LParen => {
                lemma_wf_expr(ts, i + 1, n);
                match parse_expr_s(ts, i + 1) {
                    Result::Ok((e, j)) => {
                        if j < ts.len() && (ts[j].kind matches TokKindV::RParen) {
                            assert(ts[i].end <= ts[i + 1].start);
                            assert(ts[j - 1].end <= ts[j].start);
                        }
                    }
                    Result::Err(_) => {}
                }
            }
            TokKindV::KwFun => {
                if i + 1 < ts.len() && (ts[i + 1].kind matches TokKindV::LParen) {
                    match parse_params_s(ts, i + 2) {
                        Result::Ok((params, j)) => {
                            if j > i && j < ts.len() && (ts[j].kind matches TokKindV::RParen) {
                                lemma_wf_block(ts, j + 1, n);
                                match parse_block_s(ts, j + 1) {
                                    Result::Ok((body, k)) => {
                                        if k > j && k <= ts.len() {
                                            lemma_token_le(ts, n, i, k - 1);
                                        }
                                    }
                                    Result::Err(_) => {}
                                }
                            }
                        }
                        Result::Err(_) => {}
                    }
                }
            }
            _ => {}
        }
    }
}

/// A parsed argument list's spans satisfy the invariant.
#[verifier::rlimit(100)]
#[verifier::spinoff_prover]
proof fn lemma_wf_args(ts: Seq<TokenV>, i: int, n: int)
    requires
        tokens_ok(ts, n),
    ensures
        match parse_args_s(ts, i) {
            Result::Ok((es, j)) => i <= j <= ts.len() && ast::locs_wf_exprs(es, 0, n),
            Result::Err(_) => true,
        },
    decreases ts.len() - i, 10nat,
{
    reveal(parse_args_s);
    if 0 <= i && i < ts.len() && !(ts[i].kind matches TokKindV::RParen) {
        lemma_wf_expr(ts, i, n);
        match parse_expr_s(ts, i) {
            Result::Ok((e, j)) => {
                if j > i {
                    if j < ts.len() && (ts[j].kind matches TokKindV::Comma) {
                        lemma_wf_args(ts, j + 1, n);
                        match parse_args_s(ts, j + 1) {
                            Result::Ok((rest, k)) => {
                                lemma_wf_exprs_cons(e, rest, 0, n);
                                assert((seq![e] + rest)[0] == e);
                            }
                            Result::Err(_) => {}
                        }
                    } else {
                        let es = seq![e];
                        assert(es[0] == e);
                        assert(ast::locs_wf_exprs(es, 1, n));
                    }
                }
            }
            Result::Err(_) => {}
        }
    }
}

/// Call suffixes applied to a well-spanned callee keep the invariant.
#[verifier::rlimit(100)]
#[verifier::spinoff_prover]
proof fn lemma_wf_call_tail(ts: Seq<TokenV>, left: ExprV, i: int, n: int)
    requires
        tokens_ok(ts, n),
        1 <= i <= ts.len(),
        ast::locs_wf_expr(left, n),
        left.loc().end <= ts[i - 1].end,
    ensures
        match parse_call_tail_s(ts, left, i) {
            Result::Ok((e, j)) => {
                &&& 1 <= i <= j <= ts.len()
                &&& ast::locs_wf_expr(e, n)
                &&& e.loc().start == left.loc().start
                &&& e.loc().end <= ts[j - 1].end
            },
            Result::Err(_) => true,
        },
    decreases ts.len() - i, 11nat,
{
    reveal(parse_call_tail_s);
    lemma_wf_loc_of(left, n);
    if 0 <= i && i < ts.len() && (ts[i].kind matches TokKindV::LParen) {
        lemma_wf_args(ts, i + 1, n);
        match parse_args_s(ts, i + 1) {
            Result::Ok((args, j)) => {
                if j >= i && j < ts.len() && (ts[j].kind matches TokKindV::RParen) {
                    lemma_token_le(ts, n, i - 1, j);
                    let call = ExprV::Call {
                        callee: Box::new(left),
                        args,
                        location: Location { start: left.loc().start, end: ts[j].end },
                    };
                    if j + 1 > i {
                        lemma_wf_call_tail(ts, call, j + 1, n);
                    }
                }
            }
            Result::Err(_) => {}
        }
    }
}

/// A parsed call expression's spans satisfy the invariant.
#[verifier::rlimit(100)]
#[verifier::spinoff_prover]
proof fn lemma_wf_call(ts: Seq<TokenV>, i: int, n: int)
    requires
        tokens_ok(ts, n),
    ensures
        match parse_call_s(ts, i) {
            Result::Ok((e, j)) => {
                &&& 0 <= i < ts.len()
                &&& i < j <= ts.len()
                &&& ast::locs_wf_expr(e, n)
                &&& ts[i].start <= e.loc().start
                &&& e.loc().end <= ts[j - 1].end
            },
            Result::Err(_) => true,
        },
    decreases ts.len() - i, 3nat,
{
    reveal(parse_call_s);
    lemma_wf_primary(ts, i, n);
    match parse_primary_s(ts, i) {
        Result::Ok((e, j)) => {
            if j > i && j <= ts.len() {
                lemma_wf_call_tail(ts, e, j, n);
            }
        }
        Result::Err(_) => {}
    }
}

/// A parsed unary expression's spans satisfy the invariant.
#[verifier::rlimit(100)]
#[verifier::spinoff_prover]
proof fn lemma_wf_unary(ts: Seq<TokenV>, i: int, n: int)
    requires
        tokens_ok(ts, n),
    ensures
        match parse_unary_s(ts, i) {
            Result::Ok((e, j)) => {
                &&& 0 <= i < ts.len()
                &&& i < j <= ts.len()
                &&& ast::locs_wf_expr(e, n)
                &&& ts[i].start <= e.loc().start
                &&& e.loc().end <= ts[j - 1].end
            },
            Result::Err(_) => true,
        },
    decreases ts.len() - i, 4nat,
{
    reveal(parse_unary_s);
    if 0 <= i && i < ts.len() && ((ts[i].kind matches TokKindV::Bang) || (ts[i].kind
        matches TokKindV::Minus)) {
        lemma_wf_unary(ts, i + 1, n);
        match parse_unary_s(ts, i + 1) {
            Result::Ok((e, j)) => {
                assert(ts[i].end <= ts[i + 1].start);
            }
            Result::Err(_) => {}
        }
    } else {
        lemma_wf_call(ts, i, n);
    }
}

/// Factor suffixes applied to a well-spanned operand keep the invariant.
#[verifier::rlimit(100)]
#[verifier::spinoff_prover]
proof fn lemma_wf_factor_tail(ts: Seq<TokenV>, left: ExprV, i: int, n: int)
    requires
        tokens_ok(ts, n),
        1 <= i <= ts.len(),
        ast::locs_wf_expr(left, n),
        left.loc().end <= ts[i - 1].end,
    ensures
        match parse_factor_tail_s(ts, left, i) {
            Result::Ok((e, j)) => {
                &&& 1 <= i <= j <= ts.len()
                &&& ast::locs_wf_expr(e, n)
                &&& e.loc().start == left.loc().start
                &&& e.loc().end <= ts[j - 1].end
            },
            Result::Err(_) => true,
        },
    decreases ts.len() - i, 12nat,
{
    reveal(parse_factor_tail_s);
    lemma_wf_loc_of(left, n);
    if 0 <= i && i < ts.len() && factor_op(ts[i].kind) is Some {
        let op = factor_op(ts[i].kind)->0;
        lemma_wf_unary(ts, i + 1, n);
        match parse_unary_s(ts, i + 1) {
            Result::Ok((r, j)) => {
                if j > i && j <= ts.len() {
                    assert(ts[i - 1].end <= ts[i].start);
                    assert(ts[i].end <= ts[i + 1].start);
                    lemma_wf_factor_tail(ts, mk_binary(left, op, r), j, n);
                }
            }
            Result::Err(_) => {}
        }
    }
}

/// A parsed Factor level expression's spans satisfy the invariant.
#[verifier::rlimit(100)]
#[verifier::spinoff_prover]
proof fn lemma_wf_factor(ts: Seq<TokenV>, i: int, n: int)
    requires
        tokens_ok(ts, n),
    ensures
        match parse_factor_s(ts, i) {
            Result::Ok((e, j)) => {
                &&& 0 <= i < ts.len()
                &&& i < j <= ts.len()
                &&& ast::locs_wf_expr(e, n)
                &&& ts[i].start <= e.loc().start
                &&& e.loc().end <= ts[j - 1].end
            },
            Result::Err(_) => true,
        },
    decreases ts.len() - i, 5nat,
{
    reveal(parse_factor_s);
    lemma_wf_unary(ts, i, n);
    match parse_unary_s(ts, i) {
        Result::Ok((e, j)) => {
            if j > i && j <= ts.len() {
                lemma_wf_factor_tail(ts, e, j, n);
            }
        }
        Result::Err(_) => {}
    }
}

/// Term suffixes applied to a well-spanned operand keep the invariant.
#[verifier::rlimit(100)]
#[verifier::spinoff_prover]
proof fn lemma_wf_term_tail(ts: Seq<TokenV>, left: ExprV, i: int, n: int)
    requires
        tokens_ok(ts, n),
        1 <= i <= ts.len(),
        ast::locs_wf_expr(left, n),
        left.loc().end <= ts[i - 1].end,
    ensures
        match parse_term_tail_s(ts, left, i) {
            Result::Ok((e, j)) => {
                &&& 1 <= i <= j <= ts.len()
                &&& ast::locs_wf_expr(e, n)
                &&& e.loc().start == left.loc().start
                &&& e.loc().end <= ts[j - 1].end
            },
            Result::Err(_) => true,
        },
    decreases ts.len() - i, 13nat,
{
    reveal(parse_term_tail_s);
    lemma_wf_loc_of(left, n);
    if 0 <= i && i < ts.len() && term_op(ts[i].kind) is Some {
        let op = term_op(ts[i].kind)->0;
        lemma_wf_factor(ts, i + 1, n);
        match parse_factor_s(ts, i + 1) {
            Result::Ok((r, j)) => {
                if j > i && j <= ts.len() {
                    assert(ts[i - 1].end <= ts[i].start);
                    assert(ts[i].end <= ts[i + 1].start);
                    lemma_wf_term_tail(ts, mk_binary(left, op, r), j, n);
                }
            }
            Result::Err(_) => {}
        }
    }
}

/// A parsed Term level expression's spans satisfy the invariant.
#[verifier::rlimit(100)]
#[verifier::spinoff_prover]
proof fn lemma_wf_term(ts: Seq<TokenV>, i: int, n: int)
    requires
        tokens_ok(ts, n),
    ensures
        match parse_term_s(ts, i) {
            Result::Ok((e, j)) => {
                &&& 0 <= i < ts.len()
                &&& i < j <= ts.len()
                &&& ast::locs_wf_expr(e, n)
                &&& ts[i].start <= e.loc().start
                &&& e.loc().end <= ts[j - 1].end
            },
            Result::Err(_) => true,
        },
    decreases ts.len() - i, 6nat,
{
    reveal(parse_term_s);
    lemma_wf_factor(ts, i, n);
    match parse_factor_s(ts, i) {
        Result::Ok((e, j)) => {
            if j > i && j <= ts.len() {
                lemma_wf_term_tail(ts, e, j, n);
            }
        }
        Result::Err(_) => {}
    }
}

/// Comparison suffixes applied to a well-spanned operand keep the invariant.
#[verifier::rlimit(100)]
#[verifier::spinoff_prover]
proof fn lemma_wf_comparison_tail(ts: Seq<TokenV>, left: ExprV, i: int, n: int)
    requires
        tokens_ok(ts, n),
        1 <= i <= ts.len(),
        ast::locs_wf_expr(left, n),
        left.loc().end <= ts[i - 1].end,
    ensures
        match parse_comparison_tail_s(ts, left, i) {
            Result::Ok((e, j)) => {
                &&& 1 <= i <= j <= ts.len()
                &&& ast::locs_wf_expr(e, n)
                &&& e.loc().start == left.loc().start
                &&& e.loc().end <= ts[j - 1].end
            },
            Result::Err(_) => true,
        },
    decreases ts.len() - i, 14nat,
{
    reveal(parse_comparison_tail_s);
    lemma_wf_loc_of(left, n);
    if 0 <= i && i < ts.len() && comparison_op(ts[i].kind) is Some {
        let op = comparison_op(ts[i].kind)->0;
        lemma_wf_term(ts, i + 1, n);
        match parse_term_s(ts, i + 1) {
            Result::Ok((r, j)) => {
                if j > i && j <= ts.len() {
                    assert(ts[i - 1].end <= ts[i].start);
                    assert(ts[i].end <= ts[i + 1].start);
                    lemma_wf_comparison_tail(ts, mk_binary(left, op, r), j, n);
                }
            }
            Result::Err(_) => {}
        }
    }
}

/// A parsed Comparison level expression's spans satisfy the invariant.
#[verifier::rlimit(100)]
#[verifier::spinoff_prover]
proof fn lemma_wf_comparison(ts: Seq<TokenV>, i: int, n: int)
    requires
        tokens_ok(ts, n),
    ensures
        match parse_comparison_s(ts, i) {
            Result::Ok((e, j)) => {
                &&& 0 <= i < ts.len()
                &&& i < j <= ts.len()
                &&& ast::locs_wf_expr(e, n)
                &&& ts[i].start <= e.loc().start
                &&& e.loc().end <= ts[j - 1].end
            },
            Result::Err(_) => true,
        },
    decreases ts.len() - i, 7nat,
{
    reveal(parse_comparison_s);
    lemma_wf_term(ts, i, n);
    match parse_term_s(ts, i) {
        Result::Ok((e, j)) => {
            if j > i && j <= ts.len() {
                lemma_wf_comparison_tail(ts, e, j, n);
            }
        }
        Result::Err(_) => {}
    }
}

/// Equality suffixes applied to a well-spanned operand keep the invariant.
#[verifier::rlimit(100)]
#[verifier::spinoff_prover]
proof fn lemma_wf_equality_tail(ts: Seq<TokenV>, left: ExprV, i: int, n: int)
    requires
        tokens_ok(ts, n),
        1 <= i <= ts.len(),
        ast::locs_wf_expr(left, n),
        left.loc().end <= ts[i - 1].end,
    ensures
        match parse_equality_tail_s(ts, left, i) {
            Result::Ok((e, j)) => {
                &&& 1 <= i <= j <= ts.len()
                &&& ast::locs_wf_expr(e, n)
                &&& e.loc().start == left.loc().start
                &&& e.loc().end <= ts[j - 1].end
            },
            Result::Err(_) => true,
        },
    decreases ts.len() - i, 15nat,
{
    reveal(parse_equality_tail_s);
    lemma_wf_loc_of(left, n);
    if 0 <= i && i < ts.len() && equality_op(ts[i].kind) is Some {
        let op = equality_op(ts[i].kind)->0;
        lemma_wf_comparison(ts, i + 1, n);
        match parse_comparison_s(ts, i + 1) {
            Result::Ok((r, j)) => {
                if j > i && j <= ts.len() {
                    assert(ts[i - 1].end <= ts[i].start);
                    assert(ts[i].end <= ts[i + 1].start);
                    lemma_wf_equality_tail(ts, mk_binary(left, op, r), j, n);
                }
            }
            Result::Err(_) => {}
        }
    }
}

/// A parsed Equality level expression's spans satisfy the invariant.
#[verifier::rlimit(100)]
#[verifier::spinoff_prover]
proof fn lemma_wf_equality(ts: Seq<TokenV>, i: int, n: int)
    requires
        tokens_ok(ts, n),
    ensures
        match parse_equality_s(ts, i) {
            Result::Ok((e, j)) => {
                &&& 0 <= i < ts.len()
                &&& i < j <= ts.len()
                &&& ast::locs_wf_expr(e, n)
                &&& ts[i].start <= e.loc().start
                &&& e.loc().end <= ts[j - 1].end
            },
            Result::Err(_) => true,
        },
    decreases ts.len() - i, 8nat,
{
    reveal(parse_equality_s);
    lemma_wf_comparison(ts, i, n);
    match parse_comparison_s(ts, i) {
        Result::Ok((e, j)) => {
            if j > i && j <= ts.len() {
                lemma_wf_equality_tail(ts, e, j, n);
            }
        }
        Result::Err(_) => {}
    }
}

/// A parsed expression's spans satisfy the invariant.
#[verifier::rlimit(100)]
#[verifier::spinoff_prover]
proof fn lemma_wf_expr(ts: Seq<TokenV>, i: int, n: int)
    requires
        tokens_ok(ts, n),
    ensures
        match parse_expr_s(ts, i) {
            Result::Ok((e, j)) => {
                &&& 0 <= i < ts.len()
                &&& i < j <= ts.len()
                &&& ast::locs_wf_expr(e, n)
                &&& ts[i].start <= e.loc().start
                &&& e.loc().end <= ts[j - 1].end
            },
            Result::Err(_) => true,
        },
    decreases ts.len() - i, 9nat,
{
    reveal(parse_expr_s);
    if 0 <= i && i + 1 < ts.len() && (ts[i].kind matches TokKindV::Ident(_)) && (ts[i + 1].kind
        matches TokKindV::Assign) {
        match ts[i].kind {
            TokKindV::Ident(name) => {
                lemma_wf_expr(ts, i + 2, n);
                match parse_expr_s(ts, i + 2) {
                    Result::Ok((rhs, j)) => {
                        assert(ts[i].end <= ts[i + 1].start);
                        assert(ts[i + 1].end <= ts[i + 2].start);
                    }
                    Result::Err(_) => {}
                }
            }
            _ => {
                lemma_wf_equality(ts, i, n);
            }
        }
    } else {
        lemma_wf_equality(ts, i, n);
    }
}


/// A parsed `var` declaration's spans satisfy the invariant.
#[verifier::rlimit(100)]
#[verifier::spinoff_prover]
proof fn lemma_wf_var_decl(ts: Seq<TokenV>, i: int, n: int)
    requires
        tokens_ok(ts, n),
    ensures
        match parse_var_decl_s(ts, i) {
            Result::Ok((st, j)) => ast::locs_wf_stmt(st, n) && 0 <= i < ts.len() && i < j
                <= ts.len(),
            Result::Err(_) => true,
        },
    decreases ts.len() - i, 15nat,
{
    reveal(parse_var_decl_s);
    if 0 <= i && i < ts.len() && (ts[i].kind matches TokKindV::KwVar) && i + 1 < ts.len() {
        match ts[i + 1].kind {
            TokKindV::Ident(_) => {
                if i + 2 < ts.len() && (ts[i + 2].kind matches TokKindV::Assign) {
                    lemma_wf_expr(ts, i + 3, n);
                } else {
                    assert(ts[i + 1].start <= ts[i + 1].end <= n);
                    assert(ast::locs_wf_expr(
                        ExprV::Nil { location: tok_loc(ts[i + 1]) },
                        n,
                    ));
                }
            }
            _ => {}
        }
    }
}

/// A parsed statement list's spans satisfy the invariant.
#[verifier::rlimit(100)]
#[verifier::spinoff_prover]
proof fn lemma_wf_stmt_list(ts: Seq<TokenV>, i: int, n: int)
    requires
        tokens_ok(ts, n),
    ensures
        match parse_stmt_list_s(ts, i) {
            Result::Ok((ss, j)) => ast::locs_wf_stmts(ss, 0, n) && i <= j && (i <= ts.len()
                ==> j <= ts.len()),
            Result::Err(_) => true,
        },
    decreases ts.len() - i, 17nat,
{
    reveal(parse_stmt_list_s);
    if !(i < 0 || i >= ts.len() || (ts[i].kind matches TokKindV::RBrace)) {
        lemma_wf_stmt(ts, i, n);
        match parse_stmt_s(ts, i) {
            Result::Ok((st, j)) => {
                if j > i && j <= ts.len() {
                    lemma_wf_stmt_list(ts, j, n);
                    match parse_stmt_list_s(ts, j) {
                        Result::Ok((rest, k)) => {
                            lemma_wf_stmts_cons(st, rest, 0, n);
                            assert((seq![st] + rest)[0] == st);
                        }
                        Result::Err(_) => {}
                    }
                }
            }
            Result::Err(_) => {}
        }
    } else {
        assert(ast::locs_wf_stmts(Seq::<StmtV>::empty(), 0, n));
    }
}

/// A parsed block's spans satisfy the invariant.
#[verifier::rlimit(100)]
#[verifier::spinoff_prover]
proof fn lemma_wf_block(ts: Seq<TokenV>, i: int, n: int)
    requires
        tokens_ok(ts, n),
    ensures
        match parse_block_s(ts, i) {
            Result::Ok((st, j)) => ast::locs_wf_stmt(st, n) && 0 <= i < ts.len() && i < j
                <= ts.len(),
            Result::Err(_) => true,
        },
    decreases ts.len() - i, 0nat,
{
    reveal(parse_block_s);
    if 0 <= i && i < ts.len() && (ts[i].kind matches TokKindV::LBrace) {
        lemma_wf_stmt_list(ts, i + 1, n);
    }
}

/// A parsed statement's spans satisfy the invariant.
#[verifier::rlimit(100)]
#[verifier::spinoff_prover]
proof fn lemma_wf_stmt(ts: Seq<TokenV>, i: int, n: int)
    requires
        tokens_ok(ts, n),
    ensures
        match parse_stmt_s(ts, i) {
            Result::Ok((st, j)) => ast::locs_wf_stmt(st, n) && 0 <= i < ts.len() && i < j
                <= ts.len(),
            Result::Err(_) => true,
        },
    decreases ts.len() - i, 16nat,
{
    reveal(parse_stmt_s);
    if 0 <= i && i < ts.len() {
        let t = ts[i];
        match t.kind {
            TokKindV::KwPrint => {
                lemma_wf_expr(ts, i + 1, n);
            }
            TokKindV::KwAssert => {
                lemma_wf_expr(ts, i + 1, n);
            }
            TokKindV::KwVar => {
                lemma_wf_var_decl(ts, i, n);
            }
            TokKindV::KwFun => {
                if i + 1 < ts.len() {
                    match ts[i + 1].kind {
                        TokKindV::Ident(_) => {
                            if i + 2 < ts.len() && (ts[i + 2].kind matches TokKindV::LParen) {
                                match parse_params_s(ts, i + 3) {
                                    Result::Ok((ps, j)) => {
                                        if j > i && j < ts.len() && (ts[j].kind
                                            matches TokKindV::RParen) {
                                            lemma_wf_block(ts, j + 1, n);
                                            match parse_block_s(ts, j + 1) {
                                                Result::Ok((body, k)) => {
                                                    if k > j && k <= ts.len() {
                                                        lemma_token_le(ts, n, i, k - 1);
                                                    }
                                                }
                                                Result::Err(_) => {}
                                            }
                                        }
                                    }
                                    Result::Err(_) => {}
                                }
                            }
                        }
                        _ => {}
                    }
                }
            }
            TokKindV::LBrace => {
                lemma_wf_block(ts, i, n);
            }
            TokKindV::KwIf => {
                if i + 1 < ts.len() && (ts[i + 1].kind matches TokKindV::LParen) {
                    lemma_wf_expr(ts, i + 2, n);
                    match parse_expr_s(ts, i + 2) {
                        Result::Ok((cond, j)) => {
                            if j > i + 1 && j < ts.len() && (ts[j].kind matches TokKindV::RParen) {
                                lemma_wf_stmt(ts, j + 1, n);
                                match parse_stmt_s(ts, j + 1) {
                                    Result::Ok((th, k)) => {
                                        if k > j {
                                            if k < ts.len() && (ts[k].kind
                                                matches TokKindV::KwElse) {
                                                lemma_wf_stmt(ts, k + 1, n);
                                            } else {
                                                assert(ast::locs_wf_stmt(StmtV::Empty, n));
                                            }
                                        }
                                    }
                                    Result::Err(_) => {}
                                }
                            }
                        }
                        Result::Err(_) => {}
                    }
                }
            }
            TokKindV::KwWhile => {
                if i + 1 < ts.len() && (ts[i + 1].kind matches TokKindV::LParen) {
                    lemma_wf_expr(ts, i + 2, n);
                    match parse_expr_s(ts, i + 2) {
                        Result::Ok((cond, j)) => {
                            if j > i + 1 && j < ts.len() && (ts[j].kind matches TokKindV::RParen) {
                                lemma_wf_stmt(ts, j + 1, n);
                            }
                        }
                        Result::Err(_) => {}
                    }
                }
            }
            TokKindV::KwReturn => {
                if !(i + 1 < ts.len() && (ts[i + 1].kind matches TokKindV::Semi)) {
                    lemma_wf_expr(ts, i + 1, n);
                }
            }
            TokKindV::KwFor => {
                lemma_wf_for(ts, i, n);
            }
            _ => {
                lemma_wf_expr(ts, i, n);
            }
        }
    }
}

/// A parsed and desugared `for` statement's spans satisfy the invariant.
#[verifier::rlimit(100)]
#[verifier::spinoff_prover]
proof fn lemma_wf_for(ts: Seq<TokenV>, i: int, n: int)
    requires
        tokens_ok(ts, n),
    ensures
        match parse_for_s(ts, i) {
            Result::Ok((st, j)) => ast::locs_wf_stmt(st, n) && 0 <= i < ts.len() && i < j
                <= ts.len(),
            Result::Err(_) => true,
        },
    decreases ts.len() - i, 15nat,
{
    reveal(parse_for_s);
    if 0 <= i && i < ts.len() && (ts[i].kind matches TokKindV::KwFor) && i + 1 < ts.len() && (
    ts[i + 1].kind matches TokKindV::LParen) {
        let floc = tok_loc(ts[i]);
        assert(ts[i].start <= ts[i].end <= n);
        assert(ast::spec_location_wf(floc, n));
        if i + 2 < ts.len() && (ts[i + 2].kind matches TokKindV::Semi) {
        } else if i + 2 < ts.len() && (ts[i + 2].kind matches TokKindV::KwVar) {
            lemma_wf_var_decl(ts, i + 2, n);
        } else {
            lemma_wf_expr(ts, i + 2, n);
        }
        let init_r: Result<(StmtV, int), ParseErrorV> = if i + 2 < ts.len() && (ts[i + 2].kind
            matches TokKindV::Semi) {
            Result::Ok((StmtV::Empty, i + 3))
        } else if i + 2 < ts.len() && (ts[i + 2].kind matches TokKindV::KwVar) {
            parse_var_decl_s(ts, i + 2)
        } else {
            match parse_expr_s(ts, i + 2) {
                Result::Ok((e, j)) => if j < ts.len() && (ts[j].kind matches TokKindV::Semi) {
                    Result::Ok((StmtV::Expr(e), j + 1))
                } else if j < ts.len() {
                    Result::Err(unrec(ts[j], text::ascii_bytes(";"@)))
                } else {
                    Result::Err(eof_err(ts))
                },
                Result::Err(er) => Result::Err(er),
            }
        };
        match init_r {
            Result::Ok((init, j)) => {
                if !(j <= i + 2 || j > ts.len()) {
                    if !(j < ts.len() && (ts[j].kind matches TokKindV::Semi)) {
                        lemma_wf_expr(ts, j, n);
                    }
                    let cond_r: Result<(ExprV, int), ParseErrorV> = if j < ts.len() && (
                    ts[j].kind matches TokKindV::Semi) {
                        Result::Ok((ExprV::Boolean { value: true, location: floc }, j + 1))
                    } else {
                        match parse_expr_s(ts, j) {
                            Result::Ok((c, k)) => if k < ts.len() && (ts[k].kind
                                matches TokKindV::Semi) {
                                Result::Ok((c, k + 1))
                            } else if k < ts.len() {
                                Result::Err(unrec(ts[k], text::ascii_bytes(";"@)))
                            } else {
                                Result::Err(eof_err(ts))
                            },
                            Result::Err(er) => Result::Err(er),
                        }
                    };
                    match cond_r {
                        Result::Ok((cond, k)) => {
                            if !(k <= j || k > ts.len()) {
                                if !(k < ts.len() && (ts[k].kind matches TokKindV::RParen)) {
                                    lemma_wf_expr(ts, k, n);
                                }
                                let incr_r: Result<(ExprV, int), ParseErrorV> = if k < ts.len()
                                    && (ts[k].kind matches TokKindV::RParen) {
                                    Result::Ok((ExprV::Nil { location: floc }, k))
                                } else {
                                    parse_expr_s(ts, k)
                                };
                                match incr_r {
                                    Result::Ok((incr, m)) => {
                                        if m >= k && m < ts.len() && (ts[m].kind
                                            matches TokKindV::RParen) {
                                            lemma_wf_stmt(ts, m + 1, n);
                                            match parse_stmt_s(ts, m + 1) {
                                                Result::Ok((body, fin)) => {
                                                    assert(ast::locs_wf_expr(incr, n));
                                                    assert(ast::locs_wf_expr(cond, n));
                                                    assert(ast::locs_wf_stmt(body, n));
                                                    assert(ast::locs_wf_stmt(init, n));
                                                    let inner = seq![
                                                        body,
                                                        StmtV::Expr(incr),
                                                    ];
                                                    assert(inner[0] == body);
                                                    assert(inner[1] == StmtV::Expr(incr));
                                                    assert(ast::locs_wf_stmt(
                                                        StmtV::Expr(incr),
                                                        n,
                                                    ));
                                                    assert(ast::locs_wf_stmts(inner, 2, n));
                                                    assert(ast::locs_wf_stmts(inner, 1, n));
                                                    assert(ast::locs_wf_stmts(inner, 0, n));
                                                    let wh = StmtV::While {
                                                        cond,
                                                        body: Box::new(StmtV::Block(inner)),
                                                    };
                                                    assert(ast::locs_wf_stmt(
                                                        StmtV::Block(inner),
                                                        n,
                                                    ));
                                                    assert(ast::locs_wf_stmt(wh, n));
                                                    let outer = seq![init, wh];
                                                    assert(outer[0] == init);
                                                    assert(outer[1] == wh);
                                                    assert(ast::locs_wf_stmts(outer, 2, n));
                                                    assert(ast::locs_wf_stmts(outer, 1, n));
                                                    assert(ast::locs_wf_stmts(outer, 0, n));
                                                }
                                                Result::Err(_) => {}
                                            }
                                        }
                                    }
                                    Result::Err(_) => {}
                                }
                            }
                        }
                        Result::Err(_) => {}
                    }
                }
            }
            Result::Err(_) => {}
        }
    }
}

/// Every span of a parsed program satisfies the invariant: start at or
/// before end, both within a source of length `n`, for any `n` bounding
/// the token spans.
#[verifier::rlimit(100)]
#[verifier::spinoff_prover]
pub proof fn lemma_parse_program_wf(ts: Seq<TokenV>, n: int)
    requires
        tokens_ok(ts, n),
    ensures
        match parse_program_s(ts) {
            Result::Ok(ss) => ast::locs_wf_stmts(ss, 0, n),
            Result::Err(_) => true,
        },
{
    reveal(parse_program_s);
    lemma_wf_stmt_list(ts, 0, n);
}

} // verus!
