//! Diagnostics.
//!
//! A diagnostic carries its kind, the span it points at, and whatever the
//! kind needs: the name that was not found, the counts of an arity
//! mismatch, the token list a parse expected.

use vstd::prelude::*;

use crate::ast::Location;
use crate::text;
use crate::value::Value;

verus! {

use vstd::string::is_ascii;
use vstd::utf8::is_ascii_chars;

/// A malformed-source diagnostic.
#[derive(Debug, PartialEq)]
pub enum ParseError {
    /// A token that no production accepts, with the tokens that were
    /// acceptable there.
    UnrecognizedToken { location: Location, expected: Vec<Vec<u8>> },
    /// A byte sequence that is no token.
    InvalidToken { location: Location },
    /// The source ended where a token was required.
    UnexpectedEof { location: Location },
}

/// A failure during evaluation.
#[derive(Debug, PartialEq)]
pub enum RuntimeError {
    TypeMismatch { location: Location },
    IdentifierNotFound { name: Vec<u8>, location: Location },
    NotCallable { location: Location },
    ArityMismatch { expected: usize, actual: usize, location: Location },
}

/// Anything a run can surface: a parse error, the resolver's one static
/// error, a runtime failure, a failed assertion, a `return` outside any
/// function (carrying the value), or an exhausted step budget.
#[derive(Debug, PartialEq)]
pub enum Error {
    Parse(ParseError),
    Resolve { location: Location },
    Runtime(RuntimeError),
    Assert { location: Location },
    Return(Value),
    StepLimit,
}

/// The note of an expected-token list: `expected X` for one token, else
/// `expected one of X, Y, Z`.
pub open spec fn spec_expected_one_of(expected: Seq<Seq<u8>>) -> Seq<Seq<u8>> {
    if expected.len() == 1 {
        seq![text::ascii_bytes("expected "@) + expected[0]]
    } else {
        seq![text::ascii_bytes("expected one of "@) + spec_join_comma(expected)]
    }
}

/// The elements joined with `, `.
pub open spec fn spec_join_comma(parts: Seq<Seq<u8>>) -> Seq<u8>
    decreases parts,
{
    if parts.len() == 0 {
        Seq::empty()
    } else if parts.len() == 1 {
        parts[0]
    } else {
        spec_join_comma(parts.drop_last()) + text::ascii_bytes(", "@) + parts.last()
    }
}

/// Render an expected-token list as one note line.
pub fn expected_one_of(expected: &Vec<Vec<u8>>) -> (r: Vec<Vec<u8>>)
    ensures
        r.deep_view() == spec_expected_one_of(expected.deep_view()),
{
    proof {
        reveal_strlit("expected ");
        assert(is_ascii_chars("expected "@));
        reveal_strlit("expected one of ");
        assert(is_ascii_chars("expected one of "@));
        reveal_strlit(", ");
        assert(is_ascii_chars(", "@));
    }
    let mut line: Vec<u8>;
    if expected.len() == 1 {
        line = text::lit("expected ");
        text::push_bytes(&mut line, &expected[0]);
        proof {
            assert(expected.deep_view()[0] =~= expected@[0]@);
        }
    } else {
        line = text::lit("expected one of ");
        let mut i: usize = 0;
        let mut joined: Vec<u8> = Vec::new();
        while i < expected.len()
            invariant
                i <= expected.len(),
                joined@ =~= spec_join_comma(expected.deep_view().take(i as int)),
                is_ascii_chars(", "@),
            decreases expected.len() - i,
        {
            if i > 0 {
                let comma = text::lit(", ");
                text::push_bytes(&mut joined, &comma);
            }
            text::push_bytes(&mut joined, &expected[i]);
            proof {
                let dv = expected.deep_view();
                assert(dv[i as int] =~= expected@[i as int]@);
                assert(dv.take(i + 1).drop_last() =~= dv.take(i as int));
                assert(dv.take(i + 1).last() == dv[i as int]);
            }
            i = i + 1;
        }
        proof {
            assert(expected.deep_view().take(expected@.len() as int) =~= expected.deep_view());
        }
        text::push_bytes(&mut line, &joined);
    }
    let mut out: Vec<Vec<u8>> = Vec::new();
    out.push(line);
    proof {
        assert(out@[0].deep_view() =~= out@[0]@);
        assert(out.deep_view() =~= spec_expected_one_of(expected.deep_view()));
    }
    out
}

} // verus!
