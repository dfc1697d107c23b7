//! Runtime values.
//!
//! A value is nil, a number (an IEEE-754 double encoding), a boolean, a
//! string (bytes), a native function, or a user function.  A user function
//! holds the handle of the environment scope it captured.  A native
//! function is a host hook: each call of it returns the number encoding
//! of the host's next ambient sample — for the built-in `clock`, the
//! milliseconds since the Unix epoch at that call.  A native computing a
//! result from its arguments is outside this model: such an impl would
//! sit behind a bare function pointer, which can carry no contract; the
//! arguments of a native call are still evaluated in order and its arity
//! checked.

use vstd::prelude::*;

use crate::ast;
use crate::numbers;
use crate::text;

verus! {

use vstd::string::is_ascii;
use vstd::utf8::is_ascii_chars;

/// A runtime value.
#[derive(Debug, PartialEq)]
pub enum Value {
    Nil,
    Number(u64),
    Boolean(bool),
    String(Vec<u8>),
    NativeFunction { name: Vec<u8>, arity: usize },
    LoxFunction { name: Vec<u8>, closure: usize, params: Vec<Vec<u8>>, body: Box<ast::Stmt> },
}

/// The spec-level form of a runtime value.
pub enum ValueV {
    Nil,
    Number(u64),
    Boolean(bool),
    String(Seq<u8>),
    Native { name: Seq<u8>, arity: nat },
    Function { name: Seq<u8>, closure: nat, params: Seq<Seq<u8>>, body: ast::StmtV },
}

impl View for Value {
    type V = ValueV;

    open spec fn view(&self) -> ValueV {
        match *self {
            Value::Nil => ValueV::Nil,
            Value::Number(bits) => ValueV::Number(bits),
            Value::Boolean(b) => ValueV::Boolean(b),
            Value::String(ref s) => ValueV::String(s@),
            Value::NativeFunction { ref name, arity } => ValueV::Native {
                name: name@,
                arity: arity as nat,
            },
            Value::LoxFunction { ref name, closure, ref params, ref body } => ValueV::Function {
                name: name@,
                closure: closure as nat,
                params: params.deep_view(),
                body: ast::view_stmt(**body),
            },
        }
    }
}

/// Copy a value.
pub fn clone_value(v: &Value) -> (r: Value)
    ensures
        r@ == v@,
{
    match v {
        Value::Nil => Value::Nil,
        Value::Number(bits) => Value::Number(*bits),
        Value::Boolean(b) => Value::Boolean(*b),
        Value::String(s) => Value::String(text::clone_bytes(s)),
        Value::NativeFunction { name, arity } => Value::NativeFunction {
            name: text::clone_bytes(name),
            arity: *arity,
        },
        Value::LoxFunction { name, closure, params, body } => Value::LoxFunction {
            name: text::clone_bytes(name),
            closure: *closure,
            params: ast::clone_params(params),
            body: Box::new(ast::clone_stmt(body)),
        },
    }
}

/// Whether a value passes an assertion or counts as true: everything but
/// nil and false.
pub open spec fn spec_is_truthy(v: ValueV) -> bool {
    match v {
        ValueV::Nil => false,
        ValueV::Boolean(b) => b,
        _ => true,
    }
}

/// Whether a value passes an assertion.
pub fn is_truthy(v: &Value) -> (r: bool)
    ensures
        r == spec_is_truthy(v@),
{
    match v {
        Value::Nil => false,
        Value::Boolean(b) => *b,
        _ => true,
    }
}

/// The form `print` gives a value: `<nil>`, the shortest decimal of a
/// number, `true`/`false`, string contents unquoted, and
/// `<fun NAME (native)>` or `<fun NAME (user)>` for functions.
pub open spec fn spec_repr(v: ValueV) -> Seq<u8> {
    match v {
        ValueV::Nil => text::ascii_bytes("<nil>"@),
        ValueV::Number(bits) => numbers::spec_num_repr(bits),
        ValueV::Boolean(b) => if b {
            text::ascii_bytes("true"@)
        } else {
            text::ascii_bytes("false"@)
        },
        ValueV::String(s) => s,
        ValueV::Native { name, .. } => text::ascii_bytes("<fun "@) + name + text::ascii_bytes(
            " (native)>"@,
        ),
        ValueV::Function { name, .. } => text::ascii_bytes("<fun "@) + name + text::ascii_bytes(
            " (user)>"@,
        ),
    }
}

/// Render a value as `print` shows it.
pub fn print_repr(v: &Value) -> (r: Vec<u8>)
    ensures
        r@ == spec_repr(v@),
{
    match v {
        Value::Nil => {
            proof {
                reveal_strlit("<nil>");
                assert(is_ascii_chars("<nil>"@));
            }
            text::lit("<nil>")
        }
        Value::Number(bits) => numbers::num_repr(*bits),
        Value::Boolean(b) => {
            if *b {
                proof {
                    reveal_strlit("true");
                    assert(is_ascii_chars("true"@));
                }
                text::lit("true")
            } else {
                proof {
                    reveal_strlit("false");
                    assert(is_ascii_chars("false"@));
                }
                text::lit("false")
            }
        }
        Value::String(s) => text::clone_bytes(s),
        Value::NativeFunction { name, .. } => {
            proof {
                reveal_strlit("<fun ");
                assert(is_ascii_chars("<fun "@));
                reveal_strlit(" (native)>");
                assert(is_ascii_chars(" (native)>"@));
            }
            let mut out = text::lit("<fun ");
            text::push_bytes(&mut out, name);
            let tail = text::lit(" (native)>");
            text::push_bytes(&mut out, &tail);
            out
        }
        Value::LoxFunction { name, .. } => {
            proof {
                reveal_strlit("<fun ");
                assert(is_ascii_chars("<fun "@));
                reveal_strlit(" (user)>");
                assert(is_ascii_chars(" (user)>"@));
            }
            let mut out = text::lit("<fun ");
            text::push_bytes(&mut out, name);
            let tail = text::lit(" (user)>");
            text::push_bytes(&mut out, &tail);
            out
        }
    }
}

} // verus!
