//! Built-in functions, installed into the root environment before a run.
//!
//! The one built-in is `clock`, a native function of arity zero: each
//! call of it reads the host clock and returns the milliseconds since the
//! Unix epoch as a number.  Hosts may install further native functions by
//! name through `register_native`; every native reads the host's ambient
//! sample stream at each call.

use vstd::prelude::*;

use crate::environment::{spec_define, wf_state, Environment, StateV};
use crate::text;
use crate::value::{Value, ValueV};

verus! {

use vstd::string::is_ascii;
use vstd::utf8::is_ascii_chars;

/// Relies on std::time::SystemTime: the milliseconds since the Unix
/// epoch, read at this call.  The state's ghost stream of pending samples
/// stands for what the host clock will deliver; each call consumes the
/// next entry, and this contract identifies that entry with the sample
/// actually taken — so the semantics stays a function of the state while
/// every call re-reads the clock.
#[verifier::external_body]
pub fn clock_sample(environment: &mut Environment) -> (r: u64)
    ensures
        final(environment)@ == (StateV { tick: old(environment)@.tick + 1, ..old(environment)@ }),
        r == old(environment)@.ticks[old(environment)@.tick as int],
{
    let _ = environment;
    match std::time::SystemTime::now().duration_since(std::time::UNIX_EPOCH) {
        Ok(d) => d.as_millis() as u64,
        Err(_) => 0,
    }
}

/// Install a native function of the given name and arity; each of its
/// calls returns the number encoding of the host's next ambient sample.
pub fn register_native(environment: &mut Environment, name: Vec<u8>, arity: usize)
    requires
        wf_state(old(environment)@),
    ensures
        wf_state(final(environment)@),
        final(environment)@ == spec_define(
            old(environment)@,
            name@,
            ValueV::Native { name: name@, arity: arity as nat },
        ),
{
    let native = Value::NativeFunction { name: text::clone_bytes(&name), arity };
    environment.define(&name, native);
}

/// Install the built-ins: `clock`, arity zero, reading the host clock at
/// each call.
pub fn register_globals(environment: &mut Environment)
    requires
        wf_state(old(environment)@),
    ensures
        wf_state(final(environment)@),
        final(environment)@ == spec_define(
            old(environment)@,
            text::ascii_bytes("clock"@),
            ValueV::Native { name: text::ascii_bytes("clock"@), arity: 0 },
        ),
{
    proof {
        reveal_strlit("clock");
        assert(is_ascii_chars("clock"@));
    }
    let name = text::lit("clock");
    register_native(environment, name, 0);
}

} // verus!
