//! Byte-string helpers.
//!
//! Names, string values and printed output are byte vectors; these helpers
//! compare them, concatenate them, and turn ASCII string literals into
//! byte vectors with their contents known to the verifier.

use vstd::prelude::*;

verus! {

use vstd::string::is_ascii;
use vstd::utf8::is_ascii_chars;

/// The bytes of an ASCII character sequence.
pub open spec fn ascii_bytes(s: Seq<char>) -> Seq<u8> {
    s.map_values(|c: char| c as u8)
}

/// The bytes of an ASCII string literal.
pub fn lit(s: &str) -> (r: Vec<u8>)
    requires
        is_ascii(s),
    ensures
        r@ == ascii_bytes(s@),
{
    broadcast use vstd::string::is_ascii_spec_bytes;

    let b = s.as_bytes();
    let v = vstd::slice::slice_to_vec(b);
    proof {
        assert(v@ =~= ascii_bytes(s@));
    }
    v
}

/// Copy a byte vector.
pub fn clone_bytes(b: &Vec<u8>) -> (r: Vec<u8>)
    ensures
        r@ == b@,
{
    let mut out: Vec<u8> = Vec::new();
    let mut i: usize = 0;
    while i < b.len()
        invariant
            i <= b.len(),
            out@ =~= b@.take(i as int),
        decreases b.len() - i,
    {
        out.push(b[i]);
        i = i + 1;
    }
    proof {
        assert(out@ =~= b@);
    }
    out
}

/// Whether two byte vectors hold the same bytes.
pub fn bytes_eq(a: &Vec<u8>, b: &Vec<u8>) -> (r: bool)
    ensures
        r == (a@ == b@),
{
    if a.len() != b.len() {
        proof {
            assert(a@ != b@);
        }
        return false;
    }
    let mut i: usize = 0;
    while i < a.len()
        invariant
            i <= a.len(),
            a@.len() == b@.len(),
            forall|j: int| 0 <= j < i ==> a@[j] == b@[j],
        decreases a.len() - i,
    {
        if a[i] != b[i] {
            return false;
        }
        i = i + 1;
    }
    proof {
        assert(a@ =~= b@);
    }
    true
}

/// Append the bytes of `src` to `dst`.
pub fn push_bytes(dst: &mut Vec<u8>, src: &Vec<u8>)
    ensures
        final(dst)@ == old(dst)@ + src@,
{
    let mut i: usize = 0;
    while i < src.len()
        invariant
            i <= src.len(),
            dst@ =~= old(dst)@ + src@.take(i as int),

        decreases src.len() - i,
    {
        dst.push(src[i]);
        proof {
            assert(old(dst)@ + src@.take(i + 1) =~= (old(dst)@ + src@.take(i as int)).push(
                src@[i as int],
            ));
        }
        i = i + 1;
    }
    proof {
        assert(src@.take(src@.len() as int) =~= src@);
    }
}

/// Whether a byte occurs in a sequence.
pub open spec fn contains_byte(s: Seq<u8>, b: u8) -> bool {
    exists|i: int| 0 <= i < s.len() && s[i] == b
}

/// Whether a byte occurs in a vector.
pub fn has_byte(v: &Vec<u8>, b: u8) -> (r: bool)
    ensures
        r == contains_byte(v@, b),
{
    let mut i: usize = 0;
    while i < v.len()
        invariant
            i <= v@.len(),
            forall|j: int| 0 <= j < i ==> v@[j] != b,
        decreases v@.len() - i,
    {
        if v[i] == b {
            return true;
        }
        i = i + 1;
    }
    false
}

/// Appending to a vector of byte vectors appends to its deep view.
pub proof fn lemma_deep_view_push(v: Vec<Vec<u8>>, x: Vec<u8>, w: Vec<Vec<u8>>)
    requires
        w@ == v@.push(x),
    ensures
        w.deep_view() == v.deep_view().push(x@),
{
    let dv = w.deep_view();
    let odv = v.deep_view();
    assert forall|i: int| 0 <= i < dv.len() implies dv[i] == odv.push(x@)[i] by {
        assert(w@[i].deep_view() =~= w@[i]@);
        if i < odv.len() {
            assert(v@[i].deep_view() =~= v@[i]@);
            assert(w@[i] == v@[i]);
        } else {
            assert(w@[i] == x);
        }
    }
    assert(dv =~= odv.push(x@));
}

} // verus!
