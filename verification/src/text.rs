//! Bytes as text.

use vstd::prelude::*;
use vstd::utf8::{decode_utf8, valid_utf8};

verus! {

/// The error of `String::from_utf8` of the standard library, which is
/// carried through unread.
#[verifier::external_type_specification]
#[verifier::external_body]
pub struct ExFromUtf8Error(std::string::FromUtf8Error);

/// `String::from_utf8` of the standard library. The contract claims what the
/// library documents: the call succeeds exactly on well-formed UTF-8, and the
/// string then holds the characters that the bytes encode.
#[verifier::external_body]
pub(crate) fn string_from_utf8(bytes: Vec<u8>) -> (r: Result<String, std::string::FromUtf8Error>)
    ensures
        r is Ok <==> valid_utf8(bytes@),
        r matches Ok(s) ==> s@ == decode_utf8(bytes@),
{
    String::from_utf8(bytes)
}

/// The length of `b` without the zero bytes at its end.
pub open spec fn trimmed_len(b: Seq<u8>) -> nat
    decreases b.len(),
{
    if b.len() > 0 && b.last() == 0 {
        trimmed_len(b.drop_last())
    } else {
        b.len()
    }
}

/// `b` without the zero bytes at its end.
pub open spec fn trimmed(b: Seq<u8>) -> Seq<u8> {
    b.subrange(0, trimmed_len(b) as int)
}

/// Trimming removes nothing but zeros from the end, and leaves no zero there.
pub proof fn lemma_trimmed(b: Seq<u8>)
    ensures
        trimmed_len(b) <= b.len(),
        trimmed_len(b) > 0 ==> b[trimmed_len(b) - 1] != 0,
        forall|i: int| trimmed_len(b) <= i < b.len() ==> b[i] == 0,
    decreases b.len(),
{
    if b.len() > 0 && b.last() == 0 {
        let c = b.drop_last();
        lemma_trimmed(c);
        assert forall|i: int| trimmed_len(b) <= i < b.len() implies b[i] == 0 by {
            if i < c.len() {
                assert(c[i] == b[i]);
            }
        }
    }
}

/// A sequence that ends in a byte other than zero, or is empty, and is then
/// followed by zeros only, is trimmed back to itself.
pub proof fn lemma_trimmed_padding(b: Seq<u8>, n: nat)
    requires
        n <= b.len(),
        n > 0 ==> b[n - 1] != 0,
        forall|i: int| n <= i < b.len() ==> b[i] == 0,
    ensures
        trimmed_len(b) == n,
    decreases b.len(),
{
    if b.len() > n {
        lemma_trimmed_padding(b.drop_last(), n);
    }
}

/// The bytes of `b` up to the zeros at its end.
pub fn trim_zeros(b: &[u8]) -> (r: Vec<u8>)
    ensures
        r@ == trimmed(b@),
{
    let mut n: usize = b.len();
    assert(b@.subrange(0, n as int) =~= b@);
    while n > 0 && b[n - 1] == 0
        invariant
            n <= b@.len(),
            trimmed_len(b@) == trimmed_len(b@.subrange(0, n as int)),
        decreases n,
    {
        assert(b@.subrange(0, n as int).drop_last() =~= b@.subrange(0, n - 1));
        n -= 1;
    }
    let mut out: Vec<u8> = Vec::with_capacity(n);
    let mut i: usize = 0;
    while i < n
        invariant
            i <= n <= b@.len(),
            out@ =~= b@.subrange(0, i as int),
        decreases n - i,
    {
        out.push(b[i]);
        i += 1;
    }
    out
}

/// Whether `a` and `b` hold the same bytes.
pub fn same_bytes(a: &[u8], b: &[u8]) -> (r: bool)
    ensures
        r == (a@ == b@),
{
    if a.len() != b.len() {
        return false;
    }
    let mut i: usize = 0;
    while i < a.len()
        invariant
            i <= a@.len(),
            a@.len() == b@.len(),
            a@.subrange(0, i as int) =~= b@.subrange(0, i as int),
        decreases a@.len() - i,
    {
        if a[i] != b[i] {
            return false;
        }
        i += 1;
        assert(a@.subrange(0, i as int) =~= a@.subrange(0, i - 1).push(a@[i - 1]));
        assert(b@.subrange(0, i as int) =~= b@.subrange(0, i - 1).push(b@[i - 1]));
    }
    assert(a@ =~= a@.subrange(0, i as int));
    assert(b@ =~= b@.subrange(0, i as int));
    true
}

} // verus!
