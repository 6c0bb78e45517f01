//! The anti-replay cookie: an opaque byte string issued by the
//! responder with its InitAck and echoed back by the initiator.
//! Equality is byte-wise; a fresh cookie is drawn per handshake.

use crate::random::random_cookie_bytes;
use vstd::prelude::*;

verus! {

#[derive(Clone, Debug, PartialEq)]
pub struct Cookie {
    internal: Vec<u8>,
}

impl View for Cookie {
    type V = Seq<u8>;

    closed spec fn view(&self) -> Seq<u8> {
        self.internal@
    }
}

impl Cookie {
    /// Draws a fresh four-byte random cookie.
    pub fn new() -> (c: Cookie)
        ensures
            c@.len() == 4,
    {
        Cookie { internal: random_cookie_bytes() }
    }

    /// Wraps the given bytes as a cookie, as when one is extracted
    /// from a received state-cookie parameter.
    pub fn from_bytes(buf: Vec<u8>) -> (c: Cookie)
        ensures
            c@ == buf@,
    {
        Cookie { internal: buf }
    }

    /// The cookie's bytes, for embedding in a parameter or a chunk.
    pub fn to_bytes(&self) -> (r: Vec<u8>)
        ensures
            r@ == self@,
    {
        crate::bytes::clone_bytes(&self.internal)
    }

    pub fn len(&self) -> (n: usize)
        ensures
            n == self@.len(),
    {
        self.internal.len()
    }

    /// Byte-wise comparison, the test that validates a returned
    /// CookieEcho against the cookie issued in the InitAck.
    pub fn equals(&self, other: &Cookie) -> (r: bool)
        ensures
            r == (self@ == other@),
    {
        let r = equal_bytes(&self.internal, &other.internal);
        proof {
            if self.internal@ =~= other.internal@ {
                assert(self@ == other@);
            } else {
                assert(self@ != other@);
            }
        }
        r
    }
}

/// Byte-wise equality of two buffers.
pub fn equal_bytes(a: &Vec<u8>, b: &Vec<u8>) -> (r: bool)
    ensures
        r == (a@ =~= b@),
{
    if a.len() != b.len() {
        return false;
    }
    let n: usize = a.len();
    let mut i: usize = 0;
    while i < n
        invariant
            n == a@.len() && n == b@.len(),
            i <= n,
            forall|j: int| 0 <= j < i ==> a@[j] == b@[j],
        decreases n - i,
    {
        if a[i] != b[i] {
            return false;
        }
        i += 1;
    }
    true
}

} // verus!
