//! The randomness the protocol consumes: verification tags, initial
//! transmission sequence numbers, and cookie material.

use vstd::prelude::*;

verus! {

/// Relies on rand::fill: fills a fixed four-byte buffer, so exactly
/// four bytes come back. Nothing is assumed about their values.
#[verifier::external_body]
pub fn random_cookie_bytes() -> (r: Vec<u8>)
    ensures
        r@.len() == 4,
{
    let mut buf = [0u8; 4];
    rand::fill(&mut buf[..]);
    buf.to_vec()
}

/// Relies on rand::random_range over `1..=u32::MAX`: the sample lies in
/// the requested range, so a verification tag is never zero.
#[verifier::external_body]
pub fn random_verification_tag() -> (r: u32)
    ensures
        r >= 1,
{
    rand::random_range(1..=u32::MAX)
}

/// Relies on rand::random_range over the full 32-bit range. Nothing is
/// assumed about the value.
#[verifier::external_body]
pub fn random_u32() -> u32 {
    rand::random_range(0..=u32::MAX)
}

} // verus!
