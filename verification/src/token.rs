//! Random hex token generation.
//!
//! A token is 32 lowercase hex characters built from the current wall-clock
//! time and a word drawn from a collision-resistant random generator. The
//! entropy sources are trusted; the rendering and the shape of the result are
//! verified.

use vstd::prelude::*;

use crate::hex::{hex_render, hex_seq, is_hex_digit, lemma_hex_seq_shape};

verus! {

/// Relies on `std::time::SystemTime::now` and `duration_since(UNIX_EPOCH)`:
/// the low 64 bits of the current time in nanoseconds since the epoch.
/// The value depends on the clock, so nothing is assumed of it.
#[verifier::external_body]
pub(crate) fn unix_nanos() -> u64 {
    match std::time::SystemTime::now().duration_since(std::time::UNIX_EPOCH) {
        Ok(d) => d.as_nanos() as u64,
        Err(_) => 0,
    }
}

/// Relies on `rand::random`: a word from the thread-local random generator.
/// The value is random, so nothing is assumed of it.
#[verifier::external_body]
pub(crate) fn random_u64() -> u64 {
    rand::random::<u64>()
}

/// Whether every character of `s` is an ASCII hex digit.
pub open spec fn all_hex(s: Seq<char>) -> bool {
    forall|i: int| 0 <= i < s.len() ==> is_hex_digit(#[trigger] s[i])
}

/// Two rendered words concatenated: 32 hex characters.
pub proof fn lemma_hex_pair_shape(a: int, b: int)
    requires
        a >= 0,
        b >= 0,
    ensures
        (hex_seq(a, 16) + hex_seq(b, 16)).len() == 32,
        all_hex(hex_seq(a, 16) + hex_seq(b, 16)),
{
    lemma_hex_seq_shape(a, 16);
    lemma_hex_seq_shape(b, 16);
}

/// Generate a 32-character lowercase hex token from the clock and a random
/// word. Unique in practice across a process lifetime; not a secret of
/// cryptographic strength.
pub fn generate_random_token() -> (r: String)
    ensures
        r@.len() == 32,
        all_hex(r@),
{
    let stamp = unix_nanos();
    let word = random_u64();
    let mut s = hex_render(stamp, 16);
    let tail = hex_render(word, 16);
    s.append(tail.as_str());
    proof {
        lemma_hex_pair_shape(stamp as int, word as int);
    }
    s
}

} // verus!
