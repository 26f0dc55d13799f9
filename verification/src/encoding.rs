//! The base64 form in which a binary key travels.

use crate::ascii::{EQUALS, LOWER_A, LOWER_Z, NINE, PLUS, SLASH, UPPER_A, UPPER_Z, ZERO};
use base64::engine::general_purpose::STANDARD;
use base64::Engine;
use vstd::prelude::*;

verus! {

/// `b` is a byte that standard base64 text is made of: an ASCII letter or
/// digit, `+`, `/`, or the padding `=`.
pub open spec fn is_base64_byte(b: u8) -> bool {
    ||| UPPER_A <= b <= UPPER_Z
    ||| LOWER_A <= b <= LOWER_Z
    ||| ZERO <= b <= NINE
    ||| b == PLUS
    ||| b == SLASH
    ||| b == EQUALS
}

/// The length of the padded base64 text of `n` bytes: four bytes for every
/// three of the input, the last group filled up.
pub open spec fn base64_len(n: nat) -> nat {
    4 * ((n + 2) / 3)
}

/// The padded base64 text of `input` in the standard alphabet, as the
/// `base64` crate's `STANDARD` engine encodes it.
pub uninterp spec fn base64_standard(input: Seq<u8>) -> Seq<u8>;

/// Calls `base64::Engine::encode` on `base64::engine::general_purpose::STANDARD`.
///
/// Trusted: the result is the engine's encoding of `input`, named
/// [`base64_standard`]; it is `base64_len` bytes long, and each of its bytes
/// is of the standard alphabet or the padding. The engine panics where the
/// length of the text does not fit in a `usize`: `requires` keeps such input
/// out.
#[verifier::external_body]
pub(crate) fn base64_encode(input: &[u8]) -> (text: Vec<u8>)
    requires
        base64_len(input@.len()) <= usize::MAX,
    ensures
        text@ == base64_standard(input@),
        text@.len() == base64_len(input@.len()),
        forall|i: int| 0 <= i < text@.len() ==> is_base64_byte(#[trigger] text@[i]),
{
    STANDARD.encode(input).into_bytes()
}

} // verus!
