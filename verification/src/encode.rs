//! The one outside call the loader makes: standard base64 encoding of glyph
//! file bytes.

use vstd::prelude::*;
use base64::Engine;

verus! {

/// What standard (padded) base64 encoding returns for a byte sequence: a pure
/// function of the bytes alone.
pub uninterp spec fn base64_of(bytes: Seq<u8>) -> Seq<char>;

/// Relies on base64's `Engine::encode` with the `STANDARD` engine: the output
/// depends on the input bytes alone, and its length is four characters per
/// complete three-byte chunk plus four for a trailing partial chunk, as the
/// crate's `encoded_len` computes it. `encode` panics only when that length
/// overflows `usize`; the precondition rules that out.
#[verifier::external_body]
pub(crate) fn base64_encode(bytes: &Vec<u8>) -> (r: String)
    requires
        bytes@.len() <= usize::MAX as nat / 2,
    ensures
        r@ == base64_of(bytes@),
        r@.len() == 4 * (bytes@.len() as int / 3) + (if bytes@.len() as int % 3 == 0 {
            0int
        } else {
            4int
        }),
{
    base64::engine::general_purpose::STANDARD.encode(bytes)
}

} // verus!
