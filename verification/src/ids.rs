//! Generation of opaque id tokens.

use vstd::prelude::*;

verus! {

/// Relies on `nanoid::format` with the crate's secure random source and
/// its default URL-safe 64-symbol alphabet: the result is an id of
/// exactly 21 ASCII symbols.  The content is random, so nothing more is
/// stated about it.
#[verifier::external_body]
pub(crate) fn fresh_token() -> (r: String)
    ensures
        r@.len() == 21,
{
    nanoid::format(nanoid::rngs::default, &nanoid::alphabet::SAFE, 21)
}

} // verus!
