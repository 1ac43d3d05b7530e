//! Friendly IDs: a reversible, compact, URL-safe textual form for 128-bit
//! identifiers. The core is the base62 codec in [`base62`]; the functions
//! here compose it with a source of fresh random identifiers.

use vstd::prelude::*;

pub mod base62;
pub mod error;

verus! {

use crate::base62::all_base62;
use crate::base62::decode_spec;
use crate::base62::str_value;
use crate::error::DecodeError;

/// Relies on uuid::Uuid::new_v4 (a fresh random version-4 UUID) and
/// uuid::Uuid::as_u128 (its 128 bits, big-endian, as one unsigned integer).
/// The result depends on the random source, so nothing is promised of it.
#[verifier::external_body]
fn fresh_id_bits() -> u128 {
    uuid::Uuid::new_v4().as_u128()
}

/// Creates a new friendly ID: the base62 encoding of the 128 bits of a
/// freshly generated random UUID. Never fails: whatever the random source
/// returns, the result is a nonempty string of alphabet symbols, and it
/// decodes back to that value.
pub fn create() -> (r: String)
    ensures
        r@.len() >= 1,
        all_base62(r@),
        r@ == seq!['0'] || r@[0] != '0',
        decode_spec(r@) == Ok::<u128, DecodeError>(str_value(r@) as u128),
{
    let bits = fresh_id_bits();
    let r = crate::base62::encode(bits);
    proof {
        crate::base62::lemma_round_trip(r@, bits);
    }
    r
}

/// Encodes the 128 bits of a UUID, read big-endian as one unsigned integer,
/// as its minimal base62 numeral. Total: no input fails. The result always
/// decodes back to `id`.
pub fn encode(id: u128) -> (r: String)
    ensures
        r@.len() >= 1,
        all_base62(r@),
        str_value(r@) == id as int,
        id == 0 ==> r@ == seq!['0'],
        id != 0 ==> r@[0] != '0',
        decode_spec(r@) == Ok::<u128, DecodeError>(id),
{
    let r = crate::base62::encode(id);
    proof {
        crate::base62::lemma_round_trip(r@, id);
    }
    r
}

/// Decodes a friendly ID back to the 128 bits of the UUID it names,
/// exactly as `decode_spec` says. Malformed input comes back as a typed
/// error the caller can branch on; decoding never panics.
pub fn decode(id: &str) -> (r: Result<u128, DecodeError>)
    ensures
        r == decode_spec(id@),
{
    crate::base62::decode(id)
}

} // verus!
