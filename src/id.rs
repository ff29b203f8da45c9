//! Command identifiers: ULIDs, held as their 128-bit value.
use vstd::arithmetic::power2::pow2;
use vstd::prelude::*;

verus! {

/// Crockford's base32 digits.
pub open spec fn crockford_alphabet() -> Seq<char> {
    seq![
        '0', '1', '2', '3', '4', '5', '6', '7', '8', '9', 'A', 'B', 'C', 'D', 'E', 'F',
        'G', 'H', 'J', 'K', 'M', 'N', 'P', 'Q', 'R', 'S', 'T', 'V', 'W', 'X', 'Y', 'Z',
    ]
}

/// The canonical text of the ULID with value `id`: 26 base32 digits, most
/// significant first, each standing for five bits.
pub open spec fn ulid_text(id: u128) -> Seq<char> {
    Seq::new(26, |i: int| crockford_alphabet()[(id as int / pow2((5 * (25 - i)) as nat) as int) % 32])
}

/// Relies on `ulid::Ulid::new`: a fresh identifier from the clock and a
/// random source. Nothing is promised of its value.
#[verifier::external_body]
pub(crate) fn fresh_id() -> (r: u128) {
    ulid::Ulid::new().0
}

/// Relies on `ulid::Ulid::to_string`: the Crockford base32 text of the
/// value, `ULID_LEN` (26) digits of five bits each.
#[verifier::external_body]
pub(crate) fn id_text(id: u128) -> (r: String)
    ensures
        r@ == ulid_text(id),
        r@.len() == 26,
{
    ulid::Ulid(id).to_string()
}

} // verus!
