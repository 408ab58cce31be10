//! The byte string that is handed to the source of identifiers.

use vstd::prelude::*;

verus! {

/// The eight bytes of `n`, least significant first.
pub open spec fn little_endian(n: u64) -> Seq<u8> {
    seq![
        (n % 0x100) as u8,
        (n / 0x100 % 0x100) as u8,
        (n / 0x1_0000 % 0x100) as u8,
        (n / 0x100_0000 % 0x100) as u8,
        (n / 0x1_0000_0000 % 0x100) as u8,
        (n / 0x100_0000_0000 % 0x100) as u8,
        (n / 0x1_0000_0000_0000 % 0x100) as u8,
        (n / 0x100_0000_0000_0000 % 0x100) as u8,
    ]
}

/// `parity_scale_codec::Encode::encode` on a `u64`. The codec writes an
/// integer of fixed width as its bytes in little-endian order, so the result
/// is taken to be the eight bytes of `n`, least significant first.
#[verifier::external_body]
pub(crate) fn scale_encode(n: u64) -> (bytes: Vec<u8>)
    ensures
        bytes@ == little_endian(n),
{
    parity_scale_codec::Encode::encode(&n)
}

} // verus!
