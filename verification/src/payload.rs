use bytes::Bytes;
use vstd::prelude::*;

verus! {

#[verifier::external_type_specification]
#[verifier::external_body]
pub struct ExBytes(bytes::Bytes);

/// The octets that a payload buffer holds, in order.
pub uninterp spec fn payload_octets(data: Bytes) -> Seq<u8>;

/// `bytes::Bytes::clone` makes a second handle on the same payload.
///
/// Trusted: the clone is a shallow copy that refers to the same byte window
/// as the handle it was made from, so both hold the same octets.
pub assume_specification[ <bytes::Bytes as Clone>::clone ](data: &Bytes) -> (copy: Bytes)
    ensures
        payload_octets(copy) == payload_octets(*data),
;

} // verus!
