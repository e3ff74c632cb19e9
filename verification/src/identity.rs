use vstd::prelude::*;

verus! {

/// The number of random bytes behind one container identity.
pub const IDENTITY_BYTES: usize = 8;

/// The length of an identity: unpadded base-32 of 8 bytes is 13 characters.
pub const IDENTITY_LEN: usize = 13;

/// The lower-case unpadded base-32 encoding of a byte sequence, with the
/// RFC 4648 alphabet. Named here; the encoding itself is the base32 crate's.
pub uninterp spec fn b32_lower_of(data: Seq<u8>) -> Seq<u8>;

/// True for the bytes of the lower-case RFC 4648 base-32 alphabet,
/// `a`..=`z` and `2`..=`7`.
pub open spec fn is_b32_lower_byte(b: u8) -> bool {
    (0x61 <= b <= 0x7a) || (0x32 <= b <= 0x37)
}

/// A valid container identity: exactly 13 lower-case unpadded base-32 bytes.
pub open spec fn is_identity(s: Seq<u8>) -> bool {
    s.len() == IDENTITY_LEN && forall|i: int| 0 <= i < s.len() ==> is_b32_lower_byte(#[trigger] s[i])
}

/// Relies on rand::random: draws 8 bytes, uniformly at random, from the
/// thread-local generator. Nothing is promised of their values.
#[verifier::external_body]
fn draw_bytes() -> (r: Vec<u8>)
    ensures
        r@.len() == IDENTITY_BYTES,
{
    rand::random::<[u8; 8]>().to_vec()
}

/// Relies on base32::encode with `Alphabet::Rfc4648Lower { padding: false }`:
/// the result is a function of the input bytes alone, has exactly
/// `(8 * len + 4) / 5` bytes, and every byte is in the lower-case RFC 4648
/// alphabet.
#[verifier::external_body]
fn base32_lower_nopad(data: &Vec<u8>) -> (r: Vec<u8>)
    ensures
        r@ == b32_lower_of(data@),
        r@.len() == (data@.len() * 8 + 4) / 5,
        forall|i: int| 0 <= i < r@.len() ==> is_b32_lower_byte(#[trigger] r@[i]),
{
    base32::encode(base32::Alphabet::Rfc4648Lower { padding: false }, data.as_slice()).into_bytes()
}

/// Encodes 8 identity bytes as a 13-byte lower-case unpadded base-32 name.
pub fn encode_identity(bytes: &Vec<u8>) -> (r: Vec<u8>)
    requires
        bytes@.len() == IDENTITY_BYTES,
    ensures
        r@ == b32_lower_of(bytes@),
        is_identity(r@),
{
    base32_lower_nopad(bytes)
}

/// Generates a fresh container identity: 8 random bytes, rendered as a
/// 13-byte lower-case unpadded base-32 name. Each call is independent.
pub fn generate() -> (r: Vec<u8>)
    ensures
        is_identity(r@),
{
    let bytes = draw_bytes();
    encode_identity(&bytes)
}

} // verus!
