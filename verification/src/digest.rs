use vstd::prelude::*;

use crate::codec::frame;
use crate::kind::Kind;

verus! {

/// The 160-bit SHA-1 digest of `data`, as its 20 bytes. The algorithm is
/// far too large to state here; the name stands for whatever the `sha1`
/// crate computes, which is a function of the input bytes alone.
pub uninterp spec fn sha1_of(data: Seq<u8>) -> Seq<u8>;

/// Relies on `sha1::Sha1` through `Digest::digest`: the digest is a pure
/// function of the input bytes and is always exactly 20 bytes long.
#[verifier::external_body]
fn sha1_digest(data: &[u8]) -> (r: Vec<u8>)
    ensures
        r@ == sha1_of(data@),
        r@.len() == 20,
{
    let d = <sha1::Sha1 as sha1::Digest>::digest(data);
    d.to_vec()
}

/// The lowercase hexadecimal digit with value `n`.
pub open spec fn hex_digit(n: int) -> char
    recommends
        0 <= n < 16,
{
    if n == 0 {
        '0'
    } else if n == 1 {
        '1'
    } else if n == 2 {
        '2'
    } else if n == 3 {
        '3'
    } else if n == 4 {
        '4'
    } else if n == 5 {
        '5'
    } else if n == 6 {
        '6'
    } else if n == 7 {
        '7'
    } else if n == 8 {
        '8'
    } else if n == 9 {
        '9'
    } else if n == 10 {
        'a'
    } else if n == 11 {
        'b'
    } else if n == 12 {
        'c'
    } else if n == 13 {
        'd'
    } else if n == 14 {
        'e'
    } else {
        'f'
    }
}

/// Lowercase hexadecimal encoding of bytes: two digits per byte, high
/// nibble first.
pub open spec fn hex_of(data: Seq<u8>) -> Seq<char> {
    Seq::new(
        data.len() * 2,
        |i: int|
            if i % 2 == 0 {
                hex_digit(data[i / 2] as int / 16)
            } else {
                hex_digit(data[i / 2] as int % 16)
            },
    )
}

/// Relies on `hex::encode`: lowercase hexadecimal, two digits per byte,
/// high nibble first.
#[verifier::external_body]
fn hex_encode(data: &[u8]) -> (r: String)
    ensures
        r@ == hex_of(data@),
{
    hex::encode(data)
}

/// The identifier of an object: the hex-encoded SHA-1 digest of its
/// framed bytes. Never stored, always derived from kind and payload.
pub open spec fn id_of(k: Kind, payload: Seq<u8>) -> Seq<char> {
    hex_of(sha1_of(frame(k, payload)))
}

/// Computes the identifier of the object with the given kind and payload.
pub fn object_id(k: Kind, payload: &[u8]) -> (r: String)
    ensures
        r@ == id_of(k, payload@),
        r@.len() == 40,
        crate::ids::is_valid_id(r@),
        payload@.len() <= usize::MAX,
{
    let framed = crate::codec::encode_object(k, payload);
    let digest = sha1_digest(framed.as_slice());
    proof {
        crate::ids::lemma_hex_id_valid(digest@);
    }
    hex_encode(digest.as_slice())
}

} // verus!
