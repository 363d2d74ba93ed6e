//! The MAC engine: HMAC-SHA-256 over the canonical bytes, and a
//! constant-time digest comparison, both through an outside implementation.

use vstd::prelude::*;
use crypto::mac::Mac;

verus! {

/// The HMAC-SHA-256 digest of a message under a key. The digest is a pure
/// function of key and message; its value is not axiomatized here.
pub uninterp spec fn hmac_sha256_of(key: Seq<u8>, data: Seq<u8>) -> Seq<u8>;

/// Relies on crypto's `Hmac` over `Sha256`: the digest depends on the key
/// and message bytes alone, and a SHA-256 digest is 32 bytes long.
#[verifier::external_body]
pub fn hmac_sha256(key: &[u8], data: &[u8]) -> (r: Vec<u8>)
    ensures
        r@ == hmac_sha256_of(key@, data@),
        r@.len() == 32,
{
    let mut m = crypto::hmac::Hmac::new(crypto::sha2::Sha256::new(), key);
    m.input(data);
    let mut out = vec![0u8; m.output_bytes()];
    m.raw_result(&mut out);
    out
}

/// The MAC is deterministic: it depends on nothing but the key bytes and
/// the message bytes, so signing the same canonical bytes under the same
/// key twice yields identical digests.
pub proof fn lemma_mac_deterministic(key1: Seq<u8>, data1: Seq<u8>, key2: Seq<u8>, data2: Seq<u8>)
    requires
        key1 == key2,
        data1 == data2,
    ensures
        hmac_sha256_of(key1, data1) == hmac_sha256_of(key2, data2),
{
}

/// Relies on crypto's `fixed_time_eq`: returns whether the two byte slices
/// are equal, comparing in constant time; unequal lengths compare unequal.
/// Two empty slices are excluded: on that corner the outside comparison
/// answers false, so the first slice must be non-empty (a digest always is).
#[verifier::external_body]
pub fn constant_time_eq(a: &[u8], b: &[u8]) -> (r: bool)
    requires
        a@.len() > 0,
    ensures
        r == (a@ == b@),
{
    crypto::util::fixed_time_eq(a, b)
}

} // verus!
