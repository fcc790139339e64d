//! SHA-256 and the truncated digests that advertisements carry.

use sha2::Digest;
use vstd::prelude::*;
use vstd::utf8::{encode_utf8, is_ascii_chars_encode_utf8};

verus! {

/// The service id that is hashed into every advertisement.
pub const SERVICE_ID_STR: &'static str = "NearbySharing";

/// The SHA-256 digest of a message.
pub uninterp spec fn sha256(message: Seq<u8>) -> Seq<u8>;

/// Calls `sha2::Sha256::digest`. Claims that the 32 bytes it returns depend on the
/// message alone; they are named `sha256`.
#[verifier::external_body]
pub(crate) fn sha256_digest(message: &[u8]) -> (digest: [u8; 32])
    ensures
        digest@ == sha256(message@),
{
    sha2::Sha256::digest(message).into()
}

/// The service id hash: the first three bytes of the digest of the service id.
pub open spec fn service_hash() -> Seq<u8> {
    sha256(encode_utf8(SERVICE_ID_STR@)).take(3)
}

/// The first two bytes of a digest.
pub fn first2(digest: [u8; 32]) -> (prefix: [u8; 2])
    ensures
        prefix@ == digest@.take(2),
{
    let prefix: [u8; 2] = [digest[0], digest[1]];
    assert(prefix@ =~= digest@.take(2));
    prefix
}

/// The first three bytes of a digest.
pub fn first3(digest: [u8; 32]) -> (prefix: [u8; 3])
    ensures
        prefix@ == digest@.take(3),
{
    let prefix: [u8; 3] = [digest[0], digest[1], digest[2]];
    assert(prefix@ =~= digest@.take(3));
    prefix
}

/// The first four bytes of a digest.
pub fn first4(digest: [u8; 32]) -> (prefix: [u8; 4])
    ensures
        prefix@ == digest@.take(4),
{
    let prefix: [u8; 4] = [digest[0], digest[1], digest[2], digest[3]];
    assert(prefix@ =~= digest@.take(4));
    prefix
}

/// The service id hash.
pub fn service_id_hash() -> (hash: [u8; 3])
    ensures
        hash@ == service_hash(),
{
    first3(sha256_digest(SERVICE_ID_STR.as_bytes()))
}

/// The hash by which a scanner notices that an advertisement has changed: the
/// first four bytes of the digest of the whole outer advertisement.
pub fn advertisement_hash(full_advert_bytes: &[u8]) -> (hash: [u8; 4])
    ensures
        hash@ == sha256(full_advert_bytes@).take(4),
{
    first4(sha256_digest(full_advert_bytes))
}

/// The service id hash is the first three bytes of the digest of the thirteen ASCII
/// characters `NearbySharing`.
pub proof fn law_service_hash()
    ensures
        ({
            let id = seq![
                78u8,
                101u8,
                97u8,
                114u8,
                98u8,
                121u8,
                83u8,
                104u8,
                97u8,
                114u8,
                105u8,
                110u8,
                103u8,
            ];
            sha256(id).len() == 32 ==> service_hash() == seq![
                sha256(id)[0],
                sha256(id)[1],
                sha256(id)[2],
            ]
        }),
{
    let id = seq![
        78u8,
        101u8,
        97u8,
        114u8,
        98u8,
        121u8,
        83u8,
        104u8,
        97u8,
        114u8,
        105u8,
        110u8,
        103u8,
    ];
    reveal_strlit("NearbySharing");
    is_ascii_chars_encode_utf8(SERVICE_ID_STR@);
    assert(encode_utf8(SERVICE_ID_STR@) =~= id);
    if sha256(id).len() == 32 {
        assert(service_hash() =~= seq![sha256(id)[0], sha256(id)[1], sha256(id)[2]]);
    }
}

} // verus!
