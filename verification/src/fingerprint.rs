//! Fingerprints of encrypted content.
//!
//! Encrypted content can be long. The session remembers it by the SHA-256 digest of its
//! UTF-8 bytes, held as two integers so that an ordered set or map can be keyed by it.
use vstd::bytes::{
    lemma_auto_spec_u128_to_from_le_bytes, spec_u128_from_le_bytes, spec_u128_to_le_bytes,
    u128_from_le_bytes,
};
use vstd::prelude::*;
use vstd::slice::slice_subrange;
use vstd::utf8::encode_utf8;

verus! {

/// The two halves of a SHA-256 digest, each read as a little-endian integer.
pub type Fingerprint = (u128, u128);

/// The SHA-256 digest of `data`.
pub uninterp spec fn sha256(data: Seq<u8>) -> Seq<u8>;

/// A digest as a fingerprint.
pub open spec fn digest_fingerprint(digest: Seq<u8>) -> Fingerprint {
    (
        spec_u128_from_le_bytes(digest.subrange(0, 16)),
        spec_u128_from_le_bytes(digest.subrange(16, 32)),
    )
}

/// The fingerprint of a text.
pub open spec fn fingerprint(content: Seq<char>) -> Fingerprint {
    digest_fingerprint(sha256(encode_utf8(content)))
}

/// Calls `sha2::Sha256::digest`. Trusted: the 32 bytes that it returns depend on `data` alone,
/// and are what `sha256` names.
#[verifier::external_body]
fn sha256_digest(data: &[u8]) -> (digest: [u8; 32])
    ensures
        digest@ == sha256(data@),
{
    <sha2::Sha256 as sha2::Digest>::digest(data).into()
}

/// The fingerprint of `content`: its two halves hold the 32 bytes of the digest of the whole text.
pub fn fingerprint_of(content: &str) -> (result: Fingerprint)
    ensures
        result == fingerprint(content@),
        sha256(encode_utf8(content@)).len() == 32,
        spec_u128_to_le_bytes(result.0) + spec_u128_to_le_bytes(result.1) == sha256(
            encode_utf8(content@),
        ),
{
    let digest: [u8; 32] = sha256_digest(content.as_bytes());
    let bytes: &[u8] = &digest;
    proof {
        lemma_auto_spec_u128_to_from_le_bytes();
        assert(digest@ =~= digest@.subrange(0, 16) + digest@.subrange(16, 32));
    }
    (
        u128_from_le_bytes(slice_subrange(bytes, 0, 16)),
        u128_from_le_bytes(slice_subrange(bytes, 16, 32)),
    )
}

/// Two digests have the same fingerprint only where they are the same 32 bytes.
pub proof fn law_fingerprints_tell_digests_apart(a: Seq<u8>, b: Seq<u8>)
    requires
        a.len() == 32,
        b.len() == 32,
    ensures
        digest_fingerprint(a) == digest_fingerprint(b) <==> a == b,
{
    if digest_fingerprint(a) == digest_fingerprint(b) {
        lemma_auto_spec_u128_to_from_le_bytes();
        assert(spec_u128_to_le_bytes(digest_fingerprint(a).0) == a.subrange(0, 16));
        assert(spec_u128_to_le_bytes(digest_fingerprint(b).0) == b.subrange(0, 16));
        assert(spec_u128_to_le_bytes(digest_fingerprint(a).1) == a.subrange(16, 32));
        assert(spec_u128_to_le_bytes(digest_fingerprint(b).1) == b.subrange(16, 32));
        assert(a =~= a.subrange(0, 16) + a.subrange(16, 32));
        assert(b =~= b.subrange(0, 16) + b.subrange(16, 32));
    }
}

/// Fingerprints tell texts apart as well as SHA-256 does: two texts have the same fingerprint where
/// the digests of their whole UTF-8 forms are the same, and, as those are 32 bytes long, only there.
pub proof fn law_fingerprints_tell_texts_apart(a: Seq<char>, b: Seq<char>)
    ensures
        sha256(encode_utf8(a)) == sha256(encode_utf8(b)) ==> fingerprint(a) == fingerprint(b),
        sha256(encode_utf8(a)).len() == 32 && sha256(encode_utf8(b)).len() == 32 && fingerprint(a)
            == fingerprint(b) ==> sha256(encode_utf8(a)) == sha256(encode_utf8(b)),
        sha256(encode_utf8(a)).len() == 32 ==> spec_u128_to_le_bytes(fingerprint(a).0)
            + spec_u128_to_le_bytes(fingerprint(a).1) == sha256(encode_utf8(a)),
{
    if sha256(encode_utf8(a)).len() == 32 && sha256(encode_utf8(b)).len() == 32 {
        law_fingerprints_tell_digests_apart(sha256(encode_utf8(a)), sha256(encode_utf8(b)));
    }
    if sha256(encode_utf8(a)).len() == 32 {
        let digest = sha256(encode_utf8(a));
        lemma_auto_spec_u128_to_from_le_bytes();
        assert(spec_u128_to_le_bytes(fingerprint(a).0) == digest.subrange(0, 16));
        assert(spec_u128_to_le_bytes(fingerprint(a).1) == digest.subrange(16, 32));
        assert(digest =~= digest.subrange(0, 16) + digest.subrange(16, 32));
    }
}

} // verus!
