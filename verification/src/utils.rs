use vstd::prelude::*;
use crate::errors::ConveyError;

verus! {

/// A well-formed magnet link is longer than eight characters and begins with
/// the exact eight-character prefix `magnet:?`.
pub open spec fn spec_is_magnet_link_valid(s: Seq<char>) -> bool {
    s.len() > 8 && s.subrange(0, 8) == "magnet:?"@
}

/// Structural prefix check for magnet links: no URI parsing beyond the
/// eight-character `magnet:?` prefix is performed.
pub fn is_magnet_link_valid(magnet: &str) -> (valid: bool)
    ensures
        valid == spec_is_magnet_link_valid(magnet@),
{
    let prefix = "magnet:?";
    proof {
        reveal_strlit("magnet:?");
    }
    if magnet.unicode_len() <= 8 {
        return false;
    }
    let mut i: usize = 0;
    while i < 8
        invariant
            magnet@.len() > 8,
            0 <= i <= 8,
            prefix@ == "magnet:?"@,
            prefix@.len() == 8,
            forall|j: int| 0 <= j < i ==> magnet@[j] == prefix@[j],
        decreases 8 - i,
    {
        if magnet.get_char(i) != prefix.get_char(i) {
            proof {
                assert(magnet@.subrange(0, 8)[i as int] != "magnet:?"@[i as int]);
            }
            return false;
        }
        i += 1;
    }
    proof {
        assert(magnet@.subrange(0, 8) =~= "magnet:?"@);
    }
    true
}

/// What the one-way hash used for token derivation returns for a byte
/// sequence: a function of the input alone, named but not spelled out.
pub uninterp spec fn digest_of(bytes: Seq<u8>) -> Seq<u8>;

/// What the standard base64 encoding (with padding) of a byte sequence is:
/// a function of the input alone, named but not spelled out.
pub uninterp spec fn base64_of(bytes: Seq<u8>) -> Seq<char>;

/// Relies on `rand::random`, which draws from the thread-local
/// cryptographically secure generator.  The values are random, so nothing is
/// promised of them beyond their count.
#[verifier::external_body]
fn random_bytes32() -> (bytes: Vec<u8>)
    ensures
        bytes@.len() == 32,
{
    rand::random::<[u8; 32]>().to_vec()
}

#[verifier::external_type_specification]
#[verifier::external_body]
pub struct ExUnknownCryptoError(orion::errors::UnknownCryptoError);

/// Relies on `orion::hash::digest`: the BLAKE2b-256 digest of the input,
/// 32 bytes long and a function of the input alone.  The call succeeds: for
/// a fresh in-memory state with this fixed, valid output size, every error
/// path in the source (bad output size, keyed reset, second finalize) is
/// unreachable.
#[verifier::external_body]
fn hash_bytes(bytes: &Vec<u8>) -> (r: Result<Vec<u8>, orion::errors::UnknownCryptoError>)
    ensures
        r is Ok,
        r matches Ok(d) ==> d@ == digest_of(bytes@) && d@.len() == 32,
{
    match orion::hash::digest(bytes.as_slice()) {
        Ok(d) => Ok(d.as_ref().to_vec()),
        Err(e) => Err(e),
    }
}

/// Relies on `base64::encode`: the standard alphabet with padding, so the
/// output is a function of the input alone and is 4 * ceil(n / 3) characters
/// long for n input bytes.
#[verifier::external_body]
fn base64_encode_bytes(bytes: &Vec<u8>) -> (r: String)
    ensures
        r@ == base64_of(bytes@),
        r@.len() == 4 * ((bytes@.len() + 2) / 3),
{
    base64::encode(bytes.as_slice())
}

/// Relies on `std::time::SystemTime::now` for the wall-clock reading, which
/// the body converts to milliseconds since the Unix epoch.  The reading
/// depends on the clock, so nothing is promised of the value.
#[verifier::external_body]
pub(crate) fn current_unix_millis() -> (t: u64)
{
    match std::time::SystemTime::now().duration_since(std::time::UNIX_EPOCH) {
        Ok(d) => d.as_millis() as u64,
        Err(_) => 0,
    }
}

/// Derives the token text for the given entropy bytes: the bytes are passed
/// through the one-way hash and the 32-byte digest is base64-encoded, giving
/// 44 characters.  The hashing step cannot fail here, so a token is always
/// produced; the `Result` shape is kept for the callers' error plumbing.
pub fn token_from_entropy(entropy: &Vec<u8>) -> (r: Result<String, ConveyError>)
    ensures
        r matches Ok(t) && t@ == base64_of(digest_of(entropy@)) && t@.len() == 44,
{
    match hash_bytes(entropy) {
        Ok(digest) => Ok(base64_encode_bytes(&digest)),
        Err(_) => Err(ConveyError::InternalError),
    }
}

/// Produces a fresh secret revocation token: 32 bytes from the secure random
/// source, hashed, then base64-encoded.  The token is never empty and is
/// unpredictable without knowledge of the random source state.
pub fn gen_token() -> (r: Result<String, ConveyError>)
    ensures
        r matches Ok(t) && t@.len() == 44 && (exists|b: Seq<u8>|
            b.len() == 32 && t@ == #[trigger] base64_of(digest_of(b))),
{
    let entropy = random_bytes32();
    let r = token_from_entropy(&entropy);
    proof {
        assert(entropy@.len() == 32 && r->Ok_0@ == base64_of(digest_of(entropy@)));
    }
    r
}

} // verus!
