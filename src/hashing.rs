//! The content hash used for leaves and for internal nodes.
use crypto::digest::Digest;
use crypto::sha2::Sha256;
use vstd::prelude::*;
use vstd::utf8::{encode_utf8, is_ascii_chars_encode_utf8};

verus! {

/// The lowercase hexadecimal SHA-256 digest of a byte sequence.
pub uninterp spec fn sha256_hex(data: Seq<u8>) -> Seq<char>;

/// True when every character is a lowercase hexadecimal digit.
pub open spec fn is_lower_hex(s: Seq<char>) -> bool {
    forall|i: int|
        0 <= i < s.len() ==> (('0' <= #[trigger] s[i] && s[i] <= '9') || ('a' <= s[i] && s[i] <= 'f'))
}

/// The digest's bit counter is 64 bits wide: inputs must be shorter than
/// 2^61 bytes.
pub open spec fn hash_input_limit() -> nat {
    0x2000_0000_0000_0000
}

/// Relies on rust-crypto's `Sha256` (`Digest::input`, then `Digest::result_str`):
/// the digest of the bytes, 32 bytes rendered as 64 lowercase hex digits.
/// `input` panics when the length in bits overflows 64 bits.
#[verifier::external_body]
fn sha256_of(data: &[u8]) -> (r: String)
    requires
        data@.len() < hash_input_limit(),
    ensures
        r@ == sha256_hex(data@),
        r@.len() == 64,
        is_lower_hex(r@),
{
    let mut hasher = Sha256::new();
    hasher.input(data);
    hasher.result_str()
}

/// The content hash of one block of bytes.
pub fn leaf_hash(block: &[u8]) -> (r: String)
    requires
        block@.len() < hash_input_limit(),
    ensures
        r@ == sha256_hex(block@),
        r@.len() == 64,
        is_lower_hex(r@),
        encode_utf8(r@).len() == 64,
{
    let r = sha256_of(block);
    proof {
        is_ascii_chars_encode_utf8(r@);
    }
    r
}

} // verus!
