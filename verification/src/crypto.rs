//! The cryptographic primitives behind one-time passwords: HMAC-SHA1 (from
//! the `hmac` and `sha1` crates) and RFC 4648 base32 decoding (from the
//! `base32` crate). Their results are named, not restated.

use hmac::{Hmac, Mac};
use sha1::Sha1;
use vstd::prelude::*;

verus! {

/// The HMAC-SHA1 tag (RFC 2104 over SHA-1) of `message` under `key`.
pub uninterp spec fn hmac_sha1_tag(key: Seq<u8>, message: Seq<u8>) -> Seq<u8>;

/// Computes HMAC-SHA1 with `Hmac::<Sha1>::new_from_slice(key)`,
/// `Mac::chain_update(message)`, `Mac::finalize` and `into_bytes`.
///
/// Trusted: the tag is `hmac_sha1_tag(key, message)`, and it has 20 bytes
/// (SHA-1's `OutputSize` is `U20`). `new_from_slice` accepts keys of every
/// length (longer keys are hashed first), so its error never occurs.
#[verifier::external_body]
pub(crate) fn hmac_sha1(key: &[u8], message: &[u8]) -> (tag: Vec<u8>)
    ensures
        tag@ == hmac_sha1_tag(key@, message@),
        tag@.len() == 20,
{
    let mac = <Hmac<Sha1> as Mac>::new_from_slice(key).expect("HMAC takes keys of any length");
    mac.chain_update(message).finalize().into_bytes().to_vec()
}

/// The bytes that RFC 4648 base32 decoding gives for `text`.
pub uninterp spec fn rfc4648_decoded(text: Seq<char>) -> Seq<u8>;

/// A character that `base32::decode` accepts with the RFC 4648 alphabet:
/// a letter of either case, a digit from 2 to 7, or the padding '='.
pub open spec fn rfc4648_char(c: char) -> bool {
    ||| ('A' <= c && c <= 'Z')
    ||| ('a' <= c && c <= 'z')
    ||| ('2' <= c && c <= '7')
    ||| c == '='
}

/// Every character of `text` is one that RFC 4648 decoding accepts.
pub open spec fn rfc4648_accepts(text: Seq<char>) -> bool {
    forall|i: int| 0 <= i < text.len() ==> rfc4648_char(#[trigger] text[i])
}

/// Calls `base32::decode(Alphabet::RFC4648 { padding: false }, text)`.
///
/// Trusted: it succeeds exactly when every character of `text` is accepted
/// (the source rejects non-ASCII text and, after ASCII upper-casing, every
/// character outside `A`-`Z`, `2`-`7` and `=`), and then gives
/// `rfc4648_decoded(text)`. How the bytes follow from the text is not stated.
#[verifier::external_body]
pub(crate) fn base32_decode(text: &str) -> (bytes: Option<Vec<u8>>)
    ensures
        bytes is Some <==> rfc4648_accepts(text@),
        bytes matches Some(b) ==> b@ == rfc4648_decoded(text@),
{
    base32::decode(base32::Alphabet::RFC4648 { padding: false }, text)
}

} // verus!
