//! HMAC-based one-time passwords (HOTP, RFC 4226) and their time-based
//! variant (TOTP, RFC 6238) over a raw text secret.

use crate::clock::unix_time_now;
use crate::crypto::{hmac_sha1, hmac_sha1_tag};
use vstd::prelude::*;
use vstd::string::StringSliceAdditionalSpecFns;

verus! {

/// The eight big-endian bytes of `n` (what `u64::to_be_bytes` gives).
pub open spec fn be_bytes(n: u64) -> Seq<u8> {
    seq![
        (n >> 56u64) as u8,
        (n >> 48u64) as u8,
        (n >> 40u64) as u8,
        (n >> 32u64) as u8,
        (n >> 24u64) as u8,
        (n >> 16u64) as u8,
        (n >> 8u64) as u8,
        n as u8,
    ]
}

/// RFC 4226 dynamic truncation: the low nibble of byte 19 picks an offset,
/// and the four bytes there, with the top bit cleared, form a big-endian
/// 31-bit number.
pub open spec fn dynamic_truncation(mac: Seq<u8>) -> nat {
    let offset = (mac[19] % 16) as int;
    (mac[offset] % 128) as nat * 16777216 + mac[offset + 1] as nat * 65536 + mac[offset + 2] as nat
        * 256 + mac[offset + 3] as nat
}

/// The untruncated HOTP value of `key` at `counter`.
pub open spec fn hotp_value(key: Seq<u8>, counter: u64) -> nat {
    dynamic_truncation(hmac_sha1_tag(key, be_bytes(counter)))
}

/// The six-digit time-based password of `key` at `unix_secs`, for time
/// steps of `interval` seconds.
pub open spec fn totp_value(key: Seq<u8>, interval: u64, unix_secs: u64) -> nat {
    hotp_value(key, unix_secs / interval) % 1_000_000
}

/// The big-endian bytes of `n`.
pub fn counter_bytes(n: u64) -> (bytes: Vec<u8>)
    ensures
        bytes@ == be_bytes(n),
{
    let bytes = vec![
        (n >> 56u64) as u8,
        (n >> 48u64) as u8,
        (n >> 40u64) as u8,
        (n >> 32u64) as u8,
        (n >> 24u64) as u8,
        (n >> 16u64) as u8,
        (n >> 8u64) as u8,
        n as u8,
    ];
    proof {
        assert(bytes@ =~= be_bytes(n));
    }
    bytes
}

/// RFC 4226 dynamic truncation of a MAC of at least 20 bytes.
pub fn truncate(mac: &[u8]) -> (code: u32)
    requires
        mac@.len() >= 20,
    ensures
        code == dynamic_truncation(mac@),
        code < 0x8000_0000,
{
    let last = mac[19];
    let offset = (last & 0xf) as usize;
    assert(last & 0xf == last % 16) by (bit_vector);
    let b0 = mac[offset];
    let b1 = mac[offset + 1];
    let b2 = mac[offset + 2];
    let b3 = mac[offset + 3];
    let code: u32 = ((b0 & 0x7f) as u32) << 24u32 | (b1 as u32) << 16u32 | (b2 as u32) << 8u32
        | (b3 as u32);
    assert(((b0 & 0x7f) as u32) << 24u32 | (b1 as u32) << 16u32 | (b2 as u32) << 8u32 | (b3 as u32)
        == (b0 % 128) as u32 * 16777216u32 + (b1 as u32) * 65536u32 + (b2 as u32) * 256u32
        + (b3 as u32)) by (bit_vector);
    code
}

/// The untruncated HOTP value of `key` at `counter`.
pub fn hotp_raw(key: &[u8], counter: u64) -> (value: u32)
    ensures
        value == hotp_value(key@, counter),
        value < 0x8000_0000,
{
    let message = counter_bytes(counter);
    let mac = hmac_sha1(key, message.as_slice());
    truncate(mac.as_slice())
}

/// HMAC-based one-time password with six digits for the UTF-8 bytes of
/// `secret` as key and the given counter.
pub fn hotp(secret: &str, counter: u64) -> (code: u32)
    ensures
        code == hotp_value(secret.spec_bytes(), counter) % 1_000_000,
{
    let value = hotp_raw(secret.as_bytes(), counter);
    value % 1_000_000
}

/// The number of whole `step`s between the UNIX epoch and `unix_secs`.
pub fn step_counter(unix_secs: u64, step: u64) -> (counter: u64)
    requires
        step > 0,
    ensures
        counter == unix_secs / step,
{
    unix_secs / step
}

/// The six-digit time-based one-time password of `secret` now, for time
/// steps of `interval` seconds; `None` when the clock reads a time before
/// the UNIX epoch.
pub fn totp(secret: &str, interval: u64) -> (code: Option<u32>)
    requires
        interval > 0,
    ensures
        code matches Some(c) ==> exists|now: u64|
            c == #[trigger] totp_value(secret.spec_bytes(), interval, now),
{
    match unix_time_now() {
        Some(now) => {
            let c = hotp(secret, step_counter(now, interval));
            assert(c == totp_value(secret.spec_bytes(), interval, now));
            Some(c)
        },
        None => None,
    }
}

} // verus!
