//! The single-list screen's lines: `NAME | CODE`, where the code is the
//! HOTP of the secret's own UTF-8 bytes (no base32 decoding) for the
//! current time step.

use crate::otp::{hotp_raw, hotp_value, step_counter};
use crate::text::{
    decimal, max_char_count, pad_spaces_right, pad_zeros_left, push_padded_right, push_zero_padded,
    string_from_chars,
};
use crate::totp::{pow10, pow10_u32, Totp};
use crate::tui::totp_list_view::names;
use vstd::prelude::*;
use vstd::string::StringSliceAdditionalSpecFns;
use vstd::utf8::encode_utf8;

verus! {

/// The code of `config` at `unix_secs`, keyed by the UTF-8 bytes of the
/// secret as written.
pub open spec fn raw_code_at(config: Totp, unix_secs: u64) -> nat {
    hotp_value(encode_utf8(config.secret@), unix_secs / config.interval) % pow10(
        config.digits as nat,
    )
}

/// The line for `config` at `unix_secs`: the name padded with spaces to
/// `width` characters, " | ", and the code padded with '0' to `digits`.
pub open spec fn ui_line(config: Totp, unix_secs: u64, width: nat) -> Seq<char> {
    pad_spaces_right(config.name@, width) + seq![' ', '|', ' '] + pad_zeros_left(
        decimal(raw_code_at(config, unix_secs)),
        config.digits as nat,
    )
}

/// The character count of the longest name, or `None` when there are no
/// entries.
pub fn longest_name_char_count(configs: &[Totp]) -> (longest: Option<usize>)
    ensures
        configs@.len() == 0 ==> longest is None,
        configs@.len() > 0 ==> (longest matches Some(m) && m == max_char_count(names(configs@))),
{
    if configs.len() == 0 {
        return None;
    }
    let ghost texts = names(configs@);
    let mut best: usize = 0;
    for i in 0..configs.len()
        invariant
            texts == names(configs@),
            best == max_char_count(texts.take(i as int)),
    {
        assert(texts.take(i + 1).drop_last() =~= texts.take(i as int));
        let n = configs[i].name.as_str().unicode_len();
        if n > best {
            best = n;
        }
    }
    assert(texts.take(configs@.len() as int) =~= texts);
    Some(best)
}

/// The line for `config` at `unix_secs`, with the name padded to
/// `name_max_length` characters.
pub fn format_totp(config: &Totp, unix_secs: u64, name_max_length: usize) -> (line: String)
    requires
        config.interval > 0,
        config.digits <= 9,
    ensures
        line@ == ui_line(*config, unix_secs, name_max_length as nat),
{
    let mut out: Vec<char> = Vec::new();
    push_padded_right(&mut out, config.name.as_str(), name_max_length);
    out.push(' ');
    out.push('|');
    out.push(' ');
    let value = hotp_raw(config.secret.as_str().as_bytes(), step_counter(unix_secs, config.interval));
    let code = value % pow10_u32(config.digits);
    push_zero_padded(&mut out, code as u64, config.digits as usize);
    proof {
        assert(out@ =~= ui_line(*config, unix_secs, name_max_length as nat));
    }
    string_from_chars(out.as_slice())
}

} // verus!
