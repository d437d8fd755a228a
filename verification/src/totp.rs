//! A configured time-based one-time password: its name, its base32 secret,
//! the number of digits and the length of a time step.

use crate::crypto::{base32_decode, rfc4648_accepts, rfc4648_char, rfc4648_decoded};
use crate::otp::{hotp_raw, hotp_value, step_counter};
use crate::text::{ascii_upper, ascii_upper_char, decimal, pad_zeros_left, to_ascii_uppercase, zero_padded};
use vstd::arithmetic::div_mod::{
    lemma_fundamental_div_mod, lemma_fundamental_div_mod_converse, lemma_multiply_divide_lt,
};
use vstd::prelude::*;

verus! {

/// `10` to the power `n`.
pub open spec fn pow10(n: nat) -> nat
    decreases n,
{
    if n == 0 {
        1
    } else {
        10 * pow10((n - 1) as nat)
    }
}

/// Powers of ten grow with the exponent.
proof fn lemma_pow10_monotone(a: nat, b: nat)
    requires
        a <= b,
    ensures
        1 <= pow10(a) <= pow10(b),
    decreases b,
{
    if a < b {
        lemma_pow10_monotone(a, (b - 1) as nat);
    } else if a > 0 {
        lemma_pow10_monotone((a - 1) as nat, (a - 1) as nat);
    }
}

/// `10` to the power `n`, for `n` up to 9 (the largest that fits a `u32`).
pub fn pow10_u32(n: u32) -> (p: u32)
    requires
        n <= 9,
    ensures
        p == pow10(n as nat),
        p >= 1,
{
    proof {
        reveal_with_fuel(pow10, 10);
        lemma_pow10_monotone(n as nat, 9);
    }
    let mut p: u32 = 1;
    let mut i: u32 = 0;
    proof {
        lemma_pow10_monotone(0, n as nat);
    }
    while i < n
        invariant
            i <= n <= 9,
            p == pow10(i as nat),
            pow10(n as nat) <= 1_000_000_000,
        decreases n - i,
    {
        proof {
            lemma_pow10_monotone((i + 1) as nat, n as nat);
        }
        p = p * 10;
        i = i + 1;
    }
    p
}

/// A time-based one-time password entry.
#[derive(Debug, PartialEq, Eq, Clone)]
pub struct Totp {
    pub name: String,
    pub secret: String,
    pub digits: u32,
    pub interval: u64,
}

impl Totp {
    /// The entry can produce codes: a time step of at least one second, at
    /// most nine digits (so that `10^digits` fits a `u32`), and a secret
    /// that base32 decoding accepts once upper-cased.
    pub open spec fn can_generate(&self) -> bool {
        &&& self.interval > 0
        &&& self.digits <= 9
        &&& rfc4648_accepts(ascii_upper(self.secret@))
    }

    /// The HMAC key: the base32-decoded, upper-cased secret.
    pub open spec fn key(&self) -> Seq<u8> {
        rfc4648_decoded(ascii_upper(self.secret@))
    }

    /// The code at `unix_secs` seconds after the UNIX epoch: the HOTP value
    /// for the time step that holds that second, reduced to `digits` digits.
    pub open spec fn code_at(&self, unix_secs: u64) -> nat {
        hotp_value(self.key(), unix_secs / self.interval) % pow10(self.digits as nat)
    }

    pub fn new(name: &str, secret: &str, digits: u32, interval: u64) -> (totp: Self)
        ensures
            totp.name@ == name@,
            totp.secret@ == secret@,
            totp.digits == digits,
            totp.interval == interval,
    {
        Self { name: name.to_string(), secret: secret.to_string(), digits, interval }
    }

    /// A copy with the same fields.
    pub(crate) fn copy(&self) -> (c: Self)
        ensures
            c == *self,
    {
        Self {
            name: self.name.clone(),
            secret: self.secret.clone(),
            digits: self.digits,
            interval: self.interval,
        }
    }

    /// Whether the entry can produce codes (see `can_generate`).
    pub fn is_valid(&self) -> (ok: bool)
        ensures
            ok == self.can_generate(),
    {
        if self.interval == 0 || self.digits > 9 {
            return false;
        }
        let upper = to_ascii_uppercase(self.secret.as_str());
        let decoded = base32_decode(upper.as_str());
        decoded.is_some()
    }

    /// The code at `unix_secs` seconds after the UNIX epoch.
    pub fn code(&self, unix_secs: u64) -> (code: u32)
        requires
            self.can_generate(),
        ensures
            code == self.code_at(unix_secs),
    {
        let counter = step_counter(unix_secs, self.interval);
        let upper = to_ascii_uppercase(self.secret.as_str());
        match base32_decode(upper.as_str()) {
            Some(key) => {
                let value = hotp_raw(key.as_slice(), counter);
                value % pow10_u32(self.digits)
            },
            None => {
                proof {
                    assert(false);
                }
                0
            },
        }
    }

    /// The code at `unix_secs`, in decimal, left-padded with '0' to
    /// `digits` characters.
    pub fn code_padded(&self, unix_secs: u64) -> (s: String)
        requires
            self.can_generate(),
        ensures
            s@ == pad_zeros_left(decimal(self.code_at(unix_secs)), self.digits as nat),
    {
        let code = self.code(unix_secs);
        zero_padded(code as u64, self.digits as usize)
    }
}

/// Whether a new time step of `interval` seconds starts at `unix_secs`.
pub fn starts_new_step(interval: u64, unix_secs: u64) -> (starts: bool)
    requires
        interval > 0,
    ensures
        starts == (unix_secs % interval == 0),
{
    duration_used(interval, unix_secs) == 0
}

/// How many seconds of the current time step of `interval` seconds have
/// passed at `unix_secs`.
pub fn duration_used(interval: u64, unix_secs: u64) -> (used: u64)
    requires
        interval > 0,
    ensures
        used == unix_secs % interval,
        used < interval,
{
    unix_secs % interval
}

/// A number below `10^d` (`d >= 1`) has at most `d` decimal digits.
pub proof fn lemma_decimal_len(n: nat, d: nat)
    requires
        d >= 1,
        n < pow10(d),
    ensures
        decimal(n).len() <= d,
    decreases n,
{
    if n >= 10 {
        let e = (d - 1) as nat;
        assert(pow10(d) == 10 * pow10(e));
        lemma_multiply_divide_lt(n as int, 10, pow10(e) as int);
        if e == 0 {
            assert(pow10(0) == 1);
        } else {
            lemma_decimal_len(n / 10, e);
        }
    }
}

/// The padded code has exactly `digits` characters (for one digit or
/// more): the code never needs more.
pub proof fn lemma_code_padded_width(totp: Totp, unix_secs: u64)
    requires
        totp.can_generate(),
        totp.digits >= 1,
    ensures
        pad_zeros_left(decimal(totp.code_at(unix_secs)), totp.digits as nat).len() == totp.digits,
{
    lemma_pow10_monotone(0, totp.digits as nat);
    lemma_decimal_len(totp.code_at(unix_secs), totp.digits as nat);
}

/// The code stays the same through a time step.
pub proof fn lemma_code_constant_within_step(totp: Totp, t1: u64, t2: u64)
    requires
        totp.interval > 0,
        t1 / totp.interval == t2 / totp.interval,
    ensures
        totp.code_at(t1) == totp.code_at(t2),
{
}

/// A new time step, and with it a new code, starts exactly at the seconds
/// where the time used in the step is back at zero.
pub proof fn lemma_new_step_when_duration_wraps(interval: u64, t: u64)
    requires
        interval > 0,
        t > 0,
    ensures
        (t % interval == 0) <==> (t / interval != (t - 1) as u64 / interval),
{
    let i = interval as int;
    let p = (t - 1) as int;
    let q = p / i;
    let r = p % i;
    lemma_fundamental_div_mod(p, i);
    assert(p == q * i + r) by (nonlinear_arith)
        requires
            p == i * q + r,
    ;
    if r == i - 1 {
        assert(t == (q + 1) * i + 0) by (nonlinear_arith)
            requires
                p == q * i + r,
                r == i - 1,
                t == p + 1,
        ;
        lemma_fundamental_div_mod_converse(t as int, i, q + 1, 0);
    } else {
        lemma_fundamental_div_mod_converse(t as int, i, q, r + 1);
    }
}

/// Letter case does not matter: two entries with the same time step and
/// digits whose secrets differ only in the case of ASCII letters are both
/// valid or both not, and give the same code at every time.
pub proof fn lemma_letter_case_does_not_matter(a: Totp, b: Totp, unix_secs: u64)
    requires
        a.interval == b.interval,
        a.digits == b.digits,
        ascii_upper(a.secret@) == ascii_upper(b.secret@),
    ensures
        a.can_generate() == b.can_generate(),
        a.interval > 0 ==> a.code_at(unix_secs) == b.code_at(unix_secs),
{
}

/// An entry with a time step, at most nine digits and a secret made of
/// base32 characters (ASCII letters of either case, digits 2 to 7, '=')
/// is valid, and only such an entry is.
pub proof fn lemma_valid_exactly_for_base32_secrets(t: Totp)
    ensures
        t.can_generate() <==> (t.interval > 0 && t.digits <= 9 && rfc4648_accepts(t.secret@)),
{
    let s = t.secret@;
    let u = ascii_upper(s);
    assert forall|i: int| 0 <= i < s.len() implies (rfc4648_char(#[trigger] s[i]) <==> rfc4648_char(
        u[i],
    )) by {
        assert(u[i] == ascii_upper_char(s[i]));
    }
    if rfc4648_accepts(s) {
        assert forall|i: int| 0 <= i < u.len() implies rfc4648_char(#[trigger] u[i]) by {
            assert(rfc4648_char(s[i]));
        }
    }
    if rfc4648_accepts(u) {
        assert forall|i: int| 0 <= i < s.len() implies rfc4648_char(#[trigger] s[i]) by {
            assert(rfc4648_char(u[i]));
        }
    }
}

} // verus!
