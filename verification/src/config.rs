//! The configuration format: one entry per line, each in the "Google
//! Authenticator" URI form
//! `otpauth://totp/NAME:ACCOUNT?secret=SECRET&issuer=ISSUER`.
//!
//! A line is read the way the pattern
//! `(?i)^otpauth://totp/(.*):.*?secret=(.*)&issuer=.*$` reads it: the scheme
//! and the two keys match without regard to case, `.` is any character but
//! a line feed, the name is the longest and the secret the longest that
//! still let the rest match, with the shortest stretch between name and
//! `secret=`.

use crate::text::{chars_of, string_from_chars, trim, trim_chars};
use crate::totp::Totp;
use vstd::prelude::*;

verus! {

/// Errors met while loading the configuration.
#[derive(PartialEq, Debug, Clone)]
pub enum TotpSecretFileError {
    NotFound(String),
    InvalidFormat(String),
}

impl TotpSecretFileError {
    /// The message that the error carries.
    pub fn message(&self) -> (m: String)
        ensures
            m@ == match self {
                TotpSecretFileError::NotFound(m) => m@,
                TotpSecretFileError::InvalidFormat(m) => m@,
            },
    {
        match self {
            TotpSecretFileError::NotFound(m) => m.clone(),
            TotpSecretFileError::InvalidFormat(m) => m.clone(),
        }
    }
}

/// The scheme and path, in lower case.
pub open spec fn scheme_lower() -> Seq<char> {
    seq!['o', 't', 'p', 'a', 'u', 't', 'h', ':', '/', '/', 't', 'o', 't', 'p', '/']
}

/// The scheme and path, in upper case.
pub open spec fn scheme_upper() -> Seq<char> {
    seq!['O', 'T', 'P', 'A', 'U', 'T', 'H', ':', '/', '/', 'T', 'O', 'T', 'P', '/']
}

/// The secret key, in lower case.
pub open spec fn secret_lower() -> Seq<char> {
    seq!['s', 'e', 'c', 'r', 'e', 't', '=']
}

/// The secret key, in upper case.
pub open spec fn secret_upper() -> Seq<char> {
    seq!['S', 'E', 'C', 'R', 'E', 'T', '=']
}

/// The issuer key, in lower case.
pub open spec fn issuer_lower() -> Seq<char> {
    seq!['&', 'i', 's', 's', 'u', 'e', 'r', '=']
}

/// The issuer key, in upper case.
pub open spec fn issuer_upper() -> Seq<char> {
    seq!['&', 'I', 'S', 'S', 'U', 'E', 'R', '=']
}

/// `c` matches the pattern character whose cases are `lower` and `upper`,
/// by simple case folding (which also folds LONG S, U+017F, to `s`).
pub open spec fn folds_to(c: char, lower: char, upper: char) -> bool {
    c == lower || c == upper || (lower == 's' && c == '\u{17f}')
}

/// `a` matches the literal whose cases are `lower` and `upper`.
pub open spec fn folds_seq(a: Seq<char>, lower: Seq<char>, upper: Seq<char>) -> bool {
    &&& a.len() == lower.len()
    &&& forall|k: int| 0 <= k < a.len() ==> folds_to(#[trigger] a[k], lower[k], upper[k])
}

/// The literal whose cases are `lower` and `upper` occurs in `t` at `at`.
pub open spec fn literal_at(t: Seq<char>, lower: Seq<char>, upper: Seq<char>, at: int) -> bool {
    &&& 0 <= at
    &&& at + lower.len() <= t.len()
    &&& folds_seq(t.subrange(at, at + lower.len()), lower, upper)
}

/// `&issuer=` occurs in `t` at `k`.
pub open spec fn issuer_at(t: Seq<char>, k: int) -> bool {
    literal_at(t, issuer_lower(), issuer_upper(), k)
}

/// `secret=` occurs in `t` at `j`.
pub open spec fn secret_at(t: Seq<char>, j: int) -> bool {
    literal_at(t, secret_lower(), secret_upper(), j)
}

/// `secret=` occurs at `j` and `&issuer=` occurs after it.
pub open spec fn secret_viable(t: Seq<char>, j: int) -> bool {
    &&& secret_at(t, j)
    &&& exists|k: int| j + 7 <= k && #[trigger] issuer_at(t, k)
}

/// `t[i]` is a ':' followed by a viable `secret=`.
pub open spec fn colon_viable(t: Seq<char>, i: int) -> bool {
    &&& 0 <= i < t.len()
    &&& t[i] == ':'
    &&& exists|j: int| i < j && #[trigger] secret_viable(t, j)
}

/// What follows the scheme.
pub open spec fn after_scheme(s: Seq<char>) -> Seq<char> {
    s.skip(15)
}

/// `s` is an entry line: no line feed, the scheme at the start, and a ':'
/// followed by `secret=` followed by `&issuer=`.
pub open spec fn line_matches(s: Seq<char>) -> bool {
    &&& !s.contains('\n')
    &&& literal_at(s, scheme_lower(), scheme_upper(), 0)
    &&& exists|i: int| #[trigger] colon_viable(after_scheme(s), i)
}

/// The ':' that ends the name: the last viable one.
pub open spec fn name_end(t: Seq<char>) -> int {
    choose|i: int|
        colon_viable(t, i) && forall|i2: int| #[trigger] colon_viable(t, i2) ==> i2 <= i
}

/// Where `secret=` starts: the first viable one after the name.
pub open spec fn secret_start(t: Seq<char>, name_end: int) -> int {
    choose|j: int|
        name_end < j && secret_viable(t, j) && forall|j2: int|
            name_end < j2 && #[trigger] secret_viable(t, j2) ==> j <= j2
}

/// Where the secret ends: the last `&issuer=` after `secret=`.
pub open spec fn secret_end(t: Seq<char>, secret_start: int) -> int {
    choose|k: int|
        secret_start + 7 <= k && issuer_at(t, k) && forall|k2: int|
            secret_start + 7 <= k2 && #[trigger] issuer_at(t, k2) ==> k2 <= k
}

/// The name that an entry line gives.
pub open spec fn captured_name(s: Seq<char>) -> Seq<char> {
    let t = after_scheme(s);
    t.take(name_end(t))
}

/// The secret that an entry line gives.
pub open spec fn captured_secret(s: Seq<char>) -> Seq<char> {
    let t = after_scheme(s);
    let j = secret_start(t, name_end(t));
    t.subrange(j + 7, secret_end(t, j))
}

/// The message for a line that is not an entry.
pub open spec fn invalid_format_message(s: Seq<char>) -> Seq<char> {
    "Could not parse the line, invalid format: '"@ + s + "'."@
}

/// The parts of `s` between line feeds, in order (as `str::split('\n')`).
pub open spec fn split_lines(s: Seq<char>) -> Seq<Seq<char>>
    decreases s.len(),
{
    if s.len() == 0 {
        seq![Seq::empty()]
    } else {
        let prev = split_lines(s.drop_last());
        if s.last() == '\n' {
            prev.push(Seq::empty())
        } else {
            prev.update(prev.len() - 1, prev.last().push(s.last()))
        }
    }
}

/// The non-empty lines, each trimmed of white space.
pub open spec fn entry_lines(lines: Seq<Seq<char>>) -> Seq<Seq<char>>
    decreases lines.len(),
{
    if lines.len() == 0 {
        Seq::empty()
    } else {
        let rest = entry_lines(lines.drop_last());
        if lines.last().len() > 0 {
            rest.push(trim(lines.last()))
        } else {
            rest
        }
    }
}

/// The entry lines of a configuration text.
#[verifier::opaque]
pub open spec fn config_entries(content: Seq<char>) -> Seq<Seq<char>> {
    entry_lines(split_lines(content))
}

/// `totp` is the entry that `line` gives.
#[verifier::opaque]
pub open spec fn parsed_as(totp: Totp, line: Seq<char>, digits: u32, interval: u64) -> bool {
    &&& totp.name@ == captured_name(line)
    &&& totp.secret@ == captured_secret(line)
    &&& totp.digits == digits
    &&& totp.interval == interval
}


fn scheme_lower_vec() -> (v: Vec<char>)
    ensures
        v@ == scheme_lower(),
{
    let v = vec!['o', 't', 'p', 'a', 'u', 't', 'h', ':', '/', '/', 't', 'o', 't', 'p', '/'];
    assert(v@ =~= scheme_lower());
    v
}

fn scheme_upper_vec() -> (v: Vec<char>)
    ensures
        v@ == scheme_upper(),
{
    let v = vec!['O', 'T', 'P', 'A', 'U', 'T', 'H', ':', '/', '/', 'T', 'O', 'T', 'P', '/'];
    assert(v@ =~= scheme_upper());
    v
}

fn secret_lower_vec() -> (v: Vec<char>)
    ensures
        v@ == secret_lower(),
{
    let v = vec!['s', 'e', 'c', 'r', 'e', 't', '='];
    assert(v@ =~= secret_lower());
    v
}

fn secret_upper_vec() -> (v: Vec<char>)
    ensures
        v@ == secret_upper(),
{
    let v = vec!['S', 'E', 'C', 'R', 'E', 'T', '='];
    assert(v@ =~= secret_upper());
    v
}

fn issuer_lower_vec() -> (v: Vec<char>)
    ensures
        v@ == issuer_lower(),
{
    let v = vec!['&', 'i', 's', 's', 'u', 'e', 'r', '='];
    assert(v@ =~= issuer_lower());
    v
}

fn issuer_upper_vec() -> (v: Vec<char>)
    ensures
        v@ == issuer_upper(),
{
    let v = vec!['&', 'I', 'S', 'S', 'U', 'E', 'R', '='];
    assert(v@ =~= issuer_upper());
    v
}

fn folds_to_exec(c: char, lower: char, upper: char) -> (b: bool)
    ensures
        b == folds_to(c, lower, upper),
{
    c == lower || c == upper || (lower == 's' && c == '\u{17f}')
}

/// Whether the literal occurs in `t` at `at`.
fn literal_at_exec(t: &Vec<char>, lower: &Vec<char>, upper: &Vec<char>, at: usize) -> (b: bool)
    requires
        lower@.len() == upper@.len(),
    ensures
        b == literal_at(t@, lower@, upper@, at as int),
{
    let len = lower.len();
    if at > t.len() || len > t.len() - at {
        return false;
    }
    let ghost window = t@.subrange(at as int, at + len);
    let mut k: usize = 0;
    while k < len
        invariant
            k <= len,
            len == lower@.len(),
            len == upper@.len(),
            at + len <= t.len(),
            window == t@.subrange(at as int, at + len),
            forall|k2: int| 0 <= k2 < k ==> folds_to(#[trigger] window[k2], lower@[k2], upper@[k2]),
        decreases len - k,
    {
        assert(window[k as int] == t@[at + k]);
        if !folds_to_exec(t[at + k], lower[k], upper[k]) {
            return false;
        }
        k += 1;
    }
    true
}

/// The last position before `end` where the literal occurs.
fn last_literal_before(t: &Vec<char>, lower: &Vec<char>, upper: &Vec<char>, end: usize) -> (r:
    Option<usize>)
    requires
        lower@.len() == upper@.len(),
        end <= t@.len(),
    ensures
        r matches Some(p) ==> p < end && literal_at(t@, lower@, upper@, p as int) && forall|q: int|
            p < q < end ==> !#[trigger] literal_at(t@, lower@, upper@, q),
        r is None ==> forall|q: int| 0 <= q < end ==> !#[trigger] literal_at(t@, lower@, upper@, q),
{
    let mut p = end;
    while p > 0
        invariant
            p <= end <= t@.len(),
            lower@.len() == upper@.len(),
            forall|q: int| p <= q < end ==> !#[trigger] literal_at(t@, lower@, upper@, q),
        decreases p,
    {
        p -= 1;
        if literal_at_exec(t, lower, upper, p) {
            return Some(p);
        }
    }
    None
}

/// The first position in `start..end` where the literal occurs.
fn first_literal_in(
    t: &Vec<char>,
    lower: &Vec<char>,
    upper: &Vec<char>,
    start: usize,
    end: usize,
) -> (r: Option<usize>)
    requires
        lower@.len() == upper@.len(),
    ensures
        r matches Some(p) ==> start <= p < end && literal_at(t@, lower@, upper@, p as int)
            && forall|q: int| start <= q < p ==> !#[trigger] literal_at(t@, lower@, upper@, q),
        r is None ==> forall|q: int| start <= q < end ==> !#[trigger] literal_at(t@, lower@, upper@, q),
{
    let mut p = start;
    while p < end
        invariant
            start <= p,
            lower@.len() == upper@.len(),
            forall|q: int| start <= q < p ==> !#[trigger] literal_at(t@, lower@, upper@, q),
        decreases end - p,
    {
        if literal_at_exec(t, lower, upper, p) {
            return Some(p);
        }
        p += 1;
    }
    None
}

/// The last index before `end` that holds `c`.
fn last_char_before(t: &Vec<char>, c: char, end: usize) -> (r: Option<usize>)
    requires
        end <= t@.len(),
    ensures
        r matches Some(i) ==> i < end && t@[i as int] == c && forall|q: int|
            i < q < end ==> #[trigger] t@[q] != c,
        r is None ==> forall|q: int| 0 <= q < end ==> #[trigger] t@[q] != c,
{
    let mut i = end;
    while i > 0
        invariant
            i <= end <= t@.len(),
            forall|q: int| i <= q < end ==> #[trigger] t@[q] != c,
        decreases i,
    {
        i -= 1;
        if t[i] == c {
            return Some(i);
        }
    }
    None
}

/// Whether `t` holds `c`.
fn contains_char(t: &Vec<char>, c: char) -> (b: bool)
    ensures
        b == t@.contains(c),
{
    for i in 0..t.len()
        invariant
            forall|q: int| 0 <= q < i ==> #[trigger] t@[q] != c,
    {
        if t[i] == c {
            assert(t@[i as int] == c);
            return true;
        }
    }
    false
}

/// The characters `t[from..to]`.
fn copy_range(t: &Vec<char>, from: usize, to: usize) -> (r: Vec<char>)
    requires
        from <= to <= t@.len(),
    ensures
        r@ == t@.subrange(from as int, to as int),
{
    let mut r: Vec<char> = Vec::new();
    let mut i = from;
    while i < to
        invariant
            from <= i <= to <= t@.len(),
            r@ == t@.subrange(from as int, i as int),
        decreases to - i,
    {
        r.push(t[i]);
        i += 1;
        assert(r@ =~= t@.subrange(from as int, i as int));
    }
    r
}

/// Without a viable `secret=` no ':' is viable.
proof fn lemma_no_viable_colon(t: Seq<char>)
    requires
        forall|j: int| !#[trigger] secret_viable(t, j),
    ensures
        forall|i: int| !#[trigger] colon_viable(t, i),
{
}

/// With `k` the last `&issuer=`, a `secret=` is viable exactly when it ends
/// by `k`.
proof fn lemma_last_issuer(t: Seq<char>, k: int)
    requires
        issuer_at(t, k),
        forall|q: int| k < q < t.len() ==> !#[trigger] issuer_at(t, q),
    ensures
        forall|k2: int| #[trigger] issuer_at(t, k2) ==> k2 <= k,
        forall|j: int| #[trigger] secret_viable(t, j) <==> secret_at(t, j) && j + 7 <= k,
{
    assert forall|k2: int| #[trigger] issuer_at(t, k2) implies k2 <= k by {
        if k2 > k && k2 < t.len() {
        }
    }
    assert forall|j: int| #[trigger] secret_viable(t, j) <==> secret_at(t, j) && j + 7 <= k by {
        if secret_at(t, j) && j + 7 <= k {
            assert(issuer_at(t, k));
        }
    }
}

/// With `jl` the last viable `secret=`, a ':' is viable exactly when it
/// comes before `jl`.
proof fn lemma_last_secret(t: Seq<char>, k: int, jl: int)
    requires
        forall|j: int| #[trigger] secret_viable(t, j) <==> secret_at(t, j) && j + 7 <= k,
        secret_at(t, jl),
        jl + 7 <= k,
        forall|q: int| jl < q < k - 6 ==> !#[trigger] secret_at(t, q),
    ensures
        forall|i: int| #[trigger] colon_viable(t, i) <==> 0 <= i < jl && t[i] == ':',
{
    assert(secret_viable(t, jl));
    assert forall|i: int| #[trigger] colon_viable(t, i) <==> 0 <= i < jl && t[i] == ':' by {
        if colon_viable(t, i) {
            let j = choose|j: int| i < j && #[trigger] secret_viable(t, j);
            assert(secret_at(t, j));
        }
        if 0 <= i < jl && t[i] == ':' {
            assert(secret_viable(t, jl));
        }
    }
}

/// The last viable ':' ends the name.
proof fn lemma_name_end(t: Seq<char>, jl: int, i: int)
    requires
        forall|i2: int| #[trigger] colon_viable(t, i2) <==> 0 <= i2 < jl && t[i2] == ':',
        0 <= i < jl,
        t[i] == ':',
        forall|q: int| i < q < jl ==> #[trigger] t[q] != ':',
    ensures
        colon_viable(t, i),
        name_end(t) == i,
{
    assert(colon_viable(t, i));
    assert forall|i2: int| #[trigger] colon_viable(t, i2) implies i2 <= i by {
        if i2 > i && i2 < jl {
            assert(t[i2] != ':');
        }
    }
}

/// The first viable `secret=` after the name starts the secret, and the last
/// `&issuer=` ends it.
proof fn lemma_secret_bounds(t: Seq<char>, i: int, j: int, k: int)
    requires
        forall|j2: int| #[trigger] secret_viable(t, j2) <==> secret_at(t, j2) && j2 + 7 <= k,
        forall|k2: int| #[trigger] issuer_at(t, k2) ==> k2 <= k,
        issuer_at(t, k),
        i < j,
        j + 7 <= k,
        secret_at(t, j),
        forall|q: int| i + 1 <= q < j ==> !#[trigger] secret_at(t, q),
    ensures
        secret_start(t, i) == j,
        secret_end(t, j) == k,
{
    assert(secret_viable(t, j));
    assert forall|j2: int| i < j2 && #[trigger] secret_viable(t, j2) implies j <= j2 by {
        assert(secret_at(t, j2));
    }
}

/// No viable `secret=` when no `secret=` ends by `k`, the last `&issuer=`.
proof fn lemma_no_secret_before(t: Seq<char>, k: int)
    requires
        forall|j2: int| #[trigger] secret_viable(t, j2) <==> secret_at(t, j2) && j2 + 7 <= k,
        forall|q: int| 0 <= q < k - 6 ==> !#[trigger] secret_at(t, q),
    ensures
        forall|i: int| !#[trigger] colon_viable(t, i),
{
    assert forall|j: int| !#[trigger] secret_viable(t, j) by {
        if secret_viable(t, j) {
            assert(secret_at(t, j));
        }
    }
}

/// No viable ':' when there is no `&issuer=`.
proof fn lemma_no_issuer(t: Seq<char>)
    requires
        forall|q: int| 0 <= q < t.len() ==> !#[trigger] issuer_at(t, q),
    ensures
        forall|i: int| !#[trigger] colon_viable(t, i),
{
    assert forall|j: int| !#[trigger] secret_viable(t, j) by {
        assert forall|k2: int| !#[trigger] issuer_at(t, k2) by {
            if 0 <= k2 < t.len() {
            }
        }
    }
}

/// Where the name ends, where `secret=` starts and where the secret ends,
/// or `None` when no ':' is viable.
fn locate_entry(t: &Vec<char>) -> (r: Option<(usize, usize, usize)>)
    ensures
        r is Some <==> exists|i: int| #[trigger] colon_viable(t@, i),
        r matches Some((i, j, k)) ==> {
            &&& name_end(t@) == i
            &&& secret_start(t@, i as int) == j
            &&& secret_end(t@, j as int) == k
            &&& i < j
            &&& j + 7 <= k <= t@.len()
        },
{
    let ghost tt = t@;
    let secret_lo = secret_lower_vec();
    let secret_up = secret_upper_vec();
    let issuer_lo = issuer_lower_vec();
    let issuer_up = issuer_upper_vec();
    let k = match last_literal_before(t, &issuer_lo, &issuer_up, t.len()) {
        Some(k) => k,
        None => {
            proof {
                lemma_no_issuer(tt);
            }
            return None;
        },
    };
    proof {
        lemma_last_issuer(tt, k as int);
    }
    if k < 7 {
        proof {
            lemma_no_secret_before(tt, k as int);
        }
        return None;
    }
    let jl = match last_literal_before(t, &secret_lo, &secret_up, k - 6) {
        Some(jl) => jl,
        None => {
            proof {
                lemma_no_secret_before(tt, k as int);
            }
            return None;
        },
    };
    proof {
        lemma_last_secret(tt, k as int, jl as int);
    }
    let i = match last_char_before(t, ':', jl) {
        Some(i) => i,
        None => {
            assert forall|i: int| !#[trigger] colon_viable(tt, i) by {
                if 0 <= i < jl {
                    assert(tt[i] != ':');
                }
            }
            return None;
        },
    };
    proof {
        lemma_name_end(tt, jl as int, i as int);
    }
    let j = match first_literal_in(t, &secret_lo, &secret_up, i + 1, k - 6) {
        Some(j) => j,
        None => {
            assert(secret_at(tt, jl as int));
            return None;
        },
    };
    proof {
        lemma_secret_bounds(tt, i as int, j as int, k as int);
    }
    Some((i, j, k))
}

/// The name and secret of an entry line, or `None` for other lines.
fn scan_entry(s: &str) -> (r: Option<(String, String)>)
    ensures
        r is Some <==> line_matches(s@),
        r matches Some((name, secret)) ==> name@ == captured_name(s@) && secret@ == captured_secret(
            s@,
        ),
{
    let v = chars_of(s);
    if contains_char(&v, '\n') {
        return None;
    }
    let scheme_lo = scheme_lower_vec();
    let scheme_up = scheme_upper_vec();
    if !literal_at_exec(&v, &scheme_lo, &scheme_up, 0) {
        return None;
    }
    let t = copy_range(&v, 15, v.len());
    assert(t@ == after_scheme(s@)) by {
        assert(t@ =~= s@.skip(15));
    }
    match locate_entry(&t) {
        Some((i, j, k)) => {
            let name_chars = copy_range(&t, 0, i);
            let secret_chars = copy_range(&t, j + 7, k);
            assert(name_chars@ == captured_name(s@)) by {
                assert(name_chars@ =~= t@.take(i as int));
            }
            let name = string_from_chars(name_chars.as_slice());
            let secret = string_from_chars(secret_chars.as_slice());
            Some((name, secret))
        },
        None => None,
    }
}

/// The error for a line that is not an entry.
fn invalid_format(s: &str) -> (e: TotpSecretFileError)
    ensures
        e matches TotpSecretFileError::InvalidFormat(m) && m@ == invalid_format_message(s@),
{
    let mut m = String::from_str("Could not parse the line, invalid format: '");
    m.append(s);
    m.append("'.");
    TotpSecretFileError::InvalidFormat(m)
}

/// Reads one configuration line as an entry with the given number of digits
/// and time step.
pub fn parse_uri_string_format(s: &str, digits: u32, interval: u64) -> (res: Result<
    Totp,
    TotpSecretFileError,
>)
    ensures
        res is Ok <==> line_matches(s@),
        res matches Ok(totp) ==> parsed_as(totp, s@, digits, interval),
        res matches Err(e) ==> e matches TotpSecretFileError::InvalidFormat(m) && m@
            == invalid_format_message(s@),
{
    reveal(parsed_as);
    match scan_entry(s) {
        Some((name, secret)) => Ok(Totp::new(name.as_str(), secret.as_str(), digits, interval)),
        None => Err(invalid_format(s)),
    }
}

/// Splitting always gives at least one part.
proof fn lemma_split_lines_nonempty(s: Seq<char>)
    ensures
        split_lines(s).len() >= 1,
    decreases s.len(),
{
    if s.len() > 0 {
        lemma_split_lines_nonempty(s.drop_last());
    }
}

/// The parts of `chars` between line feeds.
fn split_on_newlines(chars: &Vec<char>) -> (lines: Vec<Vec<char>>)
    ensures
        lines@.len() == split_lines(chars@).len(),
        forall|k: int| 0 <= k < lines@.len() ==> #[trigger] lines@[k]@ == split_lines(chars@)[k],
{
    let mut done: Vec<Vec<char>> = Vec::new();
    let mut cur: Vec<char> = Vec::new();
    assert(chars@.take(0) =~= Seq::<char>::empty());
    for i in 0..chars.len()
        invariant
            split_lines(chars@.take(i as int)).len() == done@.len() + 1,
            forall|k: int|
                0 <= k < done@.len() ==> #[trigger] done@[k]@ == split_lines(chars@.take(i as int))[k],
            cur@ == split_lines(chars@.take(i as int)).last(),
    {
        let ghost prev = split_lines(chars@.take(i as int));
        assert(chars@.take(i + 1).drop_last() =~= chars@.take(i as int));
        assert(chars@.take(i + 1).last() == chars@[i as int]);
        if chars[i] == '\n' {
            done.push(cur);
            cur = Vec::new();
        } else {
            cur.push(chars[i]);
        }
        assert(split_lines(chars@.take(i + 1)).len() == done@.len() + 1);
    }
    assert(chars@.take(chars@.len() as int) =~= chars@);
    done.push(cur);
    done
}

/// The entry lines of `content`: its non-empty lines, trimmed.
fn entries_of(content: &str) -> (entries: Vec<Vec<char>>)
    ensures
        entries@.len() == config_entries(content@).len(),
        forall|k: int|
            0 <= k < entries@.len() ==> #[trigger] entries@[k]@ == config_entries(content@)[k],
{
    reveal(config_entries);
    let chars = chars_of(content);
    let lines = split_on_newlines(&chars);
    let ghost all = split_lines(content@);
    let mut entries: Vec<Vec<char>> = Vec::new();
    assert(all.take(0) =~= Seq::<Seq<char>>::empty());
    for j in 0..lines.len()
        invariant
            lines@.len() == all.len(),
            forall|k: int| 0 <= k < lines@.len() ==> #[trigger] lines@[k]@ == all[k],
            entries@.len() == entry_lines(all.take(j as int)).len(),
            forall|k: int|
                0 <= k < entries@.len() ==> #[trigger] entries@[k]@ == entry_lines(all.take(j as int))[k],
    {
        assert(all.take(j + 1).drop_last() =~= all.take(j as int));
        assert(all.take(j + 1).last() == all[j as int]);
        assert(lines@[j as int]@ == all[j as int]);
        if lines[j].len() > 0 {
            let entry = trim_chars(&lines[j]);
            entries.push(entry);
        }
    }
    assert(all.take(all.len() as int) =~= all);
    entries
}

/// Every entry line before `i` reads as an entry, and the one at `i` does not.
pub open spec fn first_invalid(entries: Seq<Seq<char>>, i: int) -> bool {
    &&& 0 <= i < entries.len()
    &&& !line_matches(entries[i])
    &&& forall|j: int| 0 <= j < i ==> line_matches(#[trigger] entries[j])
}

/// Reads a whole configuration text: the non-empty lines, trimmed of white
/// space, each as an entry with the given number of digits and time step.
/// The first line that is not an entry gives the error.
pub fn parse_totps(content: &str, digits: u32, interval: u64) -> (res: Result<
    Vec<Totp>,
    TotpSecretFileError,
>)
    ensures
        res is Ok <==> forall|i: int|
            0 <= i < config_entries(content@).len() ==> line_matches(
                #[trigger] config_entries(content@)[i],
            ),
        res matches Ok(totps) ==> {
            &&& totps@.len() == config_entries(content@).len()
            &&& forall|i: int|
                0 <= i < totps@.len() ==> parsed_as(
                    #[trigger] totps@[i],
                    config_entries(content@)[i],
                    digits,
                    interval,
                )
        },
        res matches Err(e) ==> exists|i: int|
            #[trigger] first_invalid(config_entries(content@), i) && (e matches TotpSecretFileError::InvalidFormat(m)
                && m@ == invalid_format_message(config_entries(content@)[i])),
{
    let entries = entries_of(content);
    let ghost all = config_entries(content@);
    let mut totps: Vec<Totp> = Vec::new();
    for i in 0..entries.len()
        invariant
            all == config_entries(content@),
            entries@.len() == all.len(),
            forall|k: int| 0 <= k < entries@.len() ==> #[trigger] entries@[k]@ == all[k],
            totps@.len() == i,
            forall|k: int| 0 <= k < i ==> line_matches(#[trigger] all[k]),
            forall|k: int|
                0 <= k < i ==> parsed_as(#[trigger] totps@[k], all[k], digits, interval),
    {
        let line = string_from_chars(entries[i].as_slice());
        assert(line@ == all[i as int]);
        match parse_uri_string_format(line.as_str(), digits, interval) {
            Ok(totp) => {
                totps.push(totp);
            },
            Err(e) => {
                assert(!line_matches(all[i as int]));
                assert(first_invalid(all, i as int));
                assert(e matches TotpSecretFileError::InvalidFormat(m) && m@ == invalid_format_message(
                    all[i as int],
                ));
                return Err(e);
            },
        }
    }
    Ok(totps)
}

/// What follows the scheme in an entry line written from its parts.
pub open spec fn entry_rest(
    name: Seq<char>,
    account: Seq<char>,
    secret: Seq<char>,
    issuer: Seq<char>,
) -> Seq<char> {
    name + seq![':'] + account + secret_lower() + secret + issuer_lower() + issuer
}

/// The line `scheme NAME ':' ACCOUNT 'secret=' SECRET '&issuer=' ISSUER`.
pub open spec fn entry_line(
    scheme: Seq<char>,
    name: Seq<char>,
    account: Seq<char>,
    secret: Seq<char>,
    issuer: Seq<char>,
) -> Seq<char> {
    scheme + entry_rest(name, account, secret, issuer)
}

/// `&issuer=` starts with '&'.
proof fn lemma_issuer_starts_with_ampersand(t: Seq<char>, k: int)
    requires
        issuer_at(t, k),
    ensures
        t[k] == '&',
{
    let w = t.subrange(k, k + 8);
    assert(folds_to(w[0], issuer_lower()[0], issuer_upper()[0]));
    assert(w[0] == t[k]);
}

/// `secret=` ends with '='.
proof fn lemma_secret_ends_with_equals(t: Seq<char>, j: int)
    requires
        secret_at(t, j),
    ensures
        t[j + 6] == '=',
{
    let w = t.subrange(j, j + 7);
    assert(folds_to(w[6], secret_lower()[6], secret_upper()[6]));
    assert(w[6] == t[j + 6]);
}

/// The characters of an entry line after the scheme, region by region.
proof fn lemma_entry_regions(
    name: Seq<char>,
    account: Seq<char>,
    secret: Seq<char>,
    issuer: Seq<char>,
)
    ensures
        ({
            let t = entry_rest(name, account, secret, issuer);
            let c = name.len() as int;
            let l = c + 1 + account.len();
            let k = l + 7 + secret.len();
            &&& t.len() == k + 8 + issuer.len()
            &&& forall|x: int| 0 <= x < c ==> #[trigger] t[x] == name[x]
            &&& t[c] == ':'
            &&& forall|x: int| c < x < l ==> #[trigger] t[x] == account[x - c - 1]
            &&& t.subrange(l, l + 7) == secret_lower()
            &&& forall|x: int| l <= x < l + 7 ==> #[trigger] t[x] == secret_lower()[x - l]
            &&& t.subrange(l + 7, k) == secret
            &&& forall|x: int| l + 7 <= x < k ==> #[trigger] t[x] == secret[x - l - 7]
            &&& t.subrange(k, k + 8) == issuer_lower()
            &&& forall|x: int| k <= x < k + 8 ==> #[trigger] t[x] == issuer_lower()[x - k]
            &&& forall|x: int| k + 8 <= x < t.len() ==> #[trigger] t[x] == issuer[x - k - 8]
            &&& t.take(c) == name
        }),
{
    let t = entry_rest(name, account, secret, issuer);
    let c = name.len() as int;
    let l = c + 1 + account.len();
    let k = l + 7 + secret.len();
    assert(t.subrange(l, l + 7) =~= secret_lower());
    assert(t.subrange(l + 7, k) =~= secret);
    assert(t.subrange(k, k + 8) =~= issuer_lower());
    assert(t.take(c) =~= name);
}

/// What follows the scheme has no line feed when no part has one.
proof fn lemma_entry_rest_single_line(
    name: Seq<char>,
    account: Seq<char>,
    secret: Seq<char>,
    issuer: Seq<char>,
)
    requires
        !name.contains('\n'),
        !account.contains('\n'),
        !secret.contains('\n'),
        !issuer.contains('\n'),
    ensures
        !entry_rest(name, account, secret, issuer).contains('\n'),
{
    let t = entry_rest(name, account, secret, issuer);
    let c = name.len() as int;
    let l = c + 1 + account.len();
    let k = l + 7 + secret.len();
    lemma_entry_regions(name, account, secret, issuer);
    assert forall|y: int| 0 <= y < t.len() implies #[trigger] t[y] != '\n' by {
        if y < c {
            assert(t[y] == name[y]);
        } else if y == c {
        } else if y < l {
            assert(t[y] == account[y - c - 1]);
        } else if y < l + 7 {
            assert(t[y] == secret_lower()[y - l]);
        } else if y < k {
            assert(t[y] == secret[y - l - 7]);
        } else if y < k + 8 {
            assert(t[y] == issuer_lower()[y - k]);
        } else {
            assert(t[y] == issuer[y - k - 8]);
        }
    }
}

/// An entry line written from parts without line feeds has none, and starts
/// with its scheme.
proof fn lemma_entry_line_shape(scheme: Seq<char>, t: Seq<char>)
    requires
        folds_seq(scheme, scheme_lower(), scheme_upper()),
        !t.contains('\n'),
    ensures
        !(scheme + t).contains('\n'),
        literal_at(scheme + t, scheme_lower(), scheme_upper(), 0),
        after_scheme(scheme + t) == t,
{
    let line = scheme + t;
    assert(line.skip(15) =~= t);
    assert(line.subrange(0, 15) =~= scheme);
    assert forall|x: int| 0 <= x < line.len() implies #[trigger] line[x] != '\n' by {
        if x < 15 {
            assert(folds_to(scheme[x], scheme_lower()[x], scheme_upper()[x]));
        } else {
            assert(line[x] == t[x - 15]);
        }
    }
}

/// In an entry line written from its parts, the written `&issuer=` is the
/// last one when the issuer holds no '&'.
proof fn lemma_entry_line_issuer(
    name: Seq<char>,
    account: Seq<char>,
    secret: Seq<char>,
    issuer: Seq<char>,
)
    requires
        !issuer.contains('&'),
    ensures
        ({
            let t = entry_rest(name, account, secret, issuer);
            let k = name.len() as int + 1 + account.len() + 7 + secret.len();
            &&& issuer_at(t, k)
            &&& forall|q: int| k < q < t.len() ==> !#[trigger] issuer_at(t, q)
        }),
{
    let t = entry_rest(name, account, secret, issuer);
    let c = name.len() as int;
    let l = c + 1 + account.len();
    let k = l + 7 + secret.len();
    lemma_entry_regions(name, account, secret, issuer);
    assert forall|q: int| k < q < t.len() implies !#[trigger] issuer_at(t, q) by {
        if issuer_at(t, q) {
            lemma_issuer_starts_with_ampersand(t, q);
            if q < k + 8 {
                assert(t[q] == issuer_lower()[q - k]);
            } else {
                assert(t[q] == issuer[q - k - 8]);
                assert(issuer.contains('&'));
            }
        }
    }
}

/// In an entry line written from its parts, the written `secret=` is the
/// first one after the ':' when the account holds no '='.
proof fn lemma_entry_line_secret(
    name: Seq<char>,
    account: Seq<char>,
    secret: Seq<char>,
    issuer: Seq<char>,
)
    requires
        !account.contains('='),
    ensures
        ({
            let t = entry_rest(name, account, secret, issuer);
            let c = name.len() as int;
            let l = c + 1 + account.len();
            &&& secret_at(t, l)
            &&& forall|q: int| c + 1 <= q < l ==> !#[trigger] secret_at(t, q)
        }),
{
    let t = entry_rest(name, account, secret, issuer);
    let c = name.len() as int;
    let l = c + 1 + account.len();
    lemma_entry_regions(name, account, secret, issuer);
    assert forall|q: int| c + 1 <= q < l implies !#[trigger] secret_at(t, q) by {
        if secret_at(t, q) {
            lemma_secret_ends_with_equals(t, q);
            if q + 6 < l {
                assert(t[q + 6] == account[q + 6 - c - 1]);
                assert(account.contains('='));
            } else {
                assert(t[q + 6] == secret_lower()[q + 6 - l]);
            }
        }
    }
}

/// In an entry line written from its parts, the written ':' is the last
/// viable one when neither account nor secret holds a ':'.
proof fn lemma_entry_line_colon(
    name: Seq<char>,
    account: Seq<char>,
    secret: Seq<char>,
    issuer: Seq<char>,
)
    requires
        !account.contains(':'),
        !secret.contains(':'),
        ({
            let t = entry_rest(name, account, secret, issuer);
            let k = name.len() as int + 1 + account.len() + 7 + secret.len();
            forall|j: int| #[trigger] secret_viable(t, j) <==> secret_at(t, j) && j + 7 <= k
        }),
        secret_viable(entry_rest(name, account, secret, issuer), name.len() as int + 1 + account.len()),
    ensures
        name_end(entry_rest(name, account, secret, issuer)) == name.len(),
{
    let t = entry_rest(name, account, secret, issuer);
    let c = name.len() as int;
    let l = c + 1 + account.len();
    let k = l + 7 + secret.len();
    lemma_entry_regions(name, account, secret, issuer);
    assert(colon_viable(t, c));
    assert forall|i2: int| #[trigger] colon_viable(t, i2) implies i2 <= c by {
        if i2 > c {
            let j = choose|j: int| i2 < j && #[trigger] secret_viable(t, j);
            assert(secret_at(t, j) && j + 7 <= k);
            if i2 < l {
                assert(t[i2] == account[i2 - c - 1]);
                assert(account.contains(':'));
            } else if i2 < l + 7 {
                assert(t[i2] == secret_lower()[i2 - l]);
            } else {
                assert(t[i2] == secret[i2 - l - 7]);
                assert(secret.contains(':'));
            }
        }
    }
}

/// An entry line written from its parts reads back as those parts: when
/// the scheme is `otpauth://totp/` in any case, no part holds a line feed,
/// the account holds neither ':' nor '=', the secret holds no ':' and the
/// issuer holds no '&', the line is an entry whose name and secret are the
/// ones written.
pub proof fn lemma_entry_line_round_trip(
    scheme: Seq<char>,
    name: Seq<char>,
    account: Seq<char>,
    secret: Seq<char>,
    issuer: Seq<char>,
)
    requires
        folds_seq(scheme, scheme_lower(), scheme_upper()),
        !name.contains('\n'),
        !account.contains('\n'),
        !secret.contains('\n'),
        !issuer.contains('\n'),
        !account.contains(':'),
        !account.contains('='),
        !secret.contains(':'),
        !issuer.contains('&'),
    ensures
        line_matches(entry_line(scheme, name, account, secret, issuer)),
        captured_name(entry_line(scheme, name, account, secret, issuer)) == name,
        captured_secret(entry_line(scheme, name, account, secret, issuer)) == secret,
{
    let t = entry_rest(name, account, secret, issuer);
    let line = entry_line(scheme, name, account, secret, issuer);
    let c = name.len() as int;
    let l = c + 1 + account.len();
    let k = l + 7 + secret.len();
    lemma_entry_regions(name, account, secret, issuer);
    lemma_entry_rest_single_line(name, account, secret, issuer);
    lemma_entry_line_shape(scheme, t);
    lemma_entry_line_issuer(name, account, secret, issuer);
    lemma_last_issuer(t, k);
    lemma_entry_line_secret(name, account, secret, issuer);
    assert(secret_viable(t, l));
    lemma_entry_line_colon(name, account, secret, issuer);
    lemma_secret_bounds(t, c, l, k);
    assert(colon_viable(t, c));
    assert(line_matches(line));
}

/// Splitting `a`, a line feed and `b` gives the parts of `a` followed by
/// the parts of `b`.
proof fn lemma_split_lines_join(a: Seq<char>, b: Seq<char>)
    ensures
        split_lines(a + seq!['\n'] + b) == split_lines(a) + split_lines(b),
    decreases b.len(),
{
    let joined = a + seq!['\n'] + b;
    if b.len() == 0 {
        assert(joined.drop_last() =~= a);
        assert(split_lines(a).push(Seq::empty()) =~= split_lines(a) + split_lines(b));
    } else {
        let rest = b.drop_last();
        assert(joined.drop_last() =~= a + seq!['\n'] + rest);
        lemma_split_lines_join(a, rest);
        lemma_split_lines_nonempty(rest);
        let prev = split_lines(a) + split_lines(rest);
        if b.last() == '\n' {
            assert(prev.push(Seq::empty()) =~= split_lines(a) + split_lines(rest).push(Seq::empty()));
        } else {
            let pr = split_lines(rest);
            assert(prev.update(prev.len() - 1, prev.last().push(b.last())) =~= split_lines(a)
                + pr.update(pr.len() - 1, pr.last().push(b.last())));
        }
    }
}

/// A text without line feeds is a single part.
proof fn lemma_split_lines_single(c: Seq<char>)
    requires
        !c.contains('\n'),
    ensures
        split_lines(c) == seq![c],
    decreases c.len(),
{
    if c.len() == 0 {
        assert(c =~= Seq::<char>::empty());
        assert(split_lines(c) =~= seq![c]);
    } else {
        let rest = c.drop_last();
        assert(!rest.contains('\n')) by {
            if rest.contains('\n') {
                let i = choose|i: int| 0 <= i < rest.len() && rest[i] == '\n';
                assert(c[i] == '\n');
            }
        }
        assert(c[c.len() - 1] != '\n');
        lemma_split_lines_single(rest);
        assert(rest.push(c.last()) =~= c);
        assert(seq![rest].update(0, rest.push(c.last())) =~= seq![c]);
    }
}

/// The entry lines of consecutive parts are those of each part, in order.
proof fn lemma_entry_lines_concat(a: Seq<Seq<char>>, b: Seq<Seq<char>>)
    ensures
        entry_lines(a + b) == entry_lines(a) + entry_lines(b),
    decreases b.len(),
{
    if b.len() == 0 {
        assert(a + b =~= a);
        assert(entry_lines(a) + entry_lines(b) =~= entry_lines(a));
    } else {
        let rest = b.drop_last();
        assert((a + b).drop_last() =~= a + rest);
        assert((a + b).last() == b.last());
        lemma_entry_lines_concat(a, rest);
        if b.last().len() > 0 {
            assert((entry_lines(a) + entry_lines(rest)).push(trim(b.last())) =~= entry_lines(a)
                + entry_lines(rest).push(trim(b.last())));
        }
    }
}

/// Reading two texts joined by a line feed gives the entries of the first
/// followed by those of the second: every line counts, the last one too.
pub proof fn lemma_config_entries_join(a: Seq<char>, b: Seq<char>)
    ensures
        config_entries(a + seq!['\n'] + b) == config_entries(a) + config_entries(b),
{
    reveal(config_entries);
    lemma_split_lines_join(a, b);
    lemma_entry_lines_concat(split_lines(a), split_lines(b));
}

/// A text without line feeds gives one entry, the text trimmed, when it is
/// not empty, and none when it is.
pub proof fn lemma_config_entries_single_line(c: Seq<char>)
    requires
        !c.contains('\n'),
    ensures
        c.len() > 0 ==> config_entries(c) == seq![trim(c)],
        c.len() == 0 ==> config_entries(c) == Seq::<Seq<char>>::empty(),
{
    reveal(config_entries);
    lemma_split_lines_single(c);
    let one = seq![c];
    assert(one.drop_last() =~= Seq::<Seq<char>>::empty());
    assert(one.last() == c);
    assert(entry_lines(Seq::<Seq<char>>::empty()) == Seq::<Seq<char>>::empty());
    assert(entry_lines(one) == if c.len() > 0 {
        entry_lines(one.drop_last()).push(trim(c))
    } else {
        entry_lines(one.drop_last())
    });
    if c.len() > 0 {
        assert(Seq::<Seq<char>>::empty().push(trim(c)) =~= seq![trim(c)]);
    }
}

/// A final line feed adds no entry: a text reads the same with or without it.
pub proof fn lemma_config_entries_final_line_feed(c: Seq<char>)
    ensures
        config_entries(c + seq!['\n']) == config_entries(c),
{
    lemma_config_entries_join(c, Seq::empty());
    lemma_config_entries_single_line(Seq::empty());
    assert(c + seq!['\n'] + Seq::<char>::empty() =~= c + seq!['\n']);
    assert(config_entries(c) + Seq::<Seq<char>>::empty() =~= config_entries(c));
}

} // verus!
