//! Character-level text helpers: decimal rendering, padding, ASCII case
//! mapping and whitespace trimming, each stated over `Seq<char>`.

use vstd::prelude::*;

verus! {

/// The character of the decimal digit `d` (`d < 10`).
pub open spec fn digit_char(d: nat) -> char {
    (d + 48) as char
}

/// The decimal representation of `n`: most significant digit first, no
/// leading zeros, and "0" for zero.
pub open spec fn decimal(n: nat) -> Seq<char>
    decreases n,
{
    if n < 10 {
        seq![digit_char(n)]
    } else {
        decimal(n / 10).push(digit_char(n % 10))
    }
}

/// `s` preceded by as many '0' as it takes to reach `width` characters.
pub open spec fn pad_zeros_left(s: Seq<char>, width: nat) -> Seq<char> {
    if s.len() >= width {
        s
    } else {
        Seq::new((width - s.len()) as nat, |_i: int| '0') + s
    }
}

/// `s` followed by as many ' ' as it takes to reach `width` characters.
pub open spec fn pad_spaces_right(s: Seq<char>, width: nat) -> Seq<char> {
    if s.len() >= width {
        s
    } else {
        s + Seq::new((width - s.len()) as nat, |_i: int| ' ')
    }
}

/// `c` with an ASCII lower-case letter mapped to its upper-case letter.
pub open spec fn ascii_upper_char(c: char) -> char {
    if 'a' <= c && c <= 'z' {
        (c as int - 32) as char
    } else {
        c
    }
}

/// `s` with every ASCII lower-case letter mapped to upper case.
pub open spec fn ascii_upper(s: Seq<char>) -> Seq<char> {
    Seq::new(s.len(), |i: int| ascii_upper_char(s[i]))
}

/// The Unicode `White_Space` property.
pub open spec fn is_white_space(c: char) -> bool {
    ||| ('\u{9}' <= c && c <= '\u{d}')
    ||| c == ' '
    ||| c == '\u{85}'
    ||| c == '\u{a0}'
    ||| c == '\u{1680}'
    ||| ('\u{2000}' <= c && c <= '\u{200a}')
    ||| c == '\u{2028}'
    ||| c == '\u{2029}'
    ||| c == '\u{202f}'
    ||| c == '\u{205f}'
    ||| c == '\u{3000}'
}

/// `s` without its leading white space.
pub open spec fn trim_start(s: Seq<char>) -> Seq<char>
    decreases s.len(),
{
    if s.len() > 0 && is_white_space(s[0]) {
        trim_start(s.drop_first())
    } else {
        s
    }
}

/// `s` without its trailing white space.
pub open spec fn trim_end(s: Seq<char>) -> Seq<char>
    decreases s.len(),
{
    if s.len() > 0 && is_white_space(s.last()) {
        trim_end(s.drop_last())
    } else {
        s
    }
}

/// `s` without leading and trailing white space.
pub open spec fn trim(s: Seq<char>) -> Seq<char> {
    trim_end(trim_start(s))
}

/// Collects characters into a `String` (std's `FromIterator<char>`).
#[verifier::external_body]
pub(crate) fn string_from_chars(chars: &[char]) -> (s: String)
    ensures
        s@ == chars@,
{
    chars.iter().collect()
}

/// The characters of `s`, in order.
pub fn chars_of(s: &str) -> (v: Vec<char>)
    ensures
        v@ == s@,
{
    let mut v: Vec<char> = Vec::new();
    for c in it: s.chars()
        invariant
            v@ == it.seq().take(it.index() as int),
    {
        v.push(c);
    }
    proof {
        assert(v@ =~= s@);
    }
    v
}

/// Appends the characters of `s` to `out`.
pub fn push_str(out: &mut Vec<char>, s: &str)
    ensures
        final(out)@ == old(out)@ + s@,
{
    let ghost start = out@;
    for c in it: s.chars()
        invariant
            out@ == start + it.seq().take(it.index() as int),
    {
        out.push(c);
    }
    proof {
        assert(out@ =~= start + s@);
    }
}

/// Appends `count` copies of `c` to `out`.
pub fn push_repeated(out: &mut Vec<char>, c: char, count: usize)
    ensures
        final(out)@ == old(out)@ + Seq::new(count as nat, |_i: int| c),
{
    let ghost start = out@;
    for i in 0..count
        invariant
            out@ == start + Seq::new(i as nat, |_i: int| c),
    {
        out.push(c);
        proof {
            assert(out@ =~= start + Seq::new((i + 1) as nat, |_i: int| c));
        }
    }
}

/// The decimal digits of `n`.
pub fn decimal_chars(n: u64) -> (v: Vec<char>)
    ensures
        v@ == decimal(n as nat),
    decreases n,
{
    let d = (n % 10) as u8;
    let c = (d + 48) as char;
    if n < 10 {
        vec![c]
    } else {
        let mut v = decimal_chars(n / 10);
        v.push(c);
        v
    }
}

/// Appends the decimal digits of `n`, left-padded with '0' to `width`.
pub fn push_zero_padded(out: &mut Vec<char>, n: u64, width: usize)
    ensures
        final(out)@ == old(out)@ + pad_zeros_left(decimal(n as nat), width as nat),
{
    let digits = decimal_chars(n);
    let ghost start = out@;
    if digits.len() < width {
        push_repeated(out, '0', width - digits.len());
    }
    let ghost mid = out@;
    for i in 0..digits.len()
        invariant
            out@ == mid + digits@.take(i as int),
    {
        out.push(digits[i]);
        proof {
            assert(digits@.take(i + 1) =~= digits@.take(i as int).push(digits@[i as int]));
        }
    }
    proof {
        assert(digits@.take(digits@.len() as int) =~= digits@);
        assert(out@ =~= start + pad_zeros_left(decimal(n as nat), width as nat));
    }
}

/// Appends `s`, right-padded with ' ' to `width` characters.
pub fn push_padded_right(out: &mut Vec<char>, s: &str, width: usize)
    ensures
        final(out)@ == old(out)@ + pad_spaces_right(s@, width as nat),
{
    let ghost start = out@;
    push_str(out, s);
    let len = s.unicode_len();
    if len < width {
        push_repeated(out, ' ', width - len);
    }
    proof {
        assert(out@ =~= start + pad_spaces_right(s@, width as nat));
    }
}

/// The decimal representation of `n`, left-padded with '0' to `width`.
pub fn zero_padded(n: u64, width: usize) -> (s: String)
    ensures
        s@ == pad_zeros_left(decimal(n as nat), width as nat),
{
    let mut out: Vec<char> = Vec::new();
    push_zero_padded(&mut out, n, width);
    proof {
        assert(out@ =~= pad_zeros_left(decimal(n as nat), width as nat));
    }
    string_from_chars(out.as_slice())
}

/// `s` with every ASCII lower-case letter mapped to upper case.
pub fn to_ascii_uppercase(s: &str) -> (r: String)
    ensures
        r@ == ascii_upper(s@),
{
    let chars = chars_of(s);
    let mut out: Vec<char> = Vec::new();
    for i in 0..chars.len()
        invariant
            chars@ == s@,
            out@ == ascii_upper(s@).take(i as int),
    {
        let c = chars[i];
        let u = if 'a' <= c && c <= 'z' {
            ((c as u32 - 32) as u8) as char
        } else {
            c
        };
        out.push(u);
        proof {
            assert(out@ =~= ascii_upper(s@).take(i + 1));
        }
    }
    proof {
        assert(out@ =~= ascii_upper(s@));
    }
    string_from_chars(out.as_slice())
}

/// Whether `c` has the Unicode `White_Space` property.
pub fn is_white_space_char(c: char) -> (b: bool)
    ensures
        b == is_white_space(c),
{
    ('\u{9}' <= c && c <= '\u{d}') || c == ' ' || c == '\u{85}' || c == '\u{a0}' || c == '\u{1680}'
        || ('\u{2000}' <= c && c <= '\u{200a}') || c == '\u{2028}' || c == '\u{2029}' || c
        == '\u{202f}' || c == '\u{205f}' || c == '\u{3000}'
}

/// Dropping leading white space up to the first other character.
proof fn lemma_trim_start(s: Seq<char>, a: int)
    requires
        0 <= a <= s.len(),
        forall|i: int| 0 <= i < a ==> is_white_space(#[trigger] s[i]),
        a == s.len() || !is_white_space(s[a]),
    ensures
        trim_start(s) == s.skip(a),
    decreases a,
{
    if a == 0 {
        assert(s.skip(0) =~= s);
    } else {
        assert(is_white_space(s[0]));
        let rest = s.drop_first();
        assert forall|i: int| 0 <= i < a - 1 implies is_white_space(#[trigger] rest[i]) by {
            assert(rest[i] == s[i + 1]);
        }
        lemma_trim_start(rest, a - 1);
        assert(rest.skip(a - 1) =~= s.skip(a));
    }
}

/// Dropping trailing white space down to the last other character.
proof fn lemma_trim_end(s: Seq<char>, b: int)
    requires
        0 <= b <= s.len(),
        forall|i: int| b <= i < s.len() ==> is_white_space(#[trigger] s[i]),
        b == 0 || !is_white_space(s[b - 1]),
    ensures
        trim_end(s) == s.take(b),
    decreases s.len() - b,
{
    if b == s.len() {
        assert(s.take(b) =~= s);
    } else {
        assert(is_white_space(s[s.len() - 1]));
        let rest = s.drop_last();
        assert forall|i: int| b <= i < rest.len() implies is_white_space(#[trigger] rest[i]) by {
            assert(rest[i] == s[i]);
        }
        lemma_trim_end(rest, b);
        assert(rest.take(b) =~= s.take(b));
    }
}

/// `s` without leading and trailing white space (as `str::trim`).
pub fn trim_chars(s: &Vec<char>) -> (r: Vec<char>)
    ensures
        r@ == trim(s@),
{
    let n = s.len();
    let mut a: usize = 0;
    while a < n && is_white_space_char(s[a])
        invariant
            a <= n == s@.len(),
            forall|i: int| 0 <= i < a ==> is_white_space(#[trigger] s@[i]),
        decreases n - a,
    {
        a += 1;
    }
    let mut b: usize = n;
    while b > a && is_white_space_char(s[b - 1])
        invariant
            a <= b <= n == s@.len(),
            forall|i: int| b <= i < n ==> is_white_space(#[trigger] s@[i]),
        decreases b,
    {
        b -= 1;
    }
    let mut r: Vec<char> = Vec::new();
    let mut i = a;
    while i < b
        invariant
            a <= i <= b <= n == s@.len(),
            r@ == s@.subrange(a as int, i as int),
        decreases b - i,
    {
        r.push(s[i]);
        i += 1;
        assert(r@ =~= s@.subrange(a as int, i as int));
    }
    proof {
        lemma_trim_start(s@, a as int);
        let rest = s@.skip(a as int);
        assert forall|q: int| b - a <= q < rest.len() implies is_white_space(#[trigger] rest[q]) by {
            assert(rest[q] == s@[a + q]);
        }
        if b > a {
            assert(rest[b - a - 1] == s@[b - 1]);
        }
        lemma_trim_end(rest, b - a);
        assert(rest.take(b - a) =~= s@.subrange(a as int, b as int));
    }
    r
}

/// The largest character count among `texts` (0 when there are none).
pub open spec fn max_char_count(texts: Seq<Seq<char>>) -> nat
    decreases texts.len(),
{
    if texts.len() == 0 {
        0
    } else {
        let rest = max_char_count(texts.drop_last());
        if texts.last().len() > rest {
            texts.last().len()
        } else {
            rest
        }
    }
}

/// No text is longer than `max_char_count`, and some text is that long.
pub proof fn lemma_max_char_count(texts: Seq<Seq<char>>)
    ensures
        forall|i: int| 0 <= i < texts.len() ==> (#[trigger] texts[i]).len() <= max_char_count(texts),
        texts.len() > 0 ==> exists|i: int|
            0 <= i < texts.len() && (#[trigger] texts[i]).len() == max_char_count(texts),
    decreases texts.len(),
{
    if texts.len() > 0 {
        let rest = texts.drop_last();
        lemma_max_char_count(rest);
        assert forall|i: int| 0 <= i < texts.len() implies (#[trigger] texts[i]).len()
            <= max_char_count(texts) by {
            if i < texts.len() - 1 {
                assert(texts[i] == rest[i]);
            }
        }
        if texts.last().len() > max_char_count(rest) || rest.len() == 0 {
            assert(texts[texts.len() - 1].len() == max_char_count(texts));
        } else {
            let j = choose|j: int| 0 <= j < rest.len() && (#[trigger] rest[j]).len() == max_char_count(rest);
            assert(texts[j] == rest[j]);
        }
    }
}

} // verus!
