//! Character-level utilities: conversions between strings and character
//! vectors, trailing-newline stripping, and decimal formatting.

use vstd::prelude::*;

verus! {

/// `s` with every trailing `'\n'` or `'\r'` removed.
pub open spec fn spec_strip_trailing_nl(s: Seq<char>) -> Seq<char>
    decreases s.len(),
{
    if s.len() > 0 && (s.last() == '\n' || s.last() == '\r') {
        spec_strip_trailing_nl(s.drop_last())
    } else {
        s
    }
}

/// Relies on `str::chars` together with `Iterator::collect` for
/// `Vec<char>`: the vector holds exactly the characters of the string,
/// in order.
#[verifier::external_body]
pub fn to_chars(s: &str) -> (r: Vec<char>)
    ensures
        r@ == s@,
{
    s.chars().collect()
}

/// Relies on `String`'s `FromIterator<char>` implementation: collecting
/// characters yields the string of exactly those characters, in order.
#[verifier::external_body]
pub fn from_chars(v: &Vec<char>) -> (r: String)
    ensures
        r@ == v@,
{
    v.iter().collect()
}

/// Character-wise string equality.
pub fn str_eq(a: &str, b: &str) -> (r: bool)
    ensures
        r == (a@ == b@),
{
    let alen = a.unicode_len();
    let blen = b.unicode_len();
    if alen != blen {
        return false;
    }
    let mut i: usize = 0;
    while i < alen
        invariant
            i <= alen,
            alen == a@.len(),
            alen == b@.len(),
            forall|k: int| 0 <= k < i ==> a@[k] == b@[k],
        decreases alen - i,
    {
        if a.get_char(i) != b.get_char(i) {
            return false;
        }
        i = i + 1;
    }
    proof {
        assert(a@ =~= b@);
    }
    true
}

/// Remove every trailing newline or carriage-return character.
pub fn strip_trailing_nl(input: String) -> (r: String)
    ensures
        r@ == spec_strip_trailing_nl(input@),
{
    let chars = to_chars(input.as_str());
    let mut end: usize = chars.len();
    proof {
        assert(input@.take(input@.len() as int) =~= input@);
    }
    while end > 0 && (chars[end - 1] == '\n' || chars[end - 1] == '\r')
        invariant
            end <= chars.len(),
            chars@ == input@,
            spec_strip_trailing_nl(input@) == spec_strip_trailing_nl(input@.take(end as int)),
        decreases end,
    {
        proof {
            assert(input@.take(end as int).last() == chars@[end - 1]);
            assert(input@.take(end as int).drop_last() =~= input@.take(end - 1));
        }
        end = end - 1;
    }
    let mut out: Vec<char> = Vec::new();
    let mut i: usize = 0;
    while i < end
        invariant
            i <= end,
            end <= chars.len(),
            chars@ == input@,
            out@ =~= input@.take(end as int).take(i as int),
        decreases end - i,
    {
        out.push(chars[i]);
        i = i + 1;
    }
    proof {
        assert(input@.take(end as int).take(end as int) =~= input@.take(end as int));
        if end > 0 {
            assert(!(input@.take(end as int).last() == '\n' || input@.take(end as int).last()
                == '\r'));
        }
    }
    from_chars(&out)
}

/// The character for one decimal digit.
pub open spec fn digit_char(d: int) -> char {
    if d == 0 {
        '0'
    } else if d == 1 {
        '1'
    } else if d == 2 {
        '2'
    } else if d == 3 {
        '3'
    } else if d == 4 {
        '4'
    } else if d == 5 {
        '5'
    } else if d == 6 {
        '6'
    } else if d == 7 {
        '7'
    } else if d == 8 {
        '8'
    } else {
        '9'
    }
}

/// The decimal digits of `n`, most significant first, with no leading zero
/// (`0` itself is the single digit `'0'`).
pub open spec fn spec_dec(n: int) -> Seq<char>
    decreases n,
{
    if n < 10 {
        seq![digit_char(n)]
    } else {
        spec_dec(n / 10).push(digit_char(n % 10))
    }
}

/// `n` as two decimal digits, zero-padded when `n < 10`.
pub open spec fn spec_pad2(n: int) -> Seq<char> {
    if n < 10 {
        seq!['0'].add(spec_dec(n))
    } else {
        spec_dec(n)
    }
}

fn digit(d: u64) -> (r: char)
    requires
        d < 10,
    ensures
        r == digit_char(d as int),
{
    if d == 0 {
        '0'
    } else if d == 1 {
        '1'
    } else if d == 2 {
        '2'
    } else if d == 3 {
        '3'
    } else if d == 4 {
        '4'
    } else if d == 5 {
        '5'
    } else if d == 6 {
        '6'
    } else if d == 7 {
        '7'
    } else if d == 8 {
        '8'
    } else {
        '9'
    }
}

/// Append the decimal digits of `n` to `out`.
pub fn push_dec(n: u64, out: &mut Vec<char>)
    ensures
        final(out)@ == old(out)@ + spec_dec(n as int),
    decreases n,
{
    if n >= 10 {
        push_dec(n / 10, out);
    }
    out.push(digit(n % 10));
    proof {
        assert(final(out)@ =~= old(out)@ + spec_dec(n as int));
    }
}

/// Append the decimal digits of `n` to `out`, zero-padded to two digits.
pub fn push_pad2(n: u64, out: &mut Vec<char>)
    ensures
        final(out)@ == old(out)@ + spec_pad2(n as int),
{
    if n < 10 {
        out.push('0');
    }
    push_dec(n, out);
    proof {
        assert(final(out)@ =~= old(out)@ + spec_pad2(n as int));
    }
}

/// `n` written in decimal.
pub fn u64_to_string(n: u64) -> (r: String)
    ensures
        r@ == spec_dec(n as int),
{
    let mut out: Vec<char> = Vec::new();
    push_dec(n, &mut out);
    proof {
        assert(out@ =~= spec_dec(n as int));
    }
    from_chars(&out)
}

/// A duration of `ms` milliseconds rendered for the operator: `HH:MM:SS`
/// once it reaches an hour, otherwise `MM:SS.cc` with centiseconds.
pub open spec fn spec_format_time(ms: int) -> Seq<char> {
    let h = ms / 3600000;
    let m = (ms / 60000) % 60;
    let s = (ms / 1000) % 60;
    let c = (ms % 1000) / 10;
    if h > 0 {
        spec_pad2(h) + seq![':'] + spec_pad2(m) + seq![':'] + spec_pad2(s)
    } else {
        spec_pad2(m) + seq![':'] + spec_pad2(s) + seq!['.'] + spec_pad2(c)
    }
}

/// Render a solve duration, given in milliseconds.
pub fn format_time(ms: u64) -> (r: String)
    ensures
        r@ == spec_format_time(ms as int),
{
    let mut out: Vec<char> = Vec::new();
    let h = ms / 3600000;
    let m = (ms / 60000) % 60;
    let s = (ms / 1000) % 60;
    if h > 0 {
        push_pad2(h, &mut out);
        out.push(':');
        push_pad2(m, &mut out);
        out.push(':');
        push_pad2(s, &mut out);
        proof {
            assert(out@ =~= spec_format_time(ms as int));
        }
    } else {
        let c = (ms % 1000) / 10;
        push_pad2(m, &mut out);
        out.push(':');
        push_pad2(s, &mut out);
        out.push('.');
        push_pad2(c, &mut out);
        proof {
            assert(out@ =~= spec_format_time(ms as int));
        }
    }
    from_chars(&out)
}

} // verus!
