//! Response classification: the closed set of outcomes a server message can
//! mean, the embedded rate-limit wait duration, and the embedded leaderboard
//! rank announcement.

use vstd::prelude::*;

verus! {

/// `p` is a prefix of `s`.
pub open spec fn spec_starts_with(s: Seq<char>, p: Seq<char>) -> bool {
    p.len() <= s.len() && s.take(p.len() as int) == p
}

/// What a classified server message means.
#[derive(Clone, Copy, PartialEq, Eq, Structural, Debug)]
pub enum Outcome {
    /// The answer was accepted.
    Correct,
    /// The answer was rejected.
    Incorrect,
    /// The part was already solved, or solved with a different answer
    /// elsewhere; benign.
    WrongLevel,
    /// The platform asks to slow down; transient, never cached.
    RateLimited,
    /// Not one of the known phrase families; displayed raw, never cached.
    Unrecognized,
}

/// The phrase-family classification of a message.
pub open spec fn spec_classify(s: Seq<char>) -> Outcome {
    if spec_starts_with(s, "That's the"@) {
        Outcome::Correct
    } else if spec_starts_with(s, "You don't"@) {
        Outcome::WrongLevel
    } else if spec_starts_with(s, "That's not"@) {
        Outcome::Incorrect
    } else if spec_starts_with(s, "You gave"@) {
        Outcome::RateLimited
    } else {
        Outcome::Unrecognized
    }
}

/// `p` is a prefix of `s` starting at position `i`.
fn match_at(chars: &Vec<char>, i: usize, p: &str) -> (r: bool)
    requires
        i <= chars@.len(),
    ensures
        r == spec_starts_with(chars@.skip(i as int), p@),
{
    let plen = p.unicode_len();
    let n = chars.len();
    if n - i < plen {
        return false;
    }
    let mut j: usize = 0;
    while j < plen
        invariant
            j <= plen,
            plen == p@.len(),
            n == chars@.len(),
            i + plen <= n,
            forall|k: int| 0 <= k < j ==> chars@[i + k] == p@[k],
        decreases plen - j,
    {
        if chars[i + j] != p.get_char(j) {
            proof {
                assert(chars@.skip(i as int).take(p@.len() as int)[j as int] != p@[j as int]);
            }
            return false;
        }
        j = j + 1;
    }
    proof {
        assert(chars@.skip(i as int).take(p@.len() as int) =~= p@);
    }
    true
}

/// Classify a server message by its leading phrase.
pub fn classify(msg: &str) -> (r: Outcome)
    ensures
        r == spec_classify(msg@),
{
    let chars = crate::text::to_chars(msg);
    proof {
        assert(chars@.skip(0) =~= msg@);
    }
    if match_at(&chars, 0, "That's the") {
        Outcome::Correct
    } else if match_at(&chars, 0, "You don't") {
        Outcome::WrongLevel
    } else if match_at(&chars, 0, "That's not") {
        Outcome::Incorrect
    } else if match_at(&chars, 0, "You gave") {
        Outcome::RateLimited
    } else {
        Outcome::Unrecognized
    }
}

/// A decimal digit.
pub open spec fn is_digit(c: char) -> bool {
    48 <= c as u32 <= 57
}

/// The value of one digit character.
pub open spec fn digit_val(c: char) -> int {
    c as u32 - 48
}

/// The end of the maximal digit run starting at `i`.
pub open spec fn digits_end(s: Seq<char>, i: int) -> int
    decreases s.len() - i
        when 0 <= i <= s.len()
{
    if i < s.len() && is_digit(s[i]) {
        digits_end(s, i + 1)
    } else {
        i
    }
}

/// The value of the digit run `s[i..j]`.
pub open spec fn digits_val(s: Seq<char>, i: int, j: int) -> int
    decreases j - i
        when i <= j
{
    if i >= j {
        0
    } else {
        digits_val(s, i, j - 1) * 10 + digit_val(s[j - 1])
    }
}

pub proof fn lemma_digits_end_bounds(s: Seq<char>, i: int)
    requires
        0 <= i <= s.len(),
    ensures
        i <= digits_end(s, i) <= s.len(),
        forall|k: int| i <= k < digits_end(s, i) ==> is_digit(s[k]),
    decreases s.len() - i,
{
    if i < s.len() && is_digit(s[i]) {
        lemma_digits_end_bounds(s, i + 1);
    }
}

pub proof fn lemma_digits_val_nonneg(s: Seq<char>, i: int, j: int)
    requires
        i <= j,
        forall|k: int| i <= k < j ==> is_digit(s[k]),
    ensures
        digits_val(s, i, j) >= 0,
    decreases j - i,
{
    if i < j {
        lemma_digits_val_nonneg(s, i, j - 1);
    }
}

/// Scan the digit run starting at `start`: its end, its value, and whether
/// the value exceeds `u64::MAX`.
pub(crate) fn scan_digits(chars: &Vec<char>, start: usize) -> (r: (usize, u64, bool))
    requires
        start <= chars@.len(),
    ensures
        r.0 == digits_end(chars@, start as int),
        start <= r.0 <= chars@.len(),
        !r.2 ==> r.1 == digits_val(chars@, start as int, r.0 as int),
        r.2 ==> digits_val(chars@, start as int, r.0 as int) > u64::MAX,
{
    proof {
        lemma_digits_end_bounds(chars@, start as int);
    }
    let ghost end = digits_end(chars@, start as int);
    let n = chars.len();
    let mut i: usize = start;
    let mut val: u64 = 0;
    let mut over: bool = false;
    loop
        invariant
            start <= i <= n,
            n == chars@.len(),
            end == digits_end(chars@, start as int),
            digits_end(chars@, i as int) == end,
            forall|k: int| start <= k < i ==> is_digit(chars@[k]),
            !over ==> val == digits_val(chars@, start as int, i as int),
            over ==> digits_val(chars@, start as int, i as int) > u64::MAX,
        ensures
            start <= i <= n,
            i == end,
            !over ==> val == digits_val(chars@, start as int, i as int),
            over ==> digits_val(chars@, start as int, i as int) > u64::MAX,
        decreases chars@.len() - i,
    {
        if i >= n {
            proof {
                assert(digits_end(chars@, i as int) == i);
            }
            break;
        }
        let c = chars[i];
        proof {
            vstd::utf8::char_is_scalar(c);
        }
        let cu = c as u32;
        if !(48 <= cu && cu <= 57) {
            proof {
                assert(!is_digit(chars@[i as int]));
                assert(digits_end(chars@, i as int) == i);
            }
            break;
        }
        let d: u64 = (cu - 48) as u64;
        proof {
            lemma_digits_val_nonneg(chars@, start as int, i as int);
        }
        if !over {
            if val <= (u64::MAX - d) / 10 {
                proof {
                    assert(val * 10 + d <= u64::MAX) by (nonlinear_arith)
                        requires
                            val <= (u64::MAX - d) / 10,
                            d <= 9,
                            val >= 0,
                    ;
                }
                val = val * 10 + d;
            } else {
                proof {
                    assert(val * 10 + d > u64::MAX) by (nonlinear_arith)
                        requires
                            val > (u64::MAX - d) / 10,
                            d <= 9,
                            val >= 0,
                    ;
                }
                over = true;
            }
        } else {
            proof {
                lemma_digits_val_nonneg(chars@, start as int, i as int);
                assert(digits_val(chars@, start as int, i + 1) > u64::MAX) by (nonlinear_arith)
                    requires
                        digits_val(chars@, start as int, i + 1) == digits_val(
                            chars@,
                            start as int,
                            i as int,
                        ) * 10 + digit_val(chars@[i as int]),
                        digits_val(chars@, start as int, i as int) > u64::MAX,
                        digit_val(chars@[i as int]) >= 0,
                ;
            }
        }
        i = i + 1;
    }
    (i, val, over)
}

/// The rate-limit wait duration announced at position `i`: the message
/// reads `You have [Mm ]Ss left to wait.` there, and the duration is
/// `60*M + S` seconds (the minutes group may be absent).
pub open spec fn spec_wait_at(s: Seq<char>, i: int) -> Option<int> {
    if !(0 <= i <= s.len() && spec_starts_with(s.skip(i), "You have "@)) {
        Option::None
    } else {
        let a = i + 9;
        let b = digits_end(s, a);
        if b == a {
            Option::None
        } else if b + 1 < s.len() && s[b] == 'm' && s[b + 1] == ' ' {
            let c = b + 2;
            let d = digits_end(s, c);
            if d == c {
                Option::None
            } else if spec_starts_with(s.skip(d), "s left to wait."@) {
                Option::Some(60 * digits_val(s, a, b) + digits_val(s, c, d))
            } else {
                Option::None
            }
        } else if spec_starts_with(s.skip(b), "s left to wait."@) {
            Option::Some(digits_val(s, a, b))
        } else {
            Option::None
        }
    }
}

/// The first wait announcement at or after position `i`.
pub open spec fn spec_wait_from(s: Seq<char>, i: int) -> Option<int>
    decreases s.len() - i
        when 0 <= i <= s.len()
{
    if i >= s.len() {
        Option::None
    } else if spec_wait_at(s, i) is Some {
        spec_wait_at(s, i)
    } else {
        spec_wait_from(s, i + 1)
    }
}

/// The wait duration embedded in a rate-limit message, in seconds.
pub open spec fn spec_wait_time(s: Seq<char>) -> Option<int> {
    spec_wait_from(s, 0)
}

/// Try to read a wait announcement at position `i`: whether one is there,
/// its value, and whether the value exceeds `u64::MAX`.
fn wait_at(chars: &Vec<char>, i: usize) -> (r: (bool, u64, bool))
    requires
        i <= chars@.len(),
    ensures
        r.0 == (spec_wait_at(chars@, i as int) is Some),
        r.0 && !r.2 ==> spec_wait_at(chars@, i as int) == Option::Some(r.1 as int),
        r.0 && r.2 ==> (spec_wait_at(chars@, i as int) matches Option::Some(v) && v > u64::MAX),
{
    proof {
        reveal_strlit("You have ");
        reveal_strlit("s left to wait.");
    }
    if !match_at(chars, i, "You have ") {
        return (false, 0, false);
    }
    let n = chars.len();
    proof {
        assert(chars@.skip(i as int).len() == chars@.len() - i);
        assert(i + 9 <= n);
    }
    let a = i + 9;
    let (b, minv, mover) = scan_digits(chars, a);
    if b == a {
        return (false, 0, false);
    }
    if n - b > 1 && chars[b] == 'm' && chars[b + 1] == ' ' {
        let c = b + 2;
        let (d, secv, sover) = scan_digits(chars, c);
        if d == c {
            return (false, 0, false);
        }
        if match_at(chars, d, "s left to wait.") {
            proof {
                lemma_digits_end_bounds(chars@, a as int);
                lemma_digits_val_nonneg(chars@, a as int, b as int);
                lemma_digits_end_bounds(chars@, c as int);
                lemma_digits_val_nonneg(chars@, c as int, d as int);
            }
            if mover || sover {
                proof {
                    assert(60 * digits_val(chars@, a as int, b as int) + digits_val(
                        chars@,
                        c as int,
                        d as int,
                    ) > u64::MAX) by (nonlinear_arith)
                        requires
                            digits_val(chars@, a as int, b as int) >= 0,
                            digits_val(chars@, c as int, d as int) >= 0,
                            digits_val(chars@, a as int, b as int) > u64::MAX || digits_val(
                                chars@,
                                c as int,
                                d as int,
                            ) > u64::MAX,
                    ;
                }
                (true, 0, true)
            } else if minv <= (u64::MAX - secv) / 60 {
                proof {
                    assert(60 * minv + secv <= u64::MAX) by (nonlinear_arith)
                        requires
                            minv <= (u64::MAX - secv) / 60,
                            secv <= u64::MAX,
                    ;
                }
                (true, 60 * minv + secv, false)
            } else {
                proof {
                    assert(60 * minv + secv > u64::MAX) by (nonlinear_arith)
                        requires
                            minv > (u64::MAX - secv) / 60,
                            secv <= u64::MAX,
                    ;
                }
                (true, 0, true)
            }
        } else {
            (false, 0, false)
        }
    } else if match_at(chars, b, "s left to wait.") {
        (true, minv, mover)
    } else {
        (false, 0, false)
    }
}

/// Parse the wait duration out of a rate-limit message.  Returns the
/// duration in seconds of the first announcement in the message, `None`
/// when there is none (or its value does not fit in a machine word).
pub fn parse_wait_time(msg: &str) -> (r: Option<u64>)
    ensures
        spec_wait_time(msg@) is None ==> r is None,
        spec_wait_time(msg@) matches Option::Some(v) ==> (v <= u64::MAX ==> r == Option::Some(
            v as u64,
        )) && (v > u64::MAX ==> r is None),
{
    let chars = crate::text::to_chars(msg);
    let n = chars.len();
    let mut i: usize = 0;
    while i < n
        invariant
            i <= n,
            n == chars@.len(),
            chars@ == msg@,
            spec_wait_from(chars@, 0) == spec_wait_from(chars@, i as int),
        ensures
            i <= n,
            n == chars@.len(),
            chars@ == msg@,
            spec_wait_from(chars@, 0) == spec_wait_from(chars@, i as int),
            i == n || spec_wait_at(chars@, i as int) is Some,
        decreases n - i,
    {
        let (m, v, over) = wait_at(&chars, i);
        if m {
            break;
        }
        i = i + 1;
    }
    if i == n {
        return None;
    }
    let (m, v, over) = wait_at(&chars, i);
    if over {
        None
    } else {
        Some(v)
    }
}

/// The rank announced at position `i`: the message reads
/// `You got rank N on this star's leaderboard.` or
/// `You achieved rank N on this star's leaderboard.` there.
pub open spec fn spec_rank_at(s: Seq<char>, i: int) -> Option<int> {
    if 0 <= i <= s.len() && spec_starts_with(s.skip(i), "You got rank "@) {
        spec_rank_tail(s, i + 13)
    } else if 0 <= i <= s.len() && spec_starts_with(s.skip(i), "You achieved rank "@) {
        spec_rank_tail(s, i + 18)
    } else {
        Option::None
    }
}

/// The digits-and-suffix part of a rank announcement, starting at `a`.
pub open spec fn spec_rank_tail(s: Seq<char>, a: int) -> Option<int> {
    let b = digits_end(s, a);
    if b == a {
        Option::None
    } else if spec_starts_with(s.skip(b), " on this star's leaderboard."@) {
        Option::Some(digits_val(s, a, b))
    } else {
        Option::None
    }
}

/// The first rank announcement at or after position `i`.
pub open spec fn spec_rank_from(s: Seq<char>, i: int) -> Option<int>
    decreases s.len() - i
        when 0 <= i <= s.len()
{
    if i >= s.len() {
        Option::None
    } else if spec_rank_at(s, i) is Some {
        spec_rank_at(s, i)
    } else {
        spec_rank_from(s, i + 1)
    }
}

/// The rank embedded in a server message, if it announces one.
pub open spec fn spec_rank(s: Seq<char>) -> Option<int> {
    spec_rank_from(s, 0)
}

/// Try to read a rank announcement at position `i`.
fn rank_at(chars: &Vec<char>, i: usize) -> (r: (bool, u64, bool))
    requires
        i <= chars@.len(),
    ensures
        r.0 == (spec_rank_at(chars@, i as int) is Some),
        r.0 && !r.2 ==> spec_rank_at(chars@, i as int) == Option::Some(r.1 as int),
        r.0 && r.2 ==> (spec_rank_at(chars@, i as int) matches Option::Some(v) && v > u64::MAX),
{
    proof {
        reveal_strlit("You got rank ");
        reveal_strlit("You achieved rank ");
        reveal_strlit(" on this star's leaderboard.");
    }
    let n = chars.len();
    proof {
        assert(chars@.skip(i as int).len() == chars@.len() - i);
    }
    let a: usize;
    if match_at(chars, i, "You got rank ") {
        proof {
            assert(i + 13 <= n);
        }
        a = i + 13;
    } else if match_at(chars, i, "You achieved rank ") {
        proof {
            assert(i + 18 <= n);
        }
        a = i + 18;
    } else {
        return (false, 0, false);
    }
    let (b, rv, rover) = scan_digits(chars, a);
    if b == a {
        return (false, 0, false);
    }
    if match_at(chars, b, " on this star's leaderboard.") {
        (true, rv, rover)
    } else {
        (false, 0, false)
    }
}

/// Extract the rank announced in a server message: the value of the first
/// announcement, `None` when there is none (or its value does not fit in
/// a machine word).
pub fn extract_rank(msg: &str) -> (r: Option<u64>)
    ensures
        spec_rank(msg@) is None ==> r is None,
        spec_rank(msg@) matches Option::Some(v) ==> (v <= u64::MAX ==> r == Option::Some(v as u64))
            && (v > u64::MAX ==> r is None),
{
    let chars = crate::text::to_chars(msg);
    let n = chars.len();
    let mut i: usize = 0;
    while i < n
        invariant
            i <= n,
            n == chars@.len(),
            chars@ == msg@,
            spec_rank_from(chars@, 0) == spec_rank_from(chars@, i as int),
        ensures
            i <= n,
            n == chars@.len(),
            chars@ == msg@,
            spec_rank_from(chars@, 0) == spec_rank_from(chars@, i as int),
            i == n || spec_rank_at(chars@, i as int) is Some,
        decreases n - i,
    {
        let (m, v, over) = rank_at(&chars, i);
        if m {
            break;
        }
        i = i + 1;
    }
    if i == n {
        return None;
    }
    let (m, v, over) = rank_at(&chars, i);
    if over {
        None
    } else {
        Some(v)
    }
}

/// The line shown for an achieved rank.
pub fn rank_line(rank: u64) -> (r: String)
    ensures
        r@ == "You got rank "@ + crate::text::spec_dec(rank as int) + " for this puzzle"@,
{
    let mut out: Vec<char> = Vec::new();
    let s1 = crate::text::to_chars("You got rank ");
    let mut j: usize = 0;
    while j < s1.len()
        invariant
            j <= s1@.len(),
            s1@ == "You got rank "@,
            out@ =~= s1@.take(j as int),
        decreases s1@.len() - j,
    {
        out.push(s1[j]);
        j = j + 1;
    }
    proof {
        assert(out@ =~= "You got rank "@);
    }
    crate::text::push_dec(rank, &mut out);
    let s2 = crate::text::to_chars(" for this puzzle");
    let mut k: usize = 0;
    while k < s2.len()
        invariant
            k <= s2@.len(),
            s2@ == " for this puzzle"@,
            out@ =~= "You got rank "@ + crate::text::spec_dec(rank as int) + s2@.take(k as int),
        decreases s2@.len() - k,
    {
        out.push(s2[k]);
        k = k + 1;
    }
    proof {
        assert(out@ =~= "You got rank "@ + crate::text::spec_dec(rank as int)
            + " for this puzzle"@);
    }
    crate::text::from_chars(&out)
}

} // verus!
