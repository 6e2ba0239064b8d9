//! The practice ranker: leaderboard row parsing, the snapshot completeness
//! rule, and rank estimation for a practice solve.

use vstd::prelude::*;

use crate::classify::{digits_end, digits_val, is_digit};

verus! {

/// ASCII whitespace.
pub open spec fn is_space(c: char) -> bool {
    c == ' ' || c == '\t' || c == '\n' || c == '\r'
}

/// `s` with leading and trailing whitespace removed.
pub open spec fn spec_trim(s: Seq<char>) -> Seq<char>
    decreases s.len(),
{
    if s.len() > 0 && is_space(s.first()) {
        spec_trim(s.drop_first())
    } else if s.len() > 0 && is_space(s.last()) {
        spec_trim(s.drop_last())
    } else {
        s
    }
}

/// Trim ASCII whitespace from both ends.
pub fn trim_chars(chars: &Vec<char>) -> (r: Vec<char>)
    ensures
        r@ == spec_trim(chars@),
{
    let n = chars.len();
    let mut lo: usize = 0;
    let mut hi: usize = n;
    proof {
        assert(chars@.subrange(0, n as int) =~= chars@);
    }
    while lo < hi && (chars[lo] == ' ' || chars[lo] == '\t' || chars[lo] == '\n' || chars[lo]
        == '\r')
        invariant
            lo <= hi <= n,
            n == chars@.len(),
            spec_trim(chars@) == spec_trim(chars@.subrange(lo as int, hi as int)),
            hi == n,
        decreases hi - lo,
    {
        proof {
            let sub = chars@.subrange(lo as int, hi as int);
            assert(sub.first() == chars@[lo as int]);
            assert(sub.drop_first() =~= chars@.subrange(lo + 1, hi as int));
        }
        lo = lo + 1;
    }
    while lo < hi && (chars[hi - 1] == ' ' || chars[hi - 1] == '\t' || chars[hi - 1] == '\n'
        || chars[hi - 1] == '\r')
        invariant
            lo <= hi <= n,
            n == chars@.len(),
            spec_trim(chars@) == spec_trim(chars@.subrange(lo as int, hi as int)),
            lo < hi ==> !is_space(chars@[lo as int]),
        decreases hi - lo,
    {
        proof {
            let sub = chars@.subrange(lo as int, hi as int);
            assert(sub.last() == chars@[hi - 1]);
            assert(sub.first() == chars@[lo as int]);
            assert(sub.drop_last() =~= chars@.subrange(lo as int, hi - 1));
        }
        hi = hi - 1;
    }
    let mut out: Vec<char> = Vec::new();
    let mut i: usize = lo;
    while i < hi
        invariant
            lo <= i <= hi <= n,
            n == chars@.len(),
            out@ =~= chars@.subrange(lo as int, i as int),
        decreases hi - i,
    {
        out.push(chars[i]);
        i = i + 1;
    }
    proof {
        let sub = chars@.subrange(lo as int, hi as int);
        if sub.len() > 0 {
            assert(!is_space(sub.first()));
            assert(!is_space(sub.last()));
        }
        assert(spec_trim(sub) == sub);
        assert(out@ =~= sub);
    }
    out
}

/// A leaderboard row's solve instant, `Dec DD  HH:MM:SS`, as seconds
/// since midnight of the puzzle's day; `None` when the text is not of
/// that shape, names a day before the puzzle's, or an impossible time.
pub open spec fn spec_lb_time(day: int, s: Seq<char>) -> Option<int> {
    if s.len() == 16 && s[0] == 'D' && s[1] == 'e' && s[2] == 'c' && s[3] == ' ' && is_digit(s[4])
        && is_digit(s[5]) && s[6] == ' ' && s[7] == ' ' && is_digit(s[8]) && is_digit(s[9]) && s[10]
        == ':' && is_digit(s[11]) && is_digit(s[12]) && s[13] == ':' && is_digit(s[14]) && is_digit(
        s[15],
    ) {
        let dd = digits_val(s, 4, 6);
        let hh = digits_val(s, 8, 10);
        let mm = digits_val(s, 11, 13);
        let ss = digits_val(s, 14, 16);
        if 1 <= dd <= 31 && dd >= day && hh < 24 && mm < 60 && ss < 60 {
            Some((dd - day) * 86400 + hh * 3600 + mm * 60 + ss)
        } else {
            None
        }
    } else {
        None
    }
}

proof fn lemma_lb_time_bounds(day: int, s: Seq<char>)
    requires
        day >= 0,
    ensures
        spec_lb_time(day, s) matches Some(v) ==> 0 <= v < 2764800,
{
    if spec_lb_time(day, s) is Some {
        lemma_two_digits(s, 4);
        lemma_two_digits(s, 8);
        lemma_two_digits(s, 11);
        lemma_two_digits(s, 14);
        let dd = digits_val(s, 4, 6);
        let hh = digits_val(s, 8, 10);
        let mm = digits_val(s, 11, 13);
        let ss = digits_val(s, 14, 16);
        assert(1 <= dd <= 31 && dd >= day && 0 <= hh < 24 && 0 <= mm < 60 && 0 <= ss < 60);
        assert(spec_lb_time(day, s) == Some((dd - day) * 86400 + hh * 3600 + mm * 60 + ss));
        assert(0 <= (dd - day) * 86400 + hh * 3600 + mm * 60 + ss < 2764800) by (nonlinear_arith)
            requires
                0 <= dd - day <= 31,
                0 <= hh < 24,
                0 <= mm < 60,
                0 <= ss < 60,
        ;
    }
}

proof fn lemma_two_digits(s: Seq<char>, i: int)
    requires
        0 <= i,
        i + 2 <= s.len(),
    ensures
        digits_val(s, i, i + 2) == 10 * crate::classify::digit_val(s[i])
            + crate::classify::digit_val(s[i + 1]),
{
    assert(digits_val(s, i, i) == 0);
    assert(digits_val(s, i, i + 1) == crate::classify::digit_val(s[i]));
    assert(digits_val(s, i, i + 2) == digits_val(s, i, i + 1) * 10 + crate::classify::digit_val(
        s[i + 1],
    ));
}

fn digit_at(chars: &Vec<char>, i: usize) -> (r: (bool, u64))
    requires
        i < chars@.len(),
    ensures
        r.0 == is_digit(chars@[i as int]),
        r.0 ==> r.1 == crate::classify::digit_val(chars@[i as int]) && r.1 <= 9,
{
    let c = chars[i];
    proof {
        vstd::utf8::char_is_scalar(c);
    }
    let cu = c as u32;
    if 48 <= cu && cu <= 57 {
        (true, (cu - 48) as u64)
    } else {
        (false, 0)
    }
}

/// Parse a leaderboard row's time text.
pub fn parse_lb_time(day: u32, time: &str) -> (r: Option<u64>)
    ensures
        match spec_lb_time(day as int, time@) {
            Some(v) => r == Some(v as u64),
            None => r is None,
        },
{
    let chars = crate::text::to_chars(time);
    if chars.len() != 16 {
        return None;
    }
    if !(chars[0] == 'D' && chars[1] == 'e' && chars[2] == 'c' && chars[3] == ' ' && chars[6] == ' '
        && chars[7] == ' ' && chars[10] == ':' && chars[13] == ':') {
        return None;
    }
    let (d4, v4) = digit_at(&chars, 4);
    let (d5, v5) = digit_at(&chars, 5);
    let (d8, v8) = digit_at(&chars, 8);
    let (d9, v9) = digit_at(&chars, 9);
    let (d11, v11) = digit_at(&chars, 11);
    let (d12, v12) = digit_at(&chars, 12);
    let (d14, v14) = digit_at(&chars, 14);
    let (d15, v15) = digit_at(&chars, 15);
    if !(d4 && d5 && d8 && d9 && d11 && d12 && d14 && d15) {
        return None;
    }
    let dd = v4 * 10 + v5;
    let hh = v8 * 10 + v9;
    let mm = v11 * 10 + v12;
    let ss = v14 * 10 + v15;
    proof {
        lemma_two_digits(time@, 4);
        lemma_two_digits(time@, 8);
        lemma_two_digits(time@, 11);
        lemma_two_digits(time@, 14);
    }
    if 1 <= dd && dd <= 31 && dd >= day as u64 && hh < 24 && mm < 60 && ss < 60 {
        Some((dd - day as u64) * 86400 + hh * 3600 + mm * 60 + ss)
    } else {
        None
    }
}

/// The model of the extracted leaderboard rows: for each entry, its
/// position text and its time text.
pub type Rows = Seq<(Seq<char>, Seq<char>)>;

/// The two time lists built from the first `i` rows, with the
/// part-toggle flag: the flag flips on every row whose trimmed position
/// reads `1)`, and each row's parsed time goes to the list the flag
/// selects.  `None` when some row's time text does not parse.
pub open spec fn spec_rows_built(rows: Rows, day: int, i: int) -> Option<(Seq<int>, Seq<int>, bool)>
    decreases i
        when 0 <= i <= rows.len()
{
    if i == 0 {
        Some((Seq::empty(), Seq::empty(), false))
    } else {
        match spec_rows_built(rows, day, i - 1) {
            None => None,
            Some((l1, l2, p2)) => {
                let flip = spec_trim(rows[i - 1].0) == "1)"@;
                let p2b = if flip {
                    !p2
                } else {
                    p2
                };
                match spec_lb_time(day, rows[i - 1].1) {
                    None => None,
                    Some(t) => if p2b {
                        Some((l1, l2.push(t), p2b))
                    } else {
                        Some((l1.push(t), l2, p2b))
                    },
                }
            },
        }
    }
}

/// The two time lists a leaderboard page's rows denote: part 1 first,
/// part 2 second; when only one board is present the rows toggle to the
/// second list immediately, so a built-empty first list means the lists
/// were read in reverse and are swapped.
pub open spec fn spec_leaderboard(rows: Rows, day: int) -> Option<(Seq<int>, Seq<int>)> {
    match spec_rows_built(rows, day, rows.len() as int) {
        None => None,
        Some((l1, l2, p2)) => if l1.len() == 0 {
            Some((l2, l1))
        } else {
            Some((l1, l2))
        },
    }
}

/// Build the two per-part time lists from extracted leaderboard rows.
pub proof fn lemma_rows_built_none(rows: Rows, day: int, i: int, j: int)
    requires
        0 <= i <= j <= rows.len(),
        spec_rows_built(rows, day, i) is None,
    ensures
        spec_rows_built(rows, day, j) is None,
    decreases j - i,
{
    if i < j {
        lemma_rows_built_none(rows, day, i + 1, j);
    }
}

pub fn build_leaderboard(rows: &Vec<(String, String)>, day: u32) -> (r: Option<(Vec<u64>, Vec<
    u64,
>)>)
    ensures
        ({
            let model = rows@.map_values(|p: (String, String)| (p.0@, p.1@));
            match spec_leaderboard(model, day as int) {
                None => r is None,
                Some((m1, m2)) => r matches Some((v1, v2)) && v1@.map_values(|t: u64| t as int)
                    == m1 && v2@.map_values(|t: u64| t as int) == m2,
            }
        }),
{
    let ghost model = rows@.map_values(|p: (String, String)| (p.0@, p.1@));
    let n = rows.len();
    let mut l1: Vec<u64> = Vec::new();
    let mut l2: Vec<u64> = Vec::new();
    let mut p2: bool = false;
    let mut i: usize = 0;
    proof {
        assert(l1@.map_values(|t: u64| t as int) =~= Seq::<int>::empty());
        assert(l2@.map_values(|t: u64| t as int) =~= Seq::<int>::empty());
    }
    while i < n
        invariant
            i <= n,
            n == rows@.len(),
            model == rows@.map_values(|p: (String, String)| (p.0@, p.1@)),
            spec_rows_built(model, day as int, i as int) == Some(
                (l1@.map_values(|t: u64| t as int), l2@.map_values(|t: u64| t as int), p2),
            ),
        decreases n - i,
    {
        proof {
            assert(model[i as int] == (rows@[i as int].0@, rows@[i as int].1@));
        }
        let ghost old_p2 = p2;
        let pos_chars = crate::text::to_chars(rows[i].0.as_str());
        let trimmed = trim_chars(&pos_chars);
        let flip = {
            let one = crate::text::from_chars(&trimmed);
            crate::text::str_eq(one.as_str(), "1)")
        };
        proof {
            assert(flip == (spec_trim(model[i as int].0) == "1)"@));
        }
        if flip {
            p2 = !p2;
        }
        let time_str = rows[i].1.as_str();
        proof {
            assert(time_str@ == model[i as int].1);
        }
        match parse_lb_time(day, time_str) {
            None => {
                proof {
                    assert(spec_rows_built(model, day as int, i + 1) is None);
                    lemma_rows_built_none(model, day as int, i + 1, model.len() as int);
                }
                return None;
            },
            Some(t) => {
                proof {
                    lemma_lb_time_bounds(day as int, model[i as int].1);
                    let sv = spec_lb_time(day as int, model[i as int].1);
                    assert(sv is Some);
                    assert(t == sv->Some_0 as u64);
                    assert(0 <= sv->Some_0 < 2764800);
                }
                if p2 {
                    let ghost before = l2@.map_values(|t: u64| t as int);
                    l2.push(t);
                    proof {
                        assert(l2@.map_values(|t: u64| t as int) =~= before.push(t as int));
                    }
                } else {
                    let ghost before = l1@.map_values(|t: u64| t as int);
                    l1.push(t);
                    proof {
                        assert(l1@.map_values(|t: u64| t as int) =~= before.push(t as int));
                    }
                }
            },
        }
        i = i + 1;
    }
    if l1.len() == 0 {
        Some((l2, l1))
    } else {
        Some((l1, l2))
    }
}

/// The platform's public boards hold at most this many entries; a
/// snapshot is complete, and worth persisting, only at exactly this size.
pub const BOARD_SIZE: usize = 100;

/// A snapshot may be persisted only when both part lists are complete.
/// An incomplete snapshot is refetched on the next access instead.
pub fn snapshot_complete(len1: usize, len2: usize) -> (r: bool)
    ensures
        r == (len1 == 100 && len2 == 100),
{
    len1 == BOARD_SIZE && len2 == BOARD_SIZE
}

/// How many board times, taken in milliseconds, lie strictly below
/// `bound_ms`.
pub open spec fn spec_count_lt(times: Seq<int>, bound_ms: int) -> int
    decreases times.len(),
{
    if times.len() == 0 {
        0int
    } else {
        spec_count_lt(times.drop_last(), bound_ms) + if 1000 * times.last() < bound_ms {
            1int
        } else {
            0int
        }
    }
}

pub proof fn lemma_count_lt_bounds(times: Seq<int>, bound_ms: int)
    ensures
        0 <= spec_count_lt(times, bound_ms) <= times.len(),
    decreases times.len(),
{
    if times.len() > 0 {
        lemma_count_lt_bounds(times.drop_last(), bound_ms);
    }
}

pub proof fn lemma_count_lt_mono(times: Seq<int>, b1: int, b2: int)
    requires
        b1 <= b2,
    ensures
        spec_count_lt(times, b1) <= spec_count_lt(times, b2),
    decreases times.len(),
{
    if times.len() > 0 {
        lemma_count_lt_mono(times.drop_last(), b1, b2);
    }
}

/// A rank estimate for a practice solve: the band the displayed
/// leaderboard's one-second precision leaves open, and a point inside it
/// interpolated by the solve duration's fractional second.
#[derive(Clone, Copy, PartialEq, Eq, Structural, Debug)]
pub struct RankEstimate {
    pub approx: u64,
    pub best: u64,
    pub worst: u64,
}

/// Estimate the rank a solve of `solve_ms` milliseconds would have
/// earned against one part's board times (in whole seconds).  The best
/// possible rank counts the times below the duration's floor, the worst
/// counts those below the duration itself; off the board (best rank
/// beyond 100) yields `None`.
pub fn estimate_rank(times: &Vec<u64>, solve_ms: u64) -> (r: Option<RankEstimate>)
    requires
        times@.len() <= 100,
    ensures
        ({
            let tms = times@.map_values(|t: u64| t as int);
            let best = spec_count_lt(tms, (solve_ms as int / 1000) * 1000) + 1;
            let worst = spec_count_lt(tms, solve_ms as int) + 1;
            if best > 100 {
                r is None
            } else {
                r matches Some(e) && e.best == best && e.worst == worst && e.approx == best + (
                (worst - best) * ((solve_ms as int) % 1000)) / 1000
            }
        }),
{
    let ghost tms = times@.map_values(|t: u64| t as int);
    let q = solve_ms / 1000;
    let rem = solve_ms % 1000;
    let n = times.len();
    let mut cb: u64 = 0;
    let mut cw: u64 = 0;
    let mut i: usize = 0;
    while i < n
        invariant
            i <= n,
            n == times@.len() <= 100,
            tms == times@.map_values(|t: u64| t as int),
            q == solve_ms as int / 1000,
            rem == solve_ms as int % 1000,
            cb == spec_count_lt(tms.take(i as int), (solve_ms as int / 1000) * 1000),
            cw == spec_count_lt(tms.take(i as int), solve_ms as int),
            cb <= cw <= i,
        decreases n - i,
    {
        let t = times[i];
        proof {
            assert(tms.take(i + 1).drop_last() =~= tms.take(i as int));
            assert(tms.take(i + 1).last() == t as int);
            assert((1000 * (t as int) < (solve_ms as int / 1000) * 1000) == ((t as int) < (
            solve_ms as int / 1000))) by (nonlinear_arith);
            assert((1000 * (t as int) < solve_ms as int) == ((t as int) < solve_ms as int / 1000
                || ((t as int) == solve_ms as int / 1000 && solve_ms as int % 1000 > 0)))
                by (nonlinear_arith);
        }
        if t < q {
            cb = cb + 1;
        }
        if t < q || (t == q && rem > 0) {
            cw = cw + 1;
        }
        i = i + 1;
    }
    proof {
        assert(tms.take(n as int) =~= tms);
        lemma_count_lt_bounds(tms, (solve_ms as int / 1000) * 1000);
        lemma_count_lt_bounds(tms, solve_ms as int);
        lemma_count_lt_mono(tms, (solve_ms as int / 1000) * 1000, solve_ms as int);
        assert((solve_ms as int / 1000) * 1000 <= solve_ms as int) by (nonlinear_arith);
    }
    let best = cb + 1;
    let worst = cw + 1;
    if best > 100 {
        None
    } else {
        let span = worst - best;
        proof {
            assert(span * rem <= 100 * 999) by (nonlinear_arith)
                requires
                    0 <= span <= 100,
                    0 <= rem <= 999,
            ;
        }
        let approx = best + span * rem / 1000;
        Some(RankEstimate { approx, best, worst })
    }
}

} // verus!
