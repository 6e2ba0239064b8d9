//! The URLs of the remote surface, and the session cookie header value.

use vstd::prelude::*;

use crate::text::{from_chars, push_dec, spec_dec, to_chars};

verus! {

/// `https://adventofcode.com/{year}/day/{day}`
pub open spec fn spec_day_url(year: int, day: int) -> Seq<char> {
    "https://adventofcode.com/"@ + spec_dec(year) + "/day/"@ + spec_dec(day)
}

/// `https://adventofcode.com/{year}/leaderboard/day/{day}`
pub open spec fn spec_leaderboard_url(year: int, day: int) -> Seq<char> {
    "https://adventofcode.com/"@ + spec_dec(year) + "/leaderboard/day/"@ + spec_dec(day)
}

/// `session={token}`
pub open spec fn spec_session_cookie(token: Seq<char>) -> Seq<char> {
    "session="@ + token
}

fn push_str(s: &str, out: &mut Vec<char>)
    ensures
        final(out)@ == old(out)@ + s@,
{
    let chars = to_chars(s);
    let mut i: usize = 0;
    while i < chars.len()
        invariant
            i <= chars.len(),
            chars@ == s@,
            out@ =~= old(out)@ + s@.take(i as int),
        decreases chars.len() - i,
    {
        out.push(chars[i]);
        i = i + 1;
    }
    proof {
        assert(out@ =~= old(out)@ + s@);
    }
}

/// The page of one puzzle.
pub fn day_url(year: u32, day: u32) -> (r: String)
    ensures
        r@ == spec_day_url(year as int, day as int),
{
    let mut out: Vec<char> = Vec::new();
    push_str("https://adventofcode.com/", &mut out);
    push_dec(year as u64, &mut out);
    push_str("/day/", &mut out);
    push_dec(day as u64, &mut out);
    proof {
        assert(out@ =~= spec_day_url(year as int, day as int));
    }
    from_chars(&out)
}

/// The page of one puzzle; the name the rest of the crate uses.
pub fn base_url(year: u32, day: u32) -> (r: String)
    ensures
        r@ == spec_day_url(year as int, day as int),
{
    day_url(year, day)
}

/// The public top-100 leaderboard page of one puzzle.
pub fn leaderboard_url(year: u32, day: u32) -> (r: String)
    ensures
        r@ == spec_leaderboard_url(year as int, day as int),
{
    let mut out: Vec<char> = Vec::new();
    push_str("https://adventofcode.com/", &mut out);
    push_dec(year as u64, &mut out);
    push_str("/leaderboard/day/", &mut out);
    push_dec(day as u64, &mut out);
    proof {
        assert(out@ =~= spec_leaderboard_url(year as int, day as int));
    }
    from_chars(&out)
}

/// The authenticated input download of one puzzle.
pub fn input_url(year: u32, day: u32) -> (r: String)
    ensures
        r@ == spec_day_url(year as int, day as int) + "/input"@,
{
    let mut out = to_chars(day_url(year, day).as_str());
    push_str("/input", &mut out);
    from_chars(&out)
}

/// The authenticated answer submission endpoint of one puzzle.
pub fn answer_url(year: u32, day: u32) -> (r: String)
    ensures
        r@ == spec_day_url(year as int, day as int) + "/answer"@,
{
    let mut out = to_chars(day_url(year, day).as_str());
    push_str("/answer", &mut out);
    from_chars(&out)
}

/// The second-part anchor of one puzzle's page, opened after part 1 is
/// solved.
pub fn part2_url(year: u32, day: u32) -> (r: String)
    ensures
        r@ == spec_day_url(year as int, day as int) + "#part2"@,
{
    let mut out = to_chars(day_url(year, day).as_str());
    push_str("#part2", &mut out);
    from_chars(&out)
}

/// The credential-validation probe: day 1 of the platform's first year.
pub fn probe_url() -> (r: String)
    ensures
        r@ == spec_day_url(2015, 1) + "/input"@,
{
    input_url(2015, 1)
}

/// The cookie header value carrying the credential.
pub fn session_cookie(token: &str) -> (r: String)
    ensures
        r@ == spec_session_cookie(token@),
{
    let mut out: Vec<char> = Vec::new();
    push_str("session=", &mut out);
    push_str(token, &mut out);
    from_chars(&out)
}

} // verus!
