//! The names of the cache files, relative to the data directory's
//! per-year and per-day folders.

use vstd::prelude::*;

use crate::text::{from_chars, push_dec, push_pad2, spec_dec, spec_pad2, to_chars};

verus! {

/// `{day}.in`: the cached puzzle input.
pub fn input_file_name(day: u32) -> (r: String)
    ensures
        r@ == spec_dec(day as int) + ".in"@,
{
    let mut out: Vec<char> = Vec::new();
    push_dec(day as u64, &mut out);
    out.push('.');
    out.push('i');
    out.push('n');
    proof {
        reveal_strlit(".in");
        assert(out@ =~= spec_dec(day as int) + ".in"@);
    }
    from_chars(&out)
}

/// `{part}.solution`: its existence marks the part solved; it holds the
/// accepted answer.
pub fn solution_file_name(part: u32) -> (r: String)
    ensures
        r@ == spec_dec(part as int) + ".solution"@,
{
    let mut out = to_chars(".solution");
    let mut whole: Vec<char> = Vec::new();
    push_dec(part as u64, &mut whole);
    let mut i: usize = 0;
    while i < out.len()
        invariant
            i <= out@.len(),
            out@ == ".solution"@,
            whole@ =~= spec_dec(part as int) + out@.take(i as int),
        decreases out@.len() - i,
    {
        whole.push(out[i]);
        i = i + 1;
    }
    proof {
        assert(whole@ =~= spec_dec(part as int) + ".solution"@);
    }
    from_chars(&whole)
}

/// `{year:04}-{month:02}-{day:02}.json`: one practice log per calendar
/// date.
pub fn practice_file_name(year: u32, month: u32, day: u32) -> (r: String)
    requires
        year >= 1000,
    ensures
        r@ == spec_dec(year as int) + "-"@ + spec_pad2(month as int) + "-"@ + spec_pad2(
            day as int,
        ) + ".json"@,
{
    let mut out: Vec<char> = Vec::new();
    push_dec(year as u64, &mut out);
    out.push('-');
    push_pad2(month as u64, &mut out);
    out.push('-');
    push_pad2(day as u64, &mut out);
    out.push('.');
    out.push('j');
    out.push('s');
    out.push('o');
    out.push('n');
    proof {
        reveal_strlit(".json");
        reveal_strlit("-");
        assert(out@ =~= spec_dec(year as int) + "-"@ + spec_pad2(month as int) + "-"@ + spec_pad2(
            day as int,
        ) + ".json"@);
    }
    from_chars(&out)
}

} // verus!
