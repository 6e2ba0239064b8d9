//! Puzzle identity: the (year, day) pair and the part number.

use vstd::prelude::*;

verus! {

/// The first year the platform ran.
pub const FIRST_YEAR: u32 = 2015;

/// Identifies one puzzle instance.  A key can only be constructed for a
/// valid combination: years start at 2015 and days run from 1 to 25.
#[derive(Clone, Copy, PartialEq, Eq, Structural, Debug)]
pub struct PuzzleKey {
    pub year: u32,
    pub day: u32,
}

impl PuzzleKey {
    /// The combinations the platform has puzzles for.
    pub open spec fn wf(self) -> bool {
        self.year >= 2015 && 1 <= self.day <= 25
    }

    /// Validate and construct a key.  Fails exactly on the combinations
    /// the platform has no puzzle for.
    pub fn new(year: u32, day: u32) -> (r: Option<PuzzleKey>)
        ensures
            r is Some <==> (year >= 2015 && 1 <= day && day <= 25),
            r matches Some(k) ==> k.year == year && k.day == day && k.wf(),
    {
        if year >= FIRST_YEAR && 1 <= day && day <= 25 {
            Some(PuzzleKey { year, day })
        } else {
            None
        }
    }
}

/// A part number is 1 or 2.
pub open spec fn part_wf(part: u32) -> bool {
    part == 1 || part == 2
}

/// Whether `(key, part)` is the free star: day 25's second part has no
/// puzzle text and is completed with a fixed sentinel answer.
pub open spec fn spec_is_free_star(key: PuzzleKey, part: u32) -> bool {
    key.day == 25 && part == 2
}

/// The sentinel answer submitted for day 25 part 2.
pub fn sentinel_answer() -> (r: String)
    ensures
        r@ == "0"@,
{
    let mut v: Vec<char> = Vec::new();
    v.push('0');
    proof {
        reveal_strlit("0");
        assert(v@ =~= "0"@);
    }
    crate::text::from_chars(&v)
}

} // verus!
