//! The solver-result convention: a solver may return a value to submit,
//! or opt out by returning nothing.

use vstd::prelude::*;

verus! {

/// What a part's solver hands back: implementors turn their result into
/// the answer string to submit, or `None` to skip submission (used for
/// parts intentionally left unimplemented).
pub trait MaybeDisplay: Sized {
    fn into_solution(self) -> Option<String>;
}

impl MaybeDisplay for String {
    fn into_solution(self) -> (r: Option<String>)
        ensures
            r matches Some(s) && s@ == self@,
    {
        Some(self)
    }
}

impl MaybeDisplay for u64 {
    fn into_solution(self) -> (r: Option<String>)
        ensures
            r matches Some(s) && s@ == crate::text::spec_dec(self as int),
    {
        Some(crate::text::u64_to_string(self))
    }
}

impl MaybeDisplay for () {
    fn into_solution(self) -> (r: Option<String>)
        ensures
            r is None,
    {
        None
    }
}

impl <T: MaybeDisplay> MaybeDisplay for Option<T> {
    fn into_solution(self) -> Option<String> {
        match self {
            Some(v) => v.into_solution(),
            None => None,
        }
    }
}

} // verus!
