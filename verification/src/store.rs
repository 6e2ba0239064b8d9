//! The submission cache model: per-part answer-to-response maps and the
//! solved marker, held as plain values.

use vstd::prelude::*;

verus! {

/// The model of an answer map: the submitted answers with their classified
/// response texts, in submission order.
pub type Entries = Seq<(Seq<char>, Seq<char>)>;

/// Whether some entry has key `k`.
pub open spec fn has_key(s: Entries, k: Seq<char>) -> bool {
    exists|i: int| 0 <= i < s.len() && s[i].0 == k
}

/// The mapping the entries denote; a later entry wins.
pub open spec fn map_of(s: Entries) -> Map<Seq<char>, Seq<char>>
    decreases s.len(),
{
    if s.len() == 0 {
        Map::empty()
    } else {
        map_of(s.drop_last()).insert(s.last().0, s.last().1)
    }
}

/// Entry keys are pairwise distinct.
pub open spec fn unique_keys(s: Entries) -> bool {
    forall|i: int, j: int| 0 <= i < j < s.len() ==> s[i].0 != s[j].0
}

pub proof fn lemma_map_of_domain(s: Entries, k: Seq<char>)
    ensures
        map_of(s).contains_key(k) <==> has_key(s, k),
    decreases s.len(),
{
    if s.len() > 0 {
        lemma_map_of_domain(s.drop_last(), k);
        if s.last().0 == k {
            assert(s[s.len() - 1].0 == k);
        } else if has_key(s.drop_last(), k) {
            let i = choose|i: int| 0 <= i < s.drop_last().len() && s.drop_last()[i].0 == k;
            assert(s[i].0 == k);
        } else if has_key(s, k) {
            let i = choose|i: int| 0 <= i < s.len() && s[i].0 == k;
            assert(s.drop_last()[i].0 == k);
        }
    }
}

pub proof fn lemma_map_of_entry(s: Entries, i: int)
    requires
        unique_keys(s),
        0 <= i < s.len(),
    ensures
        map_of(s).contains_key(s[i].0),
        map_of(s)[s[i].0] == s[i].1,
    decreases s.len(),
{
    if i == s.len() - 1 {
        assert(s.last() == s[i]);
    } else {
        assert(unique_keys(s.drop_last())) by {
            assert(forall|x: int, y: int|
                0 <= x < y < s.drop_last().len() ==> s.drop_last()[x].0 != s.drop_last()[y].0);
        }
        lemma_map_of_entry(s.drop_last(), i);
        assert(s.drop_last()[i] == s[i]);
        assert(s[i].0 != s.last().0);
    }
}

/// The answers submitted for one part, each with the response it earned.
/// Entries are permanent once written and their keys are unique.
pub struct AnswerMap {
    entries: Vec<(String, String)>,
}

impl View for AnswerMap {
    type V = Entries;

    closed spec fn view(&self) -> Entries {
        self.entries@.map_values(|p: (String, String)| (p.0@, p.1@))
    }
}

impl AnswerMap {
    /// Keys are pairwise distinct.
    pub open spec fn wf(self) -> bool {
        unique_keys(self@)
    }

    /// The map with no recorded answers.
    pub fn new() -> (r: AnswerMap)
        ensures
            r@ == Seq::<(Seq<char>, Seq<char>)>::empty(),
            r.wf(),
    {
        let r = AnswerMap { entries: Vec::new() };
        proof {
            assert(r@ =~= Seq::<(Seq<char>, Seq<char>)>::empty());
        }
        r
    }

    /// Build from a vector of pairs; used when a cache file is read back.
    /// Fails (returns `None`) when two pairs share a key.
    pub fn from_entries(entries: Vec<(String, String)>) -> (r: Option<AnswerMap>)
        ensures
            r matches Some(m) ==> m@ == entries@.map_values(|p: (String, String)| (p.0@, p.1@))
                && m.wf(),
            r is None ==> !unique_keys(entries@.map_values(|p: (String, String)| (p.0@, p.1@))),
    {
        let ghost model = entries@.map_values(|p: (String, String)| (p.0@, p.1@));
        let n = entries.len();
        let mut i: usize = 0;
        while i < n
            invariant
                i <= n,
                n == entries@.len(),
                model == entries@.map_values(|p: (String, String)| (p.0@, p.1@)),
                forall|x: int, y: int| 0 <= x < y < i ==> model[x].0 != model[y].0,
            decreases n - i,
        {
            let mut j: usize = 0;
            while j < i
                invariant
                    j <= i < n,
                    n == entries@.len(),
                    model == entries@.map_values(|p: (String, String)| (p.0@, p.1@)),
                    forall|y: int| 0 <= y < j ==> model[y].0 != model[i as int].0,
                decreases i - j,
            {
                if crate::text::str_eq(entries[j].0.as_str(), entries[i].0.as_str()) {
                    proof {
                        assert(model[j as int].0 == entries@[j as int].0@);
                        assert(model[i as int].0 == entries@[i as int].0@);
                        let jj = j as int;
                        let ii = i as int;
                        assert(!unique_keys(model)) by {
                            assert(0 <= jj < ii < model.len() && model[jj].0 == model[ii].0);
                        }
                    }
                    return None;
                }
                j = j + 1;
            }
            i = i + 1;
        }
        Some(AnswerMap { entries })
    }

    /// The number of recorded answers.
    pub fn len(&self) -> (r: usize)
        ensures
            r == self@.len(),
    {
        self.entries.len()
    }

    /// The recorded entries, for iteration and encoding.
    pub fn entry_at(&self, i: usize) -> (r: (&String, &String))
        requires
            i < self@.len(),
        ensures
            r.0@ == self@[i as int].0,
            r.1@ == self@[i as int].1,
    {
        let p = &self.entries[i];
        (&p.0, &p.1)
    }

    /// Whether `answer` was submitted before.
    pub fn contains(&self, answer: &str) -> (r: bool)
        ensures
            r == has_key(self@, answer@),
    {
        let n = self.entries.len();
        let mut i: usize = 0;
        while i < n
            invariant
                i <= n,
                n == self@.len(),
                forall|x: int| 0 <= x < i ==> self@[x].0 != answer@,
            decreases n - i,
        {
            if crate::text::str_eq(self.entries[i].0.as_str(), answer) {
                proof {
                    assert(self@[i as int].0 == answer@);
                }
                return true;
            }
            i = i + 1;
        }
        false
    }

    /// The response recorded for `answer`, if any.
    pub fn get(&self, answer: &str) -> (r: Option<&String>)
        requires
            self.wf(),
        ensures
            r matches Some(v) ==> map_of(self@).contains_key(answer@) && v@ == map_of(
                self@,
            ).index(answer@),
            r is None ==> !has_key(self@, answer@),
    {
        let n = self.entries.len();
        let mut i: usize = 0;
        while i < n
            invariant
                i <= n,
                n == self@.len(),
                self.wf(),
                forall|x: int| 0 <= x < i ==> self@[x].0 != answer@,
            decreases n - i,
        {
            if crate::text::str_eq(self.entries[i].0.as_str(), answer) {
                proof {
                    lemma_map_of_entry(self@, i as int);
                }
                return Some(&self.entries[i].1);
            }
            i = i + 1;
        }
        None
    }

    /// Record the response earned by a fresh answer.
    pub fn insert(&mut self, answer: String, response: String)
        requires
            old(self).wf(),
            !has_key(old(self)@, answer@),
        ensures
            final(self)@ == old(self)@.push((answer@, response@)),
            final(self).wf(),
    {
        let ghost old_model = self@;
        self.entries.push((answer, response));
        proof {
            assert(self@ =~= old_model.push((answer@, response@)));
            assert forall|i: int, j: int| 0 <= i < j < self@.len() implies self@[i].0
                != self@[j].0 by {
                if j == self@.len() - 1 {
                    assert(self@[i].0 == old_model[i].0);
                    assert(has_key(old_model, old_model[i].0));
                }
            }
        }
    }
}

/// The state of one (puzzle, part): the recorded correct answer, if the
/// part is solved, and every answer submitted so far with its response.
pub struct PartState {
    /// Set exactly once, on the first response classified as correct.
    pub solved: Option<String>,
    /// The terminal responses seen, keyed by submitted answer.
    pub seen: AnswerMap,
}

impl PartState {
    pub open spec fn wf(self) -> bool {
        self.seen.wf()
    }

    /// The view of the solved marker.
    pub open spec fn spec_solved(self) -> Option<Seq<char>> {
        match self.solved {
            Some(s) => Some(s@),
            None => None,
        }
    }

    /// A part that was never attempted.
    pub fn unattempted() -> (r: PartState)
        ensures
            r.spec_solved() is None,
            r.seen@ == Seq::<(Seq<char>, Seq<char>)>::empty(),
            r.wf(),
    {
        PartState { solved: None, seen: AnswerMap::new() }
    }
}

/// The submission cache of one puzzle day: one answer map per part.
pub struct DayRecord {
    pub part1: AnswerMap,
    pub part2: AnswerMap,
}

impl DayRecord {
    pub open spec fn wf(self) -> bool {
        self.part1.wf() && self.part2.wf()
    }

    /// The cache of a day with no submissions.
    pub fn new() -> (r: DayRecord)
        ensures
            r.part1@ == Seq::<(Seq<char>, Seq<char>)>::empty(),
            r.part2@ == Seq::<(Seq<char>, Seq<char>)>::empty(),
            r.wf(),
    {
        DayRecord { part1: AnswerMap::new(), part2: AnswerMap::new() }
    }
}

/// Sample-test information for one day: for each part, optionally, the
/// expected output together with the input it belongs to.  The outer
/// option distinguishes "absent" from "explicitly none".
pub struct TestInfo {
    pub part_1: Option<Option<(String, String)>>,
    pub part_2: Option<Option<(String, String)>>,
}

} // verus!
