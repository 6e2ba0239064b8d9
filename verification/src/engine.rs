//! The submission engine: what one submission call does, given the cached
//! state of the part — report from the cache, judge locally in practice
//! mode, or go to the network — and how a classified server response
//! updates that state.

use vstd::prelude::*;

use crate::classify::{spec_classify, spec_wait_time, Outcome};
use crate::key::{part_wf, spec_is_free_star, PuzzleKey};
use crate::store::{has_key, map_of, Entries, PartState};

verus! {

/// The decision a submission call reaches, at the model level.
pub enum SubmitChoice {
    /// Already solved, normal mode: report the recorded solution and,
    /// when one was recorded, its response text.
    Solved(Seq<char>, Option<Seq<char>>),
    /// Already solved, practice mode, and the new answer matches the
    /// recorded one: record a practice timing; no network call.
    PracticeRight,
    /// Already solved, practice mode, and the new answer differs: report
    /// it as wrong locally; no network call.
    PracticeWrong,
    /// The answer was submitted before: report the recorded response;
    /// no network call.
    Cached(Seq<char>),
    /// A fresh answer: post it.
    Network(Seq<char>),
    /// Day 25 part 2 with part 1 solved: post the fixed sentinel answer.
    SentinelNetwork,
    /// Day 25 part 2 with part 1 unsolved: do nothing.
    SkipLocked,
}

/// The decision a submission call reaches.
pub open spec fn spec_submit(
    key: PuzzleKey,
    part: u32,
    solved: Option<Seq<char>>,
    seen: Entries,
    answer: Seq<char>,
    practice: bool,
    part1_solved: bool,
) -> SubmitChoice {
    if spec_is_free_star(key, part) {
        if part1_solved {
            SubmitChoice::SentinelNetwork
        } else {
            SubmitChoice::SkipLocked
        }
    } else {
        match solved {
            Some(sol) => if practice {
                if answer == sol {
                    SubmitChoice::PracticeRight
                } else {
                    SubmitChoice::PracticeWrong
                }
            } else {
                SubmitChoice::Solved(
                    sol,
                    if map_of(seen).contains_key(sol) {
                        Some(map_of(seen)[sol])
                    } else {
                        None
                    },
                )
            },
            None => if map_of(seen).contains_key(answer) {
                SubmitChoice::Cached(map_of(seen)[answer])
            } else {
                SubmitChoice::Network(answer)
            },
        }
    }
}

/// The action a submission call asks the embedding program to take.
pub enum SubmitAction {
    /// Report that the part is already solved: the recorded solution,
    /// and the response it earned, if one was recorded.
    ReportSolved { solution: String, recorded: Option<String> },
    /// Practice mode: the answer matches the recorded solution; record a
    /// new practice timing.
    PracticeCorrect,
    /// Practice mode: the answer differs from the recorded solution.
    PracticeIncorrect,
    /// The answer was submitted before: show the recorded response.
    ReportCached { response: String },
    /// Post `answer` to the answer endpoint.
    Post { answer: String },
    /// Day 25 part 2 with part 1 solved: post the sentinel answer.
    PostSentinel { answer: String },
    /// Day 25 part 2 with part 1 unsolved: nothing to do.
    SkipLockedFreeStar,
}

/// The model of an action.
pub open spec fn abs_action(a: SubmitAction) -> SubmitChoice {
    match a {
        SubmitAction::ReportSolved { solution, recorded } => SubmitChoice::Solved(
            solution@,
            match recorded {
                Some(r) => Some(r@),
                None => None,
            },
        ),
        SubmitAction::PracticeCorrect => SubmitChoice::PracticeRight,
        SubmitAction::PracticeIncorrect => SubmitChoice::PracticeWrong,
        SubmitAction::ReportCached { response } => SubmitChoice::Cached(response@),
        SubmitAction::Post { answer } => SubmitChoice::Network(answer@),
        SubmitAction::PostSentinel { answer } => SubmitChoice::SentinelNetwork,
        SubmitAction::SkipLockedFreeStar => SubmitChoice::SkipLocked,
    }
}

/// Decide what submitting `answer` for `part` of the puzzle does.  The
/// caller performs the returned action; no network call happens unless
/// the action is `Post` or `PostSentinel`.
pub fn submit(
    key: &PuzzleKey,
    part: u32,
    state: &PartState,
    answer: &String,
    practice: bool,
    part1_solved: bool,
) -> (r: SubmitAction)
    requires
        key.wf(),
        part_wf(part),
        state.wf(),
    ensures
        abs_action(r) == spec_submit(
            *key,
            part,
            state.spec_solved(),
            state.seen@,
            answer@,
            practice,
            part1_solved,
        ),
        r matches SubmitAction::PostSentinel { answer: a } ==> a@ == "0"@,
        r matches SubmitAction::Post { answer: a } ==> a@ == answer@,
{
    if key.day == 25 && part == 2 {
        if part1_solved {
            SubmitAction::PostSentinel { answer: crate::key::sentinel_answer() }
        } else {
            SubmitAction::SkipLockedFreeStar
        }
    } else {
        match &state.solved {
            Some(sol) => {
                if practice {
                    if crate::text::str_eq(answer.as_str(), sol.as_str()) {
                        SubmitAction::PracticeCorrect
                    } else {
                        SubmitAction::PracticeIncorrect
                    }
                } else {
                    let recorded = match state.seen.get(sol.as_str()) {
                        Some(v) => Some(v.clone()),
                        None => None,
                    };
                    proof {
                        if !has_key(state.seen@, sol@) {
                            crate::store::lemma_map_of_domain(state.seen@, sol@);
                        }
                    }
                    SubmitAction::ReportSolved { solution: sol.clone(), recorded }
                }
            },
            None => {
                match state.seen.get(answer.as_str()) {
                    Some(v) => SubmitAction::ReportCached { response: v.clone() },
                    None => {
                        proof {
                            crate::store::lemma_map_of_domain(state.seen@, answer@);
                        }
                        SubmitAction::Post { answer: answer.clone() }
                    },
                }
            },
        }
    }
}

/// Submitting never contacts the network when the part is already solved,
/// nor when the answer was submitted before; and the response such a call
/// reports is exactly the recorded one, so repeating the call on the
/// unchanged state reports the same text again.
pub proof fn lemma_submit_idempotent(
    key: PuzzleKey,
    part: u32,
    solved: Option<Seq<char>>,
    seen: Entries,
    answer: Seq<char>,
    practice: bool,
    part1_solved: bool,
)
    requires
        !spec_is_free_star(key, part),
        solved == Some(answer) || (solved is None && has_key(seen, answer)),
    ensures
        !(spec_submit(key, part, solved, seen, answer, practice, part1_solved)
            is Network),
        !(spec_submit(key, part, solved, seen, answer, practice, part1_solved)
            is SentinelNetwork),
        solved is None ==> spec_submit(key, part, solved, seen, answer, practice, part1_solved)
            == SubmitChoice::Cached(map_of(seen)[answer]),
        solved == Some(answer) && practice ==> spec_submit(
            key,
            part,
            solved,
            seen,
            answer,
            practice,
            part1_solved,
        ) == SubmitChoice::PracticeRight,
        solved == Some(answer) && !practice ==> spec_submit(
            key,
            part,
            solved,
            seen,
            answer,
            practice,
            part1_solved,
        ) == SubmitChoice::Solved(
            answer,
            if map_of(seen).contains_key(answer) {
                Some(map_of(seen)[answer])
            } else {
                None
            },
        ),
{
    if solved is None {
        crate::store::lemma_map_of_domain(seen, answer);
    }
}

/// Day 25 part 2: when part 1 is unsolved the call does nothing and no
/// network call happens; once part 1 is solved, the call posts the fixed
/// sentinel — whatever answer was supplied, the decision is the same.
pub proof fn lemma_free_star(
    key: PuzzleKey,
    solved: Option<Seq<char>>,
    seen: Entries,
    answer1: Seq<char>,
    answer2: Seq<char>,
    practice: bool,
    part1_solved: bool,
)
    requires
        key.day == 25,
    ensures
        !part1_solved ==> spec_submit(key, 2, solved, seen, answer1, practice, part1_solved)
            == SubmitChoice::SkipLocked,
        part1_solved ==> spec_submit(key, 2, solved, seen, answer1, practice, part1_solved)
            == SubmitChoice::SentinelNetwork,
        spec_submit(key, 2, solved, seen, answer1, practice, part1_solved) == spec_submit(
            key,
            2,
            solved,
            seen,
            answer2,
            practice,
            part1_solved,
        ),
{
}

/// What the submission loop does after one server response.
#[derive(PartialEq, Eq, Structural, Debug, Clone, Copy)]
pub enum Reaction {
    /// Rate-limited: wait this many seconds, then resubmit the same
    /// answer.
    RetryAfter { seconds: u64 },
    /// A terminal response: the loop is done.
    Finished { outcome: Outcome, open_part2: bool, record_practice: bool },
}

/// Digest one server message for a posted answer: classify it, update the
/// part state for terminal outcomes, and say whether to retry, and which
/// side effects (opening the part-2 page, recording a practice timing)
/// follow.  Rate-limited and unrecognized messages are never cached.
pub fn handle_response(
    state: &mut PartState,
    part: u32,
    practice: bool,
    answer: &String,
    msg: &String,
) -> (r: Reaction)
    requires
        old(state).wf(),
        part_wf(part),
        old(state).spec_solved() is None,
        !has_key(old(state).seen@, answer@),
    ensures
        final(state).wf(),
        spec_classify(msg@) == Outcome::RateLimited ==> {
            &&& *final(state) == *old(state)
            &&& (match spec_wait_time(msg@) {
                Some(v) => if v <= u64::MAX {
                    r == (Reaction::RetryAfter { seconds: v as u64 })
                } else {
                    r == (Reaction::Finished {
                        outcome: Outcome::RateLimited,
                        open_part2: false,
                        record_practice: false,
                    })
                },
                None => r == (Reaction::Finished {
                    outcome: Outcome::RateLimited,
                    open_part2: false,
                    record_practice: false,
                }),
            })
        },
        spec_classify(msg@) == Outcome::Correct ==> {
            &&& final(state).spec_solved() == Some(answer@)
            &&& final(state).seen@ == old(state).seen@.push((answer@, msg@))
            &&& r == (Reaction::Finished {
                outcome: Outcome::Correct,
                open_part2: part == 1,
                record_practice: practice,
            })
        },
        (spec_classify(msg@) == Outcome::Incorrect || spec_classify(msg@)
            == Outcome::WrongLevel) ==> {
            &&& final(state).spec_solved() is None
            &&& final(state).seen@ == old(state).seen@.push((answer@, msg@))
            &&& r == (Reaction::Finished {
                outcome: spec_classify(msg@),
                open_part2: false,
                record_practice: false,
            })
        },
        spec_classify(msg@) == Outcome::Unrecognized ==> {
            &&& *final(state) == *old(state)
            &&& r == (Reaction::Finished {
                outcome: Outcome::Unrecognized,
                open_part2: false,
                record_practice: false,
            })
        },
{
    let outcome = crate::classify::classify(msg.as_str());
    match outcome {
        Outcome::RateLimited => {
            match crate::classify::parse_wait_time(msg.as_str()) {
                Some(seconds) => Reaction::RetryAfter { seconds },
                None => Reaction::Finished {
                    outcome: Outcome::RateLimited,
                    open_part2: false,
                    record_practice: false,
                },
            }
        },
        Outcome::Correct => {
            state.solved = Some(answer.clone());
            state.seen.insert(answer.clone(), msg.clone());
            Reaction::Finished {
                outcome: Outcome::Correct,
                open_part2: part == 1,
                record_practice: practice,
            }
        },
        Outcome::Incorrect => {
            state.seen.insert(answer.clone(), msg.clone());
            Reaction::Finished {
                outcome: Outcome::Incorrect,
                open_part2: false,
                record_practice: false,
            }
        },
        Outcome::WrongLevel => {
            state.seen.insert(answer.clone(), msg.clone());
            Reaction::Finished {
                outcome: Outcome::WrongLevel,
                open_part2: false,
                record_practice: false,
            }
        },
        Outcome::Unrecognized => {
            Reaction::Finished {
                outcome: Outcome::Unrecognized,
                open_part2: false,
                record_practice: false,
            }
        },
    }
}

/// What the transport layer does with an HTTP status code.
#[derive(PartialEq, Eq, Structural, Debug, Clone, Copy)]
pub enum TransportStep {
    /// A success status: use the response.
    Proceed,
    /// A client-error status: the credential was rejected; prompt for a
    /// new one, persist it, and retry the same call.
    Reauthenticate,
    /// Any other status: a platform or network fault; fail fatally.
    Fatal,
}

/// The transport retry policy, by HTTP status code.
pub fn transport_decision(status: u16) -> (r: TransportStep)
    ensures
        200 <= status < 300 ==> r == TransportStep::Proceed,
        400 <= status < 500 ==> r == TransportStep::Reauthenticate,
        !(200 <= status < 300) && !(400 <= status < 500) ==> r == TransportStep::Fatal,
{
    if 200 <= status && status < 300 {
        TransportStep::Proceed
    } else if 400 <= status && status < 500 {
        TransportStep::Reauthenticate
    } else {
        TransportStep::Fatal
    }
}

/// What a lazy submission call does before any solver runs.
#[derive(PartialEq, Eq, Structural, Debug, Clone, Copy)]
pub enum LazyAction {
    /// Day 25 part 2 with part 1 solved: finish via the sentinel
    /// submission; the solver is never run.
    FinishFreeStar,
    /// Day 25 part 2 with part 1 unsolved: nothing to do.
    SkipLockedFreeStar,
    /// Run the solver on the fetched input and submit what it returns.
    RunSolver,
    /// The part is solved and no rerun was asked for: report the
    /// recorded solution without recomputing.
    ReportPrevious,
}

/// Decide whether a lazy submission runs the solver at all.  The solver
/// runs unless the part is already solved, and also when a rerun is
/// forced, or in practice mode while today's practice log has fewer
/// entries than `part`.
pub fn lazy_submit(
    key: &PuzzleKey,
    part: u32,
    solved: bool,
    part1_solved: bool,
    force_run: bool,
    practice: bool,
    practice_attempts_today: u64,
) -> (r: LazyAction)
    requires
        key.wf(),
        part_wf(part),
    ensures
        spec_is_free_star(*key, part) ==> r == (if part1_solved {
            LazyAction::FinishFreeStar
        } else {
            LazyAction::SkipLockedFreeStar
        }),
        !spec_is_free_star(*key, part) ==> r == (if !solved || force_run || (practice
            && practice_attempts_today < part) {
            LazyAction::RunSolver
        } else {
            LazyAction::ReportPrevious
        }),
{
    if key.day == 25 && part == 2 {
        if part1_solved {
            LazyAction::FinishFreeStar
        } else {
            LazyAction::SkipLockedFreeStar
        }
    } else if !solved || force_run || (practice && practice_attempts_today < part as u64) {
        LazyAction::RunSolver
    } else {
        LazyAction::ReportPrevious
    }
}

} // verus!
