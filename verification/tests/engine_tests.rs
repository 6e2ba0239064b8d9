use raoc::classify::Outcome;
use raoc::engine::{
    handle_response, transport_decision, LazyAction, Reaction, SubmitAction, TransportStep,
};
use raoc::store::PartState;
use raoc::{lazy_submit, submit, PuzzleKey};

fn key(year: u32, day: u32) -> PuzzleKey {
    PuzzleKey::new(year, day).unwrap()
}

#[test]
fn fresh_answer_posts() {
    let state = PartState::unattempted();
    let action = submit(&key(2020, 3), 1, &state, &String::from("42"), false, false);
    assert!(matches!(action, SubmitAction::Post { answer } if answer == "42"));
}

#[test]
fn incorrect_answer_cached_and_never_resubmitted() {
    let mut state = PartState::unattempted();
    let answer = String::from("41");
    let msg = String::from("That's not the right answer");
    let r = handle_response(&mut state, 1, false, &answer, &msg);
    assert_eq!(
        r,
        Reaction::Finished {
            outcome: Outcome::Incorrect,
            open_part2: false,
            record_practice: false
        }
    );
    // submitting the same wrong answer twice issues no further network call
    // and reports the identical cached text both times
    let first = submit(&key(2020, 3), 1, &state, &answer, false, false);
    let second = submit(&key(2020, 3), 1, &state, &answer, false, false);
    match (first, second) {
        (
            SubmitAction::ReportCached { response: r1 },
            SubmitAction::ReportCached { response: r2 },
        ) => {
            assert_eq!(r1, "That's not the right answer");
            assert_eq!(r1, r2);
        },
        _ => panic!("expected the cached response both times"),
    }
}

#[test]
fn correct_answer_solves_and_short_circuits() {
    let mut state = PartState::unattempted();
    let answer = String::from("42");
    let msg = String::from("That's the right answer!");
    let r = handle_response(&mut state, 1, false, &answer, &msg);
    assert_eq!(
        r,
        Reaction::Finished {
            outcome: Outcome::Correct,
            open_part2: true,
            record_practice: false
        }
    );
    assert_eq!(state.solved.as_deref(), Some("42"));
    // a later submission of the same answer reports from the cache
    let action = submit(&key(2020, 3), 1, &state, &answer, false, false);
    match action {
        SubmitAction::ReportSolved { solution, recorded } => {
            assert_eq!(solution, "42");
            assert_eq!(recorded.as_deref(), Some("That's the right answer!"));
        },
        _ => panic!("expected the recorded solution"),
    }
}

#[test]
fn rate_limited_retries_and_caches_nothing() {
    let mut state = PartState::unattempted();
    let answer = String::from("42");
    let msg = String::from(
        "You gave an answer too recently; you have to wait after submitting an answer \
         before trying again.  You have 1m 30s left to wait.",
    );
    let r = handle_response(&mut state, 2, false, &answer, &msg);
    assert_eq!(r, Reaction::RetryAfter { seconds: 90 });
    assert!(state.solved.is_none());
    assert_eq!(state.seen.len(), 0);
}

#[test]
fn unrecognized_not_cached() {
    let mut state = PartState::unattempted();
    let answer = String::from("42");
    let msg = String::from("Please log in first.");
    let r = handle_response(&mut state, 2, false, &answer, &msg);
    assert_eq!(
        r,
        Reaction::Finished {
            outcome: Outcome::Unrecognized,
            open_part2: false,
            record_practice: false
        }
    );
    assert_eq!(state.seen.len(), 0);
}

#[test]
fn practice_judges_against_recorded_solution() {
    let mut state = PartState::unattempted();
    let answer = String::from("42");
    let msg = String::from("That's the right answer!");
    handle_response(&mut state, 2, true, &answer, &msg);
    let right = submit(&key(2020, 3), 2, &state, &String::from("42"), true, true);
    assert!(matches!(right, SubmitAction::PracticeCorrect));
    let wrong = submit(&key(2020, 3), 2, &state, &String::from("41"), true, true);
    assert!(matches!(wrong, SubmitAction::PracticeIncorrect));
}

#[test]
fn free_star_locked_does_nothing() {
    let state = PartState::unattempted();
    let action = submit(&key(2022, 25), 2, &state, &String::from("99"), false, false);
    assert!(matches!(action, SubmitAction::SkipLockedFreeStar));
}

#[test]
fn free_star_sends_sentinel_whatever_the_answer() {
    let state = PartState::unattempted();
    let a = submit(&key(2022, 25), 2, &state, &String::from("99"), false, true);
    assert!(matches!(a, SubmitAction::PostSentinel { answer } if answer == "0"));
    let b = submit(&key(2022, 25), 2, &state, &String::from("hello"), false, true);
    assert!(matches!(b, SubmitAction::PostSentinel { answer } if answer == "0"));
}

#[test]
fn transport_policy() {
    assert_eq!(transport_decision(200), TransportStep::Proceed);
    assert_eq!(transport_decision(299), TransportStep::Proceed);
    assert_eq!(transport_decision(404), TransportStep::Reauthenticate);
    assert_eq!(transport_decision(400), TransportStep::Reauthenticate);
    assert_eq!(transport_decision(500), TransportStep::Fatal);
    assert_eq!(transport_decision(301), TransportStep::Fatal);
}

#[test]
fn lazy_submission_decisions() {
    let k = key(2020, 3);
    assert_eq!(
        lazy_submit(&k, 1, false, false, false, false, 0),
        LazyAction::RunSolver
    );
    assert_eq!(
        lazy_submit(&k, 1, true, false, false, false, 0),
        LazyAction::ReportPrevious
    );
    assert_eq!(
        lazy_submit(&k, 1, true, false, true, false, 0),
        LazyAction::RunSolver
    );
    // practice: rerun while today's log has fewer entries than the part
    assert_eq!(
        lazy_submit(&k, 2, true, false, false, true, 1),
        LazyAction::RunSolver
    );
    assert_eq!(
        lazy_submit(&k, 2, true, false, false, true, 2),
        LazyAction::ReportPrevious
    );
    let k25 = key(2022, 25);
    assert_eq!(
        lazy_submit(&k25, 2, false, true, false, false, 0),
        LazyAction::FinishFreeStar
    );
    assert_eq!(
        lazy_submit(&k25, 2, false, false, false, false, 0),
        LazyAction::SkipLockedFreeStar
    );
}
