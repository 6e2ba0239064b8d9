use raoc::classify::{classify, extract_rank, parse_wait_time, rank_line, Outcome};
use raoc::strip_trailing_nl;

#[test]
fn classify_correct() {
    assert_eq!(classify("That's the right answer!"), Outcome::Correct);
}

#[test]
fn classify_incorrect() {
    assert_eq!(classify("That's not the right answer"), Outcome::Incorrect);
}

#[test]
fn classify_wrong_level() {
    assert_eq!(
        classify("You don't seem to be solving the right level"),
        Outcome::WrongLevel
    );
}

#[test]
fn classify_rate_limited() {
    assert_eq!(
        classify("You gave an answer too recently"),
        Outcome::RateLimited
    );
}

#[test]
fn classify_unrecognized() {
    assert_eq!(classify("Please log in first."), Outcome::Unrecognized);
    assert_eq!(classify(""), Outcome::Unrecognized);
}

#[test]
fn wait_time_minutes_and_seconds() {
    assert_eq!(parse_wait_time("You have 1m 30s left to wait."), Some(90));
}

#[test]
fn wait_time_seconds_only() {
    assert_eq!(parse_wait_time("You have 45s left to wait."), Some(45));
}

#[test]
fn wait_time_embedded_in_full_message() {
    let msg = "You gave an answer too recently; you have to wait after submitting an \
               answer before trying again.  You have 2m 7s left to wait.";
    assert_eq!(parse_wait_time(msg), Some(127));
}

#[test]
fn wait_time_absent() {
    assert_eq!(parse_wait_time("That's the right answer!"), None);
    assert_eq!(parse_wait_time("You have s left to wait."), None);
}

#[test]
fn rank_got() {
    assert_eq!(
        extract_rank("You got rank 42 on this star's leaderboard."),
        Some(42)
    );
}

#[test]
fn rank_achieved() {
    let msg = "That's the right answer!  You achieved rank 7 on this star's leaderboard.";
    assert_eq!(extract_rank(msg), Some(7));
}

#[test]
fn rank_absent() {
    assert_eq!(extract_rank("That's the right answer!"), None);
}

#[test]
fn rank_line_text() {
    assert_eq!(rank_line(5), "You got rank 5 for this puzzle");
}

#[test]
fn strip_trailing_newlines() {
    assert_eq!(strip_trailing_nl(String::from("abc\r\n\n")), "abc");
    assert_eq!(strip_trailing_nl(String::from("abc")), "abc");
    assert_eq!(strip_trailing_nl(String::from("\n\n")), "");
    assert_eq!(strip_trailing_nl(String::from("a\nb\n")), "a\nb");
}
