use raoc::urls::{answer_url, input_url, part2_url, probe_url, session_cookie};
use raoc::{base_url, day_url, leaderboard_url, PuzzleKey};

#[test]
fn key_valid() {
    let k = PuzzleKey::new(2015, 1).unwrap();
    assert_eq!(k.year, 2015);
    assert_eq!(k.day, 1);
    assert!(PuzzleKey::new(2030, 25).is_some());
}

#[test]
fn key_rejects_year_before_first() {
    assert!(PuzzleKey::new(2014, 5).is_none());
    assert!(PuzzleKey::new(0, 1).is_none());
}

#[test]
fn key_rejects_day_out_of_range() {
    assert!(PuzzleKey::new(2020, 0).is_none());
    assert!(PuzzleKey::new(2020, 26).is_none());
    assert!(PuzzleKey::new(2020, 1000).is_none());
}

#[test]
fn urls() {
    assert_eq!(day_url(2020, 3), "https://adventofcode.com/2020/day/3");
    assert_eq!(base_url(2020, 3), "https://adventofcode.com/2020/day/3");
    assert_eq!(
        leaderboard_url(2019, 25),
        "https://adventofcode.com/2019/leaderboard/day/25"
    );
    assert_eq!(input_url(2020, 3), "https://adventofcode.com/2020/day/3/input");
    assert_eq!(
        answer_url(2020, 3),
        "https://adventofcode.com/2020/day/3/answer"
    );
    assert_eq!(part2_url(2020, 3), "https://adventofcode.com/2020/day/3#part2");
    assert_eq!(probe_url(), "https://adventofcode.com/2015/day/1/input");
}

#[test]
fn cookie_value() {
    assert_eq!(session_cookie("abcdef"), "session=abcdef");
}
