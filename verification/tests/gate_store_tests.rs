use raoc::files::{input_file_name, practice_file_name, solution_file_name};
use raoc::gate::{fetch, practice_elapsed_ms, puzzle_unlock_time, unlock_time};
use raoc::solution::MaybeDisplay;
use raoc::store::AnswerMap;
use raoc::text::{format_time, u64_to_string};
use raoc::PuzzleKey;

#[test]
fn unlock_instants() {
    // 05:00 UTC on the first of December
    assert_eq!(unlock_time(2020, 12, 1), 1606798800);
    assert_eq!(unlock_time(2015, 12, 1), 1448946000);
    let k = PuzzleKey::new(2020, 10).unwrap();
    assert_eq!(puzzle_unlock_time(&k), 1606798800 + 9 * 86400);
    // leap day handling
    assert_eq!(unlock_time(2020, 3, 1) - unlock_time(2020, 2, 28), 2 * 86400);
    assert_eq!(unlock_time(2021, 3, 1) - unlock_time(2021, 2, 28), 86400);
}

#[test]
fn fetch_plan_cached() {
    let k = PuzzleKey::new(2020, 3).unwrap();
    let unlock = puzzle_unlock_time(&k);
    let plan = fetch(&k, true, false, false, unlock + 10, 2021, 6, 15);
    assert!(plan.use_cache);
    assert!(!plan.probe_credential);
    assert_eq!(plan.wait_seconds, 0);
    assert!(!plan.open_page);
    assert!(!plan.print_input);
}

#[test]
fn fetch_plan_waits_and_probes_on_day_one() {
    let k = PuzzleKey::new(2020, 1).unwrap();
    let unlock = puzzle_unlock_time(&k);
    let plan = fetch(&k, false, false, false, unlock - 120, 2020, 11, 30);
    assert!(!plan.use_cache);
    assert!(plan.probe_credential);
    assert_eq!(plan.wait_seconds, 120);
    assert!(plan.open_page);
    assert!(plan.print_input);
}

#[test]
fn fetch_plan_practice_gates_on_today() {
    let k = PuzzleKey::new(2016, 5).unwrap();
    let today_unlock = unlock_time(2024, 7, 1);
    let plan = fetch(&k, true, true, false, today_unlock - 30, 2024, 7, 1);
    assert!(plan.use_cache);
    assert_eq!(plan.wait_seconds, 30);
    assert!(plan.open_page);
    assert!(plan.print_input);
    // after today's unlock a cached practice fetch is instant
    let later = fetch(&k, true, true, false, today_unlock + 5, 2024, 7, 1);
    assert_eq!(later.wait_seconds, 0);
    assert!(!later.open_page);
}

#[test]
fn practice_elapsed() {
    assert_eq!(practice_elapsed_ms(10_000, 5), 5000);
    assert_eq!(practice_elapsed_ms(5_000, 5), 0);
}

#[test]
fn duration_formatting() {
    assert_eq!(format_time(3725000), "01:02:05");
    assert_eq!(format_time(65500), "01:05.50");
    assert_eq!(format_time(59990), "00:59.99");
    assert_eq!(format_time(0), "00:00.00");
}

#[test]
fn cache_file_names() {
    assert_eq!(input_file_name(7), "7.in");
    assert_eq!(input_file_name(25), "25.in");
    assert_eq!(solution_file_name(2), "2.solution");
    assert_eq!(practice_file_name(2023, 1, 5), "2023-01-05.json");
    assert_eq!(practice_file_name(2024, 12, 25), "2024-12-25.json");
}

#[test]
fn number_rendering() {
    assert_eq!(u64_to_string(0), "0");
    assert_eq!(u64_to_string(907), "907");
}

#[test]
fn answer_map_behaviour() {
    let mut m = AnswerMap::new();
    assert_eq!(m.len(), 0);
    assert!(!m.contains("a"));
    m.insert("a".to_string(), "x".to_string());
    m.insert("b".to_string(), "y".to_string());
    assert!(m.contains("a"));
    assert_eq!(m.get("b").unwrap(), "y");
    assert!(m.get("c").is_none());
    let dup = vec![
        ("a".to_string(), "x".to_string()),
        ("a".to_string(), "y".to_string()),
    ];
    assert!(AnswerMap::from_entries(dup).is_none());
}

#[test]
fn solver_results() {
    assert_eq!(String::from("abc").into_solution(), Some("abc".to_string()));
    assert_eq!(42u64.into_solution(), Some("42".to_string()));
    assert_eq!(().into_solution(), None);
    assert_eq!(Some(7u64).into_solution(), Some("7".to_string()));
    let nothing: Option<u64> = None;
    assert_eq!(nothing.into_solution(), None);
}
