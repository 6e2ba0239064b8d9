use raoc::rank::{
    build_leaderboard, estimate_rank, parse_lb_time, snapshot_complete, RankEstimate,
};

#[test]
fn rank_band_with_interpolation() {
    let times: Vec<u64> = vec![10, 20, 20, 35, 50];
    let r = estimate_rank(&times, 20500).unwrap();
    assert_eq!(
        r,
        RankEstimate {
            approx: 3,
            best: 2,
            worst: 4
        }
    );
}

#[test]
fn rank_exact_on_whole_second() {
    let times: Vec<u64> = vec![10, 20, 20, 35, 50];
    let r = estimate_rank(&times, 25000).unwrap();
    assert_eq!(r.best, 4);
    assert_eq!(r.worst, 4);
    assert_eq!(r.approx, 4);
}

#[test]
fn rank_first_place() {
    let times: Vec<u64> = vec![10, 20, 20, 35, 50];
    let r = estimate_rank(&times, 4000).unwrap();
    assert_eq!(
        r,
        RankEstimate {
            approx: 1,
            best: 1,
            worst: 1
        }
    );
}

#[test]
fn rank_off_the_board() {
    let times: Vec<u64> = vec![1; 100];
    assert!(estimate_rank(&times, 3000).is_none());
}

#[test]
fn snapshot_completeness() {
    assert!(snapshot_complete(100, 100));
    assert!(!snapshot_complete(99, 100));
    assert!(!snapshot_complete(100, 99));
    assert!(!snapshot_complete(0, 0));
}

#[test]
fn leaderboard_time_parsing() {
    assert_eq!(parse_lb_time(1, "Dec 01  00:05:32"), Some(332));
    assert_eq!(parse_lb_time(2, "Dec 03  01:00:00"), Some(86400 + 3600));
    assert_eq!(parse_lb_time(25, "Dec 25  23:59:59"), Some(86399));
    // a row from before the puzzle's day, and malformed rows
    assert_eq!(parse_lb_time(2, "Dec 01  00:05:32"), None);
    assert_eq!(parse_lb_time(1, "Nov 01  00:05:32"), None);
    assert_eq!(parse_lb_time(1, "Dec 01 00:05:32"), None);
    assert_eq!(parse_lb_time(1, "Dec 01  24:00:00"), None);
    assert_eq!(parse_lb_time(1, ""), None);
}

#[test]
fn leaderboard_build_splits_boards() {
    // the page lists the both-stars board first; its rows land in the
    // second list and the single-star rows in the first
    let rows: Vec<(String, String)> = vec![
        ("  1)".to_string(), "Dec 01  00:05:00".to_string()),
        ("2)".to_string(), "Dec 01  00:06:00".to_string()),
        ("1)".to_string(), "Dec 01  00:01:00".to_string()),
        ("2)".to_string(), "Dec 01  00:02:00".to_string()),
    ];
    let (p1, p2) = build_leaderboard(&rows, 1).unwrap();
    assert_eq!(p1, vec![60, 120]);
    assert_eq!(p2, vec![300, 360]);
}

#[test]
fn leaderboard_build_single_board() {
    // only one board yet: the swap hands it back as the part-1 list
    let rows: Vec<(String, String)> = vec![
        ("1)".to_string(), "Dec 01  00:05:00".to_string()),
        ("2)".to_string(), "Dec 01  00:06:00".to_string()),
    ];
    let (p1, p2) = build_leaderboard(&rows, 1).unwrap();
    assert_eq!(p1, vec![300, 360]);
    assert_eq!(p2, Vec::<u64>::new());
}

#[test]
fn leaderboard_build_rejects_bad_time() {
    let rows: Vec<(String, String)> = vec![("1)".to_string(), "garbage".to_string())];
    assert!(build_leaderboard(&rows, 1).is_none());
}
