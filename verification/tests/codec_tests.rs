use raoc::codec::{
    encode_day_record, encode_practice_log, encode_snapshot, parse_day_record,
    parse_practice_log, parse_snapshot, snapshot_file_content,
};
use raoc::store::DayRecord;

#[test]
fn empty_record_encoding() {
    let rec = DayRecord::new();
    assert_eq!(encode_day_record(&rec), "{\"1\":{},\"2\":{}}");
}

#[test]
fn record_round_trip() {
    let mut rec = DayRecord::new();
    rec.part1
        .insert("42".to_string(), "That's the right answer!".to_string());
    rec.part1
        .insert("41".to_string(), "That's not the right answer".to_string());
    rec.part2
        .insert("he said \"hi\"".to_string(), "a\\b".to_string());
    let text = encode_day_record(&rec);
    let back = parse_day_record(&text).unwrap();
    assert_eq!(back.part1.len(), 2);
    assert_eq!(back.part2.len(), 1);
    assert_eq!(
        back.part1.get("42").unwrap(),
        "That's the right answer!"
    );
    assert_eq!(
        back.part1.get("41").unwrap(),
        "That's not the right answer"
    );
    assert_eq!(back.part2.get("he said \"hi\"").unwrap(), "a\\b");
    // and the bytes themselves survive a second trip
    assert_eq!(encode_day_record(&back), text);
}

#[test]
fn record_rejects_garbage() {
    assert!(parse_day_record("").is_none());
    assert!(parse_day_record("{\"1\":{}}").is_none());
    assert!(parse_day_record("{\"1\":{},\"2\":{}} ").is_none());
    assert!(parse_day_record("{\"1\":{,\"2\":{}}").is_none());
}

#[test]
fn record_rejects_repeated_answer() {
    let text = "{\"1\":{\"a\":\"x\",\"a\":\"y\"},\"2\":{}}";
    assert!(parse_day_record(text).is_none());
}

#[test]
fn snapshot_round_trip() {
    let l1: Vec<u64> = vec![10, 20, 30];
    let l2: Vec<u64> = vec![40];
    let text = encode_snapshot(&l1, &l2);
    assert_eq!(text, "[[10,20,30],[40]]");
    let (b1, b2) = parse_snapshot(&text).unwrap();
    assert_eq!(b1, l1);
    assert_eq!(b2, l2);
    let empty = encode_snapshot(&Vec::new(), &Vec::new());
    assert_eq!(empty, "[[],[]]");
    let (e1, e2) = parse_snapshot(&empty).unwrap();
    assert!(e1.is_empty() && e2.is_empty());
}

#[test]
fn snapshot_rejects_garbage() {
    assert!(parse_snapshot("").is_none());
    assert!(parse_snapshot("[[1,2]]").is_none());
    assert!(parse_snapshot("[[1,2],[3]]x").is_none());
    assert!(parse_snapshot("[[1,a],[3]]").is_none());
}

#[test]
fn practice_log_round_trip() {
    let log: Vec<u64> = vec![90000, 125500];
    let text = encode_practice_log(&log);
    assert_eq!(text, "[90000,125500]");
    assert_eq!(parse_practice_log(&text).unwrap(), log);
    assert_eq!(encode_practice_log(&Vec::new()), "[]");
    assert!(parse_practice_log("[]").unwrap().is_empty());
    assert!(parse_practice_log("[1,]").is_none());
    assert!(parse_practice_log("nope").is_none());
}

#[test]
fn snapshot_persisted_only_when_complete() {
    let full: Vec<u64> = (0..100).collect();
    let short: Vec<u64> = (0..99).collect();
    assert!(snapshot_file_content(&full, &full).is_some());
    assert!(snapshot_file_content(&short, &full).is_none());
    assert!(snapshot_file_content(&full, &short).is_none());
    let text = snapshot_file_content(&full, &full).unwrap();
    let (b1, b2) = parse_snapshot(&text).unwrap();
    assert_eq!(b1, full);
    assert_eq!(b2, full);
}
