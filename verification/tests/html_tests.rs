use raoc::html::{extract_leaderboard_rows, message_from_body};
use raoc::rank::build_leaderboard;

#[test]
fn article_text_extracted() {
    let body = "<!DOCTYPE html><html><body><main><article>That's the right \
                answer!</article></main></body></html>";
    assert_eq!(
        message_from_body(body).as_deref(),
        Some("That's the right answer!")
    );
}

#[test]
fn article_missing() {
    let body = "<html><body><p>nothing here</p></body></html>";
    assert!(message_from_body(body).is_none());
}

#[test]
fn leaderboard_rows_extracted() {
    let page = "<html><body>\
        <div class=\"leaderboard-entry\">\
          <span class=\"leaderboard-position\"> 1)</span>\
          <span class=\"leaderboard-time\">Dec 01  00:05:32</span>\
          <span class=\"leaderboard-userphoto\"></span>anon\
        </div>\
        <div class=\"leaderboard-entry\">\
          <span class=\"leaderboard-position\"> 2)</span>\
          <span class=\"leaderboard-time\">Dec 01  00:06:10</span>\
        </div>\
        </body></html>";
    let rows = extract_leaderboard_rows(page).unwrap();
    assert_eq!(rows.len(), 2);
    assert_eq!(rows[0].0.trim(), "1)");
    assert_eq!(rows[0].1, "Dec 01  00:05:32");
    assert_eq!(rows[1].0.trim(), "2)");
    assert_eq!(rows[1].1, "Dec 01  00:06:10");
    let (p1, p2) = build_leaderboard(&rows, 1).unwrap();
    assert_eq!(p1, vec![332, 370]);
    assert_eq!(p2, Vec::<u64>::new());
}
