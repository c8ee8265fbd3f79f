use nntp::response::Response;
use nntp::NNTPError;

fn response(line: &str) -> Response {
    Response::new(line.to_string(), None)
}

#[test]
fn new_keeps_line_and_body() {
    let r = Response::new("220 1 <a@b>\r\n".to_string(), Some(vec![1, 2, 3]));
    assert_eq!(r.response_line, "220 1 <a@b>\r\n");
    assert_eq!(r.rest, Some(vec![1, 2, 3]));
}

#[test]
fn expected_tests_the_status_code() {
    let r = response("211 1234 3000234 3002322 misc.test\r\n");
    assert!(r.expected("211"));
    assert!(r.expected(""));
    assert!(!r.expected("205"));
    assert!(!response("21").expected("211"));
}

#[test]
fn parse_group_stats_reads_the_three_numbers() {
    let r = response("211 1234 3000234 3002322 misc.test\r\n");
    assert_eq!(r.parse_group_stats().unwrap(), (1234, 3000234, 3002322));
}

#[test]
fn group_stats_accepts_a_plus_sign() {
    assert_eq!(response("211 +5 1 +9 g").group_stats(), Some((5, 1, 9)));
}

#[test]
fn group_stats_without_a_group_name_keeps_the_line_ending() {
    // The last number is followed by the line ending and reads as no number.
    assert_eq!(response("211 0 0 0\r\n").group_stats(), None);
    assert_eq!(response("211 0 0 0").group_stats(), Some((0, 0, 0)));
}

#[test]
fn group_stats_rejects_missing_or_bad_numbers() {
    assert_eq!(response("211 12 13").group_stats(), None);
    assert_eq!(response("211 12 x 13 g").group_stats(), None);
    assert_eq!(response("211  12 13 14 g").group_stats(), None);
    assert_eq!(response("211 -1 2 3 g").group_stats(), None);
    assert_eq!(response("211 99999999999999999999999 1 2 g").group_stats(), None);
}

#[test]
fn parse_article_response_splits_three_parts() {
    let r = response("220 3000234 <45223423@example.com>");
    let (code, number, id) = r.parse_article_response().unwrap();
    assert_eq!(code, "220");
    assert_eq!(number, "3000234");
    assert_eq!(id, "<45223423@example.com>");
}

#[test]
fn parse_article_response_rejects_other_part_counts() {
    assert!(response("220 3000234").parse_article_response().is_err());
    assert!(response("220 3000234 <id> extra").parse_article_response().is_err());
    assert!(response("220  3000234 <id>").parse_article_response().is_err());
    let err = response("423").parse_article_response().unwrap_err();
    assert_eq!(err.kind(), std::io::ErrorKind::Other);
}

#[test]
fn io_errors_convert_into_nntp_errors() {
    let io = std::io::Error::new(std::io::ErrorKind::BrokenPipe, "gone");
    match NNTPError::from(io) {
        NNTPError::IO(e) => assert_eq!(e.kind(), std::io::ErrorKind::BrokenPipe),
        other => panic!("unexpected {:?}", other),
    }
}

#[test]
fn article_parts_rejoin_into_the_line() {
    let line = "220 3000234 <45223423@example.com>\r\n";
    let r = response(line);
    let (a, b, c) = r.parse_article_response().unwrap();
    assert_eq!(format!("{} {} {}", a, b, c), line);
    assert!(!a.contains(' ') && !b.contains(' ') && !c.contains(' '));
}
