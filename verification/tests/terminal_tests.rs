use nntp::terminal::TerminatedBody;

#[test]
fn body_ends_at_the_dot_line() {
    let mut body = TerminatedBody::new();
    assert!(!body.push_line(b"Path: a!b\r\n".to_vec()));
    assert!(!body.push_line(b"Subject: hi\r\n".to_vec()));
    assert!(body.push_line(b".\r\n".to_vec()));
    assert_eq!(body.len(), 27);
    assert_eq!(body.finish(), b"Path: a!b\r\nSubject: hi".to_vec());
}

#[test]
fn a_dot_inside_a_line_does_not_end_the_body() {
    let mut body = TerminatedBody::new();
    assert!(!body.push_line(b"one.\r\n".to_vec()));
    assert!(!body.push_line(b"..\r\n".to_vec()));
    assert!(body.push_line(b".\r\n".to_vec()));
    assert_eq!(body.finish(), b"one.\r\n..".to_vec());
}

#[test]
fn chunks_are_kept_in_order() {
    let mut body = TerminatedBody::new();
    assert!(!body.push_line(b"abcde".to_vec()));
    assert!(!body.push_line(Vec::new()));
    assert!(body.push_line(b"\r\n.\r\n".to_vec()));
    assert_eq!(body.finish(), b"abcde".to_vec());
}

#[test]
fn the_dot_line_alone_is_an_empty_body() {
    let mut body = TerminatedBody::new();
    assert!(body.push_line(b".\r\n".to_vec()));
    assert_eq!(body.finish(), Vec::<u8>::new());
}

#[test]
fn a_first_line_shorter_than_the_terminator() {
    let mut body = TerminatedBody::new();
    assert!(!body.push_line(b"OK\r\n".to_vec()));
    assert!(body.push_line(b".\r\n".to_vec()));
    assert_eq!(body.finish(), b"OK".to_vec());
}

#[test]
fn an_unfinished_body_is_handed_back_whole() {
    let mut body = TerminatedBody::new();
    assert!(!body.push_line(b"ab".to_vec()));
    assert_eq!(body.finish(), b"ab".to_vec());
}
