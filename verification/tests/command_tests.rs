use nntp::command::{
    article_command, article_has_body, authinfo_pass_command, authinfo_user_command, compress_reply,
    group_command, head_command, head_has_body, head_range_command, listgroup_range_command,
    xhdr_range_command, xzhdr_command, xzhdr_range_command, CAPABILITIES, HEAD, LAST, LIST,
    LISTGROUP, NEXT, QUIT, XFEATURE_COMPRESS_GZIP,
};
use nntp::NNTPError;

#[test]
fn fixed_commands() {
    assert_eq!(LIST, "LIST\r\n");
    assert_eq!(HEAD, "HEAD\r\n");
    assert_eq!(LAST, "LAST\r\n");
    assert_eq!(QUIT, "QUIT\r\n");
    assert_eq!(NEXT, "NEXT\r\n");
    assert_eq!(CAPABILITIES, "CAPABILITIES\r\n");
    assert_eq!(LISTGROUP, "LISTGROUP\r\n");
    assert_eq!(XFEATURE_COMPRESS_GZIP, "XFEATURE COMPRESS GZIP *\r\n");
}

#[test]
fn commands_with_arguments() {
    assert_eq!(authinfo_user_command("alice"), "AUTHINFO USER alice\r\n");
    assert_eq!(authinfo_pass_command("s3cret"), "AUTHINFO PASS s3cret\r\n");
    assert_eq!(group_command("comp.sys.raspberry-pi"), "GROUP comp.sys.raspberry-pi\r\n");
    assert_eq!(listgroup_range_command("misc.test", 3000, 3010), "LISTGROUP misc.test 3000-3010\r\n");
    assert_eq!(article_command(3000234), "ARTICLE 3000234\r\n");
    assert_eq!(head_command(0), "HEAD 0\r\n");
    assert_eq!(head_range_command(10, 20), "HEAD 10-20\r\n");
    assert_eq!(xhdr_range_command("Subject".to_string().as_str(), 1, 2), "XHDR Subject 1-2\r\n");
    assert_eq!(xzhdr_command(42), "XZHDR 42\r\n");
    assert_eq!(xzhdr_range_command(5, 500), "XZHDR 5-500\r\n");
}

#[test]
fn body_follows_only_some_codes() {
    assert!(article_has_body("220 1 <a@b> article\r\n"));
    assert!(!article_has_body("423 no such article\r\n"));
    assert!(head_has_body("221 1 <a@b>\r\n"));
    assert!(head_has_body("100 help\r\n"));
    assert!(!head_has_body("430 no article\r\n"));
}

#[test]
fn compress_reply_accepts_220_and_reports_others() {
    assert!(compress_reply("220 compression enabled\r\n").is_ok());
    match compress_reply("500 unknown command\r\n") {
        Err(NNTPError::UnexpectedCode(code)) => assert_eq!(code, "50"),
        other => panic!("unexpected {:?}", other),
    }
}
