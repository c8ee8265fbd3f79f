//! The commands a client sends, as the text that goes over the wire, and the
//! decisions a client takes on the status line that answers them.

use vstd::prelude::*;
use vstd::utf8::{encode_utf8, is_char_boundary};
use vstd::string::StringSliceAdditionalSpecFns;
use crate::decimal::{append_decimal, decimal};
use crate::error::NNTPError;
use crate::text::starts_with;

verus! {

/// Lists the groups the server carries.
pub const LIST: &'static str = "LIST\r\n";

/// Asks for the headers of the current article.
pub const HEAD: &'static str = "HEAD\r\n";

/// Moves to the previous article of the group.
pub const LAST: &'static str = "LAST\r\n";

/// Ends the session.
pub const QUIT: &'static str = "QUIT\r\n";

/// Moves to the next article of the group.
pub const NEXT: &'static str = "NEXT\r\n";

/// Asks the server what it can do.
pub const CAPABILITIES: &'static str = "CAPABILITIES\r\n";

/// Lists the article numbers of the current group.
pub const LISTGROUP: &'static str = "LISTGROUP\r\n";

/// Asks the server to compress its replies with gzip from now on.
pub const XFEATURE_COMPRESS_GZIP: &'static str = "XFEATURE COMPRESS GZIP *\r\n";

/// `prefix`, `arg` and CR LF, one after the other.
fn command_with_arg(prefix: &str, arg: &str) -> (c: String)
    ensures
        c@ == prefix@ + arg@ + "\r\n"@,
{
    let mut c = String::from_str(prefix);
    c.append(arg);
    c.append("\r\n");
    c
}

/// `prefix`, the number `n` in decimal, and CR LF.
fn command_with_number(prefix: &str, n: usize) -> (c: String)
    ensures
        c@ == prefix@ + decimal(n as nat) + "\r\n"@,
{
    let mut c = String::from_str(prefix);
    append_decimal(&mut c, n);
    c.append("\r\n");
    c
}

/// `prefix`, then `start-end` in decimal, and CR LF.
fn command_with_range(prefix: &str, start: usize, end: usize) -> (c: String)
    ensures
        c@ == prefix@ + decimal(start as nat) + "-"@ + decimal(end as nat) + "\r\n"@,
{
    let mut c = String::from_str(prefix);
    append_decimal(&mut c, start);
    c.append("-");
    append_decimal(&mut c, end);
    c.append("\r\n");
    c
}

/// `AUTHINFO USER user`.
pub fn authinfo_user_command(user: &str) -> (c: String)
    ensures
        c@ == "AUTHINFO USER "@ + user@ + "\r\n"@,
{
    command_with_arg("AUTHINFO USER ", user)
}

/// `AUTHINFO PASS pass`.
pub fn authinfo_pass_command(pass: &str) -> (c: String)
    ensures
        c@ == "AUTHINFO PASS "@ + pass@ + "\r\n"@,
{
    command_with_arg("AUTHINFO PASS ", pass)
}

/// `GROUP group`: selects a newsgroup.
pub fn group_command(group: &str) -> (c: String)
    ensures
        c@ == "GROUP "@ + group@ + "\r\n"@,
{
    command_with_arg("GROUP ", group)
}

/// `LISTGROUP group start-end`.
pub fn listgroup_range_command(group: &str, start: usize, end: usize) -> (c: String)
    ensures
        c@ == "LISTGROUP "@ + group@ + " "@ + decimal(start as nat) + "-"@ + decimal(end as nat)
            + "\r\n"@,
{
    let mut c = String::from_str("LISTGROUP ");
    c.append(group);
    c.append(" ");
    append_decimal(&mut c, start);
    c.append("-");
    append_decimal(&mut c, end);
    c.append("\r\n");
    c
}

/// `ARTICLE id`.
pub fn article_command(id: usize) -> (c: String)
    ensures
        c@ == "ARTICLE "@ + decimal(id as nat) + "\r\n"@,
{
    command_with_number("ARTICLE ", id)
}

/// `HEAD id`.
pub fn head_command(id: usize) -> (c: String)
    ensures
        c@ == "HEAD "@ + decimal(id as nat) + "\r\n"@,
{
    command_with_number("HEAD ", id)
}

/// `HEAD start-end`.
pub fn head_range_command(start: usize, end: usize) -> (c: String)
    ensures
        c@ == "HEAD "@ + decimal(start as nat) + "-"@ + decimal(end as nat) + "\r\n"@,
{
    command_with_range("HEAD ", start, end)
}

/// `XHDR header start-end`.
pub fn xhdr_range_command(header_name: &str, start: usize, end: usize) -> (c: String)
    ensures
        c@ == "XHDR "@ + header_name@ + " "@ + decimal(start as nat) + "-"@ + decimal(end as nat)
            + "\r\n"@,
{
    let mut c = String::from_str("XHDR ");
    c.append(header_name);
    c.append(" ");
    append_decimal(&mut c, start);
    c.append("-");
    append_decimal(&mut c, end);
    c.append("\r\n");
    c
}

/// `XZHDR id`.
pub fn xzhdr_command(id: usize) -> (c: String)
    ensures
        c@ == "XZHDR "@ + decimal(id as nat) + "\r\n"@,
{
    command_with_number("XZHDR ", id)
}

/// `XZHDR start-end`.
pub fn xzhdr_range_command(start: usize, end: usize) -> (c: String)
    ensures
        c@ == "XZHDR "@ + decimal(start as nat) + "-"@ + decimal(end as nat) + "\r\n"@,
{
    command_with_range("XZHDR ", start, end)
}

/// After `ARTICLE`, a body follows only a `220` status line.
pub fn article_has_body(response_line: &str) -> (r: bool)
    ensures
        r == "220"@.is_prefix_of(response_line@),
{
    starts_with(response_line, "220")
}

/// After `HEAD`, `XHDR` or `XZHDR`, a body follows only a `100` or `221` status line.
pub fn head_has_body(response_line: &str) -> (r: bool)
    ensures
        r == ("100"@.is_prefix_of(response_line@) || "221"@.is_prefix_of(response_line@)),
{
    starts_with(response_line, "100") || starts_with(response_line, "221")
}

/// The answer to `XFEATURE COMPRESS GZIP`: accepted on a `220` status line;
/// otherwise an `UnexpectedCode` error that holds the first two bytes of the line.
pub fn compress_reply(response_line: &str) -> (r: Result<(), NNTPError>)
    requires
        "220"@.is_prefix_of(response_line@) || is_char_boundary(response_line.spec_bytes(), 2),
    ensures
        r is Ok <==> "220"@.is_prefix_of(response_line@),
        r matches Err(e) ==> (e matches NNTPError::UnexpectedCode(code) && encode_utf8(code@)
            == response_line.spec_bytes().subrange(0, 2)),
{
    if starts_with(response_line, "220") {
        Ok(())
    } else {
        let (head, _) = response_line.split_at(2);
        let code = String::from_str(head);
        Err(NNTPError::UnexpectedCode(code))
    }
}

} // verus!
