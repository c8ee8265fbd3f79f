//! A server's reply: its first line and, for the commands that have one,
//! the body that followed it.

use vstd::prelude::*;
use crate::decimal::{
    decimal, is_digit, lemma_decimal_digits, lemma_parse_decimal, parse_usize, parse_usize_spec,
};
use crate::text::{
    are_piece_starts, chars_of, join_with, lemma_split_concat, lemma_split_join, lemma_split_single, piece_matches, piece_starts,
    split_on, starts_with,
};

verus! {

/// A reply from the server.
#[derive(Debug)]
pub struct Response {
    /// The status line, as read, with its line ending.
    pub response_line: String,
    /// The body that followed the status line, where the command has one.
    pub rest: Option<Vec<u8>>,
}

/// The three numbers of a `GROUP` reply, `211 count low high name`, read from
/// the pieces of the line between single spaces; `None` where a piece is
/// missing or is no number.
pub open spec fn group_stats_spec(line: Seq<char>) -> Option<(usize, usize, usize)> {
    let parts = split_on(line, ' ');
    if parts.len() >= 4 && parse_usize_spec(parts[1]) is Some && parse_usize_spec(parts[2]) is Some
        && parse_usize_spec(parts[3]) is Some {
        Some(
            (
                parse_usize_spec(parts[1])->0,
                parse_usize_spec(parts[2])->0,
                parse_usize_spec(parts[3])->0,
            ),
        )
    } else {
        None
    }
}

/// An `std::io::Error` of kind `Other` that carries `message`.
#[verifier::external_body]
fn other_io_error(message: &str) -> std::io::Error {
    std::io::Error::new(std::io::ErrorKind::Other, message)
}

impl Response {
    pub fn new(response_line: String, rest: Option<Vec<u8>>) -> (r: Response)
        ensures
            r.response_line == response_line,
            r.rest == rest,
    {
        Response { response_line, rest }
    }

    /// Whether the status line starts with `expected`, such as a status code.
    pub fn expected(&self, expected: &str) -> (r: bool)
        ensures
            r == expected@.is_prefix_of(self.response_line@),
    {
        starts_with(self.response_line.as_str(), expected)
    }

    /// The three numbers of a `GROUP` reply, or `None` where the line does not hold them.
    pub fn group_stats(&self) -> (r: Option<(usize, usize, usize)>)
        ensures
            r == group_stats_spec(self.response_line@),
    {
        let line = chars_of(self.response_line.as_str());
        let starts = piece_starts(&line, ' ');
        if starts.len() < 4 {
            return None;
        }
        let ghost parts = split_on(line@, ' ');
        let mut numbers: Vec<usize> = Vec::new();
        let mut m: usize = 1;
        while m < 4
            invariant
                1 <= m <= 4,
                line@ == self.response_line@,
                starts.len() >= 4,
                are_piece_starts(line@, ' ', starts@),
                parts == split_on(line@, ' '),
                numbers.len() == m - 1,
                forall|j: int|
                    0 <= j < m - 1 ==> parse_usize_spec(parts[j + 1]) == Some(#[trigger] numbers@[j]),
            decreases 4 - m,
        {
            assert(piece_matches(line@, ' ', starts@, m as int));
            let end = if m + 1 < starts.len() {
                starts[m + 1] - 1
            } else {
                line.len()
            };
            match parse_usize(&line, starts[m], end) {
                None => {
                    return None;
                },
                Some(v) => {
                    numbers.push(v);
                },
            }
            m = m + 1;
        }
        assert(parse_usize_spec(parts[1]) == Some(numbers@[0]));
        assert(parse_usize_spec(parts[2]) == Some(numbers@[1]));
        assert(parse_usize_spec(parts[3]) == Some(numbers@[2]));
        Some((numbers[0], numbers[1], numbers[2]))
    }

    /// After issuing a `GROUP $NAME` command you will get a response with three numbers,
    /// this helper will parse that line.
    ///
    /// For reference, these numbers mean
    ///
    /// (est. number of messages, reported low water mark, reported high water mark)
    pub fn parse_group_stats(&self) -> (r: Result<(usize, usize, usize), std::io::Error>)
        requires
            group_stats_spec(self.response_line@) is Some,
        ensures
            r matches Ok(stats) && stats == group_stats_spec(self.response_line@)->0,
    {
        Ok(self.group_stats().unwrap())
    }

    /// The three space-separated parts of an article reply line,
    /// `code number message-id`; an error where the line has another number of parts.
    pub fn parse_article_response(&self) -> (r: Result<(&str, &str, &str), std::io::Error>)
        ensures
            split_on(self.response_line@, ' ').len() == 3 <==> r is Ok,
            r matches Ok(parts) ==> {
                &&& parts.0@ == split_on(self.response_line@, ' ')[0]
                &&& parts.1@ == split_on(self.response_line@, ' ')[1]
                &&& parts.2@ == split_on(self.response_line@, ' ')[2]
            },
    {
        let text = self.response_line.as_str();
        let line = chars_of(text);
        let starts = piece_starts(&line, ' ');
        if starts.len() != 3 {
            return Err(other_io_error("article response did not have 3 parts"));
        }
        assert(piece_matches(line@, ' ', starts@, 0));
        assert(piece_matches(line@, ' ', starts@, 1));
        assert(piece_matches(line@, ' ', starts@, 2));
        let first = text.substring_char(0, starts[1] - 1);
        let second = text.substring_char(starts[1], starts[2] - 1);
        let third = text.substring_char(starts[2], line.len());
        Ok((first, second, third))
    }
}

/// A numeral holds no space.
proof fn lemma_decimal_has_no_space(n: usize)
    ensures
        !decimal(n as nat).contains(' '),
{
    lemma_decimal_digits(n as nat);
    let d = decimal(n as nat);
    if d.contains(' ') {
        let i = choose|i: int| 0 <= i < d.len() && d[i] == ' ';
        assert(is_digit(d[i]));
    }
}

/// A reply `code count low high rest` to `GROUP`, the three numbers written in
/// decimal and single spaces between the parts, is read as `(count, low, high)`,
/// whatever the rest of the line holds.
pub proof fn lemma_group_stats_of_reply(
    code: Seq<char>,
    count: usize,
    low: usize,
    high: usize,
    rest: Seq<char>,
)
    requires
        !code.contains(' '),
    ensures
        group_stats_spec(
            code + seq![' '] + decimal(count as nat) + seq![' '] + decimal(low as nat) + seq![' ']
                + decimal(high as nat) + seq![' '] + rest,
        ) == Some((count, low, high)),
{
    let sp = seq![' '];
    let d1 = decimal(count as nat);
    let d2 = decimal(low as nat);
    let d3 = decimal(high as nat);
    let line = code + sp + d1 + sp + d2 + sp + d3 + sp + rest;
    let t3 = d3 + sp + rest;
    let t2 = d2 + sp + t3;
    let t1 = d1 + sp + t2;
    assert(line =~= code + sp + t1);
    lemma_split_concat(code, t1, ' ');
    lemma_split_concat(d1, t2, ' ');
    lemma_split_concat(d2, t3, ' ');
    lemma_split_concat(d3, rest, ' ');
    lemma_decimal_has_no_space(count);
    lemma_decimal_has_no_space(low);
    lemma_decimal_has_no_space(high);
    lemma_split_single(code, ' ');
    lemma_split_single(d1, ' ');
    lemma_split_single(d2, ' ');
    lemma_split_single(d3, ' ');
    let parts = split_on(line, ' ');
    assert(parts =~= seq![code, d1, d2, d3] + split_on(rest, ' '));
    lemma_parse_decimal(count);
    lemma_parse_decimal(low);
    lemma_parse_decimal(high);
}

/// A line of three space-free words with single spaces between them splits
/// into those three words, so that `parse_article_response` hands them back.
pub proof fn lemma_article_response_parts(code: Seq<char>, number: Seq<char>, id: Seq<char>)
    requires
        !code.contains(' '),
        !number.contains(' '),
        !id.contains(' '),
    ensures
        split_on(code + seq![' '] + number + seq![' '] + id, ' ') == seq![code, number, id],
{
    let sp = seq![' '];
    let tail = number + sp + id;
    assert(code + sp + number + sp + id =~= code + sp + tail);
    lemma_split_concat(code, tail, ' ');
    lemma_split_concat(number, id, ' ');
    lemma_split_single(code, ' ');
    lemma_split_single(number, ' ');
    lemma_split_single(id, ' ');
    assert(split_on(code + sp + tail, ' ') =~= seq![code, number, id]);
}

/// The three parts that `parse_article_response` hands back hold no space, and
/// put back together with single spaces between them they give the whole
/// status line (its line ending stays in the last part).
pub proof fn lemma_article_response_rejoins(line: Seq<char>)
    requires
        split_on(line, ' ').len() == 3,
    ensures
        split_on(line, ' ')[0] + seq![' '] + split_on(line, ' ')[1] + seq![' '] + split_on(
            line,
            ' ',
        )[2] == line,
        !split_on(line, ' ')[0].contains(' '),
        !split_on(line, ' ')[1].contains(' '),
        !split_on(line, ' ')[2].contains(' '),
{
    let p = split_on(line, ' ');
    lemma_split_join(line, ' ');
    assert(p.drop_last().drop_last() =~= seq![p[0]]);
    assert(p.drop_last() =~= seq![p[0], p[1]]);
    assert(join_with(p.drop_last().drop_last(), ' ') == p[0]);
    assert(join_with(p.drop_last(), ' ') == p[0] + seq![' '] + p[1]);
    assert(join_with(p, ' ') == p[0] + seq![' '] + p[1] + seq![' '] + p[2]);
    assert(!p[0].contains(' '));
    assert(!p[1].contains(' '));
    assert(!p[2].contains(' '));
}

} // verus!
