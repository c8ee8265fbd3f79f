//! Character-level helpers over `str`: splitting at a separator the way
//! `str::split` does, splitting into lines the way `str::lines` does, and
//! prefix tests.

use vstd::prelude::*;

verus! {

broadcast use vstd::string::group_string_axioms;

/// The pieces that `str::split` yields for a one-character separator:
/// there is always at least one piece, and `k` separators give `k + 1` pieces.
pub open spec fn split_on(s: Seq<char>, sep: char) -> Seq<Seq<char>>
    decreases s.len(),
{
    if s.len() == 0 {
        seq![Seq::<char>::empty()]
    } else {
        let init = split_on(s.drop_last(), sep);
        if s.last() == sep {
            init.push(Seq::<char>::empty())
        } else {
            init.update(init.len() - 1, init.last().push(s.last()))
        }
    }
}

/// Where piece `m` of a split ends, given the start of every piece:
/// one before the next piece's start (the separator), or the end of the text.
pub open spec fn piece_end(starts: Seq<usize>, m: int, n: int) -> int {
    if m + 1 < starts.len() {
        starts[m + 1] - 1
    } else {
        n
    }
}

/// Piece `m` of `split_on(s, sep)` is the text from `starts[m]` to its end.
pub open spec fn piece_matches(s: Seq<char>, sep: char, starts: Seq<usize>, m: int) -> bool {
    &&& starts[m] <= piece_end(starts, m, s.len() as int) <= s.len()
    &&& split_on(s, sep)[m] == s.subrange(starts[m] as int, piece_end(starts, m, s.len() as int))
}

/// `starts` gives, piece by piece, where each piece of `split_on(s, sep)` begins.
pub open spec fn are_piece_starts(s: Seq<char>, sep: char, starts: Seq<usize>) -> bool {
    &&& starts.len() == split_on(s, sep).len()
    &&& starts.len() >= 1
    &&& starts[0] == 0
    &&& forall|m: int| 0 <= m < starts.len() ==> #[trigger] piece_matches(s, sep, starts, m)
    &&& forall|m: int|
        0 < m < starts.len() ==> 1 <= #[trigger] starts[m] <= s.len() && s[starts[m] - 1] == sep
}

/// A split always has at least one piece.
pub proof fn lemma_split_nonempty(s: Seq<char>, sep: char)
    ensures
        split_on(s, sep).len() >= 1,
    decreases s.len(),
{
    if s.len() > 0 {
        lemma_split_nonempty(s.drop_last(), sep);
    }
}

/// Splitting text that holds a separator gives the pieces before it followed
/// by the pieces after it.
pub proof fn lemma_split_concat(a: Seq<char>, b: Seq<char>, sep: char)
    ensures
        split_on(a + seq![sep] + b, sep) == split_on(a, sep) + split_on(b, sep),
    decreases b.len(),
{
    let whole = a + seq![sep] + b;
    lemma_split_nonempty(a, sep);
    if b.len() == 0 {
        assert(whole.drop_last() =~= a);
        assert(split_on(a, sep) + split_on(b, sep) =~= split_on(a, sep).push(Seq::<char>::empty()));
    } else {
        let b0 = b.drop_last();
        lemma_split_concat(a, b0, sep);
        lemma_split_nonempty(b0, sep);
        assert(whole.drop_last() =~= a + seq![sep] + b0);
        assert(whole.last() == b.last());
        let left = split_on(a, sep);
        let right0 = split_on(b0, sep);
        if b.last() == sep {
            assert(split_on(whole, sep) =~= left + right0.push(Seq::<char>::empty()));
        } else {
            assert((left + right0).update(
                (left + right0).len() - 1,
                (left + right0).last().push(b.last()),
            ) =~= left + right0.update(right0.len() - 1, right0.last().push(b.last())));
        }
    }
}

/// Text without the separator is one piece.
pub proof fn lemma_split_single(a: Seq<char>, sep: char)
    requires
        !a.contains(sep),
    ensures
        split_on(a, sep) == seq![a],
    decreases a.len(),
{
    if a.len() > 0 {
        let a0 = a.drop_last();
        assert(!a0.contains(sep)) by {
            if a0.contains(sep) {
                let i = choose|i: int| 0 <= i < a0.len() && a0[i] == sep;
                assert(a[i] == sep);
            }
        }
        lemma_split_single(a0, sep);
        assert(a.last() != sep) by {
            assert(a[a.len() - 1] == a.last());
        }
        assert(a0.push(a.last()) =~= a);
    } else {
        assert(a =~= Seq::<char>::empty());
    }
}

/// Pieces put back together with the separator between them.
pub open spec fn join_with(pieces: Seq<Seq<char>>, sep: char) -> Seq<char>
    decreases pieces.len(),
{
    if pieces.len() == 0 {
        Seq::<char>::empty()
    } else if pieces.len() == 1 {
        pieces[0]
    } else {
        join_with(pieces.drop_last(), sep) + seq![sep] + pieces.last()
    }
}

/// Splitting loses nothing: the pieces joined by the separator give the text
/// back, and no piece holds the separator.
pub proof fn lemma_split_join(s: Seq<char>, sep: char)
    ensures
        join_with(split_on(s, sep), sep) == s,
        forall|i: int|
            0 <= i < split_on(s, sep).len() ==> !(#[trigger] split_on(s, sep)[i]).contains(sep),
    decreases s.len(),
{
    if s.len() == 0 {
        let p = split_on(s, sep);
        assert(p[0] =~= Seq::<char>::empty());
        assert(s =~= Seq::<char>::empty());
    } else {
        let s0 = s.drop_last();
        let c = s.last();
        lemma_split_join(s0, sep);
        lemma_split_nonempty(s0, sep);
        let p = split_on(s0, sep);
        if c == sep {
            let q = p.push(Seq::<char>::empty());
            assert(q.drop_last() =~= p);
            assert(join_with(q, sep) =~= s0 + seq![sep] + Seq::<char>::empty());
            assert(s0 + seq![sep] + Seq::<char>::empty() =~= s);
            assert forall|i: int| 0 <= i < q.len() implies !(#[trigger] q[i]).contains(sep) by {
                if i < p.len() {
                    assert(q[i] == p[i]);
                }
            }
        } else {
            let q = p.update(p.len() - 1, p.last().push(c));
            if p.len() == 1 {
                assert(join_with(q, sep) == q[0]);
                assert(q[0] =~= s);
            } else {
                assert(q.drop_last() =~= p.drop_last());
                assert(join_with(q, sep) == join_with(p.drop_last(), sep) + seq![sep] + p.last().push(
                    c,
                ));
                assert(join_with(p, sep) == join_with(p.drop_last(), sep) + seq![sep] + p.last());
                assert(join_with(p.drop_last(), sep) + seq![sep] + p.last().push(c) =~= s0.push(c));
                assert(s0.push(c) =~= s);
            }
            assert forall|i: int| 0 <= i < q.len() implies !(#[trigger] q[i]).contains(sep) by {
                if i < p.len() - 1 {
                    assert(q[i] == p[i]);
                } else {
                    let last = p.last();
                    assert(!p[p.len() - 1].contains(sep));
                    if q[i].contains(sep) {
                        let j = choose|j: int| 0 <= j < q[i].len() && q[i][j] == sep;
                        if j < last.len() {
                            assert(last[j] == sep);
                            assert(last.contains(sep));
                        }
                    }
                }
            }
        }
    }
}

/// The first piece of a split is the text up to the first separator: the
/// whole text where there is only one piece, else a prefix followed by the
/// separator.
pub proof fn lemma_first_piece(s: Seq<char>, sep: char)
    ensures
        split_on(s, sep)[0].is_prefix_of(s),
        split_on(s, sep).len() == 1 ==> split_on(s, sep)[0] == s,
        split_on(s, sep).len() > 1 ==> split_on(s, sep)[0].len() < s.len() && s[split_on(
            s,
            sep,
        )[0].len() as int] == sep,
    decreases s.len(),
{
    lemma_split_nonempty(s, sep);
    if s.len() == 0 {
        assert(split_on(s, sep)[0] =~= s);
    } else {
        let s0 = s.drop_last();
        let c = s.last();
        lemma_first_piece(s0, sep);
        lemma_split_nonempty(s0, sep);
        let p = split_on(s0, sep);
        let p0 = p[0];
        assert(s0 =~= s.subrange(0, s.len() - 1));
        if c == sep {
            assert(split_on(s, sep)[0] == p0);
            if p.len() == 1 {
                assert(s[p0.len() as int] == c);
            } else {
                assert(s[p0.len() as int] == s0[p0.len() as int]);
            }
            assert(p0 =~= s.subrange(0, p0.len() as int));
        } else {
            if p.len() == 1 {
                assert(split_on(s, sep)[0] == p0.push(c));
                assert(p0.push(c) =~= s);
            } else {
                assert(split_on(s, sep)[0] == p0);
                assert(s[p0.len() as int] == s0[p0.len() as int]);
                assert(p0 =~= s.subrange(0, p0.len() as int));
            }
        }
    }
}

/// The characters of `s`, in order.
pub fn chars_of(s: &str) -> (v: Vec<char>)
    ensures
        v@ == s@,
{
    let mut v: Vec<char> = Vec::new();
    for c in it: s.chars()
        invariant
            v.len() == it.index(),
            forall|i: int| 0 <= i < v.len() ==> v@[i] == it.seq()[i],
    {
        v.push(c);
    }
    assert(v@ =~= s@);
    v
}

/// The start of every piece that `split_on(s, sep)` yields.
pub fn piece_starts(s: &Vec<char>, sep: char) -> (starts: Vec<usize>)
    ensures
        are_piece_starts(s@, sep, starts@),
{
    let mut starts: Vec<usize> = Vec::new();
    starts.push(0);
    let mut k: usize = 0;
    proof {
        let e = s@.take(0);
        assert(e =~= Seq::<char>::empty());
        assert(split_on(e, sep) == seq![Seq::<char>::empty()]);
        assert(split_on(e, sep)[0] == e.subrange(0, 0));
        assert(piece_matches(e, sep, seq![0usize], 0));
    }
    while k < s.len()
        invariant
            k <= s.len(),
            are_piece_starts(s@.take(k as int), sep, starts@),
        decreases s.len() - k,
    {
        let ghost prev = s@.take(k as int);
        let ghost next = s@.take(k + 1);
        let ghost old_starts = starts@;
        let ghost old_pieces = split_on(prev, sep);
        assert(next.drop_last() =~= prev);
        assert(next.last() == s@[k as int]);
        proof {
            lemma_split_nonempty(prev, sep);
        }
        if s[k] == sep {
            starts.push(k + 1);
            assert(split_on(next, sep) == old_pieces.push(Seq::<char>::empty()));
            assert forall|m: int| 0 <= m < starts.len() implies #[trigger] piece_matches(
                next,
                sep,
                starts@,
                m,
            ) by {
                if m + 1 < starts.len() {
                    assert(piece_matches(prev, sep, old_starts, m));
                    assert(piece_end(old_starts, m, prev.len() as int) == piece_end(
                        starts@,
                        m,
                        next.len() as int,
                    ));
                    assert(next.subrange(starts@[m] as int, piece_end(starts@, m, next.len() as int))
                        =~= prev.subrange(
                        starts@[m] as int,
                        piece_end(old_starts, m, prev.len() as int),
                    ));
                } else {
                    assert(next.subrange(starts@[m] as int, next.len() as int) =~= Seq::<
                        char,
                    >::empty());
                }
            }
            assert forall|m: int| 0 < m < starts.len() implies 1 <= #[trigger] starts@[m] <= next.len()
                && next[starts@[m] - 1] == sep by {
                if m + 1 < starts.len() {
                    assert(prev[old_starts[m] - 1] == sep);
                }
            }
        } else {
            let ghost last = (starts.len() - 1) as int;
            assert(split_on(next, sep) == old_pieces.update(
                last,
                old_pieces.last().push(s@[k as int]),
            ));
            assert forall|m: int| 0 <= m < starts.len() implies #[trigger] piece_matches(
                next,
                sep,
                starts@,
                m,
            ) by {
                assert(piece_matches(prev, sep, old_starts, m));
                if m < last {
                    assert(next.subrange(starts@[m] as int, piece_end(starts@, m, next.len() as int))
                        =~= prev.subrange(
                        starts@[m] as int,
                        piece_end(starts@, m, prev.len() as int),
                    ));
                } else {
                    assert(next.subrange(starts@[m] as int, next.len() as int) =~= prev.subrange(
                        starts@[m] as int,
                        prev.len() as int,
                    ).push(s@[k as int]));
                }
            }
            assert forall|m: int| 0 < m < starts.len() implies 1 <= #[trigger] starts@[m] <= next.len()
                && next[starts@[m] - 1] == sep by {
                assert(prev[old_starts[m] - 1] == sep);
            }
        }
        k = k + 1;
    }
    assert(s@.take(s.len() as int) =~= s@);
    starts
}

/// A line without the `'\r'` that may end it.
pub open spec fn strip_cr(line: Seq<char>) -> Seq<char> {
    if line.len() > 0 && line.last() == '\r' {
        line.drop_last()
    } else {
        line
    }
}

/// The lines that `str::lines` yields: the text is cut after every `'\n'`;
/// a line that a `'\n'` ended loses it and a `'\r'` just before it; a last
/// piece with no `'\n'` after it is a line as it stands, unless it is empty.
pub open spec fn lines_of(s: Seq<char>) -> Seq<Seq<char>> {
    let pieces = split_on(s, '\n');
    let ended = Seq::new((pieces.len() - 1) as nat, |i: int| strip_cr(pieces[i]));
    if pieces.last().len() == 0 {
        ended
    } else {
        ended.push(pieces.last())
    }
}

/// The lines of `text`, as `str::lines` gives them.
pub fn lines(text: &str) -> (out: Vec<String>)
    ensures
        out.len() == lines_of(text@).len(),
        forall|i: int| 0 <= i < out.len() ==> #[trigger] out@[i]@ == lines_of(text@)[i],
{
    let chars = chars_of(text);
    let starts = piece_starts(&chars, '\n');
    let ghost pieces = split_on(text@, '\n');
    let n = starts.len();
    let mut out: Vec<String> = Vec::new();
    let mut m: usize = 0;
    while m + 1 < n
        invariant
            chars@ == text@,
            are_piece_starts(text@, '\n', starts@),
            n == starts.len(),
            pieces == split_on(text@, '\n'),
            m + 1 <= n,
            out.len() == m,
            forall|i: int| 0 <= i < m ==> #[trigger] out@[i]@ == strip_cr(pieces[i]),
        decreases n - m,
    {
        let begin = starts[m];
        let end = starts[m + 1] - 1;
        assert(piece_matches(text@, '\n', starts@, m as int));
        let stop = if end > begin && chars[end - 1] == '\r' {
            end - 1
        } else {
            end
        };
        let line = String::from_str(text.substring_char(begin, stop));
        assert(line@ =~= strip_cr(pieces[m as int]));
        out.push(line);
        m = m + 1;
    }
    let last = n - 1;
    assert(piece_matches(text@, '\n', starts@, last as int));
    let begin = starts[last];
    let end = chars.len();
    if begin < end {
        out.push(String::from_str(text.substring_char(begin, end)));
    }
    assert forall|i: int| 0 <= i < out.len() implies #[trigger] out@[i]@ == lines_of(text@)[i] by {
        if i < last {
        }
    }
    out
}

/// Whether `s` starts with `prefix`, as `str::starts_with` decides it.
pub fn starts_with(s: &str, prefix: &str) -> (r: bool)
    ensures
        r == prefix@.is_prefix_of(s@),
{
    let text = chars_of(s);
    let head = chars_of(prefix);
    if head.len() > text.len() {
        return false;
    }
    let mut i: usize = 0;
    while i < head.len()
        invariant
            head.len() <= text.len(),
            i <= head.len(),
            text@ == s@,
            head@ == prefix@,
            forall|j: int| 0 <= j < i ==> text@[j] == head@[j],
        decreases head.len() - i,
    {
        if text[i] != head[i] {
            assert(text@.subrange(0, head.len() as int)[i as int] != head@[i as int]);
            return false;
        }
        i = i + 1;
    }
    assert(head@ =~= text@.subrange(0, head.len() as int));
    true
}

/// Whether the characters `s[begin..end]` are exactly `word`.
pub fn range_equals(s: &Vec<char>, begin: usize, end: usize, word: &str) -> (r: bool)
    requires
        begin <= end <= s.len(),
    ensures
        r == (s@.subrange(begin as int, end as int) == word@),
{
    let w = chars_of(word);
    if end - begin != w.len() {
        return false;
    }
    let mut i: usize = 0;
    while i < w.len()
        invariant
            begin <= end <= s.len(),
            end - begin == w.len(),
            w@ == word@,
            i <= w.len(),
            forall|j: int| 0 <= j < i ==> s@[begin + j] == w@[j],
        decreases w.len() - i,
    {
        if s[begin + i] != w[i] {
            assert(s@.subrange(begin as int, end as int)[i as int] != w@[i as int]);
            return false;
        }
        i = i + 1;
    }
    assert(s@.subrange(begin as int, end as int) =~= w@);
    true
}

} // verus!
