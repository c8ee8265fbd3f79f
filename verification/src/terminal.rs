//! Reading a multi-line reply body up to its terminating line.
//!
//! The body of a multi-line reply ends with a line that holds a single dot.
//! The body is read one line at a time (each chunk is what
//! `read_until(b'\n')` hands back); after every chunk the last five bytes
//! read are compared with `"\r\n.\r\n"`; a body that is empty is the dot
//! line alone, `".\r\n"`. Reading stops as soon as the body has ended, so
//! what the server sent after the terminator (pipelined replies) stays unread.

use vstd::prelude::*;

verus! {

/// The bytes that end a multi-line body: CR LF `.` CR LF.
pub open spec fn terminator() -> Seq<u8> {
    seq![13u8, 10u8, 46u8, 13u8, 10u8]
}

/// Whether `buf` ends with the terminator.
pub open spec fn ends_with_terminator(buf: Seq<u8>) -> bool {
    buf.len() >= 5 && buf.subrange(buf.len() - 5, buf.len() as int) == terminator()
}

/// The dot line alone: the whole of an empty body.
pub open spec fn dot_line() -> Seq<u8> {
    seq![46u8, 13u8, 10u8]
}

/// Whether what was read is a whole body, its terminating line included.
pub open spec fn is_complete(read: Seq<u8>) -> bool {
    ends_with_terminator(read) || read == dot_line()
}

/// The body that `read` holds: without its terminating line where it has
/// ended, and as it stands where it has not.
pub open spec fn body_of(read: Seq<u8>) -> Seq<u8> {
    if ends_with_terminator(read) {
        read.take(read.len() - 5)
    } else if read == dot_line() {
        Seq::<u8>::empty()
    } else {
        read
    }
}

/// The body read so far, while its terminating line has not come.
pub struct TerminatedBody {
    buffer: Vec<u8>,
}

impl View for TerminatedBody {
    type V = Seq<u8>;

    /// Every byte read so far, in order.
    closed spec fn view(&self) -> Seq<u8> {
        self.buffer@
    }
}

impl TerminatedBody {
    /// Nothing read yet.
    pub fn new() -> (r: Self)
        ensures
            r@ == Seq::<u8>::empty(),
    {
        TerminatedBody { buffer: Vec::new() }
    }

    /// Adds the next chunk read, and tells whether the body has now ended.
    pub fn push_line(&mut self, chunk: Vec<u8>) -> (done: bool)
        ensures
            final(self)@ == old(self)@ + chunk@,
            done == is_complete(final(self)@),
    {
        let mut chunk = chunk;
        self.buffer.append(&mut chunk);
        let n = self.buffer.len();
        if n >= 5 {
            let done = self.buffer[n - 5] == 13 && self.buffer[n - 4] == 10 && self.buffer[n - 3]
                == 46 && self.buffer[n - 2] == 13 && self.buffer[n - 1] == 10;
            assert(done == (self.buffer@.subrange(n - 5, n as int) =~= terminator()));
            assert(self.buffer@.len() != dot_line().len());
            done
        } else {
            let done = n == 3 && self.buffer[0] == 46 && self.buffer[1] == 13 && self.buffer[2] == 10;
            assert(done == (self.buffer@ =~= dot_line()));
            done
        }
    }

    /// How many bytes have been read.
    pub fn len(&self) -> (n: usize)
        ensures
            n == self@.len(),
    {
        self.buffer.len()
    }

    /// The body: what was read without its terminating line.
    pub fn finish(self) -> (body: Vec<u8>)
        ensures
            body@ == body_of(self@),
    {
        let mut buffer = self.buffer;
        let n = buffer.len();
        if n >= 5 && buffer[n - 5] == 13 && buffer[n - 4] == 10 && buffer[n - 3] == 46
            && buffer[n - 2] == 13 && buffer[n - 1] == 10 {
            assert(buffer@.subrange(n - 5, n as int) =~= terminator());
            buffer.truncate(n - 5);
        } else {
            assert(!ends_with_terminator(buffer@)) by {
                if n >= 5 {
                    let t = buffer@.subrange(n - 5, n as int);
                    if t == terminator() {
                        assert(t[0] == buffer@[n - 5]);
                        assert(t[1] == buffer@[n - 4]);
                        assert(t[2] == buffer@[n - 3]);
                        assert(t[3] == buffer@[n - 2]);
                        assert(t[4] == buffer@[n - 1]);
                    }
                }
            }
            if n == 3 && buffer[0] == 46 && buffer[1] == 13 && buffer[2] == 10 {
                assert(buffer@ =~= dot_line());
                buffer.truncate(0);
            } else {
                assert(buffer@ != dot_line()) by {
                    if buffer@ == dot_line() {
                        assert(buffer@[0] == 46 && buffer@[1] == 13 && buffer@[2] == 10);
                    }
                }
            }
        }
        buffer
    }
}

/// A whole body gives back exactly what was read, less its terminating line:
/// the body followed by the terminator is what was read, and the dot line alone
/// is the empty body.
pub proof fn lemma_body_then_terminator(read: Seq<u8>)
    requires
        is_complete(read),
    ensures
        ends_with_terminator(read) ==> body_of(read) + terminator() == read,
        read == dot_line() ==> body_of(read) == Seq::<u8>::empty(),
        read.len() >= 5 ==> body_of(read) + seq![13u8, 10u8, 46u8, 13u8, 10u8] == read,
        read.len() < 5 ==> read == seq![46u8, 13u8, 10u8] && body_of(read).len() == 0,
{
    lemma_complete_bytes(read);
    if read.len() >= 5 {
        assert(read.subrange(read.len() - 5, read.len() as int) =~= terminator());
        assert(body_of(read) + terminator() =~= read);
    }
}

/// When reading stops: exactly when the last five bytes read are CR LF `.` CR LF,
/// or when all that was read is `.` CR LF. A blank line (CR LF CR LF) or any
/// other ending does not end the body.
pub proof fn lemma_complete_bytes(read: Seq<u8>)
    ensures
        is_complete(read) <==> (read =~= seq![46u8, 13u8, 10u8] || (read.len() >= 5 && read[read.len()
            - 5] == 13u8 && read[read.len() - 4] == 10u8 && read[read.len() - 3] == 46u8
            && read[read.len() - 2] == 13u8 && read[read.len() - 1] == 10u8)),
{
    let n = read.len() as int;
    if n >= 5 {
        let t = read.subrange(n - 5, n);
        if read[n - 5] == 13u8 && read[n - 4] == 10u8 && read[n - 3] == 46u8 && read[n - 2] == 13u8
            && read[n - 1] == 10u8 {
            assert(t =~= terminator());
        } else {
            assert(t != terminator()) by {
                if t == terminator() {
                    assert(t[0] == read[n - 5]);
                    assert(t[1] == read[n - 4]);
                    assert(t[2] == read[n - 3]);
                    assert(t[3] == read[n - 2]);
                    assert(t[4] == read[n - 1]);
                }
            }
        }
        assert(read.len() != dot_line().len());
    }
}

} // verus!
