# nntp

An NNTP client. `src/` is the verified library: the text of every command,
the numbers read from and written into replies, the decisions taken on a
status line, the reading of a multi-line body up to its terminating dot line,
and the reading of a server's capability list (inflated with `flate2` where
the connection compresses). `app/` holds the connection: TCP and TLS sockets,
buffered reads and writes, and the `Client` and `Stream` types that drive the
library over them.

Modules of `src/`:

- `text`: splitting at a separator as `str::split` does, lines as `str::lines`
  gives them, prefix tests.
- `decimal`: writing and reading unsigned decimal numbers.
- `command`: the commands, and what a status line decides.
- `response`: a reply, its status code, and the numbers of a `GROUP` reply.
- `terminal`: a multi-line body read line by line up to `"\r\n.\r\n"`.
- `capabilities`: the capability list and whether the server can do a thing.
- `error`: the client's errors.
