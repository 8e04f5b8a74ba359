//! A connection: the bytes that came, how far the request in them has got,
//! and the bytes of the response that are still to be sent.

use crate::server::cgi::text_of_bytes;
use crate::server::protocol::{reason_phrase, Response, StatusCode, BAD_REQUEST};
use crate::server::requests::{
    chunk_size, chunked, declared_length, is_chunked, parse_chunk_size, read_declared_length,
    read_fields, request_fields, split_once_str,
};
use crate::server::responses::{format_response, reason_text, wire};
use crate::text::{find, find_bytes, lemma_find_from, Capped};
use vstd::prelude::*;
use vstd::slice::{slice_subrange, slice_to_vec};
use vstd::utf8::{decode_utf8, valid_utf8};

verus! {

/// The greatest length of what may come before the head of a request ends.
pub const HEAD_CAP: usize = 65536;

/// The empty line that ends a head.
pub open spec fn blank_line() -> Seq<u8> {
    seq![13u8, 10u8, 13u8, 10u8]
}

/// How far a chunked body has come.
#[derive(Clone, Copy, Debug, PartialEq, Eq, Structural)]
pub enum Frame {
    /// The chunk of size zero came.
    Complete,
    /// More bytes have to come.
    Incomplete,
    /// A size cannot be read, or no line break follows a chunk.
    Malformed,
}

/// How far the chunked body in `data` has come.
pub open spec fn chunk_frame(data: Seq<u8>) -> Frame
    decreases data.len(),
{
    if data.len() == 0 {
        Frame::Incomplete
    } else {
        match find(data, seq![13u8, 10u8]) {
            None => Frame::Incomplete,
            Some(i) => match chunk_size(data.take(i)) {
                None => Frame::Malformed,
                Some(n) => {
                    let rest = data.skip(i + 2);
                    if n == 0 {
                        Frame::Complete
                    } else if rest.len() < n + 2 {
                        Frame::Incomplete
                    } else if rest[n as int] != 13u8 || rest[n as int + 1] != 10u8 {
                        Frame::Malformed
                    } else {
                        proof {
                            lemma_find_from(data, seq![13u8, 10u8], 0);
                        }
                        chunk_frame(rest.skip(n as int + 2))
                    }
                },
            },
        }
    }
}

/// How far the chunked body in `data` has come.
pub fn scan_chunks(data: &[u8]) -> (frame: Frame)
    ensures
        frame == chunk_frame(data@),
{
    let mut remaining: &[u8] = data;
    while remaining.len() > 0
        invariant
            chunk_frame(data@) == chunk_frame(remaining@),
        decreases remaining.len(),
    {
        match split_once_str(remaining, 13, 10) {
            None => {
                return Frame::Incomplete;
            },
            Some((token, rest)) => {
                proof {
                    lemma_find_from(remaining@, seq![13u8, 10u8], 0);
                }
                match parse_chunk_size(token) {
                    None => {
                        return Frame::Malformed;
                    },
                    Some(n) => {
                        if n == 0 {
                            return Frame::Complete;
                        }
                        if rest.len() < 2 || rest.len() - 2 < n {
                            return Frame::Incomplete;
                        }
                        if rest[n] != 13 || rest[n + 1] != 10 {
                            return Frame::Malformed;
                        }
                        let ghost before = remaining@;
                        remaining = slice_subrange(rest, n + 2, rest.len());
                        proof {
                            assert(remaining@ == rest@.skip(n + 2));
                            assert(chunk_frame(before) == chunk_frame(rest@.skip(n + 2)));
                        }
                    },
                }
            },
        }
    }
    Frame::Incomplete
}

/// How far the request in the bytes of a connection has got.
#[derive(Clone, Copy, Debug, PartialEq, Eq, Structural)]
pub enum Progress {
    /// More bytes have to come.
    NeedMore,
    /// The request is whole: take it with `request_parts`.
    Ready,
    /// The request is given up with this status.
    Failed(StatusCode),
}

/// How far the request in `buffer` has got. Its head ends with the first
/// empty line; a head that goes on beyond the cap, or is no text, is a bad
/// request. A chunked body is awaited up to its last chunk, any other body
/// up to its declared length; what cannot be awaited is left to the reading
/// of the request.
pub open spec fn progress(buffer: Seq<u8>, limit: nat) -> Progress {
    match find(buffer, blank_line()) {
        None => if buffer.len() > HEAD_CAP {
            Progress::Failed(StatusCode { code: BAD_REQUEST })
        } else {
            Progress::NeedMore
        },
        Some(i) => if !valid_utf8(buffer.take(i)) {
            Progress::Failed(StatusCode { code: BAD_REQUEST })
        } else {
            let fields = request_fields(decode_utf8(buffer.take(i)));
            let body = buffer.skip(i + 4);
            if chunked(Some(fields)) {
                if chunk_frame(body) == Frame::Incomplete {
                    Progress::NeedMore
                } else {
                    Progress::Ready
                }
            } else {
                match declared_length(fields) {
                    None => Progress::Ready,
                    Some(n) => if n > limit || body.len() >= n {
                        Progress::Ready
                    } else {
                        Progress::NeedMore
                    },
                }
            }
        },
    }
}

/// The head of the request in `buffer` and the bytes that came after it.
pub open spec fn parts(buffer: Seq<u8>) -> Option<(Seq<char>, Seq<u8>)> {
    match find(buffer, blank_line()) {
        Some(i) => if valid_utf8(buffer.take(i)) {
            Some((decode_utf8(buffer.take(i)), buffer.skip(i + 4)))
        } else {
            None
        },
        None => None,
    }
}

/// The states of a connection.
#[derive(Clone, Copy, Debug, PartialEq, Eq, Structural)]
pub enum Phase {
    /// Bytes of a request are read.
    Reading,
    /// Bytes of a response are written.
    Writing,
    /// Nothing more is read or written.
    Closed,
}

/// What came of an attempt to write.
#[derive(Clone, Copy, Debug, PartialEq, Eq, Structural)]
pub enum WriteEvent {
    /// So many bytes were written.
    Wrote(usize),
    /// Nothing can be written now.
    WouldBlock,
    /// The attempt failed.
    Failed,
}

/// What to do after an attempt to write.
#[derive(Clone, Copy, Debug, PartialEq, Eq, Structural)]
pub enum WriteStep {
    /// Write what is still unsent.
    Again,
    /// All is sent, or nothing more is taken: flush and close.
    Flush,
    /// Give up and close.
    Abort,
}

/// A connection.
#[derive(Debug)]
pub struct Connection {
    /// The bytes that came.
    pub buffer: Vec<u8>,
    pub phase: Phase,
    /// The bytes of the response.
    pub pending: Vec<u8>,
    /// How many bytes of the response were sent.
    pub cursor: usize,
}

impl Connection {
    /// No more bytes count as sent than there are.
    pub open spec fn well_formed(self) -> bool {
        self.cursor <= self.pending@.len()
    }

    /// A connection on which nothing came yet.
    pub fn new() -> (c: Connection)
        ensures
            c.well_formed(),
            c.buffer@ == Seq::<u8>::empty(),
            c.pending@ == Seq::<u8>::empty(),
            c.cursor == 0,
            c.phase == Phase::Reading,
    {
        Connection { buffer: Vec::new(), phase: Phase::Reading, pending: Vec::new(), cursor: 0 }
    }

    /// How far the request has got.
    pub fn state(&self, limit: usize) -> (r: Progress)
        ensures
            r == progress(self.buffer@, limit as nat),
    {
        let mut blank: Vec<u8> = Vec::new();
        blank.push(13);
        blank.push(10);
        blank.push(13);
        blank.push(10);
        assert(blank@ == blank_line());
        let data = self.buffer.as_slice();
        match find_bytes(data, blank.as_slice(), 0) {
            None => if data.len() > HEAD_CAP {
                Progress::Failed(StatusCode { code: BAD_REQUEST })
            } else {
                Progress::NeedMore
            },
            Some(i) => {
                let head = slice_subrange(data, 0, i);
                let body = slice_subrange(data, i + 4, data.len());
                proof {
                    assert(head@ == self.buffer@.take(i as int));
                    assert(body@ == self.buffer@.skip(i + 4));
                }
                match text_of_bytes(head) {
                    None => Progress::Failed(StatusCode { code: BAD_REQUEST }),
                    Some(text) => {
                        let (fields, _) = read_fields(text.as_str());
                        if is_chunked(Some(&fields)) {
                            match scan_chunks(body) {
                                Frame::Incomplete => Progress::NeedMore,
                                _ => Progress::Ready,
                            }
                        } else {
                            match read_declared_length(&fields, limit) {
                                Capped::Malformed => Progress::Ready,
                                Capped::Above => Progress::Ready,
                                Capped::Within(n) => if body.len() >= n {
                                    Progress::Ready
                                } else {
                                    Progress::NeedMore
                                },
                            }
                        }
                    },
                }
            },
        }
    }

    /// Takes in bytes that came, and says how far the request has got.
    pub fn received(&mut self, chunk: &[u8], limit: usize) -> (r: Progress)
        requires
            old(self).well_formed(),
        ensures
            final(self).well_formed(),
            final(self).buffer@ == old(self).buffer@ + chunk@,
            final(self).pending@ == old(self).pending@,
            final(self).cursor == old(self).cursor,
            r == progress(final(self).buffer@, limit as nat),
            final(self).phase == if r is Failed {
                Phase::Closed
            } else {
                old(self).phase
            },
    {
        self.buffer.extend_from_slice(chunk);
        let r = self.state(limit);
        match r {
            Progress::Failed(_) => {
                self.phase = Phase::Closed;
            },
            _ => {},
        }
        r
    }

    /// The head of the request and the bytes that came after it; a bad
    /// request where the bytes hold no head. A request that is ready has
    /// its parts.
    pub fn request_parts(&self) -> (r: Result<(String, Vec<u8>), StatusCode>)
        ensures
            match r {
                Ok((head, body)) => parts(self.buffer@) == Some((head@, body@)),
                Err(code) => parts(self.buffer@) is None && code.code == BAD_REQUEST,
            },
            forall|limit: nat| progress(self.buffer@, limit) is Ready ==> r is Ok,
    {
        let mut blank: Vec<u8> = Vec::new();
        blank.push(13);
        blank.push(10);
        blank.push(13);
        blank.push(10);
        assert(blank@ == blank_line());
        let data = self.buffer.as_slice();
        match find_bytes(data, blank.as_slice(), 0) {
            None => Err(StatusCode { code: BAD_REQUEST }),
            Some(i) => {
                let head = slice_subrange(data, 0, i);
                let body = slice_subrange(data, i + 4, data.len());
                proof {
                    assert(head@ == self.buffer@.take(i as int));
                    assert(body@ == self.buffer@.skip(i + 4));
                }
                match text_of_bytes(head) {
                    None => Err(StatusCode { code: BAD_REQUEST }),
                    Some(text) => Ok((text, slice_to_vec(body))),
                }
            },
        }
    }

    /// The bytes of the response that are still to be sent.
    pub open spec fn unsent(self) -> Seq<u8> {
        self.pending@.skip(self.cursor as int)
    }

    /// The bytes of the response that are still to be sent.
    pub fn remaining(&self) -> (r: &[u8])
        requires
            self.well_formed(),
        ensures
            r@ == self.unsent(),
    {
        slice_subrange(self.pending.as_slice(), self.cursor, self.pending.len())
    }
}

/// Queues a response on a connection: its bytes are what is to be sent,
/// and none of them is sent yet.
pub fn serve_response(connection: &mut Connection, response: &Response)
    ensures
        final(connection).well_formed(),
        final(connection).buffer@ == old(connection).buffer@,
        final(connection).pending@ == wire(
            response@,
            reason_text(reason_phrase(response@.status.code)),
        ),
        final(connection).cursor == 0,
        final(connection).phase == Phase::Writing,
{
    connection.pending = format_response(response);
    connection.cursor = 0;
    connection.phase = Phase::Writing;
}

/// The number of bytes that count as sent after an attempt to write.
pub open spec fn advanced(cursor: usize, total: nat, event: WriteEvent) -> nat {
    match event {
        WriteEvent::Wrote(n) => if cursor + n <= total {
            (cursor + n) as nat
        } else {
            total
        },
        _ => cursor as nat,
    }
}

/// What to do after an attempt to write: a failure ends the connection;
/// when nothing was taken, or all is sent, it is flushed and closed; else
/// what is unsent is written again.
pub open spec fn write_step(cursor: usize, total: nat, event: WriteEvent) -> WriteStep {
    match event {
        WriteEvent::Failed => WriteStep::Abort,
        WriteEvent::WouldBlock => WriteStep::Again,
        WriteEvent::Wrote(n) => if n == 0 || advanced(cursor, total, event) == total {
            WriteStep::Flush
        } else {
            WriteStep::Again
        },
    }
}

/// Takes in what came of an attempt to write the unsent bytes.
pub fn written(connection: &mut Connection, event: WriteEvent) -> (step: WriteStep)
    requires
        old(connection).well_formed(),
    ensures
        final(connection).well_formed(),
        final(connection).buffer@ == old(connection).buffer@,
        final(connection).pending@ == old(connection).pending@,
        final(connection).cursor == advanced(
            old(connection).cursor,
            old(connection).pending@.len(),
            event,
        ),
        step == write_step(old(connection).cursor, old(connection).pending@.len(), event),
        final(connection).phase == if step == WriteStep::Again {
            old(connection).phase
        } else {
            Phase::Closed
        },
{
    match event {
        WriteEvent::Failed => {
            connection.phase = Phase::Closed;
            WriteStep::Abort
        },
        WriteEvent::WouldBlock => WriteStep::Again,
        WriteEvent::Wrote(n) => {
            let total: usize = connection.pending.len();
            if n >= total - connection.cursor {
                connection.cursor = total;
            } else {
                connection.cursor = connection.cursor + n;
            }
            if n == 0 || connection.cursor == total {
                connection.phase = Phase::Closed;
                WriteStep::Flush
            } else {
                WriteStep::Again
            }
        },
    }
}

/// The cursor never goes back and never passes the end, and where bytes were
/// written and more are to be written it has moved on and not reached the
/// end.
pub proof fn lemma_write_advances(cursor: usize, total: nat, event: WriteEvent)
    requires
        cursor <= total,
    ensures
        cursor <= advanced(cursor, total, event) <= total,
        event is Wrote && write_step(cursor, total, event) == WriteStep::Again ==> cursor
            < advanced(cursor, total, event) < total,
{
}

} // verus!
