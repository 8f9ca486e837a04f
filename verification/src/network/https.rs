//! A request over a connection of its own, whose end is the end of the response, and the
//! waiting for a socket.

use vstd::prelude::*;

use crate::network::tls::RESPONSE_TIMEOUT_MS;

verus! {

/// Milliseconds that a socket may take to have bytes.
pub const READ_TIMEOUT_MS: u64 = 30_000;

/// Milliseconds that a socket may take to have room.
pub const WRITE_TIMEOUT_MS: u64 = 10_000;

/// What to do with a socket that is read.
#[derive(Debug, Clone, Copy, PartialEq, Eq, Structural)]
pub enum ReadWait {
    /// It has bytes: take them.
    Receive,
    /// The peer has closed it: there are no more bytes.
    EndOfFile,
    /// It took too long.
    TimedOut,
    /// Look again later.
    Wait,
}

/// What to do with a socket that is read.
pub fn read_wait(can_recv: bool, is_open: bool, now_ms: u64, deadline: u64) -> (r: ReadWait)
    ensures
        r == if can_recv {
            ReadWait::Receive
        } else if !is_open {
            ReadWait::EndOfFile
        } else if now_ms > deadline {
            ReadWait::TimedOut
        } else {
            ReadWait::Wait
        },
{
    if can_recv {
        ReadWait::Receive
    } else if !is_open {
        ReadWait::EndOfFile
    } else if now_ms > deadline {
        ReadWait::TimedOut
    } else {
        ReadWait::Wait
    }
}

/// What to do with a socket that is written.
#[derive(Debug, Clone, Copy, PartialEq, Eq, Structural)]
pub enum WriteWait {
    /// It has room: write.
    Send,
    /// It took too long.
    TimedOut,
    /// Look again later.
    Wait,
}

/// What to do with a socket that is written.
pub fn write_wait(can_send: bool, now_ms: u64, deadline: u64) -> (r: WriteWait)
    ensures
        r == if can_send {
            WriteWait::Send
        } else if now_ms > deadline {
            WriteWait::TimedOut
        } else {
            WriteWait::Wait
        },
{
    if can_send {
        WriteWait::Send
    } else if now_ms > deadline {
        WriteWait::TimedOut
    } else {
        WriteWait::Wait
    }
}

/// Where a request stands.
#[derive(Debug, Clone, Copy, PartialEq, Eq, Structural)]
pub enum PostPhase {
    /// The handshake is under way.
    Opening,
    /// The request is being written.
    Sending,
    /// The request is written and has to be flushed.
    Flushing,
    /// The response is being read.
    Reading,
    /// The response is complete.
    Complete,
    /// The request failed.
    Broken,
}

/// What a request wants done next.
#[derive(Debug, Clone, Copy, PartialEq, Eq, Structural)]
pub enum PostAction {
    Open,
    /// Write the request from the given position on.
    Write(usize),
    Flush,
    Read,
    /// The response is complete.
    Finish,
    Fail(PostError),
}

/// Why a request failed.
#[derive(Debug, Clone, Copy, PartialEq, Eq, Structural)]
pub enum PostError {
    HandshakeFailed,
    WriteFailed,
    ClosedDuringWrite,
    FlushFailed,
    ReadFailed,
}

impl PostError {
    pub open spec fn text(self) -> Seq<char> {
        match self {
            PostError::HandshakeFailed => "TLS handshake failed"@,
            PostError::WriteFailed => "TLS write failed"@,
            PostError::ClosedDuringWrite => "TLS: connection closed during write"@,
            PostError::FlushFailed => "TLS flush failed"@,
            PostError::ReadFailed => "TLS read failed"@,
        }
    }

    pub fn message(self) -> (r: &'static str)
        ensures
            r@ == self.text(),
    {
        match self {
            PostError::HandshakeFailed => "TLS handshake failed",
            PostError::WriteFailed => "TLS write failed",
            PostError::ClosedDuringWrite => "TLS: connection closed during write",
            PostError::FlushFailed => "TLS flush failed",
            PostError::ReadFailed => "TLS read failed",
        }
    }
}

/// A request and its response.
pub struct TlsPost {
    request_len: usize,
    offset: usize,
    data: Vec<u8>,
    deadline: u64,
    phase: PostPhase,
}

/// What a request holds.
#[verifier::ext_equal]
pub struct PostView {
    pub request_len: usize,
    pub offset: usize,
    pub data: Seq<u8>,
    pub deadline: u64,
    pub phase: PostPhase,
}

impl View for TlsPost {
    type V = PostView;

    closed spec fn view(&self) -> PostView {
        PostView {
            request_len: self.request_len,
            offset: self.offset,
            data: self.data@,
            deadline: self.deadline,
            phase: self.phase,
        }
    }
}

impl PostView {
    pub open spec fn broken(self, e: PostError) -> (PostView, PostAction) {
        (PostView { phase: PostPhase::Broken, ..self }, PostAction::Fail(e))
    }

    pub open spec fn complete(self) -> (PostView, PostAction) {
        (PostView { phase: PostPhase::Complete, ..self }, PostAction::Finish)
    }

    /// The request after so many of its bytes are written.
    pub open spec fn at(self, offset: usize) -> (PostView, PostAction) {
        if offset < self.request_len {
            (PostView { offset, phase: PostPhase::Sending, ..self }, PostAction::Write(offset))
        } else {
            (PostView { offset, phase: PostPhase::Flushing, ..self }, PostAction::Flush)
        }
    }

    /// The request after the handshake.
    pub open spec fn opened(self, ok: bool) -> (PostView, PostAction) {
        if ok {
            self.at(0)
        } else {
            self.broken(PostError::HandshakeFailed)
        }
    }

    /// The request after an attempt to write: none where it failed.
    pub open spec fn wrote(self, written: Option<usize>) -> (PostView, PostAction) {
        match written {
            None => self.broken(PostError::WriteFailed),
            Some(n) => if n == 0 {
                self.broken(PostError::ClosedDuringWrite)
            } else {
                self.at((self.offset + n) as usize)
            },
        }
    }

    /// The request after it was flushed; the time for the response begins.
    pub open spec fn flushed(self, ok: bool, now_ms: u64) -> (PostView, PostAction) {
        if ok {
            (
                PostView { deadline: (now_ms + RESPONSE_TIMEOUT_MS) as u64, phase: PostPhase::Reading, ..self },
                PostAction::Read,
            )
        } else {
            self.broken(PostError::FlushFailed)
        }
    }

    /// The request after a read: none where it failed, no bytes where the peer closed
    /// the connection. What has come by then, or by the deadline, is the response; only
    /// a failure before anything came is an error.
    pub open spec fn read(self, bytes: Option<Seq<u8>>, now_ms: u64) -> (PostView, PostAction) {
        match bytes {
            None => if self.data.len() == 0 {
                self.broken(PostError::ReadFailed)
            } else {
                self.complete()
            },
            Some(b) => if b.len() == 0 {
                self.complete()
            } else {
                let more = PostView { data: self.data + b, ..self };
                if now_ms > self.deadline {
                    more.complete()
                } else {
                    (more, PostAction::Read)
                }
            },
        }
    }
}

impl TlsPost {
    /// Begin a request of so many bytes.
    pub fn start(request_len: usize) -> (r: (Self, PostAction))
        ensures
            r.0@ == (PostView {
                request_len,
                offset: 0,
                data: Seq::empty(),
                deadline: 0,
                phase: PostPhase::Opening,
            }),
            r.1 == PostAction::Open,
    {
        (
            TlsPost { request_len, offset: 0, data: Vec::new(), deadline: 0, phase: PostPhase::Opening },
            PostAction::Open,
        )
    }

    fn go_to(&mut self, offset: usize) -> (r: PostAction)
        ensures
            (final(self)@, r) == old(self)@.at(offset),
    {
        self.offset = offset;
        if offset < self.request_len {
            self.phase = PostPhase::Sending;
            PostAction::Write(offset)
        } else {
            self.phase = PostPhase::Flushing;
            PostAction::Flush
        }
    }

    fn fail(&mut self, e: PostError) -> (r: PostAction)
        ensures
            (final(self)@, r) == old(self)@.broken(e),
    {
        self.phase = PostPhase::Broken;
        PostAction::Fail(e)
    }

    /// The handshake was made, or failed.
    pub fn opened(&mut self, ok: bool) -> (r: PostAction)
        requires
            old(self)@.phase == PostPhase::Opening,
        ensures
            (final(self)@, r) == old(self)@.opened(ok),
    {
        if ok {
            self.go_to(0)
        } else {
            self.fail(PostError::HandshakeFailed)
        }
    }

    /// An attempt to write was made: how many bytes were taken, or none where it failed.
    pub fn wrote(&mut self, written: Option<usize>) -> (r: PostAction)
        requires
            old(self)@.phase == PostPhase::Sending,
            written matches Some(n) ==> old(self)@.offset + n <= old(self)@.request_len,
        ensures
            (final(self)@, r) == old(self)@.wrote(written),
    {
        match written {
            None => self.fail(PostError::WriteFailed),
            Some(n) => if n == 0 {
                self.fail(PostError::ClosedDuringWrite)
            } else {
                let offset = self.offset + n;
                self.go_to(offset)
            },
        }
    }

    /// The request was flushed, or could not be.
    pub fn flushed(&mut self, ok: bool, now_ms: u64) -> (r: PostAction)
        requires
            old(self)@.phase == PostPhase::Flushing,
            now_ms + RESPONSE_TIMEOUT_MS <= u64::MAX,
        ensures
            (final(self)@, r) == old(self)@.flushed(ok, now_ms),
    {
        if ok {
            self.deadline = now_ms + RESPONSE_TIMEOUT_MS;
            self.phase = PostPhase::Reading;
            PostAction::Read
        } else {
            self.fail(PostError::FlushFailed)
        }
    }

    /// A read was made: the bytes that came, or none where it failed.
    pub fn read(&mut self, bytes: Option<&[u8]>, now_ms: u64) -> (r: PostAction)
        requires
            old(self)@.phase == PostPhase::Reading,
        ensures
            (final(self)@, r) == old(self)@.read(
                match bytes {
                    Some(b) => Some(b@),
                    None => None,
                },
                now_ms,
            ),
    {
        match bytes {
            None => if self.data.len() == 0 {
                self.fail(PostError::ReadFailed)
            } else {
                self.phase = PostPhase::Complete;
                PostAction::Finish
            },
            Some(b) => {
                if b.len() > 0 {
                    let mut more = vstd::slice::slice_to_vec(b);
                    self.data.append(&mut more);
                    if now_ms <= self.deadline {
                        return PostAction::Read;
                    }
                }
                self.phase = PostPhase::Complete;
                PostAction::Finish
            },
        }
    }

    /// The bytes of the response.
    pub fn data(&self) -> (r: &Vec<u8>)
        ensures
            r@ == self@.data,
    {
        &self.data
    }
}

/// A response never shrinks: what has come stays, in order.
pub proof fn law_response_grows(p: PostView, bytes: Option<Seq<u8>>, now_ms: u64)
    ensures
        p.read(bytes, now_ms).0.data.len() >= p.data.len(),
        p.read(bytes, now_ms).0.data.take(p.data.len() as int) == p.data,
{
    assert(p.data.take(p.data.len() as int) =~= p.data);
    match bytes {
        Some(b) => {
            assert((p.data + b).take(p.data.len() as int) =~= p.data);
        },
        None => {},
    }
}

} // verus!
