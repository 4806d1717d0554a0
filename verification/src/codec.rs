//! Frame codec for the daemon <-> picker-ui Unix socket.
//!
//! Wire format: 4-byte big-endian unsigned length prefix, then the body
//! (UTF-8 JSON, produced and parsed by the two processes). Frames are
//! bounded by [`MAX_FRAME_BYTES`] so a peer cannot stall the daemon by
//! announcing a huge message; empty frames are rejected too.
//!
//! This module frames and unframes bytes; turning a body into a message
//! value (JSON) happens at the process edges.

use vstd::prelude::*;

verus! {

/// Hard cap on a single frame body, in bytes (1 MiB).
pub const MAX_FRAME_BYTES: usize = 1048576;

#[verifier::external_type_specification]
#[verifier::external_body]
pub struct ExSerdeJsonError(serde_json::Error);

/// Why a frame could not be produced or read.
#[derive(Debug)]
pub enum CodecError {
    /// The body is longer than [`MAX_FRAME_BYTES`].
    FrameTooLarge { got: usize },
    /// The body is zero-length.
    EmptyFrame,
    /// The body could not be turned into / read from JSON.
    Serialize(serde_json::Error),
    /// The buffer ends before the frame does.
    Incomplete { need: usize, have: usize },
}

/// Big-endian 4-byte encoding of `n` (for `n < 2^32`).
pub open spec fn be_prefix(n: nat) -> Seq<u8> {
    seq![
        (n / 0x100_0000 % 0x100) as u8,
        (n / 0x1_0000 % 0x100) as u8,
        (n / 0x100 % 0x100) as u8,
        (n % 0x100) as u8,
    ]
}

/// Value of the big-endian length prefix at the front of `buf`.
pub open spec fn prefix_value(buf: Seq<u8>) -> nat
    recommends
        buf.len() >= 4,
{
    (buf[0] as nat) * 0x100_0000 + (buf[1] as nat) * 0x1_0000 + (buf[2] as nat) * 0x100 + (
    buf[3] as nat)
}

/// The frame that carries `body`.
pub open spec fn frame_of(body: Seq<u8>) -> Seq<u8> {
    be_prefix(body.len()) + body
}

/// What reading one frame from the front of a buffer gives.
pub enum FrameParse {
    /// A whole frame: bytes consumed, and the body.
    Frame(nat, Seq<u8>),
    /// More bytes are needed: how many the frame needs in all, how many
    /// there are.
    Incomplete(nat, nat),
    /// The prefix announces an empty body.
    Empty,
    /// The prefix announces a body over the cap.
    TooLarge(nat),
}

/// Reading one frame from the front of `buf`.
pub open spec fn parse_frame(buf: Seq<u8>) -> FrameParse {
    if buf.len() < 4 {
        FrameParse::Incomplete(4, buf.len())
    } else {
        let len = prefix_value(buf);
        if len == 0 {
            FrameParse::Empty
        } else if len > MAX_FRAME_BYTES {
            FrameParse::TooLarge(len)
        } else if buf.len() < 4 + len {
            FrameParse::Incomplete(4 + len, buf.len())
        } else {
            FrameParse::Frame(4 + len, buf.subrange(4, 4 + len as int))
        }
    }
}

/// Whether a `decode_frame` result is the one `parse_frame` describes.
pub open spec fn decoded_as(r: Result<(usize, Vec<u8>), CodecError>, p: FrameParse) -> bool {
    match p {
        FrameParse::Frame(n, body) => r matches Ok((m, b)) && m == n && b@ == body,
        FrameParse::Incomplete(need, have) => r matches Err(CodecError::Incomplete { need: nd, have: hv })
            && nd == need && hv == have,
        FrameParse::Empty => r matches Err(CodecError::EmptyFrame),
        FrameParse::TooLarge(got) => r matches Err(CodecError::FrameTooLarge { got: g }) && g == got,
    }
}

proof fn lemma_prefix_round_trip(n: nat)
    requires
        n < 0x1_0000_0000,
    ensures
        prefix_value(be_prefix(n)) == n,
{
    let b = be_prefix(n);
    let q0 = n / 0x100_0000 % 0x100;
    let q1 = n / 0x1_0000 % 0x100;
    let q2 = n / 0x100 % 0x100;
    let q3 = n % 0x100;
    assert(b[0] as nat == q0 && b[1] as nat == q1 && b[2] as nat == q2 && b[3] as nat == q3);
    assert(q0 * 0x100_0000 + q1 * 0x1_0000 + q2 * 0x100 + q3 == n) by (nonlinear_arith)
        requires
            n < 0x1_0000_0000,
            q0 == n / 0x100_0000 % 0x100,
            q1 == n / 0x1_0000 % 0x100,
            q2 == n / 0x100 % 0x100,
            q3 == n % 0x100,
    ;
}

/// Frame round trip: the frame of a body that `encode_frame` accepts,
/// followed by any further bytes, reads back as exactly that body, and
/// the consumed count covers the frame and nothing after it.
pub proof fn lemma_frame_round_trip(body: Seq<u8>, trailing: Seq<u8>)
    requires
        0 < body.len() <= MAX_FRAME_BYTES,
    ensures
        parse_frame(frame_of(body) + trailing) == FrameParse::Frame(body.len() + 4, body),
        (frame_of(body) + trailing).subrange(
            body.len() + 4int,
            (frame_of(body) + trailing).len() as int,
        ) == trailing,
{
    let buf = frame_of(body) + trailing;
    lemma_prefix_round_trip(body.len());
    assert(prefix_value(buf) == prefix_value(be_prefix(body.len())));
    assert(buf.subrange(4, 4 + body.len() as int) =~= body);
    assert(buf.subrange(body.len() + 4int, buf.len() as int) =~= trailing);
}

/// A complete frame stays the same frame when more bytes arrive after it.
pub proof fn lemma_frame_stable_under_extension(buf: Seq<u8>, more: Seq<u8>)
    requires
        parse_frame(buf) is Frame,
    ensures
        parse_frame(buf + more) == parse_frame(buf),
{
    let ext = buf + more;
    assert(prefix_value(ext) == prefix_value(buf));
    let len = prefix_value(buf);
    assert(ext.subrange(4, 4 + len as int) =~= buf.subrange(4, 4 + len as int));
}

/// A strict prefix of a valid frame reads as `Incomplete`: the reader
/// waits for more bytes and never misreads a partial frame.
pub proof fn lemma_partial_frame_incomplete(body: Seq<u8>, k: nat)
    requires
        0 < body.len() <= MAX_FRAME_BYTES,
        k < body.len() + 4,
    ensures
        parse_frame(frame_of(body).subrange(0, k as int)) is Incomplete,
{
    let f = frame_of(body);
    let p = f.subrange(0, k as int);
    if k >= 4 {
        lemma_prefix_round_trip(body.len());
        assert(prefix_value(p) == prefix_value(f));
        assert(prefix_value(f) == prefix_value(be_prefix(body.len())));
    }
}

/// Wrap `body` in a length-prefixed frame ready to be written to the
/// socket. Empty bodies and bodies over the cap are rejected.
pub fn encode_frame(body: &[u8]) -> (r: Result<Vec<u8>, CodecError>)
    ensures
        body@.len() == 0 ==> r matches Err(CodecError::EmptyFrame),
        body@.len() > MAX_FRAME_BYTES ==> (r matches Err(CodecError::FrameTooLarge { got })
            && got == body@.len()),
        0 < body@.len() <= MAX_FRAME_BYTES ==> (r matches Ok(out) && out@ == frame_of(body@)),
{
    let n = body.len();
    if n == 0 {
        return Err(CodecError::EmptyFrame);
    }
    if n > MAX_FRAME_BYTES {
        return Err(CodecError::FrameTooLarge { got: n });
    }
    let mut out: Vec<u8> = Vec::new();
    out.push((n / 0x100_0000 % 0x100) as u8);
    out.push((n / 0x1_0000 % 0x100) as u8);
    out.push((n / 0x100 % 0x100) as u8);
    out.push((n % 0x100) as u8);
    assert(out@ =~= be_prefix(n as nat));
    let mut i: usize = 0;
    while i < n
        invariant
            n == body@.len(),
            i <= n,
            out@ == be_prefix(n as nat) + body@.subrange(0, i as int),
        decreases n - i,
    {
        out.push(body[i]);
        assert(body@.subrange(0, i + 1) == body@.subrange(0, i as int).push(body@[i as int]));
        i = i + 1;
    }
    assert(body@.subrange(0, n as int) =~= body@);
    Ok(out)
}

/// Try to decode one frame from the front of `buf`.
///
/// On success returns the number of bytes consumed and the body. On
/// `Incomplete` the caller should read more bytes and retry; other
/// errors mean the peer is broken or hostile.
pub fn decode_frame(buf: &[u8]) -> (r: Result<(usize, Vec<u8>), CodecError>)
    ensures
        decoded_as(r, parse_frame(buf@)),
{
    if buf.len() < 4 {
        return Err(CodecError::Incomplete { need: 4, have: buf.len() });
    }
    let len: usize = (buf[0] as usize) * 0x100_0000 + (buf[1] as usize) * 0x1_0000 + (buf[2] as usize)
        * 0x100 + (buf[3] as usize);
    if len == 0 {
        return Err(CodecError::EmptyFrame);
    }
    if len > MAX_FRAME_BYTES {
        return Err(CodecError::FrameTooLarge { got: len });
    }
    if buf.len() < 4 + len {
        return Err(CodecError::Incomplete { need: 4 + len, have: buf.len() });
    }
    let end = 4 + len;
    let mut body: Vec<u8> = Vec::new();
    let mut i: usize = 4;
    while i < end
        invariant
            end == 4 + len,
            end <= buf@.len(),
            4 <= i <= end,
            body@ == buf@.subrange(4, i as int),
        decreases end - i,
    {
        body.push(buf[i]);
        assert(buf@.subrange(4, i + 1) == buf@.subrange(4, i as int).push(buf@[i as int]));
        i = i + 1;
    }
    Ok((end, body))
}

/// Bytes received from a peer that have not been consumed as frames yet.
pub struct FrameBuffer {
    buf: Vec<u8>,
}

impl View for FrameBuffer {
    type V = Seq<u8>;

    closed spec fn view(&self) -> Seq<u8> {
        self.buf@
    }
}

/// Outcome of taking one frame off a [`FrameBuffer`].
#[derive(Debug)]
pub enum FrameStep {
    /// A whole frame was at the front; its body.
    Frame(Vec<u8>),
    /// The front frame is not complete yet; read more bytes.
    NeedMore,
    /// The front of the buffer is not a valid frame.
    Malformed(CodecError),
}

/// What a connection reader does after one step off its frame buffer.
#[derive(Debug, Clone, Copy, PartialEq, Eq)]
pub enum ConnAction {
    /// A message was read: hand it on, then look for the next frame.
    Deliver,
    /// The front frame is not complete: read more bytes from the peer.
    ReadMore,
    /// The peer sent a malformed frame or a body that is not a message:
    /// the rest of the stream cannot be trusted, so drop the connection
    /// (the daemon then answers every pending request `Cancelled`).
    Disconnect,
}

/// The reader's decision for `step`; `body_parsed` tells whether the
/// body of a whole frame was a valid message.
pub fn connection_action(step: &FrameStep, body_parsed: bool) -> (a: ConnAction)
    ensures
        match *step {
            FrameStep::Frame(_) => a == if body_parsed {
                ConnAction::Deliver
            } else {
                ConnAction::Disconnect
            },
            FrameStep::NeedMore => a == ConnAction::ReadMore,
            FrameStep::Malformed(_) => a == ConnAction::Disconnect,
        },
{
    match step {
        FrameStep::Frame(_) => if body_parsed {
            ConnAction::Deliver
        } else {
            ConnAction::Disconnect
        },
        FrameStep::NeedMore => ConnAction::ReadMore,
        FrameStep::Malformed(_) => ConnAction::Disconnect,
    }
}

impl FrameBuffer {
    /// An empty buffer.
    pub fn new() -> (b: FrameBuffer)
        ensures
            b@ == Seq::<u8>::empty(),
    {
        FrameBuffer { buf: Vec::new() }
    }

    /// Append bytes read from the peer.
    pub fn extend(&mut self, bytes: &[u8])
        ensures
            final(self)@ == old(self)@ + bytes@,
    {
        let ghost start = self.buf@;
        let mut i: usize = 0;
        while i < bytes.len()
            invariant
                i <= bytes@.len(),
                self.buf@ == start + bytes@.subrange(0, i as int),
            decreases bytes.len() - i,
        {
            self.buf.push(bytes[i]);
            assert(bytes@.subrange(0, i + 1) == bytes@.subrange(0, i as int).push(bytes@[i as int]));
            i = i + 1;
        }
        assert(bytes@.subrange(0, bytes@.len() as int) =~= bytes@);
    }

    /// Drop everything buffered.
    pub fn clear(&mut self)
        ensures
            final(self)@ == Seq::<u8>::empty(),
    {
        self.buf = Vec::new();
    }

    /// Whether nothing is buffered.
    pub fn is_empty(&self) -> (r: bool)
        ensures
            r == (self@.len() == 0),
    {
        self.buf.len() == 0
    }

    /// Take the frame at the front of the buffer, if it is complete.
    ///
    /// A complete frame is removed and its body returned; an incomplete
    /// one leaves the buffer as it was; a malformed one empties the
    /// buffer, since the rest of the byte stream cannot be trusted.
    pub fn next_frame(&mut self) -> (step: FrameStep)
        ensures
            match parse_frame(old(self)@) {
                FrameParse::Frame(n, body) => step matches FrameStep::Frame(b) && b@ == body
                    && final(self)@ == old(self)@.subrange(n as int, old(self)@.len() as int),
                FrameParse::Incomplete(_, _) => step is NeedMore && final(self)@ == old(self)@,
                FrameParse::Empty => step matches FrameStep::Malformed(CodecError::EmptyFrame)
                    && final(self)@ == Seq::<u8>::empty(),
                FrameParse::TooLarge(got) => step matches FrameStep::Malformed(
                    CodecError::FrameTooLarge { got: g },
                ) && g == got && final(self)@ == Seq::<u8>::empty(),
            },
    {
        match decode_frame(self.buf.as_slice()) {
            Ok((consumed, body)) => {
                let mut rest: Vec<u8> = Vec::new();
                let n = self.buf.len();
                let mut i = consumed;
                while i < n
                    invariant
                        consumed <= i <= n,
                        n == self.buf@.len(),
                        rest@ == self.buf@.subrange(consumed as int, i as int),
                    decreases n - i,
                {
                    rest.push(self.buf[i]);
                    assert(self.buf@.subrange(consumed as int, i + 1) == self.buf@.subrange(
                        consumed as int,
                        i as int,
                    ).push(self.buf@[i as int]));
                    i = i + 1;
                }
                self.buf = rest;
                FrameStep::Frame(body)
            },
            Err(CodecError::Incomplete { .. }) => FrameStep::NeedMore,
            Err(e) => {
                self.buf = Vec::new();
                FrameStep::Malformed(e)
            },
        }
    }
}

} // verus!
