use vstd::prelude::*;

verus! {

/// Type tag of a control frame: the payload is the textual form of a control message.
pub const MSG_TYPE_JSON: u8 = 0;

/// Type tag of a raw-bytes frame: the payload is terminal data.
pub const MSG_TYPE_BYTES: u8 = 1;

/// Largest value accepted in a frame's length prefix (1 MiB).
pub const MAX_FRAME_LEN: u32 = 1048576;

/// The four big-endian bytes of a 32-bit length.
pub open spec fn be32(n: nat) -> Seq<u8> {
    seq![
        ((n / 16777216) % 256) as u8,
        ((n / 65536) % 256) as u8,
        ((n / 256) % 256) as u8,
        (n % 256) as u8,
    ]
}

/// The number that four big-endian bytes stand for.
pub open spec fn be32_value(b: Seq<u8>) -> nat {
    (b[0] as nat) * 16777216 + (b[1] as nat) * 65536 + (b[2] as nat) * 256 + (b[3] as nat)
}

/// The bytes on the wire of a frame with the given tag and payload: the length of the
/// rest of the frame, the tag, the payload.
pub open spec fn frame_of(tag: u8, payload: Seq<u8>) -> Seq<u8> {
    be32((payload.len() + 1) as nat) + seq![tag] + payload
}

/// Why a frame could not be read.
#[derive(PartialEq, Eq, Structural, Clone, Copy, Debug)]
pub enum FrameError {
    /// Fewer bytes than the length prefix announces (or no full prefix).
    Truncated,
    /// More bytes than the length prefix announces.
    TrailingBytes,
    /// The length prefix exceeds the 1 MiB limit; the announced length is kept.
    TooLarge(u32),
    /// The frame has no type tag.
    Empty,
    /// The type tag is neither control nor raw bytes.
    UnknownType(u8),
}

/// What the length prefix says: the announced length, or the error for one over the limit.
pub open spec fn length_spec(prefix: Seq<u8>) -> Result<nat, FrameError> {
    let n = be32_value(prefix);
    if n > MAX_FRAME_LEN as nat {
        Err(FrameError::TooLarge(n as u32))
    } else {
        Ok(n)
    }
}

/// What the body of a frame (the bytes after the length prefix) decodes to.
pub open spec fn body_spec(body: Seq<u8>) -> Result<(u8, Seq<u8>), FrameError> {
    if body.len() == 0 {
        Err(FrameError::Empty)
    } else if body[0] != MSG_TYPE_JSON && body[0] != MSG_TYPE_BYTES {
        Err(FrameError::UnknownType(body[0]))
    } else {
        Ok((body[0], body.subrange(1, body.len() as int)))
    }
}

/// What a complete frame decodes to: its tag and payload, or the first error met.
pub open spec fn decode_spec(f: Seq<u8>) -> Result<(u8, Seq<u8>), FrameError> {
    if f.len() < 4 {
        Err(FrameError::Truncated)
    } else {
        match length_spec(f.subrange(0, 4)) {
            Err(e) => Err(e),
            Ok(n) => if f.len() < 4 + n {
                Err(FrameError::Truncated)
            } else if f.len() > 4 + n {
                Err(FrameError::TrailingBytes)
            } else {
                body_spec(f.subrange(4, f.len() as int))
            },
        }
    }
}

/// A frame of the wire protocol.
#[derive(Debug, Clone)]
pub enum ProtocolMessage {
    /// A control frame, carrying the UTF-8 text of a control message.
    Json(Vec<u8>),
    /// A raw-bytes frame, carrying terminal data.
    Bytes(Vec<u8>),
}

impl ProtocolMessage {
    pub open spec fn tag(&self) -> u8 {
        match self {
            ProtocolMessage::Json(_) => MSG_TYPE_JSON,
            ProtocolMessage::Bytes(_) => MSG_TYPE_BYTES,
        }
    }

    pub open spec fn payload(&self) -> Seq<u8> {
        match self {
            ProtocolMessage::Json(p) => p@,
            ProtocolMessage::Bytes(p) => p@,
        }
    }

    /// Serializes the frame: big-endian length prefix, type tag, payload.
    pub fn to_bytes(&self) -> (r: Vec<u8>)
        requires
            self.payload().len() < u32::MAX,
        ensures
            r@ == frame_of(self.tag(), self.payload()),
    {
        match self {
            ProtocolMessage::Json(p) => encode_frame(MSG_TYPE_JSON, p.as_slice()),
            ProtocolMessage::Bytes(p) => encode_frame(MSG_TYPE_BYTES, p.as_slice()),
        }
    }

    /// Decodes the body of a frame (the bytes after the length prefix).
    pub fn from_bytes(data: &[u8]) -> (r: Result<ProtocolMessage, FrameError>)
        ensures
            match r {
                Ok(m) => body_spec(data@) == Ok::<(u8, Seq<u8>), FrameError>((m.tag(), m.payload())),
                Err(e) => body_spec(data@) == Err::<(u8, Seq<u8>), FrameError>(e),
            },
    {
        if data.len() == 0 {
            return Err(FrameError::Empty);
        }
        let tag = data[0];
        if tag != MSG_TYPE_JSON && tag != MSG_TYPE_BYTES {
            return Err(FrameError::UnknownType(tag));
        }
        let payload = copy_range(data, 1, data.len());
        if tag == MSG_TYPE_JSON {
            Ok(ProtocolMessage::Json(payload))
        } else {
            Ok(ProtocolMessage::Bytes(payload))
        }
    }
}

/// Copies `data[start..end]` into a new vector.
pub fn copy_range(data: &[u8], start: usize, end: usize) -> (r: Vec<u8>)
    requires
        start <= end <= data@.len(),
    ensures
        r@ == data@.subrange(start as int, end as int),
{
    let mut r: Vec<u8> = Vec::new();
    let mut i: usize = start;
    while i < end
        invariant
            start <= i <= end <= data@.len(),
            r@ == data@.subrange(start as int, i as int),
        decreases end - i,
    {
        r.push(data[i]);
        i = i + 1;
    }
    r
}

/// Serializes a frame with the given tag and payload.
pub fn encode_frame(tag: u8, payload: &[u8]) -> (r: Vec<u8>)
    requires
        payload@.len() < u32::MAX,
    ensures
        r@ == frame_of(tag, payload@),
{
    let n: u32 = (payload.len() + 1) as u32;
    let mut r: Vec<u8> = Vec::new();
    r.push(((n / 16777216) % 256) as u8);
    r.push(((n / 65536) % 256) as u8);
    r.push(((n / 256) % 256) as u8);
    r.push((n % 256) as u8);
    r.push(tag);
    let mut i: usize = 0;
    while i < payload.len()
        invariant
            i <= payload@.len(),
            n == payload@.len() + 1,
            r@ == be32(n as nat) + seq![tag] + payload@.subrange(0, i as int),
        decreases payload@.len() - i,
    {
        r.push(payload[i]);
        i = i + 1;
        assert(r@ =~= be32(n as nat) + seq![tag] + payload@.subrange(0, i as int));
    }
    assert(payload@.subrange(0, payload@.len() as int) =~= payload@);
    r
}

/// Reads the length prefix of a frame, rejecting one over the 1 MiB limit before any
/// payload byte is read.
pub fn frame_length(prefix: [u8; 4]) -> (r: Result<usize, FrameError>)
    ensures
        match r {
            Ok(n) => length_spec(prefix@) == Ok::<nat, FrameError>(n as nat),
            Err(e) => length_spec(prefix@) == Err::<nat, FrameError>(e),
        },
{
    let n: u32 = (prefix[0] as u32) * 16777216 + (prefix[1] as u32) * 65536 + (prefix[2] as u32)
        * 256 + (prefix[3] as u32);
    if n > MAX_FRAME_LEN {
        Err(FrameError::TooLarge(n))
    } else {
        Ok(n as usize)
    }
}

/// Decodes one complete frame: length prefix, type tag and payload, with nothing after it.
pub fn decode_frame(f: &[u8]) -> (r: Result<ProtocolMessage, FrameError>)
    ensures
        match r {
            Ok(m) => decode_spec(f@) == Ok::<(u8, Seq<u8>), FrameError>((m.tag(), m.payload())),
            Err(e) => decode_spec(f@) == Err::<(u8, Seq<u8>), FrameError>(e),
        },
{
    if f.len() < 4 {
        return Err(FrameError::Truncated);
    }
    let prefix: [u8; 4] = [f[0], f[1], f[2], f[3]];
    assert(prefix@ =~= f@.subrange(0, 4));
    let n = match frame_length(prefix) {
        Err(e) => {
            return Err(e);
        },
        Ok(n) => n,
    };
    if f.len() - 4 < n {
        return Err(FrameError::Truncated);
    }
    if f.len() - 4 > n {
        return Err(FrameError::TrailingBytes);
    }
    let body = copy_range(f, 4, f.len());
    ProtocolMessage::from_bytes(body.as_slice())
}

proof fn lemma_be32_round_trip(n: nat)
    requires
        n <= u32::MAX,
    ensures
        be32(n).len() == 4,
        be32_value(be32(n)) == n,
{
    let b = be32(n);
    assert(b[0] as nat == (n / 16777216) % 256);
    assert(b[1] as nat == (n / 65536) % 256);
    assert(b[2] as nat == (n / 256) % 256);
    assert(b[3] as nat == n % 256);
    assert(be32_value(b) == n) by (nonlinear_arith)
        requires
            n <= 0xffff_ffff,
            be32_value(b) == ((n / 16777216) % 256) * 16777216 + ((n / 65536) % 256) * 65536 + ((n
                / 256) % 256) * 256 + n % 256,
    ;
}

proof fn lemma_be32_of_value(b: Seq<u8>)
    requires
        b.len() == 4,
    ensures
        be32(be32_value(b)) == b,
{
    let n = be32_value(b);
    let (b0, b1, b2, b3) = (b[0] as nat, b[1] as nat, b[2] as nat, b[3] as nat);
    assert((n / 16777216) % 256 == b0 && (n / 65536) % 256 == b1 && (n / 256) % 256 == b2 && n
        % 256 == b3) by (nonlinear_arith)
        requires
            n == b0 * 16777216 + b1 * 65536 + b2 * 256 + b3,
            b0 < 256,
            b1 < 256,
            b2 < 256,
            b3 < 256,
    ;
    assert(be32(n) =~= b);
}

/// Decoding what was encoded gives back the tag and payload: a frame sent is the frame
/// received, for every payload within the size limit.
pub proof fn lemma_decode_encode(tag: u8, payload: Seq<u8>)
    requires
        tag == MSG_TYPE_JSON || tag == MSG_TYPE_BYTES,
        payload.len() + 1 <= MAX_FRAME_LEN,
    ensures
        decode_spec(frame_of(tag, payload)) == Ok::<(u8, Seq<u8>), FrameError>((tag, payload)),
{
    let f = frame_of(tag, payload);
    let n = (payload.len() + 1) as nat;
    lemma_be32_round_trip(n);
    assert(f.subrange(0, 4) =~= be32(n));
    let body = f.subrange(4, f.len() as int);
    assert(body =~= seq![tag] + payload);
    assert(body.subrange(1, body.len() as int) =~= payload);
}

/// Encoding what was decoded gives back the frame: every well-formed frame is exactly
/// the encoding of its tag and payload.
pub proof fn lemma_encode_decode(f: Seq<u8>)
    requires
        decode_spec(f) is Ok,
    ensures
        frame_of(decode_spec(f)->Ok_0.0, decode_spec(f)->Ok_0.1) == f,
{
    let (tag, payload) = decode_spec(f)->Ok_0;
    lemma_be32_of_value(f.subrange(0, 4));
    let n = be32_value(f.subrange(0, 4));
    assert(n == payload.len() + 1);
    assert(frame_of(tag, payload) =~= f);
}

} // verus!
