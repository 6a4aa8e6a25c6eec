//! The wire format between server and bots: a version byte, a big-endian length, a payload.
use vstd::prelude::*;

verus! {

pub const PROTOCOL_VERSION: u8 = 1;

/// 1MB default
pub const MAX_MESSAGE_SIZE: u32 = 1048576;

/// Why a message could not be written or read.
#[derive(Debug, Clone, PartialEq, Eq)]
pub enum ProtocolError {
    /// The stream failed, with its message.
    Io(String),
    /// The payload could not be turned into a message or back, with the reason.
    Serialization(String),
    VersionMismatch { expected: u8, actual: u8 },
    MessageTooLarge { size: u32 },
}

/// The four bytes of `v`, most significant first.
pub open spec fn be_bytes(v: u32) -> Seq<u8> {
    seq![
        (v / 0x1000000) as u8,
        ((v / 0x10000) % 0x100) as u8,
        ((v / 0x100) % 0x100) as u8,
        (v % 0x100) as u8,
    ]
}

/// The number four bytes stand for, most significant first.
pub open spec fn be_value(b0: u8, b1: u8, b2: u8, b3: u8) -> u32 {
    (b0 * 0x1000000 + b1 * 0x10000 + b2 * 0x100 + b3) as u32
}

/// The frame of `payload`: the version, the payload's length (as a `u32`) and the payload.
pub open spec fn frame_of(payload: Seq<u8>) -> Seq<u8> {
    seq![PROTOCOL_VERSION] + be_bytes(payload.len() as u32) + payload
}

/// What a reader finds in `bytes`, in the order it reads them.
pub enum FrameCheck {
    /// The bytes end before the frame does.
    Short,
    /// The frame has another version.
    BadVersion(u8),
    /// The frame announces a payload longer than allowed.
    TooLarge(u32),
    /// The frame holds a payload of this length after its header.
    Payload(u32),
}

pub open spec fn header_len(bytes: Seq<u8>) -> u32 {
    be_value(bytes[1], bytes[2], bytes[3], bytes[4])
}

pub open spec fn check_frame(bytes: Seq<u8>) -> FrameCheck {
    if bytes.len() < 1 {
        FrameCheck::Short
    } else if bytes[0] != PROTOCOL_VERSION {
        FrameCheck::BadVersion(bytes[0])
    } else if bytes.len() < 5 {
        FrameCheck::Short
    } else if header_len(bytes) > MAX_MESSAGE_SIZE {
        FrameCheck::TooLarge(header_len(bytes))
    } else if bytes.len() < 5 + header_len(bytes) {
        FrameCheck::Short
    } else {
        FrameCheck::Payload(header_len(bytes))
    }
}

/// `r` is what reading finds `c`: the error for each failure, the payload on success.
pub open spec fn read_result(bytes: Seq<u8>, c: FrameCheck, r: Result<Vec<u8>, ProtocolError>) -> bool {
    match c {
        FrameCheck::Short => r matches Err(ProtocolError::Io(m)) && m@
            == "failed to fill whole buffer"@,
        FrameCheck::BadVersion(v) => r matches Err(ProtocolError::VersionMismatch { expected, actual })
            && expected == PROTOCOL_VERSION && actual == v,
        FrameCheck::TooLarge(n) => r matches Err(ProtocolError::MessageTooLarge { size }) && size
            == n,
        FrameCheck::Payload(n) => r matches Ok(p) && p@ == bytes.subrange(5, 5 + n),
    }
}

proof fn lemma_be(v: u32)
    ensures
        (v >> 24u32) as u8 == (v / 0x1000000) as u8,
        (v >> 16u32) as u8 == ((v / 0x10000) % 0x100) as u8,
        (v >> 8u32) as u8 == ((v / 0x100) % 0x100) as u8,
        v as u8 == (v % 0x100) as u8,
        be_value(
            (v / 0x1000000) as u8,
            ((v / 0x10000) % 0x100) as u8,
            ((v / 0x100) % 0x100) as u8,
            (v % 0x100) as u8,
        ) == v,
{
    assert((v >> 24u32) == v / 0x1000000u32) by (bit_vector);
    assert((v >> 16u32) & 0xffu32 == (v / 0x10000u32) % 0x100u32) by (bit_vector);
    assert((v >> 8u32) & 0xffu32 == (v / 0x100u32) % 0x100u32) by (bit_vector);
    assert(v & 0xffu32 == v % 0x100u32) by (bit_vector);
    assert(((v >> 16u32) as u8) == (((v >> 16u32) & 0xffu32) as u8)) by (bit_vector);
    assert(((v >> 8u32) as u8) == (((v >> 8u32) & 0xffu32) as u8)) by (bit_vector);
    assert((v as u8) == ((v & 0xffu32) as u8)) by (bit_vector);
    let q0 = v / 0x1000000;
    let q1 = (v / 0x10000) % 0x100;
    let q2 = (v / 0x100) % 0x100;
    let q3 = v % 0x100;
    assert(q0 * 0x1000000 + q1 * 0x10000 + q2 * 0x100 + q3 == v) by (nonlinear_arith)
        requires
            q0 == v / 0x1000000,
            q1 == (v / 0x10000) % 0x100,
            q2 == (v / 0x100) % 0x100,
            q3 == v % 0x100,
            0 <= v,
    ;
}

/// The unit that reads and writes frames.
pub struct Protocol;

impl Protocol {
    /// The frame carrying `payload`; a payload longer than allowed is refused.
    pub fn write_frame(payload: &[u8]) -> (r: Result<Vec<u8>, ProtocolError>)
        ensures
            (payload@.len() as u32) > MAX_MESSAGE_SIZE ==> r == Err::<Vec<u8>, ProtocolError>(
                ProtocolError::MessageTooLarge { size: payload@.len() as u32 },
            ),
            (payload@.len() as u32) <= MAX_MESSAGE_SIZE ==> (r matches Ok(f) && f@ == frame_of(
                payload@,
            )),
    {
        #[verifier::truncate]
        let len = payload.len() as u32;
        if len > MAX_MESSAGE_SIZE {
            return Err(ProtocolError::MessageTooLarge { size: len });
        }
        let mut out: Vec<u8> = Vec::new();
        out.push(PROTOCOL_VERSION);
        out.push((len >> 24u32) as u8);
        out.push((len >> 16u32) as u8);
        out.push((len >> 8u32) as u8);
        out.push(len as u8);
        proof {
            lemma_be(len);
            assert(out@ =~= seq![PROTOCOL_VERSION] + be_bytes(len));
        }
        let ghost head = out@;
        let mut i: usize = 0;
        while i < payload.len()
            invariant
                i <= payload@.len(),
                out@ == head + payload@.take(i as int),
            decreases payload@.len() - i,
        {
            out.push(payload[i]);
            proof {
                assert(out@ =~= head + payload@.take(i as int + 1));
            }
            i = i + 1;
        }
        proof {
            assert(payload@.take(payload@.len() as int) =~= payload@);
        }
        Ok(out)
    }

    /// The payload length a frame header announces, after checking its version and size.
    pub fn read_header(header: &[u8; 5]) -> (r: Result<u32, ProtocolError>)
        ensures
            header@[0] != PROTOCOL_VERSION ==> r == Err::<u32, ProtocolError>(
                ProtocolError::VersionMismatch { expected: PROTOCOL_VERSION, actual: header@[0] },
            ),
            header@[0] == PROTOCOL_VERSION && header_len(header@) > MAX_MESSAGE_SIZE ==> r == Err::<
                u32,
                ProtocolError,
            >(ProtocolError::MessageTooLarge { size: header_len(header@) }),
            header@[0] == PROTOCOL_VERSION && header_len(header@) <= MAX_MESSAGE_SIZE ==> r == Ok::<
                u32,
                ProtocolError,
            >(header_len(header@)),
    {
        if header[0] != PROTOCOL_VERSION {
            return Err(
                ProtocolError::VersionMismatch { expected: PROTOCOL_VERSION, actual: header[0] },
            );
        }
        let len = (header[1] as u32) * 0x1000000 + (header[2] as u32) * 0x10000 + (header[3] as u32)
            * 0x100 + (header[4] as u32);
        if len > MAX_MESSAGE_SIZE {
            return Err(ProtocolError::MessageTooLarge { size: len });
        }
        Ok(len)
    }

    /// The payload of the frame at the start of `bytes`, or the error a reader would meet.
    pub fn read_frame(bytes: &[u8]) -> (r: Result<Vec<u8>, ProtocolError>)
        ensures
            read_result(bytes@, check_frame(bytes@), r),
    {
        if bytes.len() < 1 {
            return Err(ProtocolError::Io(String::from_str("failed to fill whole buffer")));
        }
        if bytes[0] != PROTOCOL_VERSION {
            return Err(
                ProtocolError::VersionMismatch { expected: PROTOCOL_VERSION, actual: bytes[0] },
            );
        }
        if bytes.len() < 5 {
            return Err(ProtocolError::Io(String::from_str("failed to fill whole buffer")));
        }
        let header: [u8; 5] = [bytes[0], bytes[1], bytes[2], bytes[3], bytes[4]];
        proof {
            assert(header@[1] == bytes@[1] && header@[2] == bytes@[2] && header@[3] == bytes@[3]
                && header@[4] == bytes@[4]);
        }
        let len = match Self::read_header(&header) {
            Ok(len) => len,
            Err(e) => {
                return Err(e);
            },
        };
        if bytes.len() - 5 < len as usize {
            return Err(ProtocolError::Io(String::from_str("failed to fill whole buffer")));
        }
        let mut data: Vec<u8> = Vec::new();
        let blen = bytes.len();
        let mut i: usize = 0;
        while i < len as usize
            invariant
                i <= len,
                blen == bytes@.len(),
                5 + len <= bytes@.len(),
                data@ == bytes@.subrange(5, 5 + i),
            decreases len - i,
        {
            data.push(bytes[5 + i]);
            proof {
                assert(data@ =~= bytes@.subrange(5, 5 + i + 1));
            }
            i = i + 1;
        }
        Ok(data)
    }
}

/// Reading the frame written for a payload gives the payload back.
pub proof fn lemma_frame_roundtrip(payload: Seq<u8>)
    requires
        payload.len() <= MAX_MESSAGE_SIZE,
    ensures
        check_frame(frame_of(payload)) == FrameCheck::Payload(payload.len() as u32),
        frame_of(payload).subrange(5, 5 + payload.len() as int) == payload,
{
    let f = frame_of(payload);
    let v = payload.len() as u32;
    lemma_be(v);
    assert(f[1] == (v / 0x1000000) as u8);
    assert(f[2] == ((v / 0x10000) % 0x100) as u8);
    assert(f[3] == ((v / 0x100) % 0x100) as u8);
    assert(f[4] == (v % 0x100) as u8);
    assert(header_len(f) == v);
    assert(f.subrange(5, 5 + payload.len() as int) =~= payload);
}

/// Connecting gave up or timed out, or a message failed.
#[derive(Debug)]
pub enum ConnectionError {
    Protocol(ProtocolError),
    /// The stream failed, with its message.
    Io(String),
    MaxRetriesExceeded { attempts: u32 },
    /// The operation took longer than allowed, in milliseconds.
    Timeout { duration_ms: u64 },
}

} // verus!
