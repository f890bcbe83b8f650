//! The wire format: every message travels as an eight-byte little-endian
//! length followed by that many bytes of payload.

use vstd::prelude::*;
use vstd::bytes::{
    lemma_auto_spec_u64_to_from_le_bytes, spec_u64_from_le_bytes, spec_u64_to_le_bytes,
};

verus! {

/// The number of bytes of the length prefix.
pub const HEADER_LEN: usize = 8;

/// Why a message could not be framed or read. Each is fatal to the
/// connection on which it occurs, and to nothing else.
#[derive(Debug, Clone, Copy, PartialEq, Eq, Structural)]
pub enum FrameError {
    /// The encoder did not produce a length prefix.
    Encode,
    /// The length prefix is not eight bytes, or the decoder refused it.
    Header,
    /// The announced length does not fit into memory.
    TooLong,
    /// The bytes end before the announced payload does.
    Truncated,
    /// The peer closed the stream.
    Closed,
}

/// The error type of the `bincode` crate. Nothing is known of a value of it.
#[verifier::external_type_specification]
#[verifier::external_body]
pub struct ExErrorKind(bincode::ErrorKind);

/// The frame of a payload: its length as eight little-endian bytes, then the
/// payload itself.
pub open spec fn frame_of(payload: Seq<u8>) -> Seq<u8> {
    spec_u64_to_le_bytes(payload.len() as u64) + payload
}

/// The payload length that the first eight bytes announce.
pub open spec fn announced(bytes: Seq<u8>) -> nat {
    spec_u64_from_le_bytes(bytes.subrange(0, HEADER_LEN as int)) as nat
}

/// Whether `bytes` start with a whole frame.
pub open spec fn complete(bytes: Seq<u8>) -> bool {
    bytes.len() >= HEADER_LEN && bytes.len() - HEADER_LEN >= announced(bytes)
}

/// The payload of the frame that `bytes` start with.
pub open spec fn payload_of(bytes: Seq<u8>) -> Seq<u8> {
    bytes.subrange(HEADER_LEN as int, HEADER_LEN + announced(bytes))
}

/// What follows the frame that `bytes` start with.
pub open spec fn rest_of(bytes: Seq<u8>) -> Seq<u8> {
    bytes.subrange(HEADER_LEN + announced(bytes), bytes.len() as int)
}

/// Calls `bincode::serialize` on a `u64`. With the configuration of that
/// function (integers of fixed width, little-endian) a `u64` becomes its
/// eight bytes, lowest first. The call succeeds: the size is counted under
/// a limit that refuses nothing, and the bytes go into a vector.
#[verifier::external_body]
fn encode_length(len: u64) -> (r: Result<Vec<u8>, Box<bincode::ErrorKind>>)
    ensures
        match r {
            Ok(b) => b@ == spec_u64_to_le_bytes(len),
            Err(_) => false,
        },
{
    bincode::serialize(&len)
}

/// Calls `bincode::deserialize` for a `u64`, which reads the first eight
/// bytes as a little-endian number and ignores what follows them. It fails
/// on fewer than eight bytes, and on nothing else: the reader of a slice
/// refuses only when fewer bytes remain than are asked for.
#[verifier::external_body]
fn decode_length(header: &[u8]) -> (r: Result<u64, Box<bincode::ErrorKind>>)
    ensures
        match r {
            Ok(v) => header@.len() >= HEADER_LEN && v == spec_u64_from_le_bytes(
                header@.subrange(0, HEADER_LEN as int),
            ),
            Err(_) => header@.len() < HEADER_LEN,
        },
{
    bincode::deserialize(header)
}

/// Appends the bytes of `more` to `out`.
fn append(out: &mut Vec<u8>, more: &[u8])
    ensures
        final(out)@ == old(out)@ + more@,
{
    let mut k: usize = 0;
    assert(out@ =~= old(out)@ + more@.take(0));
    while k < more.len()
        invariant
            k <= more.len(),
            out@ == old(out)@ + more@.take(k as int),
        decreases more.len() - k,
    {
        out.push(more[k]);
        assert(more@.take(k as int + 1) =~= more@.take(k as int).push(more@[k as int]));
        assert(out@ =~= old(out)@ + more@.take(k as int + 1));
        k += 1;
    }
    assert(more@.take(more.len() as int) =~= more@);
}

/// Puts an encoded length prefix in front of a payload. A prefix that the
/// encoder did not produce gives [`FrameError::Encode`].
pub fn frame_with(prefix: Result<Vec<u8>, Box<bincode::ErrorKind>>, payload: &[u8]) -> (r: Result<
    Vec<u8>,
    FrameError,
>)
    ensures
        match prefix {
            Ok(b) => r matches Ok(bytes) && bytes@ == b@ + payload@,
            Err(_) => r == Err::<Vec<u8>, FrameError>(FrameError::Encode),
        },
{
    match prefix {
        Ok(b) => {
            let mut bytes = b;
            append(&mut bytes, payload);
            Ok(bytes)
        },
        Err(_) => Err(FrameError::Encode),
    }
}

/// Frames a payload for the wire. Every payload can be framed.
pub fn frame(payload: &[u8]) -> (r: Result<Vec<u8>, FrameError>)
    ensures
        r matches Ok(bytes) && bytes@ == frame_of(payload@),
{
    frame_with(encode_length(payload.len() as u64), payload)
}

/// Turns a decoded length prefix into a payload length. A prefix that the
/// decoder refused gives [`FrameError::Header`], a length beyond `usize`
/// gives [`FrameError::TooLong`].
pub fn length_from(decoded: Result<u64, Box<bincode::ErrorKind>>) -> (r: Result<usize, FrameError>)
    ensures
        match decoded {
            Ok(v) => r == (if v <= usize::MAX {
                Ok::<usize, FrameError>(v as usize)
            } else {
                Err::<usize, FrameError>(FrameError::TooLong)
            }),
            Err(_) => r == Err::<usize, FrameError>(FrameError::Header),
        },
{
    match decoded {
        Ok(v) => {
            if v <= usize::MAX as u64 {
                Ok(v as usize)
            } else {
                Err(FrameError::TooLong)
            }
        },
        Err(_) => Err(FrameError::Header),
    }
}

/// The payload length that a length prefix announces, if there is one.
pub open spec fn length_of(header: Seq<u8>) -> Result<usize, FrameError> {
    if header.len() != HEADER_LEN {
        Err(FrameError::Header)
    } else if announced(header) > usize::MAX {
        Err(FrameError::TooLong)
    } else {
        Ok(announced(header) as usize)
    }
}

/// Reads the payload length from a length prefix. A prefix that is not
/// exactly eight bytes gives [`FrameError::Header`], a length beyond
/// `usize` gives [`FrameError::TooLong`], and every other prefix gives the
/// length that it announces.
pub fn read_length(header: &[u8]) -> (r: Result<usize, FrameError>)
    ensures
        r == length_of(header@),
{
    if header.len() != HEADER_LEN {
        return Err(FrameError::Header);
    }
    length_from(decode_length(header))
}

/// Takes the payload of `length` bytes that follows the length prefix in
/// `bytes`, and says how many bytes the frame took in all.
pub fn take_payload(bytes: &[u8], length: usize) -> (r: Result<(Vec<u8>, usize), FrameError>)
    ensures
        match r {
            Ok((payload, used)) => {
                &&& bytes@.len() >= HEADER_LEN + length
                &&& used == HEADER_LEN + length
                &&& payload@ == bytes@.subrange(HEADER_LEN as int, HEADER_LEN + length)
            },
            Err(e) => e == FrameError::Truncated && bytes@.len() < HEADER_LEN + length,
        },
{
    if bytes.len() < HEADER_LEN || bytes.len() - HEADER_LEN < length {
        return Err(FrameError::Truncated);
    }
    let mut payload: Vec<u8> = Vec::new();
    let mut k: usize = 0;
    while k < length
        invariant
            k <= length,
            HEADER_LEN + length <= usize::MAX,
            bytes@.len() >= HEADER_LEN + length,
            payload@ == bytes@.subrange(HEADER_LEN as int, HEADER_LEN + k),
        decreases length - k,
    {
        payload.push(bytes[HEADER_LEN + k]);
        assert(bytes@.subrange(HEADER_LEN as int, HEADER_LEN + k + 1) =~= bytes@.subrange(
            HEADER_LEN as int,
            HEADER_LEN + k,
        ).push(bytes@[HEADER_LEN + k]));
        k += 1;
    }
    Ok((payload, HEADER_LEN + length))
}

/// Splits the first frame off a buffer: gives its payload and the number
/// of bytes that the frame took. It succeeds exactly when the buffer
/// starts with a whole frame. A buffer that ends before its frame does
/// gives [`FrameError::Truncated`], unless its prefix is whole and
/// announces a length beyond `usize`, which gives [`FrameError::TooLong`].
pub fn split_frame(bytes: &[u8]) -> (r: Result<(Vec<u8>, usize), FrameError>)
    ensures
        match r {
            Ok((payload, used)) => {
                &&& complete(bytes@)
                &&& payload@ == payload_of(bytes@)
                &&& used == HEADER_LEN + announced(bytes@)
            },
            Err(e) => {
                &&& !complete(bytes@)
                &&& e == if bytes@.len() >= HEADER_LEN && announced(bytes@) > usize::MAX {
                    FrameError::TooLong
                } else {
                    FrameError::Truncated
                }
            },
        },
{
    if bytes.len() < HEADER_LEN {
        return Err(FrameError::Truncated);
    }
    let header = vstd::slice::slice_subrange(bytes, 0, HEADER_LEN);
    assert(header@.subrange(0, HEADER_LEN as int) =~= header@);
    match read_length(header) {
        Ok(length) => take_payload(bytes, length),
        Err(e) => Err(e),
    }
}

/// A frame that is read back gives the payload that was framed, byte for
/// byte, and leaves what followed the frame.
pub proof fn law_frame_round_trip(payload: Seq<u8>, rest: Seq<u8>)
    requires
        payload.len() <= u64::MAX,
    ensures
        complete(frame_of(payload) + rest),
        payload_of(frame_of(payload) + rest) == payload,
        rest_of(frame_of(payload) + rest) == rest,
        frame_of(payload).len() == HEADER_LEN + payload.len(),
{
    lemma_auto_spec_u64_to_from_le_bytes();
    let prefix = spec_u64_to_le_bytes(payload.len() as u64);
    let bytes = frame_of(payload) + rest;
    assert(bytes.subrange(0, HEADER_LEN as int) =~= prefix);
    assert(payload_of(bytes) =~= payload);
    assert(rest_of(bytes) =~= rest);
}

/// How many bytes a reader that has `received` the start of a frame still
/// needs: the rest of the length prefix first, then the rest of the payload.
pub open spec fn missing(received: Seq<u8>) -> int {
    if received.len() < HEADER_LEN {
        HEADER_LEN - received.len()
    } else {
        HEADER_LEN + announced(received) - received.len()
    }
}

/// However a frame is cut into pieces, a reader that has received its
/// first `n` bytes is missing exactly the rest of it: the frame is whole
/// when nothing is missing, and not before.
pub proof fn law_reader_follows_frame(payload: Seq<u8>, n: int)
    requires
        payload.len() <= u64::MAX,
        0 <= n <= frame_of(payload).len(),
    ensures
        n < HEADER_LEN ==> missing(frame_of(payload).take(n)) == HEADER_LEN - n,
        n >= HEADER_LEN ==> missing(frame_of(payload).take(n)) == frame_of(payload).len() - n,
        missing(frame_of(payload).take(n)) == 0 <==> n == frame_of(payload).len(),
        n == frame_of(payload).len() ==> payload_of(frame_of(payload).take(n)) == payload,
{
    lemma_auto_spec_u64_to_from_le_bytes();
    let whole = frame_of(payload);
    let received = whole.take(n);
    let prefix = spec_u64_to_le_bytes(payload.len() as u64);
    if n >= HEADER_LEN {
        assert(received.subrange(0, HEADER_LEN as int) =~= prefix);
    }
    if n == whole.len() {
        assert(received =~= whole);
        law_frame_round_trip(payload, Seq::empty());
        assert(whole + Seq::<u8>::empty() =~= whole);
    }
}

/// Reads frames from a stream that delivers its bytes in pieces of any
/// size. The reader asks for the bytes that are missing, takes what the
/// stream gives, and hands out each payload when its last byte has come.
pub struct FrameReader {
    header: Vec<u8>,
    expected: Option<usize>,
    payload: Vec<u8>,
}

impl View for FrameReader {
    type V = Seq<u8>;

    /// The bytes received of the frame that is being read.
    closed spec fn view(&self) -> Seq<u8> {
        self.header@ + self.payload@
    }
}

impl FrameReader {
    /// While the length prefix is incomplete there is no payload; once it is
    /// complete, the expected length is the one it announces, and the payload
    /// is still short of it.
    #[verifier::type_invariant]
    spec fn well_formed(&self) -> bool {
        match self.expected {
            None => self.header.len() < HEADER_LEN && self.payload.len() == 0,
            Some(n) => self.header.len() == HEADER_LEN && n == announced(self.header@)
                && self.payload.len() < n,
        }
    }

    /// A reader at the start of a frame.
    pub fn new() -> (r: Self)
        ensures
            r@ == Seq::<u8>::empty(),
    {
        let r = FrameReader { header: Vec::new(), expected: None, payload: Vec::new() };
        assert(r@ =~= Seq::<u8>::empty());
        r
    }

    /// The number of bytes to ask the stream for: never more than the
    /// current frame still needs, and never zero.
    pub fn wanted(&self) -> (n: usize)
        ensures
            n == missing(self@),
            n > 0,
    {
        proof {
            use_type_invariant(self);
            self.lemma_view();
        }
        match self.expected {
            None => HEADER_LEN - self.header.len(),
            Some(n) => n - self.payload.len(),
        }
    }

    /// What the view is made of.
    proof fn lemma_view(&self)
        requires
            self.well_formed(),
        ensures
            self@.len() == self.header.len() + self.payload.len(),
            self.expected is None ==> self@ == self.header@,
            self.expected is Some ==> self@.subrange(0, HEADER_LEN as int) == self.header@,
            self.expected matches Some(n) ==> announced(self@) == n,
    {
        if self.expected is Some {
            assert(self@.subrange(0, HEADER_LEN as int) =~= self.header@);
            assert(self.header@.subrange(0, HEADER_LEN as int) =~= self.header@);
        } else {
            assert(self@ =~= self.header@);
        }
    }

    /// Takes the bytes that one read delivered. An empty delivery means
    /// that the peer closed the stream. Otherwise the bytes join those
    /// received before, and the payload is handed out once the frame is
    /// whole; the reader then stands at the start of the next frame. The
    /// only other error is a length prefix that announces more than
    /// `usize` holds, after which the reader starts afresh.
    pub fn accept(&mut self, bytes: &[u8]) -> (r: Result<Option<Vec<u8>>, FrameError>)
        requires
            bytes@.len() <= missing(old(self)@),
        ensures
            bytes@.len() == 0 ==> r == Err::<Option<Vec<u8>>, FrameError>(FrameError::Closed)
                && final(self)@ == old(self)@,
            bytes@.len() > 0 ==> match r {
                Ok(Some(payload)) => {
                    &&& missing(old(self)@ + bytes@) == 0
                    &&& payload@ == payload_of(old(self)@ + bytes@)
                    &&& final(self)@ == Seq::<u8>::empty()
                },
                Ok(None) => {
                    &&& missing(old(self)@ + bytes@) > 0
                    &&& final(self)@ == old(self)@ + bytes@
                },
                Err(e) => {
                    &&& e == FrameError::TooLong
                    &&& old(self)@.len() + bytes@.len() == HEADER_LEN
                    &&& announced(old(self)@ + bytes@) > usize::MAX
                    &&& final(self)@ == Seq::<u8>::empty()
                },
            },
            bytes@.len() > 0 && !(old(self)@.len() + bytes@.len() == HEADER_LEN && announced(
                old(self)@ + bytes@,
            ) > usize::MAX) ==> r is Ok,
    {
        proof {
            use_type_invariant(&*self);
            self.lemma_view();
        }
        if bytes.len() == 0 {
            return Err(FrameError::Closed);
        }
        let ghost all = self@ + bytes@;
        match self.expected {
            None => {
                let mut header: Vec<u8> = Vec::new();
                core::mem::swap(&mut header, &mut self.header);
                append(&mut header, bytes);
                assert(header@ =~= all);
                if header.len() < HEADER_LEN {
                    *self = FrameReader { header: header, expected: None, payload: Vec::new() };
                    assert(self@ =~= all);
                    return Ok(None);
                }
                assert(all.subrange(0, HEADER_LEN as int) =~= all);
                match read_length(header.as_slice()) {
                    Ok(length) => {
                        if length == 0 {
                            *self = FrameReader::new();
                            let payload: Vec<u8> = Vec::new();
                            assert(payload@ =~= payload_of(all));
                            Ok(Some(payload))
                        } else {
                            *self = FrameReader {
                                header: header,
                                expected: Some(length),
                                payload: Vec::new(),
                            };
                            assert(self@ =~= all);
                            Ok(None)
                        }
                    },
                    Err(e) => {
                        *self = FrameReader::new();
                        Err(e)
                    },
                }
            },
            Some(length) => {
                let ghost prefix = self.header@;
                assert(all.subrange(0, HEADER_LEN as int) =~= prefix);
                assert(prefix.subrange(0, HEADER_LEN as int) =~= prefix);
                assert(announced(all) == length);
                let mut payload: Vec<u8> = Vec::new();
                core::mem::swap(&mut payload, &mut self.payload);
                append(&mut payload, bytes);
                assert(all =~= prefix + payload@);
                if payload.len() < length {
                    core::mem::swap(&mut payload, &mut self.payload);
                    assert(self@ =~= all);
                    Ok(None)
                } else {
                    assert(payload@ =~= payload_of(all));
                    *self = FrameReader::new();
                    Ok(Some(payload))
                }
            },
        }
    }
}

} // verus!
