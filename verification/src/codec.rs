//! The frame codec: messages travel as `<decimal-length>|<payload>`, the
//! length counting the payload's bytes. Decoding is incremental: a buffer
//! that does not yet hold a whole frame is left untouched.

use vstd::prelude::*;
use bytes::BytesMut;
use crate::digits::{
    all_digits, dec_rep, dec_val, format_decimal, lemma_dec_rep_digits, lemma_dec_val_dec_rep,
    parse_decimal,
};
use crate::error::{RemError, RemErrorKind, REM_00004, REM_00006};
use crate::scan::{first_index, lemma_first_index_absent, lemma_first_index_found};
use crate::text::{copy_range, string_from_utf8};
use vstd::string::StrSliceExecFns;
use vstd::utf8::{decode_utf8, encode_utf8, encode_utf8_decode_utf8, encode_utf8_valid_utf8,
    valid_utf8};

verus! {

#[verifier::external_type_specification]
#[verifier::external_body]
pub struct ExBytesMut(BytesMut);

/// The bytes a buffer currently holds, front to back.
pub uninterp spec fn buf_bytes(b: BytesMut) -> Seq<u8>;

/// Relies on `AsRef<[u8]> for BytesMut` and `slice::to_vec`: copies out the
/// bytes the buffer holds, in order, leaving the buffer as it was.
#[verifier::external_body]
fn buf_to_vec(b: &BytesMut) -> (r: Vec<u8>)
    ensures
        r@ == buf_bytes(*b),
{
    b.as_ref().to_vec()
}

/// Relies on `BytesMut::split_to`: splits off the first `at` bytes, so that
/// the buffer afterwards holds only the bytes from `at` on.
#[verifier::external_body]
fn buf_consume(b: &mut BytesMut, at: usize)
    requires
        at <= buf_bytes(*old(b)).len(),
    ensures
        buf_bytes(*final(b)) == buf_bytes(*old(b)).skip(at as int),
{
    let _ = b.split_to(at);
}

/// Relies on `BytesMut::extend_from_slice`: appends the slice's bytes at the
/// back of the buffer.
#[verifier::external_body]
fn buf_append(b: &mut BytesMut, s: &[u8])
    ensures
        buf_bytes(*final(b)) == buf_bytes(*old(b)) + s@,
{
    b.extend_from_slice(s);
}

/// The frame delimiter, `|`.
pub const DELIM: u8 = 124;

/// What one decoding step on a buffer yields.
pub enum FrameStep {
    /// No whole frame is present yet; wait for more bytes.
    Incomplete,
    /// The bytes before the first delimiter are not a decimal length.
    BadPrefix,
    /// The payload bytes are not valid UTF-8 text.
    BadPayload,
    /// A whole frame: its payload bytes and how many buffer bytes it spans.
    Complete { payload: Seq<u8>, used: int },
}

/// The result of decoding the front of a buffer.
pub open spec fn decode_result(b: Seq<u8>) -> FrameStep {
    let i = first_index(b, DELIM);
    if i == b.len() {
        FrameStep::Incomplete
    } else if i == 0 || !all_digits(b.take(i)) || dec_val(b.take(i)) > usize::MAX as nat {
        FrameStep::BadPrefix
    } else if b.len() < i + 1 + dec_val(b.take(i)) {
        FrameStep::Incomplete
    } else if !valid_utf8(b.subrange(i + 1, i + 1 + dec_val(b.take(i)))) {
        FrameStep::BadPayload
    } else {
        FrameStep::Complete {
            payload: b.subrange(i + 1, i + 1 + dec_val(b.take(i))),
            used: i + 1 + dec_val(b.take(i)),
        }
    }
}

/// A payload wrapped into a frame: its byte length in decimal ASCII, the
/// delimiter, then the payload itself.
pub open spec fn framed(payload: Seq<u8>) -> Seq<u8> {
    dec_rep(payload.len()) + seq![DELIM] + payload
}

/// Index of the first delimiter byte in the vector, if any.
fn find_delim(v: &Vec<u8>) -> (r: Option<usize>)
    ensures
        ({
            match r {
                Some(i) => i < v@.len() && v@[i as int] == DELIM && forall|j: int|
                    0 <= j < i ==> v@[j] != DELIM,
                None => forall|j: int| 0 <= j < v@.len() ==> v@[j] != DELIM,
            }
        }),
{
    let mut i: usize = 0;
    while i < v.len()
        invariant
            i <= v@.len(),
            forall|j: int| 0 <= j < i ==> v@[j] != DELIM,
        decreases v@.len() - i,
    {
        if v[i] == DELIM {
            return Some(i);
        }
        i += 1;
    }
    None
}

/// Framing round-trip: a frame built from any UTF-8 payload, fed to the
/// decoder as one contiguous buffer, decodes to exactly that payload and
/// consumes exactly the whole frame.
pub proof fn lemma_frame_round_trip(payload: Seq<u8>)
    requires
        payload.len() <= usize::MAX,
        valid_utf8(payload),
    ensures
        decode_result(framed(payload)) == (FrameStep::Complete {
            payload,
            used: framed(payload).len() as int,
        }),
{
    let n = payload.len();
    let rep = dec_rep(n);
    let l = rep.len() as int;
    let b = framed(payload);
    lemma_dec_rep_digits(n);
    lemma_dec_val_dec_rep(n);
    assert(b[l] == DELIM);
    assert(forall|j: int| 0 <= j < l ==> b[j] == rep[j]);
    assert(forall|j: int| 0 <= j < l ==> b[j] != DELIM);
    lemma_first_index_found(b, DELIM, l);
    assert(b.take(l) =~= rep);
    assert(b.len() == l + 1 + n);
    assert(b.subrange(l + 1, l + 1 + n as int) =~= payload);
}

/// Incremental decode: any strict prefix of a frame yields "not enough data
/// yet" and leaves the buffer untouched, so feeding a frame split at any
/// byte boundary across several decode calls yields exactly the one payload
/// the whole frame yields, with nothing lost and nothing emitted twice.
pub proof fn lemma_incremental_decode(payload: Seq<u8>, i: int)
    requires
        payload.len() <= usize::MAX,
        valid_utf8(payload),
        0 <= i < framed(payload).len(),
    ensures
        decode_result(framed(payload).take(i)) == FrameStep::Incomplete,
        decode_result(framed(payload)) == (FrameStep::Complete {
            payload,
            used: framed(payload).len() as int,
        }),
{
    let n = payload.len();
    let rep = dec_rep(n);
    let l = rep.len() as int;
    let b = framed(payload);
    let p = b.take(i);
    lemma_dec_rep_digits(n);
    lemma_dec_val_dec_rep(n);
    lemma_frame_round_trip(payload);
    assert(forall|j: int| 0 <= j < l ==> b[j] == rep[j]);
    if i <= l {
        assert(forall|j: int| 0 <= j < i ==> p[j] == b[j] && p[j] != DELIM);
        lemma_first_index_absent(p, DELIM);
    } else {
        assert(p[l] == DELIM);
        assert(forall|j: int| 0 <= j < l ==> p[j] == b[j] && p[j] != DELIM);
        lemma_first_index_found(p, DELIM, l);
        assert(p.take(l) =~= rep);
        assert(p.len() == i < l + 1 + n);
    }
}

/// Round-trip at the level of strings: the frame of a message's UTF-8 bytes
/// decodes back to that very character sequence.
pub proof fn lemma_string_round_trip(s: Seq<char>)
    requires
        encode_utf8(s).len() <= usize::MAX,
    ensures
        ({
            let step = decode_result(framed(encode_utf8(s)));
            step matches FrameStep::Complete { payload, used } && decode_utf8(payload) == s
                && used == framed(encode_utf8(s)).len()
        }),
{
    encode_utf8_valid_utf8(s);
    lemma_frame_round_trip(encode_utf8(s));
    encode_utf8_decode_utf8(s);
}

/// The codec for length-prefixed text frames.
pub struct CacheCodec {}

impl CacheCodec {
    /// Decodes one frame from the front of the buffer, if a whole one is
    /// there. A buffer without a whole frame is left untouched and yields
    /// `Ok(None)`; a malformed length prefix or a non-UTF-8 payload yields an
    /// `InvalidFraming` error; a whole well-formed frame is consumed from the
    /// buffer and its payload returned as text.
    pub fn decode(&mut self, buf: &mut BytesMut) -> (r: Result<Option<String>, RemError>)
        ensures
            ({
                let b = buf_bytes(*old(buf));
                match decode_result(b) {
                    FrameStep::Incomplete => r matches Ok(x) && x is None && buf_bytes(
                        *final(buf),
                    ) == b,
                    FrameStep::BadPrefix => r matches Err(e) && e.kind
                        == RemErrorKind::InvalidFraming && e.reason@ == REM_00004@ && buf_bytes(
                        *final(buf),
                    ) == b,
                    FrameStep::BadPayload => r matches Err(e) && e.kind
                        == RemErrorKind::InvalidFraming && e.reason@ == REM_00006@ && buf_bytes(
                        *final(buf),
                    ) == b,
                    FrameStep::Complete { payload, used } => r matches Ok(x) && x matches Some(s)
                        && s@ == decode_utf8(payload) && buf_bytes(*final(buf)) == b.skip(used),
                }
            }),
    {
        let snapshot = buf_to_vec(buf);
        let ghost b = snapshot@;
        match find_delim(&snapshot) {
            None => {
                proof {
                    lemma_first_index_absent(b, DELIM);
                }
                Ok(None)
            },
            Some(i) => {
                proof {
                    lemma_first_index_found(b, DELIM, i as int);
                }
                match parse_decimal(&snapshot, 0, i) {
                    None => {
                        proof {
                            assert(b.subrange(0, i as int) =~= b.take(i as int));
                        }
                        Err(RemError::invalid_framing(REM_00004))
                    },
                    Some(size) => {
                        proof {
                            assert(b.subrange(0, i as int) =~= b.take(i as int));
                        }
                        let remaining = snapshot.len() - i - 1;
                        if size > remaining {
                            Ok(None)
                        } else {
                            let payload = copy_range(&snapshot, i + 1, i + 1 + size);
                            match string_from_utf8(payload) {
                                None => Err(RemError::invalid_framing(REM_00006)),
                                Some(s) => {
                                    buf_consume(buf, i + 1 + size);
                                    Ok(Some(s))
                                },
                            }
                        }
                    },
                }
            },
        }
    }

    /// Encodes a message by appending its frame, length prefix first, at the
    /// back of the buffer. Encoding never fails.
    pub fn encode(&mut self, msg: String, buf: &mut BytesMut) -> (r: Result<(), RemError>)
        ensures
            r is Ok,
            buf_bytes(*final(buf)) == buf_bytes(*old(buf)) + framed(encode_utf8(msg@)),
    {
        let payload = msg.as_str().as_bytes_vec();
        let mut frame = format_decimal(payload.len());
        frame.push(DELIM);
        let mut tail = payload;
        frame.append(&mut tail);
        proof {
            assert(frame@ =~= framed(encode_utf8(msg@)));
        }
        buf_append(buf, frame.as_slice());
        Ok(())
    }
}

} // verus!
