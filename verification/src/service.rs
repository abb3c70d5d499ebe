//! The request dispatcher: one call takes a decoded frame payload, performs
//! the cache operation its command names, and yields the response payload to
//! send back. One connection's handling advances through `connection_step`,
//! one request-response cycle at a time.

use vstd::prelude::*;
use bytes::BytesMut;
use crate::cache::{cache_delete, cache_get, cache_put, cmd_prefix, op_value, Cache, CacheModel,
    CacheOperation};
use crate::codec::{buf_bytes, decode_result, CacheCodec, FrameStep};
use crate::error::{RemError, RemErrorKind, REM_00006, REM_00007};
use crate::op::{delete_value_from_cache, read_value_from_cache, write_stream_str_to_cache};
use crate::scan::{after_first, before_first};
use crate::text::string_from_utf8;
use vstd::string::StringExecFns;
use vstd::utf8::{decode_utf8, encode_utf8, valid_utf8};

verus! {

pub const OK: &'static str = "OK";

pub const ERROR: &'static str = "ERROR";

/// The payload answering a failed operation: `ERROR:` and the reason.
pub open spec fn error_reply(reason: Seq<char>) -> Seq<char> {
    ERROR@ + ":"@ + reason
}

/// How one dispatched request payload relates the store's state before and
/// after to what is sent back: `None` stands for "fatal, close the
/// connection", which happens exactly when the payload holds no command
/// character. `W` writes `key:value` and answers `OK`; `R` answers the
/// stored text, `Invalid Key` on a miss, or an error description for a value
/// that is not text; `D` deletes and answers `OK`; an unrecognized command
/// answers an error description and changes nothing.
pub open spec fn dispatch_post(
    m0: CacheModel,
    req: Seq<char>,
    m1: CacheModel,
    resp: Option<String>,
) -> bool {
    let cmds = cmd_prefix(req);
    let v = op_value(req);
    if cmds.len() == 0 {
        resp is None && m1 == m0
    } else if cmds[0] == 'W' {
        m1 == cache_put(m0, before_first(v, ':'), encode_utf8(after_first(v, ':'))) && (resp
            matches Some(s) && s@ == OK@)
    } else if cmds[0] == 'R' {
        m1 == m0 && (match cache_get(m0, v) {
            Some(bytes) => if valid_utf8(bytes) {
                resp matches Some(s) && s@ == decode_utf8(bytes)
            } else {
                resp matches Some(s) && s@ == error_reply(REM_00006@)
            },
            None => resp matches Some(s) && s@ == "Invalid Key"@,
        })
    } else if cmds[0] == 'D' {
        m1 == cache_delete(m0, v) && (resp matches Some(s) && s@ == OK@)
    } else {
        m1 == m0 && (resp matches Some(s) && s@ == error_reply(
            "Invalid cache command "@.push(cmds[0]),
        ))
    }
}

/// The service around the shared cache: every decoded request payload goes
/// through `call`, one at a time under the store's guard.
pub struct CacheService {
    pub cache: Cache,
}

impl CacheService {
    /// Dispatches one request payload: the characters before the first `$`
    /// are the commands, of which the first is the primitive one, as
    /// `dispatch_post` describes. A payload without any command character is
    /// a protocol violation: an error is returned instead of a response and
    /// the connection is to be closed.
    pub fn call(&mut self, req: String) -> (r: Result<String, RemError>)
        requires
            old(self).cache.wf(),
        ensures
            final(self).cache.wf(),
            ({
                match r {
                    Ok(resp) => dispatch_post(
                        old(self).cache@,
                        req@,
                        final(self).cache@,
                        Some(resp),
                    ),
                    Err(e) => dispatch_post(old(self).cache@, req@, final(self).cache@, None)
                        && e.kind == RemErrorKind::InvalidFraming && e.reason@ == REM_00007@,
                }
            }),
    {
        let cache_op = CacheOperation::new_from_string(&req);
        if cache_op.commands.len() == 0 {
            return Err(RemError::invalid_framing(REM_00007));
        }
        let prim_cmd: char = cache_op.commands[0];
        if prim_cmd == 'W' {
            match write_stream_str_to_cache(cache_op.value, &mut self.cache) {
                Ok(_) => Ok(OK.to_owned()),
                Err(cause) => Err(cause),
            }
        } else if prim_cmd == 'R' {
            match read_value_from_cache(cache_op.value, &self.cache) {
                Ok(res) => match string_from_utf8(res) {
                    Some(text) => Ok(text),
                    None => {
                        let mut resp = ERROR.to_owned();
                        resp.append(":");
                        resp.append(REM_00006);
                        Ok(resp)
                    },
                },
                Err(_cause) => Ok("Invalid Key".to_owned()),
            }
        } else if prim_cmd == 'D' {
            match delete_value_from_cache(cache_op.value, &mut self.cache) {
                Ok(_) => Ok(OK.to_owned()),
                Err(cause) => Err(cause),
            }
        } else {
            let err = RemError::invalid_command(prim_cmd);
            let mut resp = ERROR.to_owned();
            resp.append(":");
            resp.append(err.description());
            Ok(resp)
        }
    }
}

/// What one iteration of a connection's handling loop decides.
pub enum SessionStep {
    /// No whole frame is buffered yet: read more bytes off the transport.
    AwaitBytes,
    /// A frame was dispatched: send this response payload back, framed.
    Respond(String),
    /// A malformed frame or an empty operation: close this connection.
    Close,
}

/// One iteration of a connection's handling loop: decode one frame off the
/// buffer if a whole one is there, dispatch it against the shared store, and
/// say what the connection must do next. Only a whole well-formed frame
/// consumes buffer bytes or touches the store.
pub fn connection_step(service: &mut CacheService, buf: &mut BytesMut) -> (r: SessionStep)
    requires
        old(service).cache.wf(),
    ensures
        final(service).cache.wf(),
        ({
            let b = buf_bytes(*old(buf));
            match decode_result(b) {
                FrameStep::Incomplete => r is AwaitBytes && buf_bytes(*final(buf)) == b
                    && final(service).cache@ == old(service).cache@,
                FrameStep::BadPrefix => r is Close && buf_bytes(*final(buf)) == b
                    && final(service).cache@ == old(service).cache@,
                FrameStep::BadPayload => r is Close && buf_bytes(*final(buf)) == b
                    && final(service).cache@ == old(service).cache@,
                FrameStep::Complete { payload, used } => buf_bytes(*final(buf)) == b.skip(used)
                    && (match r {
                    SessionStep::Respond(resp) => dispatch_post(
                        old(service).cache@,
                        decode_utf8(payload),
                        final(service).cache@,
                        Some(resp),
                    ),
                    SessionStep::Close => dispatch_post(
                        old(service).cache@,
                        decode_utf8(payload),
                        final(service).cache@,
                        None,
                    ),
                    SessionStep::AwaitBytes => false,
                }),
            }
        }),
{
    let mut codec = CacheCodec {};
    match codec.decode(buf) {
        Ok(None) => SessionStep::AwaitBytes,
        Ok(Some(payload)) => match service.call(payload) {
            Ok(resp) => SessionStep::Respond(resp),
            Err(_why) => SessionStep::Close,
        },
        Err(_why) => SessionStep::Close,
    }
}

} // verus!
