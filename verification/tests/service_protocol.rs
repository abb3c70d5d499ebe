use bytes::BytesMut;
use rem::cache::Cache;
use rem::codec::CacheCodec;
use rem::error::{RemErrorKind, REM_00006, REM_00007};
use rem::service::{connection_step, CacheService, SessionStep};

fn fresh_service() -> CacheService {
    CacheService { cache: Cache::new() }
}

/// Feeds one raw client frame to the server side: decode, dispatch, encode.
/// Returns the raw response frame, or the error that closes the connection.
fn exchange(service: &mut CacheService, raw: &[u8]) -> Result<Vec<u8>, rem::error::RemError> {
    let mut codec = CacheCodec {};
    let mut buf = BytesMut::from(raw);
    let payload = codec.decode(&mut buf)?.expect("a whole frame was given");
    let response = service.call(payload)?;
    let mut out = BytesMut::new();
    codec.encode(response, &mut out)?;
    Ok(out.to_vec())
}

#[test]
fn scenario_write_then_read() {
    let mut service = fresh_service();
    let reply = exchange(&mut service, b"9|W$abc:def").unwrap();
    assert_eq!(reply, b"2|OK".to_vec());
    let reply = exchange(&mut service, b"5|R$abc").unwrap();
    assert_eq!(reply, b"3|def".to_vec());
}

#[test]
fn scenario_read_of_unknown_key() {
    let mut service = fresh_service();
    let reply = exchange(&mut service, b"5|R$zzz").unwrap();
    assert_eq!(reply, b"11|Invalid Key".to_vec());
}

#[test]
fn scenario_delete_then_read() {
    let mut service = fresh_service();
    let reply = exchange(&mut service, b"9|W$abc:def").unwrap();
    assert_eq!(reply, b"2|OK".to_vec());
    let reply = exchange(&mut service, b"5|D$abc").unwrap();
    assert_eq!(reply, b"2|OK".to_vec());
    let reply = exchange(&mut service, b"5|R$abc").unwrap();
    assert_eq!(reply, b"11|Invalid Key".to_vec());
}

#[test]
fn scenario_malformed_frame_closes_without_response() {
    let mut service = fresh_service();
    let err = exchange(&mut service, b"abc|xyz").unwrap_err();
    assert_eq!(err.kind, RemErrorKind::InvalidFraming);
}

#[test]
fn unknown_command_answers_an_error_description() {
    let mut service = fresh_service();
    let reply = exchange(&mut service, b"5|X$abc").unwrap();
    assert_eq!(reply, b"29|ERROR:Invalid cache command X".to_vec());
}

#[test]
fn empty_payload_is_fatal_to_the_connection() {
    let mut service = fresh_service();
    let err = service.call(String::new()).unwrap_err();
    assert_eq!(err.kind, RemErrorKind::InvalidFraming);
    assert_eq!(err.reason, REM_00007);
}

#[test]
fn payload_without_commands_is_fatal_to_the_connection() {
    let mut service = fresh_service();
    let err = service.call(String::from("$abc")).unwrap_err();
    assert_eq!(err.kind, RemErrorKind::InvalidFraming);
}

#[test]
fn write_without_colon_reads_back_empty() {
    let mut service = fresh_service();
    let reply = exchange(&mut service, b"6|W$solo").unwrap();
    assert_eq!(reply, b"2|OK".to_vec());
    let reply = exchange(&mut service, b"6|R$solo").unwrap();
    assert_eq!(reply, b"0|".to_vec());
}

#[test]
fn overwrite_through_the_protocol() {
    let mut service = fresh_service();
    exchange(&mut service, b"7|W$k:one").unwrap();
    exchange(&mut service, b"7|W$k:two").unwrap();
    let reply = exchange(&mut service, b"3|R$k").unwrap();
    assert_eq!(reply, b"3|two".to_vec());
}

#[test]
fn read_of_non_utf8_value_answers_an_error() {
    let mut service = fresh_service();
    service.cache.cache_item("bin", vec![0xff, 0xfe]).unwrap();
    let reply = exchange(&mut service, b"5|R$bin").unwrap();
    let expected = format!("{}|ERROR:{}", 6 + REM_00006.len(), REM_00006);
    assert_eq!(reply, expected.into_bytes());
}

#[test]
fn responses_and_requests_pair_up_in_order() {
    let mut service = fresh_service();
    let mut codec = CacheCodec {};
    let mut buf = BytesMut::from(&b"7|W$k:one3|R$k5|D$abc"[..]);
    let mut replies: Vec<String> = Vec::new();
    while let Some(payload) = codec.decode(&mut buf).unwrap() {
        replies.push(service.call(payload).unwrap());
        if buf.is_empty() {
            break;
        }
    }
    assert_eq!(replies, vec![
        String::from("OK"),
        String::from("one"),
        String::from("OK"),
    ]);
}

#[test]
fn connection_step_waits_until_a_whole_frame_is_buffered() {
    let mut service = fresh_service();
    let mut buf = BytesMut::from(&b"9|W$a"[..]);
    assert!(matches!(connection_step(&mut service, &mut buf), SessionStep::AwaitBytes));
    assert_eq!(buf.len(), 5);
    buf.extend_from_slice(b"bc:d");
    assert!(matches!(connection_step(&mut service, &mut buf), SessionStep::AwaitBytes));
    buf.extend_from_slice(b"ef");
    match connection_step(&mut service, &mut buf) {
        SessionStep::Respond(resp) => assert_eq!(resp, "OK"),
        _ => panic!("a whole frame must be dispatched"),
    }
    assert_eq!(buf.len(), 0);
    match connection_step(&mut service, &mut BytesMut::from(&b"5|R$abc"[..])) {
        SessionStep::Respond(resp) => assert_eq!(resp, "def"),
        _ => panic!("the stored value must be answered"),
    }
}

#[test]
fn connection_step_closes_on_malformed_or_empty_frames() {
    let mut service = fresh_service();
    let mut bad = BytesMut::from(&b"abc|xyz"[..]);
    assert!(matches!(connection_step(&mut service, &mut bad), SessionStep::Close));
    assert_eq!(bad.len(), 7);
    let mut empty_op = BytesMut::from(&b"0|"[..]);
    assert!(matches!(connection_step(&mut service, &mut empty_op), SessionStep::Close));
}
