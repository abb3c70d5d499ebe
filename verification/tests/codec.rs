use bytes::BytesMut;
use rem::codec::CacheCodec;
use rem::error::{RemErrorKind, REM_00004, REM_00006};

fn decode_all(buf: &mut BytesMut) -> Result<Option<String>, rem::error::RemError> {
    let mut codec = CacheCodec {};
    codec.decode(buf)
}

fn encode_to(msg: &str, buf: &mut BytesMut) {
    let mut codec = CacheCodec {};
    codec.encode(String::from(msg), buf).unwrap();
}

#[test]
fn encode_writes_length_prefixed_frame() {
    let mut buf = BytesMut::new();
    encode_to("hello", &mut buf);
    assert_eq!(&buf[..], b"5|hello");
}

#[test]
fn encode_appends_behind_existing_bytes() {
    let mut buf = BytesMut::from(&b"2|OK"[..]);
    encode_to("def", &mut buf);
    assert_eq!(&buf[..], b"2|OK3|def");
}

#[test]
fn round_trip_single_buffer() {
    let mut buf = BytesMut::new();
    encode_to("hello world", &mut buf);
    let got = decode_all(&mut buf).unwrap();
    assert_eq!(got, Some(String::from("hello world")));
    assert_eq!(buf.len(), 0);
}

#[test]
fn round_trip_empty_message() {
    let mut buf = BytesMut::new();
    encode_to("", &mut buf);
    assert_eq!(&buf[..], b"0|");
    let got = decode_all(&mut buf).unwrap();
    assert_eq!(got, Some(String::new()));
    assert_eq!(buf.len(), 0);
}

#[test]
fn round_trip_non_ascii_message() {
    let mut buf = BytesMut::new();
    encode_to("fünf€", &mut buf);
    let got = decode_all(&mut buf).unwrap();
    assert_eq!(got, Some(String::from("fünf€")));
    assert_eq!(buf.len(), 0);
}

#[test]
fn incremental_decode_at_every_split() {
    let frame = b"9|W$abc:def";
    for cut in 0..frame.len() {
        let mut buf = BytesMut::from(&frame[..cut]);
        let first = decode_all(&mut buf).unwrap();
        assert_eq!(first, None, "split at {} decoded early", cut);
        assert_eq!(buf.len(), cut, "split at {} lost bytes", cut);
        buf.extend_from_slice(&frame[cut..]);
        let second = decode_all(&mut buf).unwrap();
        assert_eq!(second, Some(String::from("W$abc:def")));
        assert_eq!(buf.len(), 0);
    }
}

#[test]
fn decode_leaves_following_frame_in_buffer() {
    let mut buf = BytesMut::from(&b"2|OK3|def"[..]);
    assert_eq!(decode_all(&mut buf).unwrap(), Some(String::from("OK")));
    assert_eq!(&buf[..], b"3|def");
    assert_eq!(decode_all(&mut buf).unwrap(), Some(String::from("def")));
    assert_eq!(buf.len(), 0);
}

#[test]
fn decode_without_delimiter_waits() {
    let mut buf = BytesMut::from(&b"123"[..]);
    assert_eq!(decode_all(&mut buf).unwrap(), None);
    assert_eq!(&buf[..], b"123");
}

#[test]
fn decode_with_short_payload_waits() {
    let mut buf = BytesMut::from(&b"5|ab"[..]);
    assert_eq!(decode_all(&mut buf).unwrap(), None);
    assert_eq!(&buf[..], b"5|ab");
}

#[test]
fn malformed_length_prefix_is_invalid_framing() {
    let mut buf = BytesMut::from(&b"abc|xyz"[..]);
    let err = decode_all(&mut buf).unwrap_err();
    assert_eq!(err.kind, RemErrorKind::InvalidFraming);
    assert_eq!(err.reason, REM_00004);
    assert_eq!(&buf[..], b"abc|xyz");
}

#[test]
fn empty_length_prefix_is_invalid_framing() {
    let mut buf = BytesMut::from(&b"|xyz"[..]);
    let err = decode_all(&mut buf).unwrap_err();
    assert_eq!(err.kind, RemErrorKind::InvalidFraming);
}

#[test]
fn oversized_length_prefix_is_invalid_framing() {
    let mut buf = BytesMut::from(&b"99999999999999999999999999|x"[..]);
    let err = decode_all(&mut buf).unwrap_err();
    assert_eq!(err.kind, RemErrorKind::InvalidFraming);
}

#[test]
fn non_utf8_payload_is_invalid_framing() {
    let mut buf = BytesMut::from(&b"2|"[..]);
    buf.extend_from_slice(&[0xff, 0xfe]);
    let err = decode_all(&mut buf).unwrap_err();
    assert_eq!(err.kind, RemErrorKind::InvalidFraming);
    assert_eq!(err.reason, REM_00006);
    assert_eq!(buf.len(), 4);
}

#[test]
fn payload_may_contain_delimiters() {
    let mut buf = BytesMut::new();
    encode_to("a|b|c", &mut buf);
    assert_eq!(&buf[..], b"5|a|b|c");
    assert_eq!(decode_all(&mut buf).unwrap(), Some(String::from("a|b|c")));
}
