use lsp_client::decimal::{encode_decimal, parse_decimal};
use lsp_client::framing::parse_header_line;
use lsp_client::{decode_frame, encode_frame, Error, FramingError, HeaderLine, HeaderReader};

#[test]
fn encode_frame_writes_length_header() {
    let framed = encode_frame(b"{\"a\":1}");
    assert_eq!(framed, b"Content-Length: 7\r\n\r\n{\"a\":1}".to_vec());
}

#[test]
fn round_trip_keeps_braces_inside_strings() {
    let payload = br#"{"jsonrpc":"2.0","id":3,"result":{"text":"fn f() { } }"}}"#;
    let mut buf = encode_frame(payload);
    let frame_len = buf.len();
    buf.extend_from_slice(b"Content-Length: 2\r\n\r\n{}");
    let (decoded, used) = decode_frame(&buf).unwrap();
    assert_eq!(decoded, payload.to_vec());
    assert_eq!(used, frame_len);
    let (second, used2) = decode_frame(&buf[used..]).unwrap();
    assert_eq!(second, b"{}".to_vec());
    assert_eq!(used2, buf.len() - used);
}

#[test]
fn round_trip_of_empty_payload() {
    let buf = encode_frame(b"");
    assert_eq!(buf, b"Content-Length: 0\r\n\r\n".to_vec());
    assert_eq!(decode_frame(&buf), Ok((Vec::new(), buf.len())));
}

#[test]
fn decode_tolerates_content_type() {
    let buf = b"Content-Length: 2\r\nContent-Type: application/vscode-jsonrpc; charset=utf-8\r\n\r\n[]";
    assert_eq!(decode_frame(buf), Ok((b"[]".to_vec(), buf.len())));
}

#[test]
fn decode_allows_content_type_first() {
    let buf = b"Content-Type: x\r\nContent-Length: 1\r\n\r\n1";
    assert_eq!(decode_frame(buf), Ok((b"1".to_vec(), buf.len())));
}

#[test]
fn malformed_header_without_colon_is_framing_error() {
    let buf = b"Content-Length abc\r\n\r\n{}";
    assert_eq!(decode_frame(buf), Err(Error::Framing(FramingError::UnknownHeader)));
}

#[test]
fn non_numeric_length_is_framing_error() {
    let buf = b"Content-Length: abc\r\n\r\n{}";
    assert_eq!(decode_frame(buf), Err(Error::Framing(FramingError::BadContentLength)));
}

#[test]
fn missing_length_is_framing_error() {
    let buf = b"Content-Type: x\r\n\r\n{}";
    assert_eq!(decode_frame(buf), Err(Error::Framing(FramingError::MissingContentLength)));
}

#[test]
fn duplicate_length_is_framing_error() {
    let buf = b"Content-Length: 2\r\nContent-Length: 2\r\n\r\n{}";
    assert_eq!(decode_frame(buf), Err(Error::Framing(FramingError::DuplicateContentLength)));
}

#[test]
fn short_payload_is_connection_closed() {
    let buf = b"Content-Length: 10\r\n\r\n{}";
    assert_eq!(decode_frame(buf), Err(Error::ConnectionClosed));
}

#[test]
fn unterminated_header_is_connection_closed() {
    assert_eq!(decode_frame(b"Content-Length: 10"), Err(Error::ConnectionClosed));
    assert_eq!(decode_frame(b""), Err(Error::ConnectionClosed));
}

#[test]
fn header_lines_are_classified() {
    assert_eq!(parse_header_line(b""), Ok(HeaderLine::Blank));
    assert_eq!(parse_header_line(b"Content-Length: 42"), Ok(HeaderLine::ContentLength(42)));
    assert_eq!(parse_header_line(b"Content-Length:   7"), Ok(HeaderLine::ContentLength(7)));
    assert_eq!(parse_header_line(b"Content-Type: text"), Ok(HeaderLine::ContentType));
    assert_eq!(parse_header_line(b"Content-Length: 4x"), Err(FramingError::BadContentLength));
    assert_eq!(parse_header_line(b"X-Other: 1"), Err(FramingError::UnknownHeader));
}

#[test]
fn header_reader_follows_a_stream() {
    let mut reader = HeaderReader::new();
    assert_eq!(reader.feed(b"Content-Length: 5"), Ok(None));
    assert_eq!(reader.feed(b"Content-Type: utf-8"), Ok(None));
    assert_eq!(reader.feed(b""), Ok(Some(5)));
    assert_eq!(reader.content_length, None);
    assert_eq!(reader.feed(b""), Err(Error::Framing(FramingError::MissingContentLength)));
}

#[test]
fn decimal_digits_round_trip() {
    assert_eq!(encode_decimal(0), b"0".to_vec());
    assert_eq!(encode_decimal(1234), b"1234".to_vec());
    assert_eq!(parse_decimal(b"1234"), Some(1234));
    assert_eq!(parse_decimal(b"007"), Some(7));
    assert_eq!(parse_decimal(b""), None);
    assert_eq!(parse_decimal(b"12a"), None);
    assert_eq!(parse_decimal(b"+1"), None);
    assert_eq!(parse_decimal(b"99999999999999999999999"), None);
    let max = usize::MAX.to_string();
    assert_eq!(parse_decimal(max.as_bytes()), Some(usize::MAX));
    assert_eq!(encode_decimal(usize::MAX), max.into_bytes());
}
