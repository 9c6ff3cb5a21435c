use lsp_core::frame::encode_frame;
use lsp_core::frame::read_frame;
use lsp_core::frame::FrameErrorKind;
use lsp_core::frame::FrameRead;

#[test]
fn round_trip_simple() {
    let body = b"hello world";
    let wire = encode_frame(body);
    assert_eq!(&wire[..], b"Content-Length: 11\r\n\r\nhello world");
    let (res, next) = read_frame(&wire, 0);
    match res {
        FrameRead::Frame(f) => {
            assert_eq!(f.body, body.to_vec());
            assert_eq!(f.declared_length, 11);
        }
        _ => panic!("expected a frame"),
    }
    assert_eq!(next, wire.len());
}

#[test]
fn round_trip_empty_body() {
    let wire = encode_frame(b"");
    assert_eq!(&wire[..], b"Content-Length: 0\r\n\r\n");
    let (res, next) = read_frame(&wire, 0);
    assert!(matches!(res, FrameRead::Frame(f) if f.body.is_empty()));
    assert_eq!(next, wire.len());
}

#[test]
fn round_trip_binary_body() {
    let body: Vec<u8> = vec![0, 10, 13, 58, 255, 10, 10, 32];
    let wire = encode_frame(&body);
    let (res, next) = read_frame(&wire, 0);
    assert!(matches!(res, FrameRead::Frame(f) if f.body == body));
    assert_eq!(next, wire.len());
}

#[test]
fn resynchronization_after_corrupt_header() {
    let mut wire: Vec<u8> = b"garbage without a separator\n".to_vec();
    let junk_len = wire.len();
    wire.extend_from_slice(&encode_frame(b"{}"));
    let (first, after_junk) = read_frame(&wire, 0);
    assert!(matches!(first, FrameRead::FrameError(FrameErrorKind::InvalidHeader)));
    assert_eq!(after_junk, junk_len);
    let (second, end) = read_frame(&wire, after_junk);
    assert!(matches!(second, FrameRead::Frame(f) if f.body == b"{}".to_vec()));
    assert_eq!(end, wire.len());
}

#[test]
fn truncated_body_is_reported() {
    let wire = b"Content-Length: 10\r\n\r\nabc";
    let (res, next) = read_frame(wire, 0);
    assert!(matches!(res, FrameRead::FrameError(FrameErrorKind::TruncatedBody)));
    assert_eq!(next, wire.len());
}

#[test]
fn non_numeric_length_is_invalid_header() {
    let wire = b"Content-Length: ten\r\n\r\n";
    let (res, _) = read_frame(wire, 0);
    assert!(matches!(res, FrameRead::FrameError(FrameErrorKind::InvalidHeader)));
}

#[test]
fn empty_length_value_is_invalid_header() {
    let wire = b"Content-Length:   \r\n\r\n";
    let (res, _) = read_frame(wire, 0);
    assert!(matches!(res, FrameRead::FrameError(FrameErrorKind::InvalidHeader)));
}

#[test]
fn extra_headers_are_tolerated() {
    let wire = b"X-Answer: forty-two\r\nContent-Length: 3\r\nX-More: yes\r\n\r\nabc";
    let (res, next) = read_frame(wire, 0);
    assert!(matches!(res, FrameRead::Frame(f) if f.body == b"abc".to_vec()));
    assert_eq!(next, wire.len());
}

#[test]
fn bare_line_feeds_work_too() {
    let wire = b"Content-Length: 3\n\nxyz";
    let (res, next) = read_frame(wire, 0);
    assert!(matches!(res, FrameRead::Frame(f) if f.body == b"xyz".to_vec()));
    assert_eq!(next, wire.len());
}

#[test]
fn first_length_header_wins() {
    let wire = b"Content-Length: 3\r\nContent-Length: 5\r\n\r\nabcde";
    let (res, next) = read_frame(wire, 0);
    assert!(matches!(res, FrameRead::Frame(f) if f.body == b"abc".to_vec()));
    assert_eq!(next, wire.len() - 2);
}

#[test]
fn end_of_stream_on_empty_input() {
    let (res, next) = read_frame(b"", 0);
    assert!(matches!(res, FrameRead::EndOfStream));
    assert_eq!(next, 0);
}

#[test]
fn whitespace_around_length_is_trimmed() {
    let wire = b"Content-Length: \t 2 \t\r\n\r\nok";
    let (res, _) = read_frame(wire, 0);
    assert!(matches!(res, FrameRead::Frame(f) if f.body == b"ok".to_vec()));
}

#[test]
fn resynchronization_after_non_numeric_length() {
    let mut wire: Vec<u8> = b"Content-Length: twelve\r\n\r\n".to_vec();
    let block_len = wire.len();
    wire.extend_from_slice(&encode_frame(b"{}"));
    let (first, after_block) = read_frame(&wire, 0);
    assert!(matches!(first, FrameRead::FrameError(FrameErrorKind::InvalidHeader)));
    assert_eq!(after_block, block_len);
    let (second, end) = read_frame(&wire, after_block);
    assert!(matches!(second, FrameRead::Frame(f) if f.body == b"{}".to_vec()));
    assert_eq!(end, wire.len());
}
