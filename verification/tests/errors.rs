use slmp::error::{connection_not_found, end_of_stream, resolve_failed, sort_io_error, IoErrorKind};
use slmp::text::{decimal_text, hex4_text};
use slmp::{end_code_name, FramingError, SlmpError};

#[test]
fn io_error_maps_to_variants() {
    assert!(matches!(
        SlmpError::from(std::io::Error::from(std::io::ErrorKind::TimedOut)),
        SlmpError::Timeout
    ));
    assert!(matches!(
        SlmpError::from(std::io::Error::from(std::io::ErrorKind::NotConnected)),
        SlmpError::NotConnected
    ));
    assert!(matches!(
        SlmpError::from(std::io::Error::from(std::io::ErrorKind::BrokenPipe)),
        SlmpError::Io(_)
    ));
}

#[test]
fn an_io_error_is_carried_along() {
    match SlmpError::from(std::io::Error::from(std::io::ErrorKind::AddrNotAvailable)) {
        SlmpError::Io(e) => assert_eq!(e.kind(), std::io::ErrorKind::AddrNotAvailable),
        other => panic!("got {other:?}"),
    }
    let e = std::io::Error::from(std::io::ErrorKind::Other);
    assert!(matches!(sort_io_error(IoErrorKind::TimedOut, e), SlmpError::Timeout));
}

#[test]
fn own_io_errors() {
    assert_eq!(resolve_failed().kind(), std::io::ErrorKind::InvalidInput);
    assert_eq!(connection_not_found().kind(), std::io::ErrorKind::AddrNotAvailable);
    assert_eq!(end_of_stream().kind(), std::io::ErrorKind::UnexpectedEof);
    assert_eq!(end_of_stream().to_string(), "end of stream");
    let eof = std::io::Error::from(std::io::ErrorKind::UnexpectedEof);
    assert!(matches!(SlmpError::from(eof), SlmpError::Io(_)));
    assert_eq!(resolve_failed().to_string(), "resolve failed");
    assert_eq!(connection_not_found().to_string(), "Connection not found");
}

#[test]
fn names_of_end_codes() {
    let names = [
        (0xC059, "WrongCommand"),
        (0xC05C, "WrongFormat"),
        (0xC061, "WrongLength"),
        (0xCEE0, "Busy"),
        (0xCEE1, "ExceedReqLength"),
        (0xCEE2, "ExceedRespLength"),
        (0xCF10, "ServerNotFound"),
        (0xCF20, "WrongConfigItem"),
        (0xCF30, "PrmIDNotFound"),
        (0xCF31, "NotStartExclusiveWrite"),
        (0xCF70, "RelayFailure"),
        (0xCF71, "TimeoutError"),
    ];
    for (code, name) in names {
        assert_eq!(end_code_name(code), name);
    }
    assert_eq!(end_code_name(0), "Unknown Error");
    assert_eq!(end_code_name(0xC05A), "Unknown Error");
    assert_eq!(end_code_name(0xFFFF), "Unknown Error");
}

#[test]
fn errors_in_words() {
    assert_eq!(
        SlmpError::Device { end_code: 0xC059 }.message(),
        "SLMP device error: WrongCommand (0xC059)"
    );
    assert_eq!(
        SlmpError::Device { end_code: 0x00AB }.message(),
        "SLMP device error: Unknown Error (0x00AB)"
    );
    assert_eq!(SlmpError::Timeout.message(), "SLMP operation timed out");
    assert_eq!(SlmpError::NotConnected.message(), "SLMP stream is not connected");
    assert_eq!(
        SlmpError::Framing(FramingError::ShortFrame { len: 13, min: 15 }).message(),
        "SLMP framing error: response frame too short: got 13 bytes, need at least 15"
    );
    assert_eq!(
        FramingError::LengthMismatch { declared: 10, actual: 2 }.message(),
        "declared data length 10 does not match actual data length 2"
    );
    assert_eq!(
        FramingError::UnexpectedField { field: "pc_id" }.message(),
        "unexpected value in field 'pc_id'"
    );
    assert_eq!(
        FramingError::EchoMismatch.message(),
        "echo response body did not match the payload that was sent"
    );
    let e = std::io::Error::new(std::io::ErrorKind::Other, "oh no");
    let error = SlmpError::Io(e);
    assert_eq!(error.message(), "SLMP I/O error: oh no");
    assert_eq!(error.message_with("disk on fire"), "SLMP I/O error: disk on fire");
}

#[test]
fn causes() {
    assert!(SlmpError::Timeout.source().is_none());
    assert!(SlmpError::Device { end_code: 1 }.source().is_none());
    let error = SlmpError::Io(std::io::Error::from(std::io::ErrorKind::BrokenPipe));
    assert_eq!(error.source().map(|e| e.kind()), Some(std::io::ErrorKind::BrokenPipe));
}

#[test]
fn numbers_as_text() {
    for n in [0, 7, 10, 99, 100, 65535, usize::MAX] {
        assert_eq!(decimal_text(n), format!("{n}"));
    }
    for n in [0, 9, 10, 0xABC, 0xF00D, 0xFFFF] {
        assert_eq!(hex4_text(n), format!("{n:04X}"));
    }
}
