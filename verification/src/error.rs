//! What can go wrong, and how it is told apart.
use vstd::prelude::*;
use vstd::string::StringExecFns;

use crate::text;

verus! {

/// The outcome of a fallible operation.
pub type SlmpResult<T> = core::result::Result<T, SlmpError>;

/// `std::io::Error`, carried as it is.
#[verifier::external_type_specification]
#[verifier::external_body]
pub struct ExIoError(std::io::Error);

/// What went wrong in a request.
#[derive(Debug)]
pub enum SlmpError {
    /// A complete, length-consistent frame arrived but the SLMP end code was
    /// non-zero: the device rejected this request. Bytes are still aligned to
    /// request boundaries, so the caller may continue on the same connection
    /// and treat only this request as failed.
    Device { end_code: u16 },
    /// The response structure itself is corrupt (bad length, bad fixed field or
    /// echo mismatch). The byte stream may be desynchronized; the caller should
    /// drop the connection.
    Framing(FramingError),
    /// A send, receive or connect deadline elapsed.
    Timeout,
    /// The stream is not connected.
    NotConnected,
    /// Any other transport failure (connection refused, reset, broken pipe,
    /// end of file, name or address resolution and so on).
    Io(std::io::Error),
}

/// Why a received response frame is structurally invalid.
#[derive(Debug, Clone, PartialEq, Eq)]
pub enum FramingError {
    /// Frame shorter than the minimum 4E response (fixed header and end code).
    ShortFrame { len: usize, min: usize },
    /// The declared data-block length disagrees with the bytes actually received.
    LengthMismatch { declared: usize, actual: usize },
    /// A fixed header field held an unexpected value.
    UnexpectedField { field: &'static str },
    /// An echo response body did not match the payload that was sent.
    EchoMismatch,
}

/// The kinds of `std::io::Error` that the client tells apart or reports itself.
#[derive(Copy, Clone, Debug, PartialEq, Eq, Structural)]
pub enum IoErrorKind {
    TimedOut,
    NotConnected,
    InvalidInput,
    AddrNotAvailable,
    UnexpectedEof,
    /// Every other kind.
    Other,
}

/// The kind of an I/O error, as `std::io::Error::kind` reports it.
pub uninterp spec fn io_error_kind(e: std::io::Error) -> IoErrorKind;

/// Asks an I/O error for its kind with `std::io::Error::kind`.
///
/// The kinds that [`IoErrorKind`] does not name come back as `Other`. Beyond that the
/// contract only gives the answer a name, so that one error always has one kind.
#[verifier::external_body]
fn kind_of(e: &std::io::Error) -> (kind: IoErrorKind)
    ensures
        kind == io_error_kind(*e),
{
    match e.kind() {
        std::io::ErrorKind::TimedOut => IoErrorKind::TimedOut,
        std::io::ErrorKind::NotConnected => IoErrorKind::NotConnected,
        std::io::ErrorKind::InvalidInput => IoErrorKind::InvalidInput,
        std::io::ErrorKind::AddrNotAvailable => IoErrorKind::AddrNotAvailable,
        std::io::ErrorKind::UnexpectedEof => IoErrorKind::UnexpectedEof,
        _ => IoErrorKind::Other,
    }
}

/// The I/O error that `std::io::Error::new` makes of a kind and a message.
pub uninterp spec fn made_io_error(kind: IoErrorKind, message: Seq<char>) -> std::io::Error;

/// Makes an I/O error of a kind and a message with `std::io::Error::new`.
///
/// The contract names the error, which the kind and the message determine, and claims that it
/// reports the kind that it was made with. It leaves unsaid how the error prints the message.
#[verifier::external_body]
fn new_io_error(kind: IoErrorKind, message: &'static str) -> (e: std::io::Error)
    ensures
        e == made_io_error(kind, message@),
        io_error_kind(e) == kind,
{
    let kind = match kind {
        IoErrorKind::TimedOut => std::io::ErrorKind::TimedOut,
        IoErrorKind::NotConnected => std::io::ErrorKind::NotConnected,
        IoErrorKind::InvalidInput => std::io::ErrorKind::InvalidInput,
        IoErrorKind::AddrNotAvailable => std::io::ErrorKind::AddrNotAvailable,
        IoErrorKind::UnexpectedEof => std::io::ErrorKind::UnexpectedEof,
        IoErrorKind::Other => std::io::ErrorKind::Other,
    };
    std::io::Error::new(kind, message)
}

/// Whether `e` reports a host name that no address belongs to.
pub open spec fn is_resolve_failed(e: std::io::Error) -> bool {
    &&& e == made_io_error(IoErrorKind::InvalidInput, "resolve failed"@)
    &&& io_error_kind(e) == IoErrorKind::InvalidInput
}

/// Whether `e` reports an address that no connection is open to.
pub open spec fn is_connection_not_found(e: std::io::Error) -> bool {
    &&& e == made_io_error(IoErrorKind::AddrNotAvailable, "Connection not found"@)
    &&& io_error_kind(e) == IoErrorKind::AddrNotAvailable
}

/// Whether `e` reports that the stream ended where a response was due.
pub open spec fn is_end_of_stream(e: std::io::Error) -> bool {
    &&& e == made_io_error(IoErrorKind::UnexpectedEof, "end of stream"@)
    &&& io_error_kind(e) == IoErrorKind::UnexpectedEof
}

/// The error for a host name that no address belongs to.
pub fn resolve_failed() -> (e: std::io::Error)
    ensures
        is_resolve_failed(e),
{
    new_io_error(IoErrorKind::InvalidInput, "resolve failed")
}

/// The error for an address that no connection is open to.
pub fn connection_not_found() -> (e: std::io::Error)
    ensures
        is_connection_not_found(e),
{
    new_io_error(IoErrorKind::AddrNotAvailable, "Connection not found")
}

/// The error for a stream that ended where a response was due.
pub fn end_of_stream() -> (e: std::io::Error)
    ensures
        is_end_of_stream(e),
{
    new_io_error(IoErrorKind::UnexpectedEof, "end of stream")
}

/// Whether `text` is a text that an I/O error prints with its `Display` impl.
///
/// An error may print more than one: for an error of the operating system the words are the
/// system's, and differ with its language.
pub uninterp spec fn io_error_prints(e: std::io::Error, text: Seq<char>) -> bool;

/// Prints an I/O error with its `Display` impl.
///
/// The contract claims that the text is one that this error prints. It leaves unsaid which words
/// those are.
#[verifier::external_body]
fn io_error_text(e: &std::io::Error) -> (text: String)
    ensures
        io_error_prints(*e, text@),
{
    format!("{}", e)
}

/// What an I/O error means to the caller: an elapsed deadline and a missing connection have
/// variants of their own, everything else is carried along.
pub open spec fn from_io(e: std::io::Error) -> SlmpError {
    sorted_by(io_error_kind(e), e)
}

/// What an I/O error of a kind means to the caller.
pub open spec fn sorted_by(kind: IoErrorKind, e: std::io::Error) -> SlmpError {
    match kind {
        IoErrorKind::TimedOut => SlmpError::Timeout,
        IoErrorKind::NotConnected => SlmpError::NotConnected,
        _ => SlmpError::Io(e),
    }
}

/// Sorts an I/O error by its kind.
pub fn sort_io_error(kind: IoErrorKind, e: std::io::Error) -> (error: SlmpError)
    ensures
        error == sorted_by(kind, e),
{
    match kind {
        IoErrorKind::TimedOut => SlmpError::Timeout,
        IoErrorKind::NotConnected => SlmpError::NotConnected,
        _ => SlmpError::Io(e),
    }
}

impl From<std::io::Error> for SlmpError {
    fn from(e: std::io::Error) -> (error: Self) {
        let kind: IoErrorKind = kind_of(&e);
        sort_io_error(kind, e)
    }
}

impl vstd::std_specs::convert::FromSpecImpl<std::io::Error> for SlmpError {
    open spec fn obeys_from_spec() -> bool {
        true
    }

    open spec fn from_spec(e: std::io::Error) -> Self {
        from_io(e)
    }
}

/// The name of an end code.
pub open spec fn end_code_name_spec(code: u16) -> Seq<char> {
    if code == 0xC059 {
        "WrongCommand"@
    } else if code == 0xC05C {
        "WrongFormat"@
    } else if code == 0xC061 {
        "WrongLength"@
    } else if code == 0xCEE0 {
        "Busy"@
    } else if code == 0xCEE1 {
        "ExceedReqLength"@
    } else if code == 0xCEE2 {
        "ExceedRespLength"@
    } else if code == 0xCF10 {
        "ServerNotFound"@
    } else if code == 0xCF20 {
        "WrongConfigItem"@
    } else if code == 0xCF30 {
        "PrmIDNotFound"@
    } else if code == 0xCF31 {
        "NotStartExclusiveWrite"@
    } else if code == 0xCF70 {
        "RelayFailure"@
    } else if code == 0xCF71 {
        "TimeoutError"@
    } else {
        "Unknown Error"@
    }
}

/// The symbolic name of a non-zero SLMP end code, or `"Unknown Error"`.
pub fn end_code_name(code: u16) -> (name: &'static str)
    ensures
        name@ == end_code_name_spec(code),
{
    match code {
        0xC059 => "WrongCommand",
        0xC05C => "WrongFormat",
        0xC061 => "WrongLength",
        0xCEE0 => "Busy",
        0xCEE1 => "ExceedReqLength",
        0xCEE2 => "ExceedRespLength",
        0xCF10 => "ServerNotFound",
        0xCF20 => "WrongConfigItem",
        0xCF30 => "PrmIDNotFound",
        0xCF31 => "NotStartExclusiveWrite",
        0xCF70 => "RelayFailure",
        0xCF71 => "TimeoutError",
        _ => "Unknown Error",
    }
}

/// The text of a framing error.
pub open spec fn framing_text(error: FramingError) -> Seq<char> {
    match error {
        FramingError::ShortFrame { len, min } => "response frame too short: got "@ + text::decimal(
            len as nat,
        ) + " bytes, need at least "@ + text::decimal(min as nat),
        FramingError::LengthMismatch { declared, actual } => "declared data length "@ + text::decimal(
            declared as nat,
        ) + " does not match actual data length "@ + text::decimal(actual as nat),
        FramingError::UnexpectedField { field } => "unexpected value in field '"@ + field@ + "'"@,
        FramingError::EchoMismatch =>
            "echo response body did not match the payload that was sent"@,
    }
}

/// The text of an error, where `io_text` is the text of the I/O error that it may carry.
pub open spec fn error_text(error: SlmpError, io_text: Seq<char>) -> Seq<char> {
    match error {
        SlmpError::Device { end_code } => "SLMP device error: "@ + end_code_name_spec(end_code)
            + " (0x"@ + text::hex4(end_code) + ")"@,
        SlmpError::Framing(e) => "SLMP framing error: "@ + framing_text(e),
        SlmpError::Timeout => "SLMP operation timed out"@,
        SlmpError::NotConnected => "SLMP stream is not connected"@,
        SlmpError::Io(_) => "SLMP I/O error: "@ + io_text,
    }
}

/// The I/O error that an error carries.
pub open spec fn cause_of(error: SlmpError) -> Option<std::io::Error> {
    match error {
        SlmpError::Io(e) => Some(e),
        _ => None,
    }
}

impl FramingError {
    /// The error in words.
    pub fn message(&self) -> (text: String)
        ensures
            text@ == framing_text(*self),
    {
        let mut text: String = String::new();
        match self {
            FramingError::ShortFrame { len, min } => {
                text.append("response frame too short: got ");
                text.append(text::decimal_text(*len).as_str());
                text.append(" bytes, need at least ");
                text.append(text::decimal_text(*min).as_str());
            },
            FramingError::LengthMismatch { declared, actual } => {
                text.append("declared data length ");
                text.append(text::decimal_text(*declared).as_str());
                text.append(" does not match actual data length ");
                text.append(text::decimal_text(*actual).as_str());
            },
            FramingError::UnexpectedField { field } => {
                text.append("unexpected value in field '");
                text.append(field);
                text.append("'");
            },
            FramingError::EchoMismatch => {
                text.append("echo response body did not match the payload that was sent");
            },
        }
        assert(text@ =~= framing_text(*self));
        text
    }
}

impl SlmpError {
    /// The error in words, with `io_text` for the I/O error that it may carry.
    pub fn message_with(&self, io_text: &str) -> (text: String)
        ensures
            text@ == error_text(*self, io_text@),
    {
        let mut text: String = String::new();
        match self {
            SlmpError::Device { end_code } => {
                text.append("SLMP device error: ");
                text.append(end_code_name(*end_code));
                text.append(" (0x");
                text.append(text::hex4_text(*end_code).as_str());
                text.append(")");
            },
            SlmpError::Framing(e) => {
                text.append("SLMP framing error: ");
                text.append(e.message().as_str());
            },
            SlmpError::Timeout => {
                text.append("SLMP operation timed out");
            },
            SlmpError::NotConnected => {
                text.append("SLMP stream is not connected");
            },
            SlmpError::Io(_) => {
                text.append("SLMP I/O error: ");
                text.append(io_text);
            },
        }
        assert(text@ =~= error_text(*self, io_text@));
        text
    }

    /// The error in words.
    ///
    /// A carried I/O error prints itself, in words that are the operating system's own.
    pub fn message(&self) -> (text: String)
        ensures
            match *self {
                SlmpError::Io(e) => exists|io_text: Seq<char>| #[trigger]
                    io_error_prints(e, io_text) && text@ == error_text(*self, io_text),
                _ => text@ == error_text(*self, Seq::empty()),
            },
    {
        match self {
            SlmpError::Io(e) => {
                let io_text: String = io_error_text(e);
                self.message_with(io_text.as_str())
            },
            _ => {
                proof {
                    reveal_strlit("");
                    assert(""@ =~= Seq::<char>::empty());
                }
                self.message_with("")
            },
        }
    }

    /// The I/O error that caused this error, if one did.
    pub fn source(&self) -> (cause: Option<&std::io::Error>)
        ensures
            cause == match cause_of(*self) {
                Some(e) => Some(&e),
                None => None::<&std::io::Error>,
            },
    {
        match self {
            SlmpError::Io(e) => Some(e),
            _ => None,
        }
    }
}

/// The name of an end code tells the named codes apart, from each other and from the rest.
pub proof fn law_end_code_names_distinct(a: u16, b: u16)
    requires
        a != b,
        end_code_name_spec(a) != "Unknown Error"@,
    ensures
        end_code_name_spec(a) != end_code_name_spec(b),
{
    reveal_strlit("WrongCommand");
    reveal_strlit("WrongFormat");
    reveal_strlit("WrongLength");
    reveal_strlit("Busy");
    reveal_strlit("ExceedReqLength");
    reveal_strlit("ExceedRespLength");
    reveal_strlit("ServerNotFound");
    reveal_strlit("WrongConfigItem");
    reveal_strlit("PrmIDNotFound");
    reveal_strlit("NotStartExclusiveWrite");
    reveal_strlit("RelayFailure");
    reveal_strlit("TimeoutError");
    reveal_strlit("Unknown Error");
    let s = end_code_name_spec(a);
    let t = end_code_name_spec(b);
    if s.len() == t.len() {
        assert(s[0] != t[0] || s[1] != t[1] || s[5] != t[5] || s[6] != t[6]);
    }
}

/// Only an elapsed deadline reads as a timeout, only a missing connection as not connected, and
/// no I/O error reads as a rejection by the device or as a corrupt frame.
pub proof fn law_io_errors_by_kind(e: std::io::Error)
    ensures
        from_io(e) is Timeout <==> io_error_kind(e) is TimedOut,
        from_io(e) is NotConnected <==> io_error_kind(e) is NotConnected,
        from_io(e) is Io <==> !(io_error_kind(e) is TimedOut || io_error_kind(e) is NotConnected),
        from_io(e) is Io ==> from_io(e) == SlmpError::Io(e),
        !(from_io(e) is Device),
        !(from_io(e) is Framing),
{
}


/// Which kind of I/O error becomes which error, for every kind; and the cause of an error is the I/O
/// error that it was made of, where it still carries it.
pub proof fn law_kinds_are_kept_apart(kind: IoErrorKind, e: std::io::Error, other: SlmpError)
    ensures
        sorted_by(kind, e) is Timeout <==> kind is TimedOut,
        sorted_by(kind, e) is NotConnected <==> kind is NotConnected,
        kind is TimedOut || kind is NotConnected || sorted_by(kind, e) == SlmpError::Io(e),
        cause_of(SlmpError::Io(e)) == Some(e),
        cause_of(other) is Some <==> other is Io,
{
}

/// The errors that the library makes itself, by kind and message.
pub proof fn law_own_errors(e: std::io::Error)
    ensures
        is_resolve_failed(e) ==> e == made_io_error(IoErrorKind::InvalidInput, "resolve failed"@)
            && from_io(e) == SlmpError::Io(e),
        is_connection_not_found(e) ==> e == made_io_error(
            IoErrorKind::AddrNotAvailable,
            "Connection not found"@,
        ) && from_io(e) == SlmpError::Io(e),
        is_end_of_stream(e) ==> e == made_io_error(IoErrorKind::UnexpectedEof, "end of stream"@)
            && from_io(e) == SlmpError::Io(e),
{
}

/// Every name belongs to one end code, and all other codes are unknown.
pub proof fn law_one_code_per_name(code: u16)
    ensures
        end_code_name_spec(code) == "WrongCommand"@ <==> code == 0xC059,
        end_code_name_spec(code) == "WrongFormat"@ <==> code == 0xC05C,
        end_code_name_spec(code) == "WrongLength"@ <==> code == 0xC061,
        end_code_name_spec(code) == "Busy"@ <==> code == 0xCEE0,
        end_code_name_spec(code) == "ExceedReqLength"@ <==> code == 0xCEE1,
        end_code_name_spec(code) == "ExceedRespLength"@ <==> code == 0xCEE2,
        end_code_name_spec(code) == "ServerNotFound"@ <==> code == 0xCF10,
        end_code_name_spec(code) == "WrongConfigItem"@ <==> code == 0xCF20,
        end_code_name_spec(code) == "PrmIDNotFound"@ <==> code == 0xCF30,
        end_code_name_spec(code) == "NotStartExclusiveWrite"@ <==> code == 0xCF31,
        end_code_name_spec(code) == "RelayFailure"@ <==> code == 0xCF70,
        end_code_name_spec(code) == "TimeoutError"@ <==> code == 0xCF71,
        end_code_name_spec(code) == "Unknown Error"@ <==> !(seq![
            0xC059u16, 0xC05C, 0xC061, 0xCEE0, 0xCEE1, 0xCEE2, 0xCF10, 0xCF20, 0xCF30, 0xCF31,
            0xCF70, 0xCF71,
        ].contains(code)),
{
    lemma_names_differ();
    let named = seq![
        0xC059u16, 0xC05C, 0xC061, 0xCEE0, 0xCEE1, 0xCEE2, 0xCF10, 0xCF20, 0xCF30, 0xCF31, 0xCF70,
        0xCF71,
    ];
    assert(named[0] == 0xC059 && named[1] == 0xC05C && named[2] == 0xC061 && named[3] == 0xCEE0);
    assert(named[4] == 0xCEE1 && named[5] == 0xCEE2 && named[6] == 0xCF10 && named[7] == 0xCF20);
    assert(named[8] == 0xCF30 && named[9] == 0xCF31 && named[10] == 0xCF70 && named[11] == 0xCF71);
}

/// No two names are equal: they differ in length, or in one of a few places.
proof fn lemma_names_differ()
    ensures
        forall|a: u16, b: u16|
            #![trigger end_code_name_spec(a), end_code_name_spec(b)]
            a != b && end_code_name_spec(a) != "Unknown Error"@ ==> end_code_name_spec(a)
                != end_code_name_spec(b),
        end_code_name_spec(0xC059) == "WrongCommand"@,
        end_code_name_spec(0xC05C) == "WrongFormat"@,
        end_code_name_spec(0xC061) == "WrongLength"@,
        end_code_name_spec(0xCEE0) == "Busy"@,
        end_code_name_spec(0xCEE1) == "ExceedReqLength"@,
        end_code_name_spec(0xCEE2) == "ExceedRespLength"@,
        end_code_name_spec(0xCF10) == "ServerNotFound"@,
        end_code_name_spec(0xCF20) == "WrongConfigItem"@,
        end_code_name_spec(0xCF30) == "PrmIDNotFound"@,
        end_code_name_spec(0xCF31) == "NotStartExclusiveWrite"@,
        end_code_name_spec(0xCF70) == "RelayFailure"@,
        end_code_name_spec(0xCF71) == "TimeoutError"@,
        end_code_name_spec(0) == "Unknown Error"@,
        "WrongCommand"@ != "Unknown Error"@,
        "WrongFormat"@ != "Unknown Error"@,
        "WrongLength"@ != "Unknown Error"@,
        "Busy"@ != "Unknown Error"@,
        "ExceedReqLength"@ != "Unknown Error"@,
        "ExceedRespLength"@ != "Unknown Error"@,
        "ServerNotFound"@ != "Unknown Error"@,
        "WrongConfigItem"@ != "Unknown Error"@,
        "PrmIDNotFound"@ != "Unknown Error"@,
        "NotStartExclusiveWrite"@ != "Unknown Error"@,
        "RelayFailure"@ != "Unknown Error"@,
        "TimeoutError"@ != "Unknown Error"@,
{
    assert forall|a: u16, b: u16|
        #![trigger end_code_name_spec(a), end_code_name_spec(b)]
        a != b && end_code_name_spec(a) != "Unknown Error"@ implies end_code_name_spec(a)
        != end_code_name_spec(b) by {
        law_end_code_names_distinct(a, b);
    }
    reveal_strlit("Unknown Error");
    reveal_strlit("WrongCommand");
    reveal_strlit("WrongFormat");
    reveal_strlit("WrongLength");
    reveal_strlit("Busy");
    reveal_strlit("ExceedReqLength");
    reveal_strlit("ExceedRespLength");
    reveal_strlit("ServerNotFound");
    reveal_strlit("WrongConfigItem");
    reveal_strlit("PrmIDNotFound");
    reveal_strlit("NotStartExclusiveWrite");
    reveal_strlit("RelayFailure");
    reveal_strlit("TimeoutError");
    assert("PrmIDNotFound"@[0] != "Unknown Error"@[0]);
}

/// The words of each error: every number, name and field that an error holds stands in its text, at
/// its place.
pub proof fn law_errors_name_what_they_hold(
    len: usize,
    min: usize,
    declared: usize,
    actual: usize,
    field: &'static str,
    code: u16,
    framing: FramingError,
    e: std::io::Error,
    io_text: Seq<char>,
)
    ensures
        framing_text(FramingError::ShortFrame { len, min }) == "response frame too short: got "@
            + text::decimal(len as nat) + " bytes, need at least "@ + text::decimal(min as nat),
        framing_text(FramingError::LengthMismatch { declared, actual }) == "declared data length "@
            + text::decimal(declared as nat) + " does not match actual data length "@
            + text::decimal(actual as nat),
        framing_text(FramingError::UnexpectedField { field }) == "unexpected value in field '"@
            + field@ + "'"@,
        framing_text(FramingError::EchoMismatch)
            == "echo response body did not match the payload that was sent"@,
        error_text(SlmpError::Device { end_code: code }, io_text) == "SLMP device error: "@
            + end_code_name_spec(code) + " (0x"@ + text::hex4(code) + ")"@,
        error_text(SlmpError::Framing(framing), io_text) == "SLMP framing error: "@ + framing_text(
            framing,
        ),
        error_text(SlmpError::Timeout, io_text) == "SLMP operation timed out"@,
        error_text(SlmpError::NotConnected, io_text) == "SLMP stream is not connected"@,
        error_text(SlmpError::Io(e), io_text) == "SLMP I/O error: "@ + io_text,
{
}

} // verus!
