//! MCTP error types: service response codes and the client-facing error.

use vstd::prelude::*;

verus! {

/// Response codes from the MCTP service. Their wire byte is their position
/// in this list, starting at `0` for `Success`.
#[derive(Debug, Clone, Copy, PartialEq, Eq, Hash, Structural)]
pub enum ResponseCode {
    /// Operation completed successfully.
    Success,
    /// Internal server error.
    InternalError,
    /// No space available (e.g., message buffers full).
    NoSpace,
    /// Address/handle already in use.
    AddrInUse,
    /// Operation timed out.
    TimedOut,
    /// Invalid argument provided.
    BadArgument,
    /// Server restarted, state lost.
    ServerRestarted,
}

/// The wire byte of a response code.
pub open spec fn code_byte(c: ResponseCode) -> u8 {
    match c {
        ResponseCode::Success => 0,
        ResponseCode::InternalError => 1,
        ResponseCode::NoSpace => 2,
        ResponseCode::AddrInUse => 3,
        ResponseCode::TimedOut => 4,
        ResponseCode::BadArgument => 5,
        ResponseCode::ServerRestarted => 6,
    }
}

/// The response code a wire byte names, if any.
pub open spec fn code_of_byte(value: u8) -> Option<ResponseCode> {
    if value == 0 {
        Some(ResponseCode::Success)
    } else if value == 1 {
        Some(ResponseCode::InternalError)
    } else if value == 2 {
        Some(ResponseCode::NoSpace)
    } else if value == 3 {
        Some(ResponseCode::AddrInUse)
    } else if value == 4 {
        Some(ResponseCode::TimedOut)
    } else if value == 5 {
        Some(ResponseCode::BadArgument)
    } else if value == 6 {
        Some(ResponseCode::ServerRestarted)
    } else {
        None
    }
}

impl ResponseCode {
    /// Returns `true` if this represents a successful operation.
    pub fn is_success(self) -> (r: bool)
        ensures
            r == (self == ResponseCode::Success),
    {
        matches!(self, ResponseCode::Success)
    }

    /// Returns `true` if this represents an error condition.
    pub fn is_error(self) -> (r: bool)
        ensures
            r == (self != ResponseCode::Success),
    {
        !self.is_success()
    }

    /// Converts from a raw u8 value.
    pub fn from_u8(value: u8) -> (r: Option<Self>)
        ensures
            r == code_of_byte(value),
    {
        match value {
            0 => Some(ResponseCode::Success),
            1 => Some(ResponseCode::InternalError),
            2 => Some(ResponseCode::NoSpace),
            3 => Some(ResponseCode::AddrInUse),
            4 => Some(ResponseCode::TimedOut),
            5 => Some(ResponseCode::BadArgument),
            6 => Some(ResponseCode::ServerRestarted),
            _ => None,
        }
    }

    /// The wire byte of this code.
    pub fn to_u8(self) -> (r: u8)
        ensures
            r == code_byte(self),
    {
        match self {
            ResponseCode::Success => 0,
            ResponseCode::InternalError => 1,
            ResponseCode::NoSpace => 2,
            ResponseCode::AddrInUse => 3,
            ResponseCode::TimedOut => 4,
            ResponseCode::BadArgument => 5,
            ResponseCode::ServerRestarted => 6,
        }
    }

    /// The human-readable name of this code.
    pub fn name(self) -> (r: &'static str)
        ensures
            r@ == code_name(self)@,
    {
        match self {
            ResponseCode::Success => "success",
            ResponseCode::InternalError => "internal error",
            ResponseCode::NoSpace => "no space",
            ResponseCode::AddrInUse => "address in use",
            ResponseCode::TimedOut => "timed out",
            ResponseCode::BadArgument => "bad argument",
            ResponseCode::ServerRestarted => "server restarted",
        }
    }
}

/// The human-readable name of a response code.
pub open spec fn code_name(c: ResponseCode) -> &'static str {
    match c {
        ResponseCode::Success => "success",
        ResponseCode::InternalError => "internal error",
        ResponseCode::NoSpace => "no space",
        ResponseCode::AddrInUse => "address in use",
        ResponseCode::TimedOut => "timed out",
        ResponseCode::BadArgument => "bad argument",
        ResponseCode::ServerRestarted => "server restarted",
    }
}

/// Decoding a code's wire byte gives the code back.
pub proof fn lemma_code_byte_roundtrip(c: ResponseCode)
    ensures
        code_of_byte(code_byte(c)) == Some(c),
{
}

/// MCTP operation error: the main error type of MCTP client operations.
#[derive(Debug, Clone, Copy, PartialEq, Eq, Structural)]
pub struct MctpError {
    /// The response code from the service.
    pub code: ResponseCode,
}

impl MctpError {
    /// Creates a new error from a response code.
    pub fn from_code(code: ResponseCode) -> (r: Self)
        ensures
            r.code == code,
    {
        MctpError { code }
    }

    /// Returns `true` if this is a timeout error.
    pub fn is_timeout(&self) -> (r: bool)
        ensures
            r == (self.code == ResponseCode::TimedOut),
    {
        matches!(self.code, ResponseCode::TimedOut)
    }
}

impl From<ResponseCode> for MctpError {
    fn from(code: ResponseCode) -> (r: Self) {
        MctpError::from_code(code)
    }
}

impl vstd::std_specs::convert::FromSpecImpl<ResponseCode> for MctpError {
    open spec fn obeys_from_spec() -> bool {
        true
    }

    open spec fn from_spec(v: ResponseCode) -> MctpError {
        MctpError { code: v }
    }
}

/// The kinds of `mctp::Error`, as plain values the library decides on.
#[derive(Debug, Clone, Copy, PartialEq, Eq, Structural)]
pub enum MctpErrorKind {
    TxFailure,
    RxFailure,
    TimedOut,
    BadArgument,
    InvalidInput,
    TagUnavailable,
    Unreachable,
    AddrInUse,
    NoSpace,
    Unsupported,
    Other,
    InternalError,
    /// An I/O error from a transport binding.
    Io,
}

#[verifier::external_type_specification]
#[verifier::external_body]
pub struct ExMctpError(mctp::Error);

/// The kind of an `mctp::Error`: which of its variants it is. The error is
/// opaque to the library, so the kind is named rather than spelled out.
pub uninterp spec fn error_kind(e: mctp::Error) -> MctpErrorKind;

/// Tells the variants of an `mctp::Error` apart, one arm each; a variant
/// added later reads as `Other`. The contract claims only that the answer
/// is the kind of `e`, fixed by `e` alone.
#[verifier::external_body]
fn mctp_error_kind(e: &mctp::Error) -> (k: MctpErrorKind)
    ensures
        k == error_kind(*e),
{
    match e {
        mctp::Error::TxFailure => MctpErrorKind::TxFailure,
        mctp::Error::RxFailure => MctpErrorKind::RxFailure,
        mctp::Error::TimedOut => MctpErrorKind::TimedOut,
        mctp::Error::BadArgument => MctpErrorKind::BadArgument,
        mctp::Error::InvalidInput => MctpErrorKind::InvalidInput,
        mctp::Error::TagUnavailable => MctpErrorKind::TagUnavailable,
        mctp::Error::Unreachable => MctpErrorKind::Unreachable,
        mctp::Error::AddrInUse => MctpErrorKind::AddrInUse,
        mctp::Error::NoSpace => MctpErrorKind::NoSpace,
        mctp::Error::Unsupported => MctpErrorKind::Unsupported,
        mctp::Error::Other => MctpErrorKind::Other,
        mctp::Error::InternalError => MctpErrorKind::InternalError,
        mctp::Error::Io(_) => MctpErrorKind::Io, _ => MctpErrorKind::Other,
    }
}

/// The response code the server reports for a stack error: the kinds with
/// a code of their own keep it, every other kind is an internal error.
pub open spec fn kind_response_code(k: MctpErrorKind) -> ResponseCode {
    match k {
        MctpErrorKind::InternalError => ResponseCode::InternalError,
        MctpErrorKind::NoSpace => ResponseCode::NoSpace,
        MctpErrorKind::AddrInUse => ResponseCode::AddrInUse,
        MctpErrorKind::TimedOut => ResponseCode::TimedOut,
        MctpErrorKind::BadArgument => ResponseCode::BadArgument,
        _ => ResponseCode::InternalError,
    }
}

/// The server error for a stack error of kind `kind`.
pub fn server_error_for(kind: MctpErrorKind) -> (r: MctpError)
    ensures
        r.code == kind_response_code(kind),
{
    let code = match kind {
        MctpErrorKind::InternalError => ResponseCode::InternalError,
        MctpErrorKind::NoSpace => ResponseCode::NoSpace,
        MctpErrorKind::AddrInUse => ResponseCode::AddrInUse,
        MctpErrorKind::TimedOut => ResponseCode::TimedOut,
        MctpErrorKind::BadArgument => ResponseCode::BadArgument,
        _ => ResponseCode::InternalError,
    };
    MctpError::from_code(code)
}

/// Maps an error of the MCTP stack to the server's error: the code is the
/// one `kind_response_code` gives the error's kind.
pub fn mctp_error_to_server_error(e: mctp::Error) -> (r: MctpError)
    ensures
        r.code == kind_response_code(error_kind(e)),
{
    let kind = mctp_error_kind(&e);
    server_error_for(kind)
}

} // verus!
