//! The status registry: the closed set of HTTP status codes, each with its
//! number and its canonical reason phrase, and the lookups between them.

use crate::text::{chars_of, decimal, decimal_string, parse_digits, read_digits};
use vstd::prelude::*;

verus! {

/// The number that stands for a status token that spells no number.
pub const UNRECOGNIZED: u16 = 999;

/// An HTTP status. `Unknown` carries the number of a code that the registry
/// does not list, so that it leaves as it came.
#[derive(Debug, Clone, Copy, PartialEq, Eq, Structural)]
pub enum StatusCode {
    Unknown(u16),
    // Informational
    Continue,
    SwitchingProtocols,
    Processing,
    EarlyHints,
    // Successful
    OK,
    Created,
    Accepted,
    NonAuthoritativeInformation,
    NoContent,
    ResetContent,
    PartialContent,
    MultiStatus,
    AlreadyReported,
    IMUsed,
    // Redirection
    MultipleChoices,
    MovedPermanently,
    Found,
    SeeOther,
    NotModified,
    UseProxy,
    Unused,
    TemporaryRedirect,
    PermanentRedirect,
    // Client error
    BadRequest,
    Unauthorized,
    PaymentRequired,
    Forbidden,
    NotFound,
    MethodNotAllowed,
    NotAcceptable,
    ProxyAuthenticationRequired,
    RequestTimeout,
    Conflict,
    Gone,
    LengthRequired,
    PreconditionFailed,
    ContentTooLarge,
    URLTooLong,
    UnsupportedMediaType,
    RangeNotSatisfiable,
    ExpectationFailed,
    ImATeapot,
    MisdirectedRequest,
    UnprocessableContent,
    Locked,
    FailedDependency,
    TooEarly,
    UpgradeRequired,
    PreconditionRequired,
    TooManyRequests,
    RequestHeaderFieldsTooLarge,
    UnavailableForLegalReasons,
    // Server error
    InternalServerError,
    NotImplemented,
    BadGateway,
    ServiceUnavailable,
    GatewayTimeout,
    HTTPVersionNotSupported,
    VariantAlsoNegotiates,
    InsufficientStorage,
    LoopDetected,
    NotExtended,
    NetworkAuthenticationRequired,
}

impl StatusCode {
    /// The number of this status.
    pub open spec fn number(self) -> u16 {
        match self {
            StatusCode::Unknown(n) => n,
            StatusCode::Continue => 100,
            StatusCode::SwitchingProtocols => 101,
            StatusCode::Processing => 102,
            StatusCode::EarlyHints => 103,
            StatusCode::OK => 200,
            StatusCode::Created => 201,
            StatusCode::Accepted => 202,
            StatusCode::NonAuthoritativeInformation => 203,
            StatusCode::NoContent => 204,
            StatusCode::ResetContent => 205,
            StatusCode::PartialContent => 206,
            StatusCode::MultiStatus => 207,
            StatusCode::AlreadyReported => 208,
            StatusCode::IMUsed => 226,
            StatusCode::MultipleChoices => 300,
            StatusCode::MovedPermanently => 301,
            StatusCode::Found => 302,
            StatusCode::SeeOther => 303,
            StatusCode::NotModified => 304,
            StatusCode::UseProxy => 305,
            StatusCode::Unused => 306,
            StatusCode::TemporaryRedirect => 307,
            StatusCode::PermanentRedirect => 308,
            StatusCode::BadRequest => 400,
            StatusCode::Unauthorized => 401,
            StatusCode::PaymentRequired => 402,
            StatusCode::Forbidden => 403,
            StatusCode::NotFound => 404,
            StatusCode::MethodNotAllowed => 405,
            StatusCode::NotAcceptable => 406,
            StatusCode::ProxyAuthenticationRequired => 407,
            StatusCode::RequestTimeout => 408,
            StatusCode::Conflict => 409,
            StatusCode::Gone => 410,
            StatusCode::LengthRequired => 411,
            StatusCode::PreconditionFailed => 412,
            StatusCode::ContentTooLarge => 413,
            StatusCode::URLTooLong => 414,
            StatusCode::UnsupportedMediaType => 415,
            StatusCode::RangeNotSatisfiable => 416,
            StatusCode::ExpectationFailed => 417,
            StatusCode::ImATeapot => 418,
            StatusCode::MisdirectedRequest => 421,
            StatusCode::UnprocessableContent => 422,
            StatusCode::Locked => 423,
            StatusCode::FailedDependency => 424,
            StatusCode::TooEarly => 425,
            StatusCode::UpgradeRequired => 426,
            StatusCode::PreconditionRequired => 428,
            StatusCode::TooManyRequests => 429,
            StatusCode::RequestHeaderFieldsTooLarge => 431,
            StatusCode::UnavailableForLegalReasons => 451,
            StatusCode::InternalServerError => 500,
            StatusCode::NotImplemented => 501,
            StatusCode::BadGateway => 502,
            StatusCode::ServiceUnavailable => 503,
            StatusCode::GatewayTimeout => 504,
            StatusCode::HTTPVersionNotSupported => 505,
            StatusCode::VariantAlsoNegotiates => 506,
            StatusCode::InsufficientStorage => 507,
            StatusCode::LoopDetected => 508,
            StatusCode::NotExtended => 510,
            StatusCode::NetworkAuthenticationRequired => 511,
        }
    }

    /// The status that the registry lists under `n`, or `Unknown(n)`.
    pub open spec fn of_number(n: u16) -> StatusCode {
        if n == 100 {
            StatusCode::Continue
        }
        else if n == 101 {
            StatusCode::SwitchingProtocols
        }
        else if n == 102 {
            StatusCode::Processing
        }
        else if n == 103 {
            StatusCode::EarlyHints
        }
        else if n == 200 {
            StatusCode::OK
        }
        else if n == 201 {
            StatusCode::Created
        }
        else if n == 202 {
            StatusCode::Accepted
        }
        else if n == 203 {
            StatusCode::NonAuthoritativeInformation
        }
        else if n == 204 {
            StatusCode::NoContent
        }
        else if n == 205 {
            StatusCode::ResetContent
        }
        else if n == 206 {
            StatusCode::PartialContent
        }
        else if n == 207 {
            StatusCode::MultiStatus
        }
        else if n == 208 {
            StatusCode::AlreadyReported
        }
        else if n == 226 {
            StatusCode::IMUsed
        }
        else if n == 300 {
            StatusCode::MultipleChoices
        }
        else if n == 301 {
            StatusCode::MovedPermanently
        }
        else if n == 302 {
            StatusCode::Found
        }
        else if n == 303 {
            StatusCode::SeeOther
        }
        else if n == 304 {
            StatusCode::NotModified
        }
        else if n == 305 {
            StatusCode::UseProxy
        }
        else if n == 306 {
            StatusCode::Unused
        }
        else if n == 307 {
            StatusCode::TemporaryRedirect
        }
        else if n == 308 {
            StatusCode::PermanentRedirect
        }
        else if n == 400 {
            StatusCode::BadRequest
        }
        else if n == 401 {
            StatusCode::Unauthorized
        }
        else if n == 402 {
            StatusCode::PaymentRequired
        }
        else if n == 403 {
            StatusCode::Forbidden
        }
        else if n == 404 {
            StatusCode::NotFound
        }
        else if n == 405 {
            StatusCode::MethodNotAllowed
        }
        else if n == 406 {
            StatusCode::NotAcceptable
        }
        else if n == 407 {
            StatusCode::ProxyAuthenticationRequired
        }
        else if n == 408 {
            StatusCode::RequestTimeout
        }
        else if n == 409 {
            StatusCode::Conflict
        }
        else if n == 410 {
            StatusCode::Gone
        }
        else if n == 411 {
            StatusCode::LengthRequired
        }
        else if n == 412 {
            StatusCode::PreconditionFailed
        }
        else if n == 413 {
            StatusCode::ContentTooLarge
        }
        else if n == 414 {
            StatusCode::URLTooLong
        }
        else if n == 415 {
            StatusCode::UnsupportedMediaType
        }
        else if n == 416 {
            StatusCode::RangeNotSatisfiable
        }
        else if n == 417 {
            StatusCode::ExpectationFailed
        }
        else if n == 418 {
            StatusCode::ImATeapot
        }
        else if n == 421 {
            StatusCode::MisdirectedRequest
        }
        else if n == 422 {
            StatusCode::UnprocessableContent
        }
        else if n == 423 {
            StatusCode::Locked
        }
        else if n == 424 {
            StatusCode::FailedDependency
        }
        else if n == 425 {
            StatusCode::TooEarly
        }
        else if n == 426 {
            StatusCode::UpgradeRequired
        }
        else if n == 428 {
            StatusCode::PreconditionRequired
        }
        else if n == 429 {
            StatusCode::TooManyRequests
        }
        else if n == 431 {
            StatusCode::RequestHeaderFieldsTooLarge
        }
        else if n == 451 {
            StatusCode::UnavailableForLegalReasons
        }
        else if n == 500 {
            StatusCode::InternalServerError
        }
        else if n == 501 {
            StatusCode::NotImplemented
        }
        else if n == 502 {
            StatusCode::BadGateway
        }
        else if n == 503 {
            StatusCode::ServiceUnavailable
        }
        else if n == 504 {
            StatusCode::GatewayTimeout
        }
        else if n == 505 {
            StatusCode::HTTPVersionNotSupported
        }
        else if n == 506 {
            StatusCode::VariantAlsoNegotiates
        }
        else if n == 507 {
            StatusCode::InsufficientStorage
        }
        else if n == 508 {
            StatusCode::LoopDetected
        }
        else if n == 510 {
            StatusCode::NotExtended
        }
        else if n == 511 {
            StatusCode::NetworkAuthenticationRequired
        }
        else {
            StatusCode::Unknown(n)
        }
    }

    /// Whether the registry lists this status: every variant but `Unknown`.
    pub open spec fn is_listed(self) -> bool {
        !(self is Unknown)
    }

    /// Whether this value is the one that stands for its number: a listed
    /// status, or `Unknown` with a number that the registry does not list.
    pub open spec fn is_canonical(self) -> bool {
        StatusCode::of_number(self.number()) == self
    }

    /// The canonical reason phrase of this status.
    pub open spec fn reason(self) -> Seq<char> {
        match self {
            StatusCode::Unknown(_) => "Unknown"@,
            StatusCode::Continue => "Continue"@,
            StatusCode::SwitchingProtocols => "Switching Protocols"@,
            StatusCode::Processing => "Processing"@,
            StatusCode::EarlyHints => "Early Hints"@,
            StatusCode::OK => "OK"@,
            StatusCode::Created => "Created"@,
            StatusCode::Accepted => "Accepted"@,
            StatusCode::NonAuthoritativeInformation => "Non Authoritative Information"@,
            StatusCode::NoContent => "No Content"@,
            StatusCode::ResetContent => "Reset Content"@,
            StatusCode::PartialContent => "Partial Content"@,
            StatusCode::MultiStatus => "Multi-Status"@,
            StatusCode::AlreadyReported => "Already Reported"@,
            StatusCode::IMUsed => "IM Used"@,
            StatusCode::MultipleChoices => "Multiple Choices"@,
            StatusCode::MovedPermanently => "Moved Permanently"@,
            StatusCode::Found => "Found"@,
            StatusCode::SeeOther => "See Other"@,
            StatusCode::NotModified => "Not Modified"@,
            StatusCode::UseProxy => "Use Proxy"@,
            StatusCode::Unused => "Unused"@,
            StatusCode::TemporaryRedirect => "Temporary Redirect"@,
            StatusCode::PermanentRedirect => "Permanent Redirect"@,
            StatusCode::BadRequest => "Bad Request"@,
            StatusCode::Unauthorized => "Unauthorized"@,
            StatusCode::PaymentRequired => "Payment Required"@,
            StatusCode::Forbidden => "Forbidden"@,
            StatusCode::NotFound => "Not Found"@,
            StatusCode::MethodNotAllowed => "Method Not Allowed"@,
            StatusCode::NotAcceptable => "Not Acceptable"@,
            StatusCode::ProxyAuthenticationRequired => "Proxy Authentication Required"@,
            StatusCode::RequestTimeout => "Request Timeout"@,
            StatusCode::Conflict => "Conflict"@,
            StatusCode::Gone => "Gone"@,
            StatusCode::LengthRequired => "Length Required"@,
            StatusCode::PreconditionFailed => "Precondition Failed"@,
            StatusCode::ContentTooLarge => "Content Too Large"@,
            StatusCode::URLTooLong => "URL Too Long"@,
            StatusCode::UnsupportedMediaType => "Unsupported Media Type"@,
            StatusCode::RangeNotSatisfiable => "Range Not Satisfiable"@,
            StatusCode::ExpectationFailed => "Expectation Failed"@,
            StatusCode::ImATeapot => "I'm a teapot"@,
            StatusCode::MisdirectedRequest => "Misdirected Request"@,
            StatusCode::UnprocessableContent => "Unprocessable Content"@,
            StatusCode::Locked => "Locked"@,
            StatusCode::FailedDependency => "Failed Dependency"@,
            StatusCode::TooEarly => "Too Early"@,
            StatusCode::UpgradeRequired => "Upgrade Required"@,
            StatusCode::PreconditionRequired => "Precondition Required"@,
            StatusCode::TooManyRequests => "Too Many Requests"@,
            StatusCode::RequestHeaderFieldsTooLarge => "Request Header Fields Too Large"@,
            StatusCode::UnavailableForLegalReasons => "Unavailable For Legal Reasons"@,
            StatusCode::InternalServerError => "Internal Server Error"@,
            StatusCode::NotImplemented => "Not Implemented"@,
            StatusCode::BadGateway => "Bad Gateway"@,
            StatusCode::ServiceUnavailable => "Service Unavailable"@,
            StatusCode::GatewayTimeout => "Gateway Timeout"@,
            StatusCode::HTTPVersionNotSupported => "HTTP Version Not Supported"@,
            StatusCode::VariantAlsoNegotiates => "Variant Also Negotiates"@,
            StatusCode::InsufficientStorage => "Insufficient Storage"@,
            StatusCode::LoopDetected => "Loop Detected"@,
            StatusCode::NotExtended => "Not Extended"@,
            StatusCode::NetworkAuthenticationRequired => "Network Authentication Required"@,
        }
    }

    /// The status that the token `s` of a status line stands for: the one
    /// under its number where `s` spells a number that fits sixteen bits,
    /// and `Unknown(UNRECOGNIZED)` where it spells none.
    pub open spec fn of_text(s: Seq<char>) -> StatusCode {
        match parse_digits(s) {
            Some(n) => if n <= u16::MAX {
                StatusCode::of_number(n as u16)
            } else {
                StatusCode::Unknown(UNRECOGNIZED)
            },
            None => StatusCode::Unknown(UNRECOGNIZED),
        }
    }

    /// The number of this status.
    pub fn code(&self) -> (n: u16)
        ensures
            n == self.number(),
    {
        match self {
            StatusCode::Unknown(n) => *n,
            StatusCode::Continue => 100,
            StatusCode::SwitchingProtocols => 101,
            StatusCode::Processing => 102,
            StatusCode::EarlyHints => 103,
            StatusCode::OK => 200,
            StatusCode::Created => 201,
            StatusCode::Accepted => 202,
            StatusCode::NonAuthoritativeInformation => 203,
            StatusCode::NoContent => 204,
            StatusCode::ResetContent => 205,
            StatusCode::PartialContent => 206,
            StatusCode::MultiStatus => 207,
            StatusCode::AlreadyReported => 208,
            StatusCode::IMUsed => 226,
            StatusCode::MultipleChoices => 300,
            StatusCode::MovedPermanently => 301,
            StatusCode::Found => 302,
            StatusCode::SeeOther => 303,
            StatusCode::NotModified => 304,
            StatusCode::UseProxy => 305,
            StatusCode::Unused => 306,
            StatusCode::TemporaryRedirect => 307,
            StatusCode::PermanentRedirect => 308,
            StatusCode::BadRequest => 400,
            StatusCode::Unauthorized => 401,
            StatusCode::PaymentRequired => 402,
            StatusCode::Forbidden => 403,
            StatusCode::NotFound => 404,
            StatusCode::MethodNotAllowed => 405,
            StatusCode::NotAcceptable => 406,
            StatusCode::ProxyAuthenticationRequired => 407,
            StatusCode::RequestTimeout => 408,
            StatusCode::Conflict => 409,
            StatusCode::Gone => 410,
            StatusCode::LengthRequired => 411,
            StatusCode::PreconditionFailed => 412,
            StatusCode::ContentTooLarge => 413,
            StatusCode::URLTooLong => 414,
            StatusCode::UnsupportedMediaType => 415,
            StatusCode::RangeNotSatisfiable => 416,
            StatusCode::ExpectationFailed => 417,
            StatusCode::ImATeapot => 418,
            StatusCode::MisdirectedRequest => 421,
            StatusCode::UnprocessableContent => 422,
            StatusCode::Locked => 423,
            StatusCode::FailedDependency => 424,
            StatusCode::TooEarly => 425,
            StatusCode::UpgradeRequired => 426,
            StatusCode::PreconditionRequired => 428,
            StatusCode::TooManyRequests => 429,
            StatusCode::RequestHeaderFieldsTooLarge => 431,
            StatusCode::UnavailableForLegalReasons => 451,
            StatusCode::InternalServerError => 500,
            StatusCode::NotImplemented => 501,
            StatusCode::BadGateway => 502,
            StatusCode::ServiceUnavailable => 503,
            StatusCode::GatewayTimeout => 504,
            StatusCode::HTTPVersionNotSupported => 505,
            StatusCode::VariantAlsoNegotiates => 506,
            StatusCode::InsufficientStorage => 507,
            StatusCode::LoopDetected => 508,
            StatusCode::NotExtended => 510,
            StatusCode::NetworkAuthenticationRequired => 511,
        }
    }

    /// The status that the registry lists under `n`, or `Unknown(n)`.
    pub fn from_code(n: u16) -> (status: StatusCode)
        ensures
            status == StatusCode::of_number(n),
            status.number() == n,
    {
        match n {
            100 => StatusCode::Continue,
            101 => StatusCode::SwitchingProtocols,
            102 => StatusCode::Processing,
            103 => StatusCode::EarlyHints,
            200 => StatusCode::OK,
            201 => StatusCode::Created,
            202 => StatusCode::Accepted,
            203 => StatusCode::NonAuthoritativeInformation,
            204 => StatusCode::NoContent,
            205 => StatusCode::ResetContent,
            206 => StatusCode::PartialContent,
            207 => StatusCode::MultiStatus,
            208 => StatusCode::AlreadyReported,
            226 => StatusCode::IMUsed,
            300 => StatusCode::MultipleChoices,
            301 => StatusCode::MovedPermanently,
            302 => StatusCode::Found,
            303 => StatusCode::SeeOther,
            304 => StatusCode::NotModified,
            305 => StatusCode::UseProxy,
            306 => StatusCode::Unused,
            307 => StatusCode::TemporaryRedirect,
            308 => StatusCode::PermanentRedirect,
            400 => StatusCode::BadRequest,
            401 => StatusCode::Unauthorized,
            402 => StatusCode::PaymentRequired,
            403 => StatusCode::Forbidden,
            404 => StatusCode::NotFound,
            405 => StatusCode::MethodNotAllowed,
            406 => StatusCode::NotAcceptable,
            407 => StatusCode::ProxyAuthenticationRequired,
            408 => StatusCode::RequestTimeout,
            409 => StatusCode::Conflict,
            410 => StatusCode::Gone,
            411 => StatusCode::LengthRequired,
            412 => StatusCode::PreconditionFailed,
            413 => StatusCode::ContentTooLarge,
            414 => StatusCode::URLTooLong,
            415 => StatusCode::UnsupportedMediaType,
            416 => StatusCode::RangeNotSatisfiable,
            417 => StatusCode::ExpectationFailed,
            418 => StatusCode::ImATeapot,
            421 => StatusCode::MisdirectedRequest,
            422 => StatusCode::UnprocessableContent,
            423 => StatusCode::Locked,
            424 => StatusCode::FailedDependency,
            425 => StatusCode::TooEarly,
            426 => StatusCode::UpgradeRequired,
            428 => StatusCode::PreconditionRequired,
            429 => StatusCode::TooManyRequests,
            431 => StatusCode::RequestHeaderFieldsTooLarge,
            451 => StatusCode::UnavailableForLegalReasons,
            500 => StatusCode::InternalServerError,
            501 => StatusCode::NotImplemented,
            502 => StatusCode::BadGateway,
            503 => StatusCode::ServiceUnavailable,
            504 => StatusCode::GatewayTimeout,
            505 => StatusCode::HTTPVersionNotSupported,
            506 => StatusCode::VariantAlsoNegotiates,
            507 => StatusCode::InsufficientStorage,
            508 => StatusCode::LoopDetected,
            510 => StatusCode::NotExtended,
            511 => StatusCode::NetworkAuthenticationRequired,
            _ => StatusCode::Unknown(n),
        }
    }

    /// Reads the status token of a status line. Never fails: a number that
    /// the registry does not list is kept in `Unknown`.
    pub fn parse(code: &str) -> (status: StatusCode)
        ensures
            status == StatusCode::of_text(code@),
    {
        let chars = chars_of(code);
        match read_digits(chars.as_slice()) {
            Some(n) => if n <= 65535 {
                StatusCode::from_code(n as u16)
            } else {
                StatusCode::Unknown(UNRECOGNIZED)
            },
            None => StatusCode::Unknown(UNRECOGNIZED),
        }
    }

    /// The canonical reason phrase of this status.
    pub fn get_status_message(&self) -> (phrase: &'static str)
        ensures
            phrase@ == self.reason(),
    {
        match self {
            StatusCode::Unknown(_) => "Unknown",
            StatusCode::Continue => "Continue",
            StatusCode::SwitchingProtocols => "Switching Protocols",
            StatusCode::Processing => "Processing",
            StatusCode::EarlyHints => "Early Hints",
            StatusCode::OK => "OK",
            StatusCode::Created => "Created",
            StatusCode::Accepted => "Accepted",
            StatusCode::NonAuthoritativeInformation => "Non Authoritative Information",
            StatusCode::NoContent => "No Content",
            StatusCode::ResetContent => "Reset Content",
            StatusCode::PartialContent => "Partial Content",
            StatusCode::MultiStatus => "Multi-Status",
            StatusCode::AlreadyReported => "Already Reported",
            StatusCode::IMUsed => "IM Used",
            StatusCode::MultipleChoices => "Multiple Choices",
            StatusCode::MovedPermanently => "Moved Permanently",
            StatusCode::Found => "Found",
            StatusCode::SeeOther => "See Other",
            StatusCode::NotModified => "Not Modified",
            StatusCode::UseProxy => "Use Proxy",
            StatusCode::Unused => "Unused",
            StatusCode::TemporaryRedirect => "Temporary Redirect",
            StatusCode::PermanentRedirect => "Permanent Redirect",
            StatusCode::BadRequest => "Bad Request",
            StatusCode::Unauthorized => "Unauthorized",
            StatusCode::PaymentRequired => "Payment Required",
            StatusCode::Forbidden => "Forbidden",
            StatusCode::NotFound => "Not Found",
            StatusCode::MethodNotAllowed => "Method Not Allowed",
            StatusCode::NotAcceptable => "Not Acceptable",
            StatusCode::ProxyAuthenticationRequired => "Proxy Authentication Required",
            StatusCode::RequestTimeout => "Request Timeout",
            StatusCode::Conflict => "Conflict",
            StatusCode::Gone => "Gone",
            StatusCode::LengthRequired => "Length Required",
            StatusCode::PreconditionFailed => "Precondition Failed",
            StatusCode::ContentTooLarge => "Content Too Large",
            StatusCode::URLTooLong => "URL Too Long",
            StatusCode::UnsupportedMediaType => "Unsupported Media Type",
            StatusCode::RangeNotSatisfiable => "Range Not Satisfiable",
            StatusCode::ExpectationFailed => "Expectation Failed",
            StatusCode::ImATeapot => "I'm a teapot",
            StatusCode::MisdirectedRequest => "Misdirected Request",
            StatusCode::UnprocessableContent => "Unprocessable Content",
            StatusCode::Locked => "Locked",
            StatusCode::FailedDependency => "Failed Dependency",
            StatusCode::TooEarly => "Too Early",
            StatusCode::UpgradeRequired => "Upgrade Required",
            StatusCode::PreconditionRequired => "Precondition Required",
            StatusCode::TooManyRequests => "Too Many Requests",
            StatusCode::RequestHeaderFieldsTooLarge => "Request Header Fields Too Large",
            StatusCode::UnavailableForLegalReasons => "Unavailable For Legal Reasons",
            StatusCode::InternalServerError => "Internal Server Error",
            StatusCode::NotImplemented => "Not Implemented",
            StatusCode::BadGateway => "Bad Gateway",
            StatusCode::ServiceUnavailable => "Service Unavailable",
            StatusCode::GatewayTimeout => "Gateway Timeout",
            StatusCode::HTTPVersionNotSupported => "HTTP Version Not Supported",
            StatusCode::VariantAlsoNegotiates => "Variant Also Negotiates",
            StatusCode::InsufficientStorage => "Insufficient Storage",
            StatusCode::LoopDetected => "Loop Detected",
            StatusCode::NotExtended => "Not Extended",
            StatusCode::NetworkAuthenticationRequired => "Network Authentication Required",
        }
    }

    /// The number of this status as a decimal numeral, as a status line
    /// carries it.
    pub fn to_string(&self) -> (numeral: String)
        ensures
            numeral@ == decimal(self.number() as nat),
    {
        decimal_string(self.code() as usize)
    }
}

/// The number of a status survives the registry: the status found under
/// `n` has the number `n`, and is the canonical value for it.
pub proof fn law_number_survives(n: u16)
    ensures
        StatusCode::of_number(n).number() == n,
        StatusCode::of_number(n).is_canonical(),
{
}

/// A listed status is found again under its own number.
pub proof fn law_listed_status_is_canonical(status: StatusCode)
    requires
        status.is_listed(),
    ensures
        status.is_canonical(),
{
}

/// Writing a status as a numeral and reading the numeral back gives the
/// canonical status of the same number.
pub proof fn law_numeral_reads_back(status: StatusCode)
    ensures
        StatusCode::of_text(decimal(status.number() as nat)) == StatusCode::of_number(
            status.number(),
        ),
        status.is_canonical() ==> StatusCode::of_text(decimal(status.number() as nat)) == status,
{
    crate::text::lemma_decimal_parses(status.number() as nat);
}

} // verus!
