//! The errors of the library and how they are answered.
use crate::web::utils::{UrlError, YTUrl};
use vstd::prelude::*;

verus! {

pub type Result<T> = core::result::Result<T, Error>;

/// An error of the library. Errors of the outside services are held by their description.
#[derive(Debug)]
pub enum Error {
    EnvMissingOrInvalid(&'static str),
    EnvParse(String),
    CaptionsUnavailable(YTUrl),
    YtUrl(UrlError),
    Reqwest(String),
    Timeout,
    Join(String),
    Io(String),
    Sqlx(String),
    Custom(String),
    MalformedOrMissingYtMetadata(YTUrl),
    NotFound,
    TicketDeleteFailureIdNotFound { id: u64 },
}

/// The body of an error answer.
#[derive(Debug)]
pub struct ErrorMessage {
    pub error: bool,
    pub message: String,
}

/// HTTP status codes of the error answers.
pub const BAD_REQUEST: u16 = 400;

pub const NOT_FOUND: u16 = 404;

pub const INTERNAL_SERVER_ERROR: u16 = 500;

pub const SERVICE_UNAVAILABLE: u16 = 503;

pub const GATEWAY_TIMEOUT: u16 = 504;

/// An error answer with `status` and `message`.
pub fn error_response(status: u16, message: String) -> (r: (u16, ErrorMessage))
    ensures
        r.0 == status,
        r.1.error,
        r.1.message@ == message@,
{
    (status, ErrorMessage { error: true, message })
}

/// `Captions not available for URL: `
pub open spec fn captions_unavailable_prefix() -> Seq<char> {
    "Captions not available for URL: "@
}

impl Error {
    /// An error with a free-form description.
    pub fn custom(val: &str) -> (e: Self)
        ensures
            e matches Error::Custom(s) && s@ == val@,
    {
        Error::Custom(String::from_str(val))
    }

    /// The status code with which the error is answered.
    pub open spec fn spec_status(&self) -> u16 {
        match self {
            Error::EnvMissingOrInvalid(_) | Error::EnvParse(_) => SERVICE_UNAVAILABLE,
            Error::Timeout => GATEWAY_TIMEOUT,
            Error::YtUrl(_) => BAD_REQUEST,
            Error::CaptionsUnavailable(_) | Error::NotFound
            | Error::TicketDeleteFailureIdNotFound { .. } => NOT_FOUND,
            Error::Sqlx(_) | Error::Reqwest(_) | Error::Join(_) | Error::Io(_) | Error::Custom(_)
            | Error::MalformedOrMissingYtMetadata(_) => INTERNAL_SERVER_ERROR,
        }
    }

    /// The message with which the error is answered.
    pub open spec fn spec_message(&self) -> Seq<char> {
        match self {
            Error::EnvMissingOrInvalid(_) | Error::EnvParse(_) => "Service Unavailable"@,
            Error::Timeout => "Gateway Timeout"@,
            Error::YtUrl(e) => e.spec_message(),
            Error::CaptionsUnavailable(url) => captions_unavailable_prefix() + url@.0,
            Error::NotFound | Error::TicketDeleteFailureIdNotFound { .. } => "Not Found"@,
            Error::Sqlx(_) | Error::Reqwest(_) | Error::Join(_) | Error::Io(_) | Error::Custom(_)
            | Error::MalformedOrMissingYtMetadata(_) => "Unhandled Server Error"@,
        }
    }

    /// The answer to the error: its status code and an error message.
    pub fn response(&self) -> (r: (u16, ErrorMessage))
        ensures
            r.0 == self.spec_status(),
            r.1.error,
            r.1.message@ == self.spec_message(),
    {
        match self {
            Error::EnvMissingOrInvalid(_) | Error::EnvParse(_) => {
                error_response(SERVICE_UNAVAILABLE, String::from_str("Service Unavailable"))
            },
            Error::Timeout => error_response(GATEWAY_TIMEOUT, String::from_str("Gateway Timeout")),
            Error::YtUrl(e) => error_response(BAD_REQUEST, e.message()),
            Error::CaptionsUnavailable(url) => {
                let mut m = String::from_str("Captions not available for URL: ");
                m.append(url.as_str());
                error_response(NOT_FOUND, m)
            },
            Error::NotFound | Error::TicketDeleteFailureIdNotFound { .. } => {
                error_response(NOT_FOUND, String::from_str("Not Found"))
            },
            Error::Sqlx(_) | Error::Reqwest(_) | Error::Join(_) | Error::Io(_) | Error::Custom(_)
            | Error::MalformedOrMissingYtMetadata(_) => {
                error_response(INTERNAL_SERVER_ERROR, String::from_str("Unhandled Server Error"))
            },
        }
    }
}

/// Law: a refused URL is the client's fault: every URL error, invalid or unsupported, is
/// answered with status 400 and a message naming the kind of refusal followed by the refused
/// URL.
pub proof fn lemma_url_errors_are_bad_requests(e: UrlError)
    ensures
        Error::YtUrl(e).spec_status() == 400,
        Error::YtUrl(e).spec_message() == (match e {
            UrlError::Invalid(s) => "Invalid URL: "@ + s@,
            UrlError::Unsupported(s) => "Unsupported URL: "@ + s@,
        }),
{
    reveal_strlit("Invalid URL: ");
    reveal_strlit("Unsupported URL: ");
    match e {
        UrlError::Invalid(s) => {
            assert(crate::web::utils::invalid_url_prefix() =~= "Invalid URL: "@);
        },
        UrlError::Unsupported(s) => {
            assert(crate::web::utils::unsupported_url_prefix() =~= "Unsupported URL: "@);
        },
    }
}

/// Law: the status tells the kind of error: 400 for a refused URL, 404 for what is not found,
/// 503 for missing settings, 504 for a timeout, and 500 with `Unhandled Server Error` for every
/// failure of the server's own services.
pub proof fn lemma_error_statuses(e: Error)
    ensures
        e.spec_status() == 400 <==> e is YtUrl,
        e.spec_status() == 404 <==> (e is CaptionsUnavailable || e is NotFound
            || e is TicketDeleteFailureIdNotFound),
        e.spec_status() == 503 <==> (e is EnvMissingOrInvalid || e is EnvParse),
        e.spec_status() == 504 <==> e is Timeout,
        e.spec_status() == 500 <==> (e is Reqwest || e is Join || e is Io || e is Sqlx
            || e is Custom || e is MalformedOrMissingYtMetadata),
        e.spec_status() == 500 ==> e.spec_message() == "Unhandled Server Error"@,
{
}

} // verus!
