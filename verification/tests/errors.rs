use youtube_summarizer_server::error::{error_response, Error};
use youtube_summarizer_server::web::routes::rating_result;
use youtube_summarizer_server::web::utils::{UrlError, YTUrl};

#[test]
fn error_statuses_and_messages() {
    let cases: Vec<(Error, u16, &str)> = vec![
        (Error::EnvMissingOrInvalid("X"), 503, "Service Unavailable"),
        (Error::EnvParse("x".into()), 503, "Service Unavailable"),
        (Error::Timeout, 504, "Gateway Timeout"),
        (Error::YtUrl(UrlError::Invalid("uhh".into())), 400, "Invalid URL: uhh"),
        (Error::NotFound, 404, "Not Found"),
        (Error::TicketDeleteFailureIdNotFound { id: 3 }, 404, "Not Found"),
        (Error::Sqlx("db".into()), 500, "Unhandled Server Error"),
        (Error::Reqwest("net".into()), 500, "Unhandled Server Error"),
        (Error::Join("join".into()), 500, "Unhandled Server Error"),
        (Error::Io("io".into()), 500, "Unhandled Server Error"),
        (Error::custom("boom"), 500, "Unhandled Server Error"),
    ];
    for (e, status, message) in cases {
        let (s, m) = e.response();
        assert_eq!(s, status);
        assert!(m.error);
        assert_eq!(m.message, message);
    }
}

#[test]
fn captions_unavailable_names_url() {
    let url = YTUrl::parse_from_str("https://www.youtube.com/watch?v=abc").unwrap();
    let (s, m) = Error::CaptionsUnavailable(url).response();
    assert_eq!(s, 404);
    assert_eq!(m.message, "Captions not available for URL: https://www.youtube.com/watch?v=abc");
}

#[test]
fn error_response_marks_error() {
    let (s, m) = error_response(418, "teapot".to_string());
    assert_eq!(s, 418);
    assert!(m.error);
    assert_eq!(m.message, "teapot");
}

#[test]
fn rating_without_summary_is_not_found() {
    assert!(matches!(rating_result(0), Err(Error::NotFound)));
    assert!(rating_result(1).is_ok());
}
