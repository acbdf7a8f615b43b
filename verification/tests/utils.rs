use youtube_summarizer_server::error::{Error, Result};
use youtube_summarizer_server::web::utils::{normalize_url, UrlError, YTUrl};

const YT_URL: &str =
    "https://www.youtube.com/watch?v=DjcC6p_8fpE&pp=ygUWamFjb2IgYXNwZXIgdHlwZXNjcmlwdA%3D%3D";
const YT_ID: &str = "DjcC6p_8fpE";

#[test]
fn should_get_video_id() -> Result<()> {
    let url = YTUrl::parse_from_str(YT_URL)?;

    assert_eq!(url.id(), Some(YT_ID.into()));

    Ok(())
}

#[test]
fn invalid_url() {
    let invalid_url = "https://lasagna.com/watch?v=DjcC6p_8fpE";
    YTUrl::parse_from_str(invalid_url).unwrap_err();
}

#[test]
fn id_string_is_owned_id() {
    let url = YTUrl::parse_from_str(YT_URL).unwrap();
    assert_eq!(url.id_string(), Some(YT_ID.to_string()));
    assert_eq!(url.as_str(), YT_URL);
}

#[test]
fn url_without_v_has_no_id() {
    let url = YTUrl::parse_from_str("https://www.youtube.com/watch?list=abc").unwrap();
    assert_eq!(url.id(), None);
}

#[test]
fn first_v_pair_wins() {
    let url = YTUrl::parse_from_str("https://youtube.com/watch?x=1&v=first&v=second").unwrap();
    assert_eq!(url.id(), Some("first"));
}

#[test]
fn not_a_url_is_invalid() {
    match YTUrl::parse_from_str("uhhhhhhh") {
        Err(Error::YtUrl(UrlError::Invalid(s))) => assert_eq!(s, "uhhhhhhh"),
        other => panic!("unexpected {other:?}"),
    }
}

#[test]
fn other_host_is_unsupported_with_message() {
    match YTUrl::parse_from_str("https://www.rustisamust.com/watch") {
        Err(Error::YtUrl(e)) => {
            assert!(matches!(e, UrlError::Unsupported(_)));
            let message = e.message();
            assert!(message.contains("Unsupported URL"));
            assert!(message.contains("https://www.rustisamust.com/watch"));
        },
        other => panic!("unexpected {other:?}"),
    }
}

#[test]
fn invalid_url_message_names_input() {
    let e = UrlError::Invalid("uhhh".to_string());
    assert_eq!(e.message(), "Invalid URL: uhhh");
}

#[test]
fn urls_compare_by_value() {
    let a = YTUrl::parse_from_str(YT_URL).unwrap();
    let b = YTUrl::parse_from_str(YT_URL).unwrap();
    let c = YTUrl::parse_from_str("https://www.youtube.com/watch?v=other").unwrap();
    assert_eq!(a, b);
    assert_ne!(a, c);
    assert_eq!(a.as_url(), b.as_url());
}

#[test]
fn proxies_are_normalized() {
    assert_eq!(normalize_url("HTTP://Proxy.Example:80"), Some("http://proxy.example/".to_string()));
    assert_eq!(normalize_url("not a url"), None);
}
