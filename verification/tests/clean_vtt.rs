use youtube_summarizer_server::web::services::metadata::{clean_vtt, join_captions, lines_after_header};

const VTT: &str = "WEBVTT\nKind: captions\nLanguage: en\n\n00:00:00.160 --> 00:00:02.790 align:start position:0%\n \n[Music]<00:00:00.640><c> you</c>\n\n00:00:02.790 --> 00:00:02.800 align:start position:0%\n[Music] you\n \n\n00:00:02.800 --> 00:00:05.000\n[Music] you\nknow <c>what</c>\n";

#[test]
fn removes_timestamps_tags_and_repeats() {
    assert_eq!(clean_vtt(VTT), "[Music] you know ");
}

#[test]
fn nothing_without_header() {
    assert_eq!(clean_vtt("WEBVTT\n\nhello\n"), "");
}

#[test]
fn crlf_lines_are_read() {
    assert_eq!(clean_vtt("Language: en\r\nhello\r\nhello\r\nworld\r\nhello"), "hello world hello");
}

#[test]
fn empty_transcript_is_empty() {
    assert_eq!(clean_vtt(""), "");
}

fn some(s: &str) -> Option<String> {
    Some(s.to_string())
}

#[test]
fn join_captions_drops_dropped_blank_and_repeated_lines() {
    let ps = vec![some("hello"), None, some("hello"), some(" \t"), some("world"), some("hello")];
    assert_eq!(join_captions(&ps), "hello world hello");
    assert_eq!(join_captions(&[]), "");
    assert_eq!(join_captions(&[None, some("")]), "");
}

#[test]
fn lines_after_header_skip_through_the_language_line() {
    assert_eq!(
        lines_after_header("WEBVTT\nLanguage: en\n\na\r\nb"),
        vec!["".to_string(), "a".to_string(), "b".to_string()]
    );
    assert!(lines_after_header("WEBVTT\nKind: captions\n").is_empty());
}

#[test]
fn tag_match_runs_from_first_tag_to_last_close() {
    assert_eq!(clean_vtt("Language: en\nx <b> y </c>z> w"), "x <b> y  w");
    assert_eq!(clean_vtt("Language: en\n<cat"), "<cat");
    assert_eq!(clean_vtt("Language: en\na <//c> b"), "a  b");
}

#[test]
fn timestamps_in_any_decimal_digits_are_dropped() {
    assert_eq!(clean_vtt("Language: en\n\u{660}\u{660}:\u{660}\u{661}:\u{660}\u{662}.\u{663}\u{664}\u{665} x\nhi"), "hi");
    assert_eq!(clean_vtt("Language: en\nat 00:01:02.345 sharp\nhi\n00:01:02 no"), "hi 00:01:02 no");
}
