use youtube_summarizer_server::web::clients::yt_dlp::cache::Artifact;
use youtube_summarizer_server::web::clients::yt_dlp::YtdlpClient;
use youtube_summarizer_server::web::services::cache::{key_file_name, state_extension, Key, TranscriptState};
use youtube_summarizer_server::web::utils::YTUrl;

#[test]
fn args_for_captions_and_metadata() {
    let url = YTUrl::parse_from_str("https://www.youtube.com/watch?v=abc").unwrap();
    let mut c = YtdlpClient::new("http://proxy:8080/".to_string());
    c.download_subtitles(true);
    c.write_info_json(true);
    c.retries(12);
    assert_eq!(
        c.args("./transcripts", &url),
        vec![
            "--no-simulate", "--skip-download", "--retries", "12", "--output", "%(id)s", "--proxy",
            "http://proxy:8080/", "--paths", "./transcripts", "--write-subs", "--write-auto-subs",
            "--sub-langs", "en*", "--sub-format", "vtt", "--write-info-json",
            "https://www.youtube.com/watch?v=abc",
        ]
    );
}

#[test]
fn args_default_retries_without_captions() {
    let url = YTUrl::parse_from_str("https://youtube.com/watch?v=abc").unwrap();
    let c = YtdlpClient::new("http://p/".to_string());
    let args = c.args("/tmp", &url);
    assert_eq!(args[3], "3");
    assert_eq!(args.len(), 11);
    assert_eq!(args[10], "https://youtube.com/watch?v=abc");
}

#[test]
fn artifact_names() {
    let a = Artifact::Captions("/out".to_string());
    assert_eq!(a.extension(), "en.vtt");
    assert_eq!(a.dir(), "/out");
    assert_eq!(a.file_name("abc"), "abc.en.vtt");
    let m = Artifact::Metadata("/m".to_string());
    assert_eq!(m.file_name("abc"), "abc.info.json");
}

#[test]
fn transcript_file_names() {
    assert_eq!(state_extension(TranscriptState::Raw), "en.vtt");
    assert_eq!(state_extension(TranscriptState::Clean), "en.clean");
    assert_eq!(state_extension(TranscriptState::Summarized), "md");
    let url = YTUrl::parse_from_str("https://youtube.com/watch?v=abc").unwrap();
    let key = Key { url, state: TranscriptState::Summarized };
    assert_eq!(key_file_name(&key), Some("abc.md".to_string()));
    let url = YTUrl::parse_from_str("https://youtube.com/watch").unwrap();
    assert_eq!(key_file_name(&Key { url, state: TranscriptState::Raw }), None);
}
