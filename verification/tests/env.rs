use youtube_summarizer_server::web::services::env::{load_env, output_path, port, retries, rust_log};

#[test]
fn defaults() {
    assert!(load_env().is_ok());
    assert_eq!(output_path(), "./transcripts");
    assert_eq!(retries(), 3);
    assert_eq!(port(), 8080);
    assert_eq!(rust_log(), "youtube_summarizer_server=info,sqlx=info,reqwest=info,tower_http=warn,h2=warn");
}
