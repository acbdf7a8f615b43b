use youtube_summarizer_server::prompts::PromptContext;
use youtube_summarizer_server::web::clients::completions::stream::SseMessage;
use youtube_summarizer_server::web::services::summary::{
    absorb_message, cached_summary_messages, collect_summary, combine_summaries, plan_summary, prompt_messages,
    SummaryPlan, CACHED_SUMMARY_CHUNK_CHARS, SUMMARY_CHUNK_OVERLAP, SUMMARY_CHUNK_WORDS,
};

#[test]
fn short_transcript_is_summarized_at_once() {
    let plan = plan_summary("just a few words", SUMMARY_CHUNK_WORDS, SUMMARY_CHUNK_OVERLAP);
    assert!(matches!(plan, SummaryPlan::Oneshot));
}

#[test]
fn long_transcript_is_summarized_by_chunks() {
    let transcript = "a ".repeat(25_000);
    match plan_summary(&transcript, SUMMARY_CHUNK_WORDS, SUMMARY_CHUNK_OVERLAP) {
        SummaryPlan::Chunked(chunks) => {
            assert_eq!(chunks.len(), 3);
            assert_eq!(chunks[0].split_ascii_whitespace().count(), 10_000);
            assert_eq!(chunks[2].split_ascii_whitespace().count(), 25_000 - 2 * 9_900);
        },
        SummaryPlan::Oneshot => panic!("expected chunks"),
    }
}

#[test]
fn combined_summaries_are_numbered() {
    let summaries = vec!["first".to_string(), "second".to_string()];
    assert_eq!(combine_summaries(&summaries), "chunk 1/2\nfirst\nchunk 2/2\nsecond");
}

#[test]
fn combined_summaries_count_past_nine() {
    let summaries: Vec<String> = (0..12).map(|i| i.to_string()).collect();
    let combined = combine_summaries(&summaries);
    assert!(combined.starts_with("chunk 1/12\n0\nchunk 2/12\n1"));
    assert!(combined.ends_with("chunk 12/12\n11"));
}

#[test]
fn no_summaries_combine_to_nothing() {
    assert_eq!(combine_summaries(&[]), "");
}

#[test]
fn cached_summary_is_streamed_in_pieces_then_done() {
    let summary = "x".repeat(CACHED_SUMMARY_CHUNK_CHARS * 2 + 5);
    let ms = cached_summary_messages(&summary);
    assert_eq!(ms.len(), 4);
    let mut joined = String::new();
    for m in &ms[..3] {
        match m {
            SseMessage::Message(s) => joined.push_str(s),
            _ => panic!("expected a piece"),
        }
    }
    assert_eq!(joined, summary);
    assert!(matches!(ms[3], SseMessage::Done));
}

#[test]
fn short_cached_summary_is_one_piece() {
    let ms = cached_summary_messages("# Gaming Summary\\n\\nGaming time");
    assert_eq!(ms.len(), 2);
    assert!(matches!(&ms[0], SseMessage::Message(s) if s == "# Gaming Summary\\n\\nGaming time"));
    assert!(matches!(ms[1], SseMessage::Done));
}

#[test]
fn stream_is_collected_until_done() {
    let texts = ["Rust ", "Is ", "A ", "Must ", "🦀🦀🦀"];
    let mut msgs: Vec<SseMessage> = texts.iter().map(|t| SseMessage::Message(t.to_string())).collect();
    msgs.insert(2, SseMessage::Error);
    msgs.push(SseMessage::Done);
    msgs.push(SseMessage::Message("after".to_string()));
    let mut summary = String::new();
    for m in &msgs {
        if !absorb_message(&mut summary, m) {
            break;
        }
    }
    assert_eq!(summary, texts.join(""));
}

#[test]
fn prompt_messages_are_metadata_then_text() {
    let ctx = PromptContext::new("Odie");
    let ms = prompt_messages(&ctx, "the transcript");
    assert_eq!(ms, vec![ctx.metadata(), "the transcript".to_string()]);
}

fn text_of(ms: &[SseMessage]) -> String {
    let mut out = String::new();
    for m in ms {
        match m {
            SseMessage::Message(s) => out.push_str(s),
            SseMessage::Done => break,
            SseMessage::Error => {}
        }
    }
    out
}

#[test]
fn collected_summary_stops_at_done_and_skips_errors() {
    let ms = vec![
        SseMessage::Message("Rust ".to_string()),
        SseMessage::Error,
        SseMessage::Message("Is ".to_string()),
        SseMessage::Message("Must ".to_string()),
        SseMessage::Done,
        SseMessage::Message("ignored".to_string()),
    ];
    assert_eq!(collect_summary(&ms), "Rust Is Must ");
    assert_eq!(collect_summary(&[]), "");
}

#[test]
fn kept_summary_replays_the_streamed_text() {
    let long = "🦀".repeat(9_001);
    let ms = vec![
        SseMessage::Message("Rust ".to_string()),
        SseMessage::Message(long.clone()),
        SseMessage::Done,
    ];
    let kept = collect_summary(&ms);
    let replay = cached_summary_messages(&kept);
    assert_eq!(replay.len(), 4);
    assert!(matches!(replay.last(), Some(SseMessage::Done)));
    assert_eq!(text_of(&replay), format!("Rust {long}"));
    assert_eq!(collect_summary(&replay), kept);
}
