use youtube_summarizer_server::prompts::PromptContext;
use youtube_summarizer_server::text::replace;

#[test]
fn oneshot_prompt_includes_title_tag() {
    let title = "Waffle House";
    let rendered = PromptContext::new(title).metadata();
    assert!(rendered.contains(title));
    assert!(!rendered.contains("{title}"));
}

#[test]
fn metadata_wraps_title_in_tags() {
    let rendered = PromptContext::new("Garfield").metadata();
    assert_eq!(rendered, "<videoMetadata>\n<title>Garfield</title>\n</videoMetadata>");
}

#[test]
fn metadata_replaces_placeholder_only_once_per_occurrence() {
    let rendered = PromptContext::new("{title}").metadata();
    assert_eq!(rendered, "<videoMetadata>\n<title>{title}</title>\n</videoMetadata>");
}

#[test]
fn summary_prompts_are_not_empty() {
    assert!(PromptContext::ONESHOT_SUMMARY.contains("markdown"));
    assert!(!PromptContext::CHUNKED_SUMMARY.is_empty());
    assert!(!PromptContext::CHUNKED_COMBINE.is_empty());
}

#[test]
fn replace_replaces_every_occurrence() {
    assert_eq!(replace("a{x}b{x}", "{x}", "yy"), "ayybyy");
    assert_eq!(replace("aaa", "aa", "b"), "ba");
    assert_eq!(replace("", "aa", "b"), "");
}
