use youtube_summarizer_server::web::services::ai::completions::CompletionClient as ArticleClient;
use youtube_summarizer_server::web::services::ai::deepinfra::{
    Choice as AiChoice, Message as AiMessage, Response as AiResponse,
};
use youtube_summarizer_server::error::Error;
use youtube_summarizer_server::web::clients::completions::oneshot::{Choice, Response};
use youtube_summarizer_server::web::clients::completions::stream::{
    json_payload, message_from_chunk, ChatCompletionChunk, Choice as ChunkChoice, Delta, SseMessage,
};
use youtube_summarizer_server::web::clients::completions::{
    completion_messages, CompletionRequestBuilder, CompletionRequestBuilderError, DeepInfraClient,
    Message,
};

fn message(role: &str, content: &str) -> Message {
    Message { role: role.to_string(), content: content.to_string() }
}

#[test]
fn validate_requires_model_then_messages() {
    let b = CompletionRequestBuilder::default();
    assert_eq!(b.validate(), Err("Model cannot be empty".to_string()));
    let mut b = CompletionRequestBuilder::default();
    b.model(String::new());
    assert_eq!(b.validate(), Err("Model cannot be empty".to_string()));
    b.model("llama".to_string());
    assert_eq!(b.validate(), Err("Messages cannot be empty".to_string()));
    b.messages(vec![]);
    assert_eq!(b.validate(), Err("Messages cannot be empty".to_string()));
    b.messages(vec![message("user", "hi")]);
    assert_eq!(b.validate(), Ok(()));
}

#[test]
fn build_keeps_fields() {
    let mut b = CompletionRequestBuilder::default();
    b.model("llama".to_string());
    b.messages(vec![message("user", "hi")]);
    b.max_tokens(12);
    b.stream(true);
    let req = b.build().unwrap();
    assert_eq!(req.model, "llama");
    assert_eq!(req.messages.len(), 1);
    assert_eq!(req.max_tokens, Some(12));
    assert_eq!(req.stream, Some(true));
    assert_eq!(req.top_k, None);
}

#[test]
fn build_reports_validation_error() {
    match CompletionRequestBuilder::default().build() {
        Err(CompletionRequestBuilderError::ValidationError(m)) => assert_eq!(m, "Model cannot be empty"),
        Ok(_) => panic!("expected an error"),
    }
}

#[test]
fn messages_are_system_then_users() {
    let ms = completion_messages("be brief", &["one".to_string(), "two".to_string()]);
    let pairs: Vec<(String, String)> = ms.into_iter().map(|m| (m.role, m.content)).collect();
    assert_eq!(
        pairs,
        vec![
            ("system".to_string(), "be brief".to_string()),
            ("user".to_string(), "one".to_string()),
            ("user".to_string(), "two".to_string()),
        ]
    );
}

#[test]
fn client_joins_completions_path() {
    let c = DeepInfraClient::build("llama".into(), "https://api.deepinfra.com/v1/openai/", "key".into()).unwrap();
    assert_eq!(c.url(), "https://api.deepinfra.com/v1/openai/chat/completions");
    assert_eq!(c.api_key(), "key");
    let c = DeepInfraClient::build("llama".into(), "https://api.deepinfra.com/v1/openai", "key".into()).unwrap();
    assert_eq!(c.url(), "https://api.deepinfra.com/v1/chat/completions");
}

#[test]
fn client_refuses_bad_base() {
    match DeepInfraClient::build("llama".into(), "not a url", "key".into()) {
        Err(Error::Custom(m)) => assert_eq!(m, "could not parse completions endpoint: not a url"),
        other => panic!("unexpected {other:?}"),
    }
}

#[test]
fn request_carries_model_tokens_and_stream() {
    let c = DeepInfraClient::build("llama".into(), "https://x.test/", "key".into()).unwrap();
    let req = c.request("sys", &["text".to_string()], true).unwrap();
    assert_eq!(req.model, "llama");
    assert_eq!(req.max_tokens, Some(700));
    assert_eq!(req.stream, Some(true));
    assert_eq!(req.messages.len(), 2);
    assert_eq!(req.messages[1].content, "text");
}

#[test]
fn request_without_model_fails() {
    let c = DeepInfraClient::build(String::new(), "https://x.test/", "key".into()).unwrap();
    match c.request("sys", &[], false) {
        Err(Error::Custom(m)) => assert_eq!(
            m,
            "couldn't build completion request: ValidationError(\"Model cannot be empty\")"
        ),
        other => panic!("unexpected {other:?}"),
    }
}

#[test]
fn oneshot_content() {
    let r = Response { choices: (Choice { message: message("assistant", "hello") },) };
    assert_eq!(r.content(), "hello");
}

#[test]
fn payload_starts_at_first_brace() {
    assert_eq!(json_payload(b"data: {\"a\":{}}"), Some(&b"{\"a\":{}}"[..]));
    assert_eq!(json_payload(b""), None);
    assert_eq!(json_payload(b"data: [DONE]"), None);
}

fn chunk(delta: Option<&str>) -> ChatCompletionChunk {
    ChatCompletionChunk {
        choices: (ChunkChoice { delta: delta.map(|c| Delta { content: c.to_string() }) },),
    }
}

#[test]
fn chunk_becomes_message_unless_empty() {
    assert!(matches!(message_from_chunk(chunk(Some("Rust "))), Some(SseMessage::Message(s)) if s == "Rust "));
    assert!(message_from_chunk(chunk(Some(""))).is_none());
    assert!(message_from_chunk(chunk(None)).is_none());
    assert_eq!(chunk(Some("x")).content(), Some("x".to_string()));
    assert_eq!(chunk(None).content(), None);
}

#[test]
fn article_request_has_instructions_text_and_token_limit() {
    let c = ArticleClient::new("tok".into(), "https://example.com/v1/chat".into(), "llama".into());
    assert_eq!(c.url(), "https://example.com/v1/chat");
    assert_eq!(c.token(), "tok");
    let req = c.request("write an article", "the transcript").unwrap();
    assert_eq!(req.model, "llama");
    assert_eq!(req.max_tokens, Some(1000));
    assert_eq!(req.stream, None);
    let pairs: Vec<(String, String)> = req.messages.into_iter().map(|m| (m.role, m.content)).collect();
    assert_eq!(
        pairs,
        vec![
            ("system".to_string(), "write an article".to_string()),
            ("user".to_string(), "the transcript".to_string()),
        ]
    );
}

#[test]
fn article_request_refuses_empty_model() {
    let c = ArticleClient::new("tok".into(), "u".into(), String::new());
    match c.request("p", "t") {
        Err(Error::Custom(m)) => {
            assert_eq!(m, "couldn't build completion request: ValidationError(\"Model cannot be empty\")")
        }
        other => panic!("unexpected {other:?}"),
    }
}

#[test]
fn first_content_is_that_of_the_first_choice() {
    let msg = |c: &str| AiChoice { message: AiMessage { role: "assistant".into(), content: c.into() } };
    let r = AiResponse { choices: vec![msg("first"), msg("second")] };
    assert_eq!(r.first_content(), Some("first"));
    assert_eq!(AiResponse { choices: vec![] }.first_content(), None);
}
