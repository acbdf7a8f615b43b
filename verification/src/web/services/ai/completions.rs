//! The article client: one request with the instructions and the whole transcript, answered
//! at once.
use crate::error::{Error, Result};
use crate::web::clients::completions::{
    empty_model_message, request_error_prefix, request_error_suffix, CompletionRequest,
    CompletionRequestBuilder, CompletionRequestBuilderError, Message, SYSTEM_ROLE, USER_ROLE,
};
use vstd::prelude::*;

verus! {

/// The most tokens an article may hold.
pub const ARTICLE_MAX_TOKENS: u32 = 1000;

/// A client of a chat completion endpoint: the model, the URL of the endpoint and the token
/// sent as bearer.
#[derive(Debug)]
pub struct CompletionClient {
    model: String,
    url: String,
    token: String,
}

impl View for CompletionClient {
    type V = (Seq<char>, Seq<char>, Seq<char>);

    /// The model, the URL of the endpoint and the token.
    closed spec fn view(&self) -> (Seq<char>, Seq<char>, Seq<char>) {
        (self.model@, self.url@, self.token@)
    }
}

impl CompletionClient {
    /// A client of `model` at `url`, authorized by `token`.
    pub fn new(token: String, url: String, model: String) -> (c: Self)
        ensures
            c@ == (model@, url@, token@),
    {
        Self { model, url, token }
    }

    /// The URL of the endpoint.
    pub fn url(&self) -> (u: &str)
        ensures
            u@ == self@.1,
    {
        self.url.as_str()
    }

    /// The token, sent as bearer.
    pub fn token(&self) -> (t: &str)
        ensures
            t@ == self@.2,
    {
        self.token.as_str()
    }

    /// The request for `prompt` and `text`: the client's model, at most
    /// `ARTICLE_MAX_TOKENS` tokens, the instructions as the system and `text` as the user.
    /// Fails where the model is empty.
    pub fn request(&self, prompt: &str, text: &str) -> (r: Result<CompletionRequest>)
        ensures
            self@.0.len() > 0 ==> (r matches Ok(req) && req.model@ == self@.0
                && req.messages.deep_view() == seq![(SYSTEM_ROLE@, prompt@), (USER_ROLE@, text@)]
                && req.max_tokens == Some(ARTICLE_MAX_TOKENS) && req.stream is None
                && req.top_k is None),
            self@.0.len() == 0 ==> (r matches Err(Error::Custom(m)) && m@ == request_error_prefix()
                + empty_model_message() + request_error_suffix()),
    {
        let mut messages: Vec<Message> = Vec::new();
        messages.push(Message { role: String::from_str(SYSTEM_ROLE), content: String::from_str(prompt) });
        messages.push(Message { role: String::from_str(USER_ROLE), content: String::from_str(text) });
        let ghost expected = messages.deep_view();
        assert(expected =~= seq![(SYSTEM_ROLE@, prompt@), (USER_ROLE@, text@)]);
        let mut builder = CompletionRequestBuilder::default();
        builder.model(self.model.clone());
        builder.max_tokens(ARTICLE_MAX_TOKENS);
        builder.messages(messages);
        assert(!builder.lacks_messages());
        match builder.build() {
            Ok(req) => {
                assert(req.messages.deep_view() == expected);
                Ok(req)
            },
            Err(CompletionRequestBuilderError::ValidationError(e)) => {
                let mut m = String::from_str("couldn't build completion request: ValidationError(\"");
                m.append(e.as_str());
                m.append("\")");
                Err(Error::Custom(m))
            },
        }
    }
}

} // verus!
