//! Requests to an OpenAI-compatible chat completion endpoint.
use crate::error::{Error, Result};
use crate::text::{to_chars};
use vstd::prelude::*;

pub mod oneshot;
pub mod stream;

verus! {

/// The role of the instructions.
pub const SYSTEM_ROLE: &'static str = "system";

/// The role of the user's texts.
pub const USER_ROLE: &'static str = "user";

/// The path of the completion endpoint, relative to the base URL of the service.
pub const COMPLETIONS_PATH: &'static str = "chat/completions";

/// The most tokens an answer may hold.
pub const MAX_TOKENS: u32 = 700;

/// A message of a conversation with the model.
#[derive(Debug)]
pub struct Message {
    pub role: String,
    pub content: String,
}

impl View for Message {
    type V = (Seq<char>, Seq<char>);

    open spec fn view(&self) -> (Seq<char>, Seq<char>) {
        (self.role@, self.content@)
    }
}

impl DeepView for Message {
    type V = (Seq<char>, Seq<char>);

    open spec fn deep_view(&self) -> (Seq<char>, Seq<char>) {
        self@
    }
}

/// A request to the completion endpoint. The sampling parameters that the library never sets
/// (temperature, top_p, n and the penalties) are left out; they are sent as absent.
#[derive(Debug)]
pub struct CompletionRequest {
    pub model: String,
    pub messages: Vec<Message>,
    pub max_tokens: Option<u32>,
    pub stream: Option<bool>,
    pub top_k: Option<u16>,
}

/// Builds a [`CompletionRequest`]; every field left unset takes its default.
#[derive(Debug)]
pub struct CompletionRequestBuilder {
    pub model: Option<String>,
    pub messages: Option<Vec<Message>>,
    pub max_tokens: Option<u32>,
    pub stream: Option<bool>,
    pub top_k: Option<u16>,
}

/// Why a request could not be built.
#[derive(Debug)]
pub enum CompletionRequestBuilderError {
    ValidationError(String),
}

/// `Model cannot be empty`
pub open spec fn empty_model_message() -> Seq<char> {
    "Model cannot be empty"@
}

/// `Messages cannot be empty`
pub open spec fn empty_messages_message() -> Seq<char> {
    "Messages cannot be empty"@
}

impl CompletionRequestBuilder {
    /// Whether the model is missing or empty.
    pub open spec fn lacks_model(&self) -> bool {
        match self.model {
            Some(m) => m@.len() == 0,
            None => true,
        }
    }

    /// Whether the messages are missing or empty.
    pub open spec fn lacks_messages(&self) -> bool {
        match self.messages {
            Some(ms) => ms@.len() == 0,
            None => true,
        }
    }

    /// A builder with nothing set.
    pub fn default() -> (b: Self)
        ensures
            b.model is None,
            b.messages is None,
            b.max_tokens is None,
            b.stream is None,
            b.top_k is None,
    {
        CompletionRequestBuilder { model: None, messages: None, max_tokens: None, stream: None, top_k: None }
    }

    /// Sets the model.
    pub fn model(&mut self, model: String)
        ensures
            final(self).model == Some(model),
            final(self).messages == old(self).messages,
            final(self).max_tokens == old(self).max_tokens,
            final(self).stream == old(self).stream,
            final(self).top_k == old(self).top_k,
    {
        self.model = Some(model);
    }

    /// Sets the messages.
    pub fn messages(&mut self, messages: Vec<Message>)
        ensures
            final(self).messages == Some(messages),
            final(self).model == old(self).model,
            final(self).max_tokens == old(self).max_tokens,
            final(self).stream == old(self).stream,
            final(self).top_k == old(self).top_k,
    {
        self.messages = Some(messages);
    }

    /// Sets the most tokens of the answer.
    pub fn max_tokens(&mut self, max_tokens: u32)
        ensures
            final(self).max_tokens == Some(max_tokens),
            final(self).model == old(self).model,
            final(self).messages == old(self).messages,
            final(self).stream == old(self).stream,
            final(self).top_k == old(self).top_k,
    {
        self.max_tokens = Some(max_tokens);
    }

    /// Sets whether the answer is streamed.
    pub fn stream(&mut self, stream: bool)
        ensures
            final(self).stream == Some(stream),
            final(self).model == old(self).model,
            final(self).messages == old(self).messages,
            final(self).max_tokens == old(self).max_tokens,
            final(self).top_k == old(self).top_k,
    {
        self.stream = Some(stream);
    }

    /// Sets the top-k sampling.
    pub fn top_k(&mut self, top_k: u16)
        ensures
            final(self).top_k == Some(top_k),
            final(self).model == old(self).model,
            final(self).messages == old(self).messages,
            final(self).max_tokens == old(self).max_tokens,
            final(self).stream == old(self).stream,
    {
        self.top_k = Some(top_k);
    }

    /// Refuses a request without a model or without messages; the model is checked first.
    pub fn validate(&self) -> (r: core::result::Result<(), String>)
        ensures
            self.lacks_model() ==> (r matches Err(m) && m@ == empty_model_message()),
            !self.lacks_model() && self.lacks_messages() ==> (r matches Err(m) && m@
                == empty_messages_message()),
            !self.lacks_model() && !self.lacks_messages() ==> r is Ok,
    {
        let no_model = match &self.model {
            Some(m) => to_chars(m.as_str()).len() == 0,
            None => true,
        };
        if no_model {
            return Err(String::from_str("Model cannot be empty"));
        }
        let no_messages = match &self.messages {
            Some(ms) => ms.len() == 0,
            None => true,
        };
        if no_messages {
            return Err(String::from_str("Messages cannot be empty"));
        }
        Ok(())
    }

    /// The request, if it passes validation.
    pub fn build(self) -> (r: core::result::Result<CompletionRequest, CompletionRequestBuilderError>)
        ensures
            self.lacks_model() ==> (r matches Err(CompletionRequestBuilderError::ValidationError(m))
                && m@ == empty_model_message()),
            !self.lacks_model() && self.lacks_messages() ==> (r matches Err(
                CompletionRequestBuilderError::ValidationError(m),
            ) && m@ == empty_messages_message()),
            !self.lacks_model() && !self.lacks_messages() ==> (r matches Ok(req) && Some(req.model)
                == self.model && Some(req.messages) == self.messages && req.max_tokens
                == self.max_tokens && req.stream == self.stream && req.top_k == self.top_k),
    {
        match self.validate() {
            Err(m) => Err(CompletionRequestBuilderError::ValidationError(m)),
            Ok(()) => {
                let CompletionRequestBuilder { model, messages, max_tokens, stream, top_k } = self;
                match (model, messages) {
                    (Some(model), Some(messages)) => Ok(
                        CompletionRequest { model, messages, max_tokens, stream, top_k },
                    ),
                    _ => Err(CompletionRequestBuilderError::ValidationError(String::new())),
                }
            },
        }
    }
}

/// The messages of a request: the instructions `prompt` as the system, then every text of
/// `user_messages` as the user.
pub open spec fn spec_messages(prompt: Seq<char>, user_messages: Seq<Seq<char>>) -> Seq<
    (Seq<char>, Seq<char>),
> {
    seq![(SYSTEM_ROLE@, prompt)] + user_messages.map_values(|t: Seq<char>| (USER_ROLE@, t))
}

/// The messages of a request for `prompt` and `user_messages`.
pub fn completion_messages(prompt: &str, user_messages: &[String]) -> (ms: Vec<Message>)
    ensures
        ms.deep_view() == spec_messages(prompt@, user_messages.deep_view()),
        ms@.len() == user_messages@.len() + 1,
{
    let mut ms: Vec<Message> = Vec::new();
    ms.push(Message { role: String::from_str(SYSTEM_ROLE), content: String::from_str(prompt) });
    let mut i: usize = 0;
    while i < user_messages.len()
        invariant
            i <= user_messages@.len(),
            ms.deep_view() == spec_messages(prompt@, user_messages.deep_view().take(i as int)),
            ms@.len() == i + 1,
        decreases user_messages@.len() - i,
    {
        let ghost before = ms.deep_view();
        ms.push(Message { role: String::from_str(USER_ROLE), content: user_messages[i].clone() });
        assert(ms.deep_view() =~= before.push((USER_ROLE@, user_messages@[i as int]@)));
        assert(spec_messages(prompt@, user_messages.deep_view().take(i + 1)) =~= spec_messages(
            prompt@,
            user_messages.deep_view().take(i as int),
        ).push((USER_ROLE@, user_messages@[i as int]@)));
        i = i + 1;
    }
    assert(user_messages.deep_view().take(user_messages@.len() as int) =~= user_messages.deep_view());
    ms
}

/// The serialization of `base` joined with the relative reference `path`, as `url::Url::join`
/// resolves it, or `None` where `base` is no URL or the join fails.
pub uninterp spec fn url_join(base: Seq<char>, path: Seq<char>) -> Option<Seq<char>>;

/// Trusted: `url::Url::parse` of `base`, then `Url::join` with `path`, read back through
/// `Url::as_str`; the result is the name `url_join` of the two arguments.
#[verifier::external_body]
fn join_url(base: &str, path: &str) -> (r: Option<String>)
    ensures
        r.deep_view() == url_join(base@, path@),
{
    match url::Url::parse(base) {
        Ok(b) => match b.join(path) {
            Ok(u) => Some(u.as_str().to_string()),
            Err(_) => None,
        },
        Err(_) => None,
    }
}

/// `could not parse completions endpoint: `
pub open spec fn endpoint_error_prefix() -> Seq<char> {
    "could not parse completions endpoint: "@
}

/// `couldn't build completion request: ValidationError("`
pub open spec fn request_error_prefix() -> Seq<char> {
    "couldn't build completion request: ValidationError(\""@
}

/// `")`
pub open spec fn request_error_suffix() -> Seq<char> {
    "\")"@
}

/// A client of the DeepInfra chat completion endpoint.
#[derive(Debug)]
pub struct DeepInfraClient {
    model: String,
    url: String,
    api_key: String,
}

impl View for DeepInfraClient {
    type V = (Seq<char>, Seq<char>, Seq<char>);

    /// The model, the URL of the endpoint and the API key.
    closed spec fn view(&self) -> (Seq<char>, Seq<char>, Seq<char>) {
        (self.model@, self.url@, self.api_key@)
    }
}

impl DeepInfraClient {
    /// A client of `model` at the completions endpoint under `base_url`.
    pub fn build(model: String, base_url: &str, api_key: String) -> (r: Result<Self>)
        ensures
            url_join(base_url@, COMPLETIONS_PATH@) matches Some(u) ==> (r matches Ok(c) && c@ == (
                model@,
                u,
                api_key@,
            )),
            url_join(base_url@, COMPLETIONS_PATH@) is None ==> (r matches Err(Error::Custom(m))
                && m@ == endpoint_error_prefix() + base_url@),
    {
        match join_url(base_url, COMPLETIONS_PATH) {
            Some(url) => Ok(Self { model, url, api_key }),
            None => {
                let mut m = String::from_str("could not parse completions endpoint: ");
                m.append(base_url);
                Err(Error::Custom(m))
            },
        }
    }

    /// The URL of the endpoint.
    pub fn url(&self) -> (u: &str)
        ensures
            u@ == self@.1,
    {
        self.url.as_str()
    }

    /// The API key, sent as bearer token.
    pub fn api_key(&self) -> (k: &str)
        ensures
            k@ == self@.2,
    {
        self.api_key.as_str()
    }

    /// The request for `prompt` and `user_messages`, streamed or not: the client's model, at
    /// most `MAX_TOKENS` tokens, the system prompt and then the user's texts. Fails where the
    /// model is empty.
    pub fn request(&self, prompt: &str, user_messages: &[String], stream: bool) -> (r: Result<
        CompletionRequest,
    >)
        ensures
            self@.0.len() > 0 ==> (r matches Ok(req) && req.model@ == self@.0
                && req.messages.deep_view() == spec_messages(prompt@, user_messages.deep_view())
                && req.max_tokens == Some(MAX_TOKENS) && req.stream == Some(stream)
                && req.top_k is None),
            self@.0.len() == 0 ==> (r matches Err(Error::Custom(m)) && m@ == request_error_prefix()
                + empty_model_message() + request_error_suffix()),
    {
        let mut builder = CompletionRequestBuilder::default();
        builder.model(self.model.clone());
        builder.max_tokens(MAX_TOKENS);
        let messages = completion_messages(prompt, user_messages);
        let ghost expected = messages.deep_view();
        builder.messages(messages);
        builder.stream(stream);
        assert(!builder.lacks_messages());
        match builder.build() {
            Ok(req) => {
                assert(req.messages.deep_view() == expected);
                Ok(req)
            },
            Err(CompletionRequestBuilderError::ValidationError(e)) => {
                let mut m = String::from_str("couldn't build completion request: ValidationError(\"");
                m.append(e.as_str());
                m.append("\")");
                Err(Error::Custom(m))
            },
        }
    }
}

} // verus!
