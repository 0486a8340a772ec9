//! Thin client for OpenAI-compatible embeddings and chat-completions
//! endpoints: what is sent to them, and what their replies mean.
//!
//! When no API key is configured (the common case for local servers), the
//! `Authorization` header is omitted entirely rather than sent with an empty
//! value.

use crate::error::{ErrorView, RagdError};
use crate::text::{chars_of, opt_text, text_of};
use vstd::prelude::*;
use vstd::string::*;

verus! {

/// Client for a pair of OpenAI-compatible endpoints: one for embeddings, one
/// for chat completions. They are commonly the same server but don't have to
/// be.
#[derive(Debug, Clone)]
pub struct OpenAiClient {
    pub embed_endpoint: String,
    pub embed_api_key: String,
    pub embed_model: String,
    pub llm_endpoint: String,
    pub llm_api_key: String,
    pub llm_model: String,
}

/// A message of a chat.
#[derive(Debug, Clone, PartialEq, Eq)]
pub struct Message {
    pub role: String,
    pub content: String,
}

/// What a [`Message`] holds.
pub struct MessageView {
    pub role: Seq<char>,
    pub content: Seq<char>,
}

impl View for Message {
    type V = MessageView;

    open spec fn view(&self) -> MessageView {
        MessageView { role: self.role@, content: self.content@ }
    }
}

/// What a request asks of its endpoint.
#[derive(Debug, Clone, PartialEq, Eq)]
pub enum RequestBody {
    /// The embedding of a text.
    Embed { model: String, input: String },
    /// The next message of a chat.
    Chat { model: String, messages: Vec<Message> },
}

/// What a [`RequestBody`] holds.
pub enum BodyView {
    Embed { model: Seq<char>, input: Seq<char> },
    Chat { model: Seq<char>, messages: Seq<MessageView> },
}

impl View for RequestBody {
    type V = BodyView;

    open spec fn view(&self) -> BodyView {
        match self {
            RequestBody::Embed { model, input } => BodyView::Embed { model: model@, input: input@ },
            RequestBody::Chat { model, messages } => BodyView::Chat {
                model: model@,
                messages: messages@.map_values(|m: Message| m@),
            },
        }
    }
}

/// A request: where it is posted to, the key to authorize it with, if any,
/// and what it asks.
#[derive(Debug, Clone, PartialEq, Eq)]
pub struct ModelRequest {
    pub url: String,
    pub bearer: Option<String>,
    pub body: RequestBody,
}

/// What a [`ModelRequest`] holds.
pub struct ModelRequestView {
    pub url: Seq<char>,
    pub bearer: Option<Seq<char>>,
    pub body: BodyView,
}

impl View for ModelRequest {
    type V = ModelRequestView;

    open spec fn view(&self) -> ModelRequestView {
        ModelRequestView {
            url: self.url@,
            bearer: opt_text(self.bearer),
            body: self.body@,
        }
    }
}

/// `s` without the slashes that it ends in.
pub open spec fn without_slashes(s: Seq<char>) -> Seq<char>
    decreases s.len(),
{
    if s.len() > 0 && s.last() == '/' {
        without_slashes(s.drop_last())
    } else {
        s
    }
}

/// The key to authorize a request with: none if it is empty.
pub open spec fn bearer_of(api_key: Seq<char>) -> Option<Seq<char>> {
    if api_key.len() == 0 {
        None
    } else {
        Some(api_key)
    }
}

fn trim_slashes(s: &str) -> (r: String)
    ensures
        r@ == without_slashes(s@),
{
    let chars = chars_of(s);
    let mut end: usize = chars.len();
    assert(s@.take(s@.len() as int) =~= s@);
    while end > 0 && chars[end - 1] == '/'
        invariant
            chars@ == s@,
            end <= chars@.len(),
            without_slashes(s@) == without_slashes(s@.take(end as int)),
        decreases end,
    {
        assert(s@.take(end as int).drop_last() =~= s@.take(end - 1));
        end = end - 1;
    }
    let r = text_of(&chars, 0, end);
    assert(r@ =~= s@.take(end as int));
    r
}

fn bearer(api_key: &String) -> (r: Option<String>)
    ensures
        opt_text(r) == bearer_of(api_key@),
{
    let chars = chars_of(api_key.as_str());
    if chars.len() == 0 {
        None
    } else {
        Some(api_key.clone())
    }
}

/// What came of posting a request.
#[derive(Debug, Clone, PartialEq, Eq)]
pub enum Reply<T> {
    /// It could not be sent, or got no answer.
    Unsent(String),
    /// The answer's status is not one of success; it is given as it is
    /// displayed, with the answer's text.
    Refused { status: String, text: String },
    /// The answer is not of the form asked for.
    Invalid(String),
    /// The items of the answer, in order.
    Items(Vec<T>),
}

/// The error that a reply without items stands for.
pub open spec fn failure_of<T>(url: Seq<char>, reply: Reply<T>) -> Option<ErrorView> {
    match reply {
        Reply::Unsent(why) => Some(
            ErrorView::ModelEndpoint("request to "@ + url + " failed: "@ + why@),
        ),
        Reply::Refused { status, text } => Some(
            ErrorView::ModelEndpoint(url + " returned "@ + status@ + ": "@ + text@),
        ),
        Reply::Invalid(why) => Some(
            ErrorView::ModelEndpoint("invalid response from "@ + url + ": "@ + why@),
        ),
        Reply::Items(_) => None,
    }
}

/// The items of a reply, or the error that it stands for.
fn items_of<T>(url: &str, reply: Reply<T>) -> (r: Result<Vec<T>, RagdError>)
    ensures
        match failure_of(url@, reply) {
            Some(e) => r matches Err(error) && error@ == e,
            None => reply matches Reply::Items(items) && r == Ok::<Vec<T>, RagdError>(items),
        },
{
    match reply {
        Reply::Unsent(why) => Err(
            RagdError::ModelEndpoint(
                "request to ".to_owned().concat(url).concat(" failed: ").concat(why.as_str()),
            ),
        ),
        Reply::Refused { status, text } => Err(
            RagdError::ModelEndpoint(
                url.to_owned().concat(" returned ").concat(status.as_str()).concat(": ").concat(
                    text.as_str(),
                ),
            ),
        ),
        Reply::Invalid(why) => Err(
            RagdError::ModelEndpoint(
                "invalid response from ".to_owned().concat(url).concat(": ").concat(why.as_str()),
            ),
        ),
        Reply::Items(items) => Ok(items),
    }
}

impl OpenAiClient {
    /// A client for the given endpoints, keys and models.
    pub fn new(
        embed_endpoint: &str,
        embed_api_key: &str,
        embed_model: &str,
        llm_endpoint: &str,
        llm_api_key: &str,
        llm_model: &str,
    ) -> (r: OpenAiClient)
        ensures
            r.embed_endpoint@ == embed_endpoint@,
            r.embed_api_key@ == embed_api_key@,
            r.embed_model@ == embed_model@,
            r.llm_endpoint@ == llm_endpoint@,
            r.llm_api_key@ == llm_api_key@,
            r.llm_model@ == llm_model@,
    {
        OpenAiClient {
            embed_endpoint: embed_endpoint.to_owned(),
            embed_api_key: embed_api_key.to_owned(),
            embed_model: embed_model.to_owned(),
            llm_endpoint: llm_endpoint.to_owned(),
            llm_api_key: llm_api_key.to_owned(),
            llm_model: llm_model.to_owned(),
        }
    }

    /// Where embeddings are asked for.
    pub open spec fn embed_url(self) -> Seq<char> {
        without_slashes(self.embed_endpoint@) + "/embeddings"@
    }

    /// Where chat completions are asked for.
    pub open spec fn chat_url(self) -> Seq<char> {
        without_slashes(self.llm_endpoint@) + "/chat/completions"@
    }

    /// The request for the embedding of a text.
    pub fn embed_request(&self, text: &str) -> (r: ModelRequest)
        ensures
            r@ == (ModelRequestView {
                url: self.embed_url(),
                bearer: bearer_of(self.embed_api_key@),
                body: BodyView::Embed { model: self.embed_model@, input: text@ },
            }),
    {
        ModelRequest {
            url: trim_slashes(self.embed_endpoint.as_str()).concat("/embeddings"),
            bearer: bearer(&self.embed_api_key),
            body: RequestBody::Embed { model: self.embed_model.clone(), input: text.to_owned() },
        }
    }

    /// The embedding in the reply to a request for one: the last that it
    /// holds.
    pub fn embedding_from(&self, reply: Reply<Vec<u32>>) -> (r: Result<Vec<u32>, RagdError>)
        ensures
            match failure_of(self.embed_url(), reply) {
                Some(e) => r matches Err(error) && error@ == e,
                None => reply matches Reply::Items(items) && if items@.len() == 0 {
                    r matches Err(error) && error@ == ErrorView::ModelEndpoint(
                        "embed response contained no data"@,
                    )
                } else {
                    r == Ok::<Vec<u32>, RagdError>(items@.last())
                },
            },
    {
        let url = trim_slashes(self.embed_endpoint.as_str()).concat("/embeddings");
        match items_of(url.as_str(), reply) {
            Ok(items) => {
                let mut items = items;
                match items.pop() {
                    Some(embedding) => Ok(embedding),
                    None => Err(
                        RagdError::ModelEndpoint("embed response contained no data".to_owned()),
                    ),
                }
            },
            Err(e) => Err(e),
        }
    }

    /// The request for an answer to `user_message` given `system_prompt` as
    /// context (typically the retrieved chunks plus instructions).
    pub fn chat_request(&self, system_prompt: &str, user_message: &str) -> (r: ModelRequest)
        ensures
            r@ == (ModelRequestView {
                url: self.chat_url(),
                bearer: bearer_of(self.llm_api_key@),
                body: BodyView::Chat {
                    model: self.llm_model@,
                    messages: seq![
                        MessageView { role: "system"@, content: system_prompt@ },
                        MessageView { role: "user"@, content: user_message@ },
                    ],
                },
            }),
    {
        let messages = vec![
            Message { role: "system".to_owned(), content: system_prompt.to_owned() },
            Message { role: "user".to_owned(), content: user_message.to_owned() },
        ];
        proof {
            let views = seq![
                MessageView { role: "system"@, content: system_prompt@ },
                MessageView { role: "user"@, content: user_message@ },
            ];
            assert(messages@.map_values(|m: Message| m@) =~= views);
        }
        ModelRequest {
            url: trim_slashes(self.llm_endpoint.as_str()).concat("/chat/completions"),
            bearer: bearer(&self.llm_api_key),
            body: RequestBody::Chat { model: self.llm_model.clone(), messages },
        }
    }

    /// The text in the reply to a request for an answer: that of the last
    /// choice that it holds.
    pub fn answer_from(&self, reply: Reply<String>) -> (r: Result<String, RagdError>)
        ensures
            match failure_of(self.chat_url(), reply) {
                Some(e) => r matches Err(error) && error@ == e,
                None => reply matches Reply::Items(items) && if items@.len() == 0 {
                    r matches Err(error) && error@ == ErrorView::ModelEndpoint(
                        "chat response contained no choices"@,
                    )
                } else {
                    r == Ok::<String, RagdError>(items@.last())
                },
            },
    {
        let url = trim_slashes(self.llm_endpoint.as_str()).concat("/chat/completions");
        match items_of(url.as_str(), reply) {
            Ok(items) => {
                let mut items = items;
                match items.pop() {
                    Some(text) => Ok(text),
                    None => Err(
                        RagdError::ModelEndpoint("chat response contained no choices".to_owned()),
                    ),
                }
            },
            Err(e) => Err(e),
        }
    }
}

/// A request carries a key exactly if one is configured, and then the one
/// configured.
pub proof fn law_no_key_no_authorization(api_key: Seq<char>)
    ensures
        bearer_of(api_key) is None <==> api_key.len() == 0,
        bearer_of(api_key) matches Some(key) ==> key == api_key && key.len() > 0,
{
}

/// A slash at the end of an endpoint makes no difference.
pub proof fn law_trailing_slash_is_ignored(endpoint: Seq<char>)
    ensures
        without_slashes(endpoint.push('/')) == without_slashes(endpoint),
        without_slashes(endpoint).len() > 0 ==> without_slashes(endpoint).last() != '/',
    decreases endpoint.len(),
{
    assert(endpoint.push('/').drop_last() =~= endpoint);
    if endpoint.len() > 0 && endpoint.last() == '/' {
        law_trailing_slash_is_ignored(endpoint.drop_last());
    }
}

} // verus!
