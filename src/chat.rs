use vstd::prelude::*;

verus! {

/// A failure of one extraction run.
pub enum ExtractError {
    /// The command line or the configuration is incomplete.
    Usage(String),
    /// A request could not be sent or its answer not read.
    Network(String),
    /// The chat endpoint answered with a non-2xx status; the body is kept.
    Remote(String),
    /// The chat endpoint answered 2xx with no choices.
    EmptyResponse,
    /// The chat answer was not of the expected JSON shape.
    Decode(String),
}

pub open spec fn empty_response_text() -> Seq<char> {
    "No choices in response"@
}

impl ExtractError {
    pub open spec fn message_spec(&self) -> Seq<char> {
        match self {
            ExtractError::Usage(s) => s@,
            ExtractError::Network(s) => s@,
            ExtractError::Remote(s) => s@,
            ExtractError::EmptyResponse => empty_response_text(),
            ExtractError::Decode(s) => s@,
        }
    }

    /// The text shown to the user after `Error: `.
    pub fn message(&self) -> (r: String)
        ensures
            r@ == self.message_spec(),
    {
        match self {
            ExtractError::Usage(s) => s.clone(),
            ExtractError::Network(s) => s.clone(),
            ExtractError::Remote(s) => s.clone(),
            ExtractError::EmptyResponse => String::from_str("No choices in response"),
            ExtractError::Decode(s) => s.clone(),
        }
    }
}

/// One chat message.
pub struct Message {
    pub role: String,
    pub content: String,
}

/// The body of a chat completion request.
pub struct ChatRequest {
    pub model: String,
    pub messages: Vec<Message>,
}

pub open spec fn system_text() -> Seq<char> {
    "You are a helpful assistant."@
}

pub open spec fn model_name() -> Seq<char> {
    "gpt-4-turbo"@
}

/// `r` is the request that sends `prompt` as the user message.
pub open spec fn is_request_for(r: ChatRequest, prompt: Seq<char>) -> bool {
    &&& r.model@ == model_name()
    &&& r.messages.len() == 2
    &&& r.messages[0].role@ == "system"@
    &&& r.messages[0].content@ == system_text()
    &&& r.messages[1].role@ == "user"@
    &&& r.messages[1].content@ == prompt
}

/// The two-message request: the fixed system message, then `prompt` from the user.
pub fn chat_request(prompt: &str) -> (r: ChatRequest)
    ensures
        is_request_for(r, prompt@),
{
    let system = Message {
        role: String::from_str("system"),
        content: String::from_str("You are a helpful assistant."),
    };
    let user = Message { role: String::from_str("user"), content: String::from_str(prompt) };
    let mut messages: Vec<Message> = Vec::new();
    messages.push(system);
    messages.push(user);
    ChatRequest { model: String::from_str("gpt-4-turbo"), messages }
}

pub open spec fn is_success(status: u16) -> bool {
    200 <= status < 300
}

/// Decides the result of a chat call from the status, the body, and the
/// `message.content` of each choice (or why the body did not decode).
pub fn chat_reply(status: u16, body: String, contents: Result<Vec<String>, String>) -> (r: Result<
    String,
    ExtractError,
>)
    ensures
        !is_success(status) ==> r == Err::<String, ExtractError>(ExtractError::Remote(body)),
        is_success(status) ==> match contents {
            Err(m) => r == Err::<String, ExtractError>(ExtractError::Decode(m)),
            Ok(v) => if v.len() == 0 {
                r == Err::<String, ExtractError>(ExtractError::EmptyResponse)
            } else {
                r is Ok && r->Ok_0@ == v[0]@
            },
        },
{
    if status < 200 || status >= 300 {
        return Err(ExtractError::Remote(body));
    }
    match contents {
        Err(m) => Err(ExtractError::Decode(m)),
        Ok(v) => {
            if v.len() == 0 {
                Err(ExtractError::EmptyResponse)
            } else {
                Ok(v[0].clone())
            }
        },
    }
}

} // verus!
