//! Requests to the free-form language-model relay.
use vstd::prelude::*;

verus! {

#[verifier::external_type_specification]
#[verifier::external_body]
#[verifier::reject_recursive_types(T)]
pub struct ExReceiver<T>(std::sync::mpsc::Receiver<T>);

/// One chat request.
pub struct Request {
    pub model: String,
    pub messages: Vec<Message>,
    pub stream: bool,
}

/// One chat message.
pub struct Message {
    pub role: String,
    pub content: String,
}

/// The relay's answer.
pub struct Response {
    pub message: Message,
}

/// The relay client: where to send, which model, and where prompts arrive.
pub struct Client {
    pub model: String,
    pub endpoint: String,
    pub receiver: std::sync::mpsc::Receiver<String>,
}

impl Client {
    /// The request that carries `prompt`: one message from the user, with
    /// the answer asked for in one piece.
    pub fn request(&self, prompt: String) -> (r: Request)
        ensures
            r.model@ == self.model@,
            r.messages@.len() == 1,
            r.messages@[0].role@ == "user"@,
            r.messages@[0].content == prompt,
            !r.stream,
    {
        let role = "user".to_owned();
        let mut messages: Vec<Message> = Vec::new();
        messages.push(Message { role, content: prompt });
        Request { model: self.model.clone(), messages, stream: false }
    }
}

} // verus!
