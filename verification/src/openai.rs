//! The chat-completion data model and the token estimator for it.

use vstd::prelude::*;

verus! {

/// One role-tagged message of a chat request; the role is one of "system",
/// "user" or "assistant", and the order of messages in a request matters.
#[derive(Clone)]
pub struct ChatMessage {
    pub role: &'static str,
    pub content: String,
}

/// One complete chat-completion request body: a model identifier and an
/// ordered list of messages.
#[derive(Clone)]
pub struct ChatApiRequest {
    pub model: &'static str,
    pub messages: Vec<ChatMessage>,
}

/// The body of a chat-completion response.
pub struct ChatApiResponse {
    pub choices: Vec<ChatChoice>,
}

/// One choice of a chat-completion response.
pub struct ChatChoice {
    pub message: ChatMessageContent,
}

/// The message payload of one response choice.
pub struct ChatMessageContent {
    pub content: String,
}

/// The role and content of a message, as plain character sequences.
pub open spec fn msg_view(m: ChatMessage) -> (Seq<char>, Seq<char>) {
    (m.role@, m.content@)
}

/// The roles and contents of a message list, as plain character sequences.
pub open spec fn msgs_view(ms: Seq<ChatMessage>) -> Seq<(Seq<char>, Seq<char>)> {
    ms.map_values(|m: ChatMessage| msg_view(m))
}

/// The number of tokens that a message list consumes under the "gpt-4" chat
/// encoding: a fixed function of the roles and contents alone.
pub uninterp spec fn token_estimate(msgs: Seq<(Seq<char>, Seq<char>)>) -> nat;

/// Relies on `tiktoken_rs::num_tokens_from_messages`: a deterministic token
/// estimate for the given messages under the "gpt-4" chat encoding, counting
/// per-message overhead as well as the encoded roles and contents. It depends
/// on the roles and contents alone, and for this model name the call always
/// returns `Ok`.
#[verifier::external_body]
pub fn count_tokens(chat: &[ChatMessage]) -> (r: usize)
    ensures
        r as nat == token_estimate(msgs_view(chat@)),
{
    let messages = chat
        .iter()
        .map(|message| tiktoken_rs::ChatCompletionRequestMessage {
            role: message.role.to_string(),
            content: Some(message.content.clone()),
            ..Default::default()
        })
        .collect::<Vec<_>>();
    tiktoken_rs::num_tokens_from_messages("gpt-4", &messages).unwrap()
}

} // verus!
