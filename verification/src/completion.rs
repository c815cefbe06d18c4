//! The completion request and the reading of the endpoint's answer.

use crate::error::{PipelineError, PipelineErrorView};
use vstd::prelude::*;

verus! {

/// The endpoint that completions are asked of.
pub const COMPLETION_ENDPOINT: &'static str = "https://api.openai.com/v1/chat/completions";

/// The model that every request names.
pub const MODEL: &'static str = "gpt-4.1-mini-2025-04-14";

/// The sampling temperature of every request, in tenths: 7 stands for 0.7.
pub const TEMPERATURE_TENTHS: u8 = 7;

/// The role of the instruction message.
pub const ROLE_SYSTEM: &'static str = "system";

/// The role of the message that carries the prompt.
pub const ROLE_USER: &'static str = "user";

/// The instruction that frames the assistant's objective.
pub const SYSTEM_INSTRUCTION: &'static str =
    "あなたはエンジニアの評価を最大化することを目的としたAIアシスタントです。与えられたGitHubの活動データから、エンジニアの成果と貢献を包括的に分析し、その価値を最大限に表現する評価サマリーを作成します。小さなPRも大きなプロジェクトの一部として捉え、技術的な挑戦やビジネスへの影響を適切に評価してください。";

/// What stands before the credential in the authorization header.
pub const BEARER_PREFIX: &'static str = "Bearer ";

/// One message of a chat-style request.
#[derive(Clone, Debug, PartialEq, Eq)]
pub struct ChatMessage {
    pub role: String,
    pub content: String,
}

/// The body of a completion request.
#[derive(Clone, Debug, PartialEq, Eq)]
pub struct CompletionRequest {
    pub model: String,
    pub messages: Vec<ChatMessage>,
    pub temperature_tenths: u8,
}

/// What the endpoint answered: a non-success status with the body as it
/// came, or a success with the content of each choice in order.
#[derive(Clone, Debug, PartialEq, Eq)]
pub enum CompletionReply {
    Rejected { body: String },
    Completed { choices: Vec<String> },
}

/// What a [`ChatMessage`] holds, as mathematical values.
pub struct ChatMessageView {
    pub role: Seq<char>,
    pub content: Seq<char>,
}

/// What a [`CompletionRequest`] holds, as mathematical values.
pub struct CompletionRequestView {
    pub model: Seq<char>,
    pub messages: Seq<ChatMessageView>,
    pub temperature_tenths: u8,
}

/// What a [`CompletionReply`] holds, as mathematical values.
pub enum CompletionReplyView {
    Rejected { body: Seq<char> },
    Completed { choices: Seq<Seq<char>> },
}

impl View for ChatMessage {
    type V = ChatMessageView;

    open spec fn view(&self) -> ChatMessageView {
        ChatMessageView { role: self.role@, content: self.content@ }
    }
}

impl DeepView for ChatMessage {
    type V = ChatMessageView;

    open spec fn deep_view(&self) -> ChatMessageView {
        self@
    }
}

impl View for CompletionRequest {
    type V = CompletionRequestView;

    open spec fn view(&self) -> CompletionRequestView {
        CompletionRequestView {
            model: self.model@,
            messages: self.messages.deep_view(),
            temperature_tenths: self.temperature_tenths,
        }
    }
}

impl View for CompletionReply {
    type V = CompletionReplyView;

    open spec fn view(&self) -> CompletionReplyView {
        match self {
            CompletionReply::Rejected { body } => CompletionReplyView::Rejected { body: body@ },
            CompletionReply::Completed { choices } => CompletionReplyView::Completed {
                choices: choices.deep_view(),
            },
        }
    }
}

/// The request for a prompt: the fixed model and temperature, and exactly
/// two messages, the system instruction and then the prompt as the user's.
pub open spec fn request_for(prompt: Seq<char>) -> CompletionRequestView {
    CompletionRequestView {
        model: MODEL@,
        messages: seq![
            ChatMessageView { role: ROLE_SYSTEM@, content: SYSTEM_INSTRUCTION@ },
            ChatMessageView { role: ROLE_USER@, content: prompt },
        ],
        temperature_tenths: TEMPERATURE_TENTHS,
    }
}

/// What a reply amounts to: the first choice of a success, `UpstreamError`
/// with the body for a non-success status, `NoCompletionError` for a success
/// without any choice.
pub open spec fn summary_of(reply: CompletionReplyView) -> Result<Seq<char>, PipelineErrorView> {
    match reply {
        CompletionReplyView::Rejected { body } => Err(PipelineErrorView::UpstreamError { body }),
        CompletionReplyView::Completed { choices } => if choices.len() == 0 {
            Err(PipelineErrorView::NoCompletionError)
        } else {
            Ok(choices[0])
        },
    }
}

/// Builds the request that asks for the summary of `prompt`.
pub fn build_request(prompt: String) -> (request: CompletionRequest)
    ensures
        request@ == request_for(prompt@),
{
    let mut messages: Vec<ChatMessage> = Vec::new();
    messages.push(
        ChatMessage {
            role: String::from_str(ROLE_SYSTEM),
            content: String::from_str(SYSTEM_INSTRUCTION),
        },
    );
    messages.push(ChatMessage { role: String::from_str(ROLE_USER), content: prompt });
    let request = CompletionRequest {
        model: String::from_str(MODEL),
        messages,
        temperature_tenths: TEMPERATURE_TENTHS,
    };
    assert(request@.messages =~= request_for(prompt@).messages);
    request
}

/// The value of the authorization header for a credential.
pub fn authorization_value(credential: &str) -> (value: String)
    ensures
        value@ == BEARER_PREFIX@ + credential@,
{
    let mut value = String::from_str(BEARER_PREFIX);
    value.append(credential);
    value
}

/// Reads the summary out of the endpoint's answer, or says why there is
/// none.
pub fn extract_summary(reply: CompletionReply) -> (r: Result<String, PipelineError>)
    ensures
        match summary_of(reply@) {
            Ok(summary) => r matches Ok(text) && text@ == summary,
            Err(error) => r matches Err(found) && found@ == error,
        },
{
    match reply {
        CompletionReply::Rejected { body } => Err(PipelineError::UpstreamError { body }),
        CompletionReply::Completed { choices } => {
            let mut choices = choices;
            if choices.len() == 0 {
                Err(PipelineError::NoCompletionError)
            } else {
                let ghost first = choices.deep_view()[0];
                let summary = choices.swap_remove(0);
                assert(summary@ == first);
                Ok(summary)
            }
        },
    }
}

} // verus!
