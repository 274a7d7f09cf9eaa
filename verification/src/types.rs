//! What a chat is made of: messages, requests, events, models.

use vstd::prelude::*;

verus! {

#[derive(Debug, Clone, Copy, PartialEq, Eq, Structural)]
pub enum MessageRole {
    System,
    User,
    Assistant,
    Tool,
}

impl MessageRole {
    pub fn is_user(&self) -> (yes: bool)
        ensures
            yes == (*self == MessageRole::User),
    {
        matches!(self, MessageRole::User)
    }
}

#[derive(Debug, Clone, PartialEq, Eq)]
pub struct ChatMessage {
    pub role: MessageRole,
    pub content: String,
    pub name: Option<String>,
    pub tool_call_id: Option<String>,
}

/// A tool that a model may call; `parameters` is a JSON text.
#[derive(Debug, Clone, PartialEq, Eq)]
pub struct ToolDefinition {
    pub name: String,
    pub description: String,
    pub parameters: String,
}

/// A request to generate; `temperature` is the bit pattern of a 32-bit float.
#[derive(Debug, Clone, PartialEq, Eq)]
pub struct GenerateRequest {
    pub model: String,
    pub messages: Vec<ChatMessage>,
    pub max_tokens: Option<u32>,
    pub temperature: Option<u32>,
    pub stream: bool,
    pub tools: Vec<ToolDefinition>,
}

#[derive(Debug, Clone, PartialEq, Eq)]
pub struct TokenEvent {
    pub token: String,
    pub finish_reason: Option<String>,
}

/// The mathematical value of a `TokenEvent`.
#[verifier::ext_equal]
pub struct Event {
    pub token: Seq<char>,
    pub finish_reason: Option<Seq<char>>,
}

/// The characters of a text that may be missing.
pub open spec fn maybe_text(text: Option<String>) -> Option<Seq<char>> {
    match text {
        Some(text) => Some(text@),
        None => None,
    }
}

impl View for TokenEvent {
    type V = Event;

    open spec fn view(&self) -> Event {
        Event { token: self.token@, finish_reason: maybe_text(self.finish_reason) }
    }
}

pub open spec fn token_event(token: Seq<char>) -> Event {
    Event { token, finish_reason: None }
}

pub open spec fn finished_event(reason: Seq<char>) -> Event {
    Event { token: Seq::empty(), finish_reason: Some(reason) }
}

impl TokenEvent {
    pub fn token(token: String) -> (event: Self)
        ensures
            event@ == token_event(token@),
    {
        TokenEvent { token, finish_reason: None }
    }

    pub fn finished(reason: String) -> (event: Self)
        ensures
            event@ == finished_event(reason@),
    {
        TokenEvent { token: String::new(), finish_reason: Some(reason) }
    }
}

#[derive(Debug, PartialEq, Eq)]
pub struct ModelInfo {
    pub id: String,
    pub family: String,
    pub context_size: u32,
    pub recommended_context_8gb: u32,
    pub quantization: String,
    pub backend: String,
    pub status: String,
}

/// The mathematical value of a `ModelInfo`.
#[verifier::ext_equal]
pub struct ModelFacts {
    pub id: Seq<char>,
    pub family: Seq<char>,
    pub context_size: u32,
    pub recommended_context_8gb: u32,
    pub quantization: Seq<char>,
    pub backend: Seq<char>,
    pub status: Seq<char>,
}

impl View for ModelInfo {
    type V = ModelFacts;

    open spec fn view(&self) -> ModelFacts {
        ModelFacts {
            id: self.id@,
            family: self.family@,
            context_size: self.context_size,
            recommended_context_8gb: self.recommended_context_8gb,
            quantization: self.quantization@,
            backend: self.backend@,
            status: self.status@,
        }
    }
}

impl Clone for ModelInfo {
    fn clone(&self) -> (copy: Self)
        ensures
            copy@ == self@,
    {
        ModelInfo {
            id: self.id.clone(),
            family: self.family.clone(),
            context_size: self.context_size,
            recommended_context_8gb: self.recommended_context_8gb,
            quantization: self.quantization.clone(),
            backend: self.backend.clone(),
            status: self.status.clone(),
        }
    }
}

pub open spec fn qwen_coder_stub() -> ModelFacts {
    ModelFacts {
        id: "qwen2.5-coder-1.5b"@,
        family: "qwen2.5-coder"@,
        context_size: 32768,
        recommended_context_8gb: 4096,
        quantization: "Q4_K_M"@,
        backend: "stub"@,
        status: "stub"@,
    }
}

impl ModelInfo {
    pub fn default_qwen_coder_stub() -> (model: Self)
        ensures
            model@ == qwen_coder_stub(),
    {
        ModelInfo {
            id: "qwen2.5-coder-1.5b".to_owned(),
            family: "qwen2.5-coder".to_owned(),
            context_size: 32768,
            recommended_context_8gb: 4096,
            quantization: "Q4_K_M".to_owned(),
            backend: "stub".to_owned(),
            status: "stub".to_owned(),
        }
    }
}

} // verus!
