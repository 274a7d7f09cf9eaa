//! Driving a llama.cpp server: how it is started, awaited and asked.

use crate::backend::{stream_words, word_events};
use crate::error::{Fault, TinyAgentError};
use crate::text::{cat2, cat4, decimal, decimal_u64, views};
use crate::types::{ChatMessage, GenerateRequest, MessageRole, ModelFacts, ModelInfo, TokenEvent};
use vstd::prelude::*;
use vstd::string::StringExecFns;

verus! {

#[derive(Debug, Clone, PartialEq, Eq)]
pub struct LlamaServerConfig {
    pub executable: String,
    pub host: String,
    pub port: u16,
    pub model_path: String,
    pub profile: String,
    pub ctx_size: u32,
    pub batch_size: u32,
    pub ubatch_size: u32,
    pub gpu_layers: u32,
}

/// The arguments that the server is started with.
pub open spec fn server_arguments(config: LlamaServerConfig) -> Seq<Seq<char>> {
    seq![
        "-m"@,
        config.model_path@,
        "--host"@,
        config.host@,
        "--port"@,
        decimal(config.port as nat),
        "-c"@,
        decimal(config.ctx_size as nat),
        "-b"@,
        decimal(config.batch_size as nat),
        "-ub"@,
        decimal(config.ubatch_size as nat),
        "-ngl"@,
        decimal(config.gpu_layers as nat),
    ]
}

pub open spec fn server_url(config: LlamaServerConfig) -> Seq<char> {
    "http://"@ + config.host@ + ":"@ + decimal(config.port as nat)
}

impl LlamaServerConfig {
    /// The fault of a model file that is not there.
    pub fn check_model(&self, model_exists: bool) -> (result: Result<(), TinyAgentError>)
        ensures
            match result {
                Ok(_) => model_exists,
                Err(error) => !model_exists && error@ == Fault::Configuration(
                    "GGUF model not found: "@ + self.model_path@,
                ),
            },
    {
        if !model_exists {
            return Err(
                TinyAgentError::Configuration(
                    cat2("GGUF model not found: ", self.model_path.as_str()),
                ),
            );
        }
        Ok(())
    }

    pub fn arguments(&self) -> (arguments: Vec<String>)
        ensures
            views(arguments@) == server_arguments(*self),
    {
        let mut arguments: Vec<String> = Vec::new();
        arguments.push("-m".to_owned());
        arguments.push(self.model_path.clone());
        arguments.push("--host".to_owned());
        arguments.push(self.host.clone());
        arguments.push("--port".to_owned());
        arguments.push(decimal_u64(self.port as u64));
        arguments.push("-c".to_owned());
        arguments.push(decimal_u64(self.ctx_size as u64));
        arguments.push("-b".to_owned());
        arguments.push(decimal_u64(self.batch_size as u64));
        arguments.push("-ub".to_owned());
        arguments.push(decimal_u64(self.ubatch_size as u64));
        arguments.push("-ngl".to_owned());
        arguments.push(decimal_u64(self.gpu_layers as u64));
        assert(views(arguments@) =~= server_arguments(*self));
        arguments
    }

    /// The fault of a server that could not be started.
    pub fn start_failure(&self, reason: &str) -> (error: TinyAgentError)
        ensures
            error@ == Fault::Configuration(
                "failed to start llama-server at "@ + self.executable@ + ": "@ + reason@,
            ),
    {
        TinyAgentError::Configuration(
            cat4("failed to start llama-server at ", self.executable.as_str(), ": ", reason),
        )
    }

    pub fn base_url(&self) -> (url: String)
        ensures
            url@ == server_url(*self),
    {
        cat4("http://", self.host.as_str(), ":", decimal_u64(self.port as u64).as_str())
    }

    pub fn health_url(&self) -> (url: String)
        ensures
            url@ == server_url(*self) + "/health"@,
    {
        cat2(self.base_url().as_str(), "/health")
    }

    pub fn completion_url(&self) -> (url: String)
        ensures
            url@ == server_url(*self) + "/completion"@,
    {
        cat2(self.base_url().as_str(), "/completion")
    }
}

/// How often the server is asked for its health before it is given up.
pub const READY_ATTEMPTS: u32 = 120;

/// The pause between two attempts, in milliseconds.
pub const READY_PAUSE_MS: u64 = 500;

/// What one attempt to reach the server found.
pub enum ReadyEvent {
    /// The lock on the server's process was poisoned.
    LockPoisoned,
    /// The state of the process could not be read.
    InspectFailed(String),
    /// The process has ended, with this status.
    Exited(String),
    /// The server answered, with success or without.
    Answered(bool),
    /// The server did not answer.
    NoAnswer,
}

/// What follows from an attempt.
pub enum ReadyAction {
    Ready,
    Fail(TinyAgentError),
    /// Wait so many milliseconds and make this attempt.
    Retry { pause_ms: u64, attempt: u32 },
}

/// The action that an attempt leads to. Attempts count from zero.
pub open spec fn ready_fault(event: ReadyEvent) -> Option<Fault> {
    match event {
        ReadyEvent::LockPoisoned => Some(
            Fault::Backend("llama-server process lock is poisoned"@),
        ),
        ReadyEvent::InspectFailed(reason) => Some(
            Fault::Backend("failed to inspect llama-server: "@ + reason@),
        ),
        ReadyEvent::Exited(status) => Some(
            Fault::Backend(
                "llama-server exited before becoming ready with status "@ + status@,
            ),
        ),
        _ => None,
    }
}

/// Before attempt `attempt`: whether the server is given up.
pub fn ready_begin(attempt: u32, health_url: &str) -> (given_up: Option<TinyAgentError>)
    ensures
        match given_up {
            Some(error) => attempt >= READY_ATTEMPTS && error@ == Fault::Backend(
                "llama-server did not become ready at "@ + health_url@,
            ),
            None => attempt < READY_ATTEMPTS,
        },
{
    if attempt >= READY_ATTEMPTS {
        Some(
            TinyAgentError::Backend(cat2("llama-server did not become ready at ", health_url)),
        )
    } else {
        None
    }
}

/// After attempt `attempt`: what follows from what it found.
pub fn ready_step(attempt: u32, event: ReadyEvent) -> (action: ReadyAction)
    requires
        attempt < READY_ATTEMPTS,
    ensures
        match action {
            ReadyAction::Ready => event matches ReadyEvent::Answered(true),
            ReadyAction::Fail(error) => ready_fault(event) == Some(error@),
            ReadyAction::Retry { pause_ms, attempt: next } => {
                &&& ready_fault(event) is None
                &&& !(event matches ReadyEvent::Answered(true))
                &&& pause_ms == READY_PAUSE_MS
                &&& next == attempt + 1
            },
        },
{
    match event {
        ReadyEvent::LockPoisoned => ReadyAction::Fail(
            TinyAgentError::Backend("llama-server process lock is poisoned".to_owned()),
        ),
        ReadyEvent::InspectFailed(reason) => ReadyAction::Fail(
            TinyAgentError::Backend(cat2("failed to inspect llama-server: ", reason.as_str())),
        ),
        ReadyEvent::Exited(status) => ReadyAction::Fail(
            TinyAgentError::Backend(
                cat2(
                    "llama-server exited before becoming ready with status ",
                    status.as_str(),
                ),
            ),
        ),
        ReadyEvent::Answered(true) => ReadyAction::Ready,
        _ => ReadyAction::Retry { pause_ms: READY_PAUSE_MS, attempt: attempt + 1 },
    }
}

/// The model as a server backend lists it.
pub fn served_models(model: &ModelInfo) -> (models: Vec<ModelInfo>)
    ensures
        views(models@) == seq![
            ModelFacts { backend: "llama-server"@, status: "configured"@, ..model@ },
        ],
{
    let mut served = model.clone();
    served.backend = "llama-server".to_owned();
    served.status = "configured".to_owned();
    let mut models: Vec<ModelInfo> = Vec::new();
    models.push(served);
    assert(views(models@) =~= seq![
        ModelFacts { backend: "llama-server"@, status: "configured"@, ..model@ },
    ]);
    models
}

pub open spec fn role_name(role: MessageRole) -> Seq<char> {
    match role {
        MessageRole::System => "system"@,
        MessageRole::User => "user"@,
        MessageRole::Assistant => "assistant"@,
        MessageRole::Tool => "tool"@,
    }
}

/// The messages one after another, each under its role.
pub open spec fn conversation(messages: Seq<ChatMessage>) -> Seq<char>
    decreases messages.len(),
{
    if messages.len() == 0 {
        Seq::empty()
    } else {
        conversation(messages.drop_last()) + role_name(messages.last().role) + ":\n"@
            + messages.last().content@ + "\n\n"@
    }
}

/// The prompt: the conversation, and the opening of the assistant's turn.
pub open spec fn basic_prompt(messages: Seq<ChatMessage>) -> Seq<char> {
    conversation(messages) + "assistant:\n"@
}

pub fn render_basic_prompt(messages: &Vec<ChatMessage>) -> (prompt: String)
    ensures
        prompt@ == basic_prompt(messages@),
{
    let mut prompt = String::new();
    let mut index: usize = 0;
    assert(messages@.take(0) =~= Seq::<ChatMessage>::empty());
    while index < messages.len()
        invariant
            index <= messages@.len(),
            prompt@ == conversation(messages@.take(index as int)),
        decreases messages@.len() - index,
    {
        let role = match messages[index].role {
            MessageRole::System => "system",
            MessageRole::User => "user",
            MessageRole::Assistant => "assistant",
            MessageRole::Tool => "tool",
        };
        prompt.append(role);
        prompt.append(":\n");
        prompt.append(messages[index].content.as_str());
        prompt.append("\n\n");
        index = index + 1;
        assert(messages@.take(index as int).drop_last() =~= messages@.take(index - 1));
    }
    assert(messages@.take(index as int) =~= messages@);
    prompt.append("assistant:\n");
    prompt
}

/// The body of a completion request; `temperature` is the bit pattern of a
/// 32-bit float.
#[derive(Debug, Clone, PartialEq, Eq)]
pub struct LlamaCompletionRequest {
    pub prompt: String,
    pub n_predict: u32,
    pub temperature: u32,
    pub stream: bool,
}

/// 0.7 as the bit pattern of a 32-bit float.
pub const DEFAULT_TEMPERATURE: u32 = 0x3F33_3333;

pub const DEFAULT_MAX_TOKENS: u32 = 256;

/// What is sent to the server for a request.
pub fn completion_request(request: &GenerateRequest) -> (result: Result<
    LlamaCompletionRequest,
    TinyAgentError,
>)
    ensures
        match result {
            Ok(body) => {
                &&& request.tools@.len() == 0
                &&& body.prompt@ == basic_prompt(request.messages@)
                &&& body.n_predict == match request.max_tokens {
                    Some(count) => count,
                    None => DEFAULT_MAX_TOKENS,
                }
                &&& body.temperature == match request.temperature {
                    Some(bits) => bits,
                    None => DEFAULT_TEMPERATURE,
                }
                &&& !body.stream
            },
            Err(error) => request.tools@.len() > 0 && error@ == Fault::Unsupported(
                "tool calls are planned but not implemented in the Metal backend yet"@,
            ),
        },
{
    if request.tools.len() > 0 {
        return Err(
            TinyAgentError::Unsupported(
                "tool calls are planned but not implemented in the Metal backend yet".to_owned(),
            ),
        );
    }
    Ok(
        LlamaCompletionRequest {
            prompt: render_basic_prompt(&request.messages),
            n_predict: request.max_tokens.unwrap_or(DEFAULT_MAX_TOKENS),
            temperature: request.temperature.unwrap_or(DEFAULT_TEMPERATURE),
            stream: false,
        },
    )
}

/// The fault of a request that the server refused; `message` is the body of
/// its answer, if that could be read.
pub fn refused_completion(status: &str, message: Option<String>) -> (error: TinyAgentError)
    ensures
        error@ == Fault::Backend(
            "llama-server returned "@ + status@ + ": "@ + match message {
                Some(text) => text@,
                None => "failed to read llama-server error response"@,
            },
        ),
{
    let text = match message {
        Some(text) => text,
        None => "failed to read llama-server error response".to_owned(),
    };
    TinyAgentError::Backend(cat4("llama-server returned ", status, ": ", text.as_str()))
}

/// The fault of a request that did not reach the server.
pub fn failed_request(reason: &str) -> (error: TinyAgentError)
    ensures
        error@ == Fault::Backend("llama-server request failed: "@ + reason@),
{
    TinyAgentError::Backend(cat2("llama-server request failed: ", reason))
}

/// The fault of an answer that could not be decoded.
pub fn undecoded_completion(reason: &str) -> (error: TinyAgentError)
    ensures
        error@ == Fault::Backend("failed to decode llama-server response: "@ + reason@),
{
    TinyAgentError::Backend(cat2("failed to decode llama-server response: ", reason))
}

/// The events of an answer.
pub fn completion_events(content: &str, stop: bool) -> (events: Vec<TokenEvent>)
    ensures
        views(events@) == word_events(
            content@,
            if stop {
                "stop"@
            } else {
                "length"@
            },
        ),
{
    if stop {
        stream_words(content, "stop")
    } else {
        stream_words(content, "length")
    }
}

/// A conversation is told in its order: what two parts of it tell, the whole
/// tells one behind the other, and a single message tells its role and its
/// content.
#[verifier::rlimit(50)]
pub proof fn conversations_are_told_in_order(earlier: Seq<ChatMessage>, later: Seq<ChatMessage>)
    ensures
        conversation(earlier + later) == conversation(earlier) + conversation(later),
        forall|message: ChatMessage| #[trigger]
            conversation(seq![message]) == (match message.role {
                MessageRole::System => "system:\n"@,
                MessageRole::User => "user:\n"@,
                MessageRole::Assistant => "assistant:\n"@,
                MessageRole::Tool => "tool:\n"@,
            }) + message.content@ + "\n\n"@,
        basic_prompt(later) == conversation(later) + "assistant:\n"@,
    decreases later.len(),
{
    assert forall|message: ChatMessage| #[trigger] conversation(seq![message]) == (match message.role {
        MessageRole::System => "system:\n"@,
        MessageRole::User => "user:\n"@,
        MessageRole::Assistant => "assistant:\n"@,
        MessageRole::Tool => "tool:\n"@,
    }) + message.content@ + "\n\n"@ by {
        reveal_with_fuel(conversation, 2);
        reveal_strlit("system:\n");
        reveal_strlit("user:\n");
        reveal_strlit("assistant:\n");
        reveal_strlit("tool:\n");
        reveal_strlit("system");
        reveal_strlit("user");
        reveal_strlit("assistant");
        reveal_strlit("tool");
        reveal_strlit(":\n");
        assert(seq![message].drop_last() =~= Seq::<ChatMessage>::empty());
        assert("system:\n"@ =~= "system"@ + ":\n"@);
        assert("user:\n"@ =~= "user"@ + ":\n"@);
        assert("assistant:\n"@ =~= "assistant"@ + ":\n"@);
        assert("tool:\n"@ =~= "tool"@ + ":\n"@);
        assert(conversation(seq![message]) =~= Seq::<char>::empty() + role_name(message.role)
            + ":\n"@ + message.content@ + "\n\n"@);
        assert(Seq::<char>::empty() + role_name(message.role) =~= role_name(message.role));
    }
    if later.len() == 0 {
        assert(earlier + later =~= earlier);
        assert(conversation(earlier) + conversation(later) =~= conversation(earlier));
    } else {
        conversations_are_told_in_order(earlier, later.drop_last());
        assert((earlier + later).drop_last() =~= earlier + later.drop_last());
        assert(conversation(earlier + later) =~= conversation(earlier) + conversation(later));
    }
}

/// The argument that stands behind a flag, where every flag has one.
pub open spec fn argument_behind(arguments: Seq<Seq<char>>, flag: Seq<char>) -> Option<Seq<char>>
    decreases arguments.len(),
{
    if arguments.len() < 2 {
        None
    } else if arguments[0] == flag {
        Some(arguments[1])
    } else {
        argument_behind(arguments.skip(2), flag)
    }
}

/// The server is told by its flags which model to serve, where to listen, and
/// with which sizes to run.
#[verifier::rlimit(50)]
pub proof fn servers_are_told_their_settings(config: LlamaServerConfig)
    ensures
        ({
            let behind = |flag: Seq<char>| argument_behind(server_arguments(config), flag);
            &&& server_arguments(config).len() == 14
            &&& behind("-m"@) == Some(config.model_path@)
            &&& behind("--host"@) == Some(config.host@)
            &&& behind("--port"@) == Some(decimal(config.port as nat))
            &&& behind("-c"@) == Some(decimal(config.ctx_size as nat))
            &&& behind("-b"@) == Some(decimal(config.batch_size as nat))
            &&& behind("-ub"@) == Some(decimal(config.ubatch_size as nat))
            &&& behind("-ngl"@) == Some(decimal(config.gpu_layers as nat))
        }),
{
    reveal_strlit("-m");
    reveal_strlit("--host");
    reveal_strlit("--port");
    reveal_strlit("-c");
    reveal_strlit("-b");
    reveal_strlit("-ub");
    reveal_strlit("-ngl");
    assert("-m"@[1] == 'm' && "-c"@[1] == 'c' && "-b"@[1] == 'b' && "--host"@[2] == 'h'
        && "--port"@[2] == 'p' && "-ub"@[1] == 'u' && "-ngl"@[1] == 'n');
    assert("-m"@.len() == 2 && "-c"@.len() == 2 && "-b"@.len() == 2 && "--host"@.len() == 6
        && "--port"@.len() == 6 && "-ub"@.len() == 3 && "-ngl"@.len() == 4);
    reveal_with_fuel(argument_behind, 8);
    let arguments = server_arguments(config);
    assert(arguments.skip(2).skip(2) =~= arguments.skip(4));
    assert(arguments.skip(4).skip(2) =~= arguments.skip(6));
    assert(arguments.skip(6).skip(2) =~= arguments.skip(8));
    assert(arguments.skip(8).skip(2) =~= arguments.skip(10));
    assert(arguments.skip(10).skip(2) =~= arguments.skip(12));
}

/// The server is asked at the address at which it was told to listen.
pub proof fn servers_are_asked_where_they_listen(config: LlamaServerConfig)
    ensures
        ({
            let behind = |flag: Seq<char>| argument_behind(server_arguments(config), flag)->0;
            server_url(config) == "http://"@ + behind("--host"@) + ":"@ + behind("--port"@)
        }),
{
    servers_are_told_their_settings(config);
}

/// A server is given up for just what it cannot recover from: a poisoned lock, a
/// process that cannot be looked at, and one that has ended.
pub proof fn ended_servers_are_given_up(event: ReadyEvent)
    ensures
        ready_fault(event) is None <==> event is Answered || event is NoAnswer,
        ready_fault(event) is Some ==> ready_fault(event)->0 is Backend,
{
}

} // verus!
