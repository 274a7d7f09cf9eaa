//! The backend that answers without a model, and what backends share.

use crate::error::{Fault, TinyAgentError};
use crate::text::{cat2, cat4, split_whitespace, views, words};
use crate::types::{
    finished_event, qwen_coder_stub, token_event, ChatMessage, Event, GenerateRequest, MessageRole,
    ModelFacts, ModelInfo, TokenEvent,
};
use vstd::prelude::*;

verus! {

/// One event per word, each with a blank behind it, and an event that ends
/// the stream.
pub open spec fn word_events(text: Seq<char>, reason: Seq<char>) -> Seq<Event> {
    Seq::new(words(text).len(), |i: int| token_event(words(text)[i] + " "@)).push(
        finished_event(reason),
    )
}

pub fn stream_words(text: &str, reason: &str) -> (events: Vec<TokenEvent>)
    ensures
        views(events@) == word_events(text@, reason@),
{
    let parts: Vec<String> = split_whitespace(text);
    let mut events: Vec<TokenEvent> = Vec::new();
    let mut index: usize = 0;
    while index < parts.len()
        invariant
            views(parts@) == words(text@),
            index <= parts@.len(),
            events@.len() == index,
            forall|i: int|
                0 <= i < index ==> (#[trigger] events@[i])@ == token_event(
                    words(text@)[i] + " "@,
                ),
        decreases parts@.len() - index,
    {
        assert(views(parts@)[index as int] == parts@[index as int]@);
        events.push(TokenEvent::token(cat2(parts[index].as_str(), " ")));
        index = index + 1;
    }
    assert(views(parts@).len() == parts@.len());
    events.push(TokenEvent::finished(reason.to_owned()));
    assert(views(events@) =~= word_events(text@, reason@));
    events
}

/// The content of the last message that the user sent, or nothing.
pub open spec fn last_user_content(messages: Seq<ChatMessage>) -> Seq<char>
    decreases messages.len(),
{
    if messages.len() == 0 {
        Seq::empty()
    } else if messages.last().role == MessageRole::User {
        messages.last().content@
    } else {
        last_user_content(messages.drop_last())
    }
}

pub fn last_user_message(messages: &Vec<ChatMessage>) -> (content: String)
    ensures
        content@ == last_user_content(messages@),
{
    let mut index: usize = messages.len();
    assert(messages@.take(index as int) =~= messages@);
    while index > 0
        invariant
            index <= messages@.len(),
            last_user_content(messages@.take(index as int)) == last_user_content(messages@),
        decreases index,
    {
        assert(messages@.take(index as int).last() == messages@[index - 1]);
        assert(messages@.take(index as int).drop_last() =~= messages@.take(index - 1));
        index = index - 1;
        if messages[index].role.is_user() {
            return messages[index].content.clone();
        }
    }
    String::new()
}

pub struct StubBackend {
    model: ModelInfo,
}

/// The text that the stub answers with.
pub open spec fn stub_answer(model: Seq<char>, message: Seq<char>) -> Seq<char> {
    "TinyEngine stub backend is running for model "@ + model
        + ". Use --backend metal with --package <model.tma> for the custom engine, or --backend llama with --gguf <model.gguf> for oracle checks. Last user message: "@
        + message
}

/// The events of a request to the stub.
pub open spec fn stub_events(request: GenerateRequest) -> Result<Seq<Event>, Fault> {
    if request.tools@.len() > 0 {
        Err(
            Fault::Unsupported(
                "tool execution is planned but not implemented in the stub backend"@,
            ),
        )
    } else {
        Ok(
            word_events(
                stub_answer(request.model@, last_user_content(request.messages@)),
                "stop"@,
            ),
        )
    }
}

/// The events of a stream that was granted are what `expected` says; a fault
/// is the fault that it says.
pub open spec fn events_outcome(
    result: Result<Vec<TokenEvent>, TinyAgentError>,
    expected: Result<Seq<Event>, Fault>,
) -> bool {
    match result {
        Ok(events) => expected == Ok::<Seq<Event>, Fault>(views(events@)),
        Err(error) => expected == Err::<Seq<Event>, Fault>(error@),
    }
}

impl StubBackend {
    pub closed spec fn model(&self) -> ModelFacts {
        self.model@
    }

    pub fn new(model: ModelInfo) -> (backend: Self)
        ensures
            backend.model() == model@,
    {
        StubBackend { model }
    }

    pub fn models(&self) -> (models: Vec<ModelInfo>)
        ensures
            views(models@) == seq![self.model()],
    {
        let mut models: Vec<ModelInfo> = Vec::new();
        models.push(self.model.clone());
        assert(views(models@) =~= seq![self.model()]);
        models
    }

    pub fn generate(&self, request: GenerateRequest) -> (result: Result<
        Vec<TokenEvent>,
        TinyAgentError,
    >)
        ensures
            events_outcome(result, stub_events(request)),
    {
        if request.tools.len() > 0 {
            return Err(
                TinyAgentError::Unsupported(
                    "tool execution is planned but not implemented in the stub backend".to_owned(),
                ),
            );
        }
        let last = last_user_message(&request.messages);
        let text = cat4(
            "TinyEngine stub backend is running for model ",
            request.model.as_str(),
            ". Use --backend metal with --package <model.tma> for the custom engine, or --backend llama with --gguf <model.gguf> for oracle checks. Last user message: ",
            last.as_str(),
        );
        Ok(stream_words(text.as_str(), "stop"))
    }
}

impl Default for StubBackend {
    fn default() -> (backend: Self)
        ensures
            backend.model() == qwen_coder_stub(),
    {
        StubBackend::new(ModelInfo::default_qwen_coder_stub())
    }
}

/// What is answered to is the content of a message of the user behind which the
/// user sent no other; where the user sent none, it is empty.
pub proof fn answers_go_to_the_last_user_message(messages: Seq<ChatMessage>)
    ensures
        (forall|i: int|
            0 <= i < messages.len() ==> (#[trigger] messages[i]).role != MessageRole::User)
            ==> last_user_content(messages).len() == 0,
        forall|at: int|
            0 <= at < messages.len() && (#[trigger] messages[at]).role == MessageRole::User && (
            forall|i: int|
                at < i < messages.len() ==> (#[trigger] messages[i]).role != MessageRole::User)
                ==> last_user_content(messages) == messages[at].content@,
    decreases messages.len(),
{
    if messages.len() > 0 {
        let before = messages.drop_last();
        answers_go_to_the_last_user_message(before);
        if messages.last().role != MessageRole::User {
            assert forall|at: int|
                0 <= at < messages.len() && (#[trigger] messages[at]).role == MessageRole::User && (
                forall|i: int|
                    at < i < messages.len() ==> (#[trigger] messages[i]).role
                        != MessageRole::User) implies last_user_content(messages)
                == messages[at].content@ by {
                assert(before[at] == messages[at]);
            }
        } else {
            let last = messages.len() - 1;
            assert(messages[last].role == MessageRole::User);
        }
    }
}

/// The stub answers a request without tools with the words of a text that names
/// the model and ends with the last message of the user, and refuses tools.
pub proof fn the_stub_tells_what_it_was_asked(request: GenerateRequest)
    ensures
        stub_events(request) is Ok <==> request.tools@.len() == 0,
        request.tools@.len() == 0 ==> exists|before: Seq<char>, between: Seq<char>|
            stub_events(request)->Ok_0 == #[trigger] word_events(
                before + request.model@ + between + last_user_content(request.messages@),
                "stop"@,
            ),
{
    let before = "TinyEngine stub backend is running for model "@;
    let between =
        ". Use --backend metal with --package <model.tma> for the custom engine, or --backend llama with --gguf <model.gguf> for oracle checks. Last user message: "@;
    if request.tools@.len() == 0 {
        assert(stub_events(request)->Ok_0 == word_events(
            before + request.model@ + between + last_user_content(request.messages@),
            "stop"@,
        ));
    }
}

/// Each word of a text is an event with a blank behind it, in the order of the
/// words, and the last event brings no token but the reason.
pub proof fn every_word_is_an_event(text: Seq<char>, reason: Seq<char>, at: int)
    ensures
        word_events(text, reason).len() == words(text).len() + 1,
        0 <= at < words(text).len() ==> word_events(text, reason)[at].token == words(text)[at]
            + " "@ && word_events(text, reason)[at].finish_reason is None,
        word_events(text, reason).last().token.len() == 0,
        word_events(text, reason).last().finish_reason == Some(reason),
{
}

} // verus!
