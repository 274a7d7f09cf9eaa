//! The local HTTP interface: what is asked, answered and streamed.

use crate::error::{fault_message, Fault, TinyAgentError};
use crate::backend::word_events;
use crate::text::{
    cat2, is_white, lemma_run_length, lemma_run_stops, run_length, views, words,
};
use crate::types::{ChatMessage, Event, GenerateRequest, TokenEvent};
use vstd::prelude::*;

verus! {

pub const STATUS_BAD_REQUEST: u16 = 400;

pub const STATUS_INTERNAL_SERVER_ERROR: u16 = 500;

pub const STATUS_NOT_IMPLEMENTED: u16 = 501;

/// An answer that refuses: an HTTP status and a message.
#[derive(Debug, Clone, PartialEq, Eq)]
pub struct ApiError {
    pub status: u16,
    pub message: String,
}

/// The status that a fault is answered with.
pub open spec fn fault_status(fault: Fault) -> u16 {
    match fault {
        Fault::Unsupported(_) => STATUS_NOT_IMPLEMENTED,
        Fault::Configuration(_) => STATUS_BAD_REQUEST,
        Fault::Backend(_) => STATUS_INTERNAL_SERVER_ERROR,
    }
}

impl ApiError {
    pub fn not_implemented(message: String) -> (error: Self)
        ensures
            error.status == STATUS_NOT_IMPLEMENTED,
            error.message@ == message@,
    {
        ApiError { status: STATUS_NOT_IMPLEMENTED, message }
    }

    /// The answer to a fault of a backend.
    pub fn from_fault(fault: &TinyAgentError) -> (error: Self)
        ensures
            error.status == fault_status(fault@),
            error.message@ == fault_message(fault@),
    {
        let status: u16 = match fault {
            TinyAgentError::Unsupported(_) => STATUS_NOT_IMPLEMENTED,
            TinyAgentError::Configuration(_) => STATUS_BAD_REQUEST,
            TinyAgentError::Backend(_) => STATUS_INTERNAL_SERVER_ERROR,
        };
        ApiError { status, message: fault.message() }
    }
}

/// What a client of the chat asks for. Each tool is a JSON text; the
/// temperature is the bit pattern of a 32-bit float.
#[derive(Debug, Clone, PartialEq, Eq)]
pub struct LocalChatRequest {
    pub model: String,
    pub messages: Vec<ChatMessage>,
    pub stream: bool,
    pub max_tokens: Option<u32>,
    pub temperature: Option<u32>,
    pub tools: Vec<String>,
}

/// The request that a client's chat makes of the backend. Tools are refused.
pub fn local_chat(payload: LocalChatRequest) -> (result: Result<GenerateRequest, ApiError>)
    ensures
        match result {
            Ok(request) => {
                &&& payload.tools@.len() == 0
                &&& request.model@ == payload.model@
                &&& request.messages == payload.messages
                &&& request.max_tokens == payload.max_tokens
                &&& request.temperature == payload.temperature
                &&& request.stream == payload.stream
                &&& request.tools@.len() == 0
            },
            Err(error) => {
                &&& payload.tools@.len() > 0
                &&& error.status == STATUS_NOT_IMPLEMENTED
                &&& error.message@
                    == "tool calls are planned but not implemented in the local API yet"@
            },
        },
{
    if payload.tools.len() != 0 {
        return Err(
            ApiError::not_implemented(
                "tool calls are planned but not implemented in the local API yet".to_owned(),
            ),
        );
    }
    Ok(
        GenerateRequest {
            model: payload.model,
            messages: payload.messages,
            max_tokens: payload.max_tokens,
            temperature: payload.temperature,
            stream: payload.stream,
            tools: Vec::new(),
        },
    )
}

/// One event of a streamed answer.
#[derive(Debug, Clone, PartialEq, Eq)]
pub enum StreamChunk {
    Token { token: String },
    Done { finish_reason: String },
    Failed { message: String },
}

/// The mathematical value of a `StreamChunk`.
pub enum Chunk {
    Token(Seq<char>),
    Done(Seq<char>),
    Failed(Seq<char>),
}

impl View for StreamChunk {
    type V = Chunk;

    open spec fn view(&self) -> Chunk {
        match self {
            StreamChunk::Token { token } => Chunk::Token(token@),
            StreamChunk::Done { finish_reason } => Chunk::Done(finish_reason@),
            StreamChunk::Failed { message } => Chunk::Failed(message@),
        }
    }
}

/// What is streamed for an event: its reason to finish where it has one, else
/// its token.
pub open spec fn chunk_of(event: Event) -> Chunk {
    match event.finish_reason {
        Some(reason) => Chunk::Done(reason),
        None => Chunk::Token(event.token),
    }
}

impl StreamChunk {
    pub fn from_event(event: Result<TokenEvent, TinyAgentError>) -> (chunk: Self)
        ensures
            chunk@ == match event {
                Ok(event) => chunk_of(event@),
                Err(error) => Chunk::Failed(fault_message(error@)),
            },
    {
        match event {
            Ok(event) => match event.finish_reason {
                Some(finish_reason) => StreamChunk::Done { finish_reason },
                None => StreamChunk::Token { token: event.token },
            },
            Err(error) => StreamChunk::Failed { message: error.message() },
        }
    }

    /// The name of the event that carries the chunk.
    pub fn event_name(&self) -> (name: String)
        ensures
            name@ == match self@ {
                Chunk::Token(_) => "token"@,
                Chunk::Done(_) => "done"@,
                Chunk::Failed(_) => "error"@,
            },
    {
        match self {
            StreamChunk::Token { .. } => "token".to_owned(),
            StreamChunk::Done { .. } => "done".to_owned(),
            StreamChunk::Failed { .. } => "error".to_owned(),
        }
    }
}

/// An answer that is gathered from events.
#[derive(Debug)]
pub struct GatheredAnswer {
    pub content: String,
    pub finish_reason: String,
}

/// The mathematical value of a `GatheredAnswer`.
#[verifier::ext_equal]
pub struct Answer {
    pub content: Seq<char>,
    pub finish_reason: Seq<char>,
}

impl View for GatheredAnswer {
    type V = Answer;

    open spec fn view(&self) -> Answer {
        Answer { content: self.content@, finish_reason: self.finish_reason@ }
    }
}

/// The tokens of the events, one behind the other.
pub open spec fn gathered_text(events: Seq<Event>) -> Seq<char>
    decreases events.len(),
{
    if events.len() == 0 {
        Seq::empty()
    } else {
        gathered_text(events.drop_last()) + events.last().token
    }
}

/// The last reason to finish that the events give, `stop` where none does.
pub open spec fn gathered_reason(events: Seq<Event>) -> Seq<char>
    decreases events.len(),
{
    if events.len() == 0 {
        "stop"@
    } else {
        match events.last().finish_reason {
            Some(reason) => reason,
            None => gathered_reason(events.drop_last()),
        }
    }
}

/// The answer that events make.
pub open spec fn answer_of(events: Seq<Event>) -> Answer {
    Answer { content: gathered_text(events), finish_reason: gathered_reason(events) }
}

impl GatheredAnswer {
    /// An answer before the first event.
    pub fn new() -> (answer: Self)
        ensures
            answer@ == answer_of(Seq::empty()),
    {
        let answer = GatheredAnswer { content: String::new(), finish_reason: "stop".to_owned() };
        assert(answer@ =~= answer_of(Seq::empty()));
        answer
    }

    /// Adds one more event.
    pub fn add_event(&mut self, event: TokenEvent)
        ensures
            final(self)@.content == old(self)@.content + event@.token,
            final(self)@.finish_reason == match event@.finish_reason {
                Some(reason) => reason,
                None => old(self)@.finish_reason,
            },
    {
        self.content = cat2(self.content.as_str(), event.token.as_str());
        match event.finish_reason {
            Some(reason) => {
                self.finish_reason = reason;
            },
            None => {},
        }
    }
}

/// The answer that a whole stream makes.
pub fn gather_answer(events: Vec<TokenEvent>) -> (answer: GatheredAnswer)
    ensures
        answer@ == answer_of(views(events@)),
{
    let mut answer = GatheredAnswer::new();
    let ghost all = views(events@);
    let mut index: usize = 0;
    assert(all.take(0) =~= Seq::<Event>::empty());
    while index < events.len()
        invariant
            index <= events@.len(),
            all == views(events@),
            answer@ == answer_of(all.take(index as int)),
        decreases events@.len() - index,
    {
        let ghost next = all.take(index + 1);
        proof {
            assert(next.drop_last() =~= all.take(index as int));
            assert(next.last() == events@[index as int]@);
        }
        let event = TokenEvent {
            token: events[index].token.clone(),
            finish_reason: match &events[index].finish_reason {
                Some(reason) => Some(reason.clone()),
                None => None,
            },
        };
        assert(event@ =~= events@[index as int]@);
        answer.add_event(event);
        index = index + 1;
    }
    assert(all.take(index as int) =~= all);
    answer
}

/// The text of the token chunks, one behind the other.
pub open spec fn streamed_text(chunks: Seq<Chunk>) -> Seq<char>
    decreases chunks.len(),
{
    if chunks.len() == 0 {
        Seq::empty()
    } else {
        match chunks.last() {
            Chunk::Token(token) => streamed_text(chunks.drop_last()) + token,
            _ => streamed_text(chunks.drop_last()),
        }
    }
}

/// A client that puts the streamed tokens together reads the text that the
/// gathered answer holds, as long as no event both brings a token and
/// finishes.
pub proof fn streamed_text_is_gathered_text(events: Seq<Event>)
    requires
        forall|i: int|
            0 <= i < events.len() && (#[trigger] events[i]).finish_reason is Some
                ==> events[i].token.len() == 0,
    ensures
        streamed_text(events.map_values(|event: Event| chunk_of(event))) == answer_of(
            events,
        ).content,
    decreases events.len(),
{
    let chunks = events.map_values(|event: Event| chunk_of(event));
    if events.len() > 0 {
        let before = events.drop_last();
        assert forall|i: int|
            0 <= i < before.len() && (#[trigger] before[i]).finish_reason is Some implies before[i].token.len()
            == 0 by {
            assert(before[i] == events[i]);
        }
        streamed_text_is_gathered_text(before);
        assert(before.map_values(|event: Event| chunk_of(event)) =~= chunks.drop_last());
        assert(events.last() == events[events.len() - 1]);
        if events.last().finish_reason is Some {
            assert(gathered_text(before) + events.last().token =~= gathered_text(before));
        }
    } else {
        assert(chunks =~= Seq::<Chunk>::empty());
    }
}

/// What is added to the answer of some events makes the answer of all.
pub proof fn answer_grows_by_events(events: Seq<Event>, event: Event)
    ensures
        answer_of(events.push(event)) == (Answer {
            content: answer_of(events).content + event.token,
            finish_reason: match event.finish_reason {
                Some(reason) => reason,
                None => answer_of(events).finish_reason,
            },
        }),
{
    assert(events.push(event).drop_last() =~= events);
}

/// A text that a backend streams word by word is read back with all its words,
/// in their order.
pub proof fn streamed_words_are_read_back(text: Seq<char>, reason: Seq<char>)
    ensures
        words(answer_of(word_events(text, reason)).content) == words(text),
        answer_of(word_events(text, reason)).finish_reason == reason,
{
    let events = word_events(text, reason);
    let parts = words(text);
    lemma_words_are_words(text);
    lemma_blank_words(parts);
    lemma_gathered_words(text, reason, parts.len() as int);
    assert(events.drop_last() =~= events.take(parts.len() as int));
    assert(parts.take(parts.len() as int) =~= parts);
    assert(events.last().token.len() == 0);
    assert(gathered_text(events) =~= gathered_text(events.drop_last()));
}

/// Words with a blank behind each.
pub open spec fn blank_separated(parts: Seq<Seq<char>>) -> Seq<char>
    decreases parts.len(),
{
    if parts.len() == 0 {
        Seq::empty()
    } else {
        blank_separated(parts.drop_last()) + (parts.last() + " "@)
    }
}

proof fn lemma_gathered_words(text: Seq<char>, reason: Seq<char>, count: int)
    requires
        0 <= count <= words(text).len(),
    ensures
        gathered_text(word_events(text, reason).take(count)) == blank_separated(
            words(text).take(count),
        ),
    decreases count,
{
    let events = word_events(text, reason);
    if count > 0 {
        lemma_gathered_words(text, reason, count - 1);
        assert(events.take(count).drop_last() =~= events.take(count - 1));
        assert(words(text).take(count).drop_last() =~= words(text).take(count - 1));
    }
}

/// A word: not empty and without white space.
pub open spec fn is_plain_word(part: Seq<char>) -> bool {
    part.len() > 0 && forall|i: int| 0 <= i < part.len() ==> !is_white(#[trigger] part[i])
}

proof fn lemma_run_is_plain(text: Seq<char>)
    ensures
        forall|i: int| 0 <= i < run_length(text, false) ==> !is_white(#[trigger] text[i]),
    decreases text.len(),
{
    if text.len() > 0 && !is_white(text[0]) {
        let rest = text.drop_first();
        lemma_run_is_plain(rest);
        lemma_run_stops(text, false);
        assert forall|i: int| 0 <= i < run_length(text, false) implies !is_white(
            #[trigger] text[i],
        ) by {
            if i > 0 {
                assert(text[i] == rest[i - 1]);
            }
        }
    }
}

proof fn lemma_words_are_words(text: Seq<char>)
    ensures
        forall|i: int| 0 <= i < words(text).len() ==> is_plain_word(#[trigger] words(text)[i]),
    decreases text.len(),
{
    lemma_run_stops(text, true);
    if run_length(text, true) < text.len() {
        let rest = text.skip(run_length(text, true) as int);
        lemma_run_stops(rest, false);
        lemma_run_is_plain(rest);
        let length = run_length(rest, false) as int;
        assert(!is_white(rest[0]));
        assert(length > 0);
        lemma_words_are_words(rest.skip(length));
        let first = rest.take(length);
        let tail = words(rest.skip(length));
        assert(words(text) == seq![first] + tail);
        assert forall|i: int| 0 <= i < words(text).len() implies is_plain_word(
            #[trigger] words(text)[i],
        ) by {
            if i > 0 {
                assert(words(text)[i] == tail[i - 1]);
            } else {
                assert forall|j: int| 0 <= j < first.len() implies !is_white(
                    #[trigger] first[j],
                ) by {
                    assert(first[j] == rest[j]);
                }
            }
        }
    }
}

proof fn lemma_blank_front(parts: Seq<Seq<char>>)
    requires
        parts.len() > 0,
    ensures
        blank_separated(parts) == parts[0] + " "@ + blank_separated(parts.drop_first()),
    decreases parts.len(),
{
    if parts.len() == 1 {
        assert(parts.drop_last() =~= Seq::<Seq<char>>::empty());
        assert(parts.drop_first() =~= Seq::<Seq<char>>::empty());
        assert(blank_separated(parts) =~= parts[0] + " "@ + blank_separated(parts.drop_first()));
    } else {
        lemma_blank_front(parts.drop_last());
        assert(parts.drop_last().drop_first() =~= parts.drop_first().drop_last());
        assert(blank_separated(parts) =~= parts[0] + " "@ + blank_separated(parts.drop_first()));
    }
}

proof fn lemma_leading_blank(text: Seq<char>)
    ensures
        words(" "@ + text) == words(text),
{
    reveal_strlit(" ");
    let longer = " "@ + text;
    assert(longer.drop_first() =~= text);
    assert(is_white(longer[0]));
    lemma_run_stops(text, true);
    assert(run_length(longer, true) == 1 + run_length(text, true));
    assert(longer.skip(run_length(longer, true) as int) =~= text.skip(
        run_length(text, true) as int,
    ));
}

proof fn lemma_blank_words(parts: Seq<Seq<char>>)
    requires
        forall|i: int| 0 <= i < parts.len() ==> is_plain_word(#[trigger] parts[i]),
    ensures
        words(blank_separated(parts)) == parts,
    decreases parts.len(),
{
    if parts.len() == 0 {
        assert(words(blank_separated(parts)) =~= parts);
    } else {
        reveal_strlit(" ");
        let first = parts[0];
        let rest = parts.drop_first();
        assert forall|i: int| 0 <= i < rest.len() implies is_plain_word(#[trigger] rest[i]) by {
            assert(rest[i] == parts[i + 1]);
        }
        lemma_blank_words(rest);
        lemma_blank_front(parts);
        let behind = " "@ + blank_separated(rest);
        let text = blank_separated(parts);
        assert(text =~= first + behind);
        assert(is_plain_word(first));
        assert(!is_white(text[0]));
        lemma_run_length(text, true, 0);
        assert(text.skip(0) =~= text);
        assert(text[first.len() as int] == ' ');
        assert forall|i: int| 0 <= i < first.len() implies !is_white(#[trigger] text[i]) by {
            assert(text[i] == first[i]);
        }
        lemma_run_length(text, false, first.len());
        assert(text.take(first.len() as int) =~= first);
        assert(text.skip(first.len() as int) =~= behind);
        lemma_leading_blank(blank_separated(rest));
        assert(words(text) =~= parts);
    }
}

/// What the caller asked wrongly is answered with a status of the caller's, what
/// the engine cannot do yet and what went wrong in it with statuses of the
/// engine's own, and each of the three with another.
pub proof fn statuses_tell_whose_fault_it_is(text: Seq<char>)
    ensures
        fault_status(Fault::Configuration(text)) == 400,
        fault_status(Fault::Backend(text)) == 500,
        fault_status(Fault::Unsupported(text)) == 501,
{
}

} // verus!
