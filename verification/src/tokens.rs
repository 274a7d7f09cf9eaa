//! From text to tokens and back, by way of `tokenizers`.

use crate::error::{config_error, Fault, TinyAgentError};
use crate::json::{json_parsed_bytes, parse_json_bytes};
use crate::text::{cat2, cat3, decimal, decimal_u64};
use crate::tokenizer_file::{file_is_quiet, loads_quietly, quiet_file};
use crate::types::maybe_text;
use vstd::prelude::*;
use vstd::string::StringExecFns;

verus! {

/// `tokenizers::Tokenizer`, of which nothing is known here.
#[verifier::external_type_specification]
#[verifier::external_body]
pub struct ExTokenizer(tokenizers::Tokenizer);

/// What `tokenizers::Tokenizer::from_bytes` may make of a JSON text: a
/// tokenizer or the text of an error. It is a set, since a map of the text may
/// be read in any order.
pub uninterp spec fn load_outcomes(json: Seq<u8>) -> Set<
    Result<tokenizers::Tokenizer, Seq<char>>,
>;

/// What `tokenizers::Tokenizer::encode` may make of a text, with special
/// tokens: ids or the text of an error. It is a set, since a tokenizer may drop
/// merges at random.
pub uninterp spec fn encode_outcomes(tokenizer: tokenizers::Tokenizer, text: Seq<char>) -> Set<
    Result<Seq<u32>, Seq<char>>,
>;

/// What `tokenizers::Tokenizer::decode` may make of ids, without special
/// tokens: a text or nothing. It is a set, since of two tokens that share an id
/// either may be found.
pub uninterp spec fn decode_outcomes(tokenizer: tokenizers::Tokenizer, ids: Seq<u32>) -> Set<
    Option<Seq<char>>,
>;

/// A tokenizer that was made of a file that loads quietly.
pub open spec fn ready(tokenizer: tokenizers::Tokenizer) -> bool {
    exists|json: Seq<u8>| #[trigger]
        load_outcomes(json).contains(Ok(tokenizer)) && loads_quietly(json)
}

/// `tokenizers::Tokenizer::from_bytes`, of bytes that load quietly: one of the
/// outcomes that they allow. Which of them comes is left unsaid.
#[verifier::external_body]
fn tokenizer_from_bytes(json: &[u8]) -> (result: Result<tokenizers::Tokenizer, String>)
    requires
        loads_quietly(json@),
    ensures
        load_outcomes(json@).contains(
            match result {
                Ok(tokenizer) => Ok(tokenizer),
                Err(error) => Err(error@),
            },
        ),
{
    tokenizers::Tokenizer::from_bytes(json).map_err(|error| error.to_string())
}

/// `tokenizers::Tokenizer::encode` with special tokens, by a tokenizer that was
/// made of a file that loads quietly: one of the outcomes that the tokenizer
/// and the text allow. Which of them comes is left unsaid.
#[verifier::external_body]
fn encode_text(tokenizer: &tokenizers::Tokenizer, text: &str) -> (result: Result<
    Vec<u32>,
    String,
>)
    requires
        ready(*tokenizer),
    ensures
        encode_outcomes(*tokenizer, text@).contains(
            match result {
                Ok(ids) => Ok(ids@),
                Err(error) => Err(error@),
            },
        ),
{
    let encoding = tokenizer.encode(text, true).map_err(|error| error.to_string())?;
    Ok(encoding.get_ids().to_vec())
}

/// `tokenizers::Tokenizer::decode` without special tokens, by a tokenizer that
/// was made of a file that loads quietly: one of the outcomes that the
/// tokenizer and the ids allow. Which of them comes is left unsaid.
#[verifier::external_body]
fn decode_ids(tokenizer: &tokenizers::Tokenizer, ids: &[u32]) -> (result: Option<String>)
    requires
        ready(*tokenizer),
    ensures
        decode_outcomes(*tokenizer, ids@).contains(maybe_text(result)),
{
    tokenizer.decode(ids, true).ok()
}

/// The tokenizer of a model, made of a file that loads quietly.
pub struct ModelTokenizer {
    tokenizer: tokenizers::Tokenizer,
}

impl View for ModelTokenizer {
    type V = tokenizers::Tokenizer;

    closed spec fn view(&self) -> tokenizers::Tokenizer {
        self.tokenizer
    }
}

impl ModelTokenizer {
    #[verifier::type_invariant]
    spec fn is_ready(self) -> bool {
        ready(self.tokenizer)
    }
}

/// The text that a model is prompted with: one turn of the user, and the
/// opening of the assistant's.
pub open spec fn chat_prompt(prompt: Seq<char>) -> Seq<char> {
    "<|im_start|>user\n"@ + prompt + "<|im_end|>\n<|im_start|>assistant\n"@
}

pub fn format_qwen_chat_prompt(prompt: &str) -> (text: String)
    ensures
        text@ == chat_prompt(prompt@),
{
    cat3("<|im_start|>user\n", prompt, "<|im_end|>\n<|im_start|>assistant\n")
}

/// What a `tokenizer.json` is refused with.
pub open spec fn refusal(reason: Seq<char>) -> Fault {
    Fault::Configuration("failed to load tokenizer.json: "@ + reason)
}

fn refused(reason: &str) -> (error: TinyAgentError)
    ensures
        error@ == refusal(reason@),
{
    TinyAgentError::Configuration(cat2("failed to load tokenizer.json: ", reason))
}

/// The tokenizer that a `tokenizer.json` describes. One whose tokenizer would
/// have no outcome for some text is refused.
pub fn load_tokenizer(json: &[u8]) -> (result: Result<ModelTokenizer, TinyAgentError>)
    ensures
        match json_parsed_bytes(json@) {
            Err(reason) => result is Err && result->Err_0@ == refusal(reason),
            Ok(file) => if quiet_file(json@, file) {
                match result {
                    Ok(tokenizer) => load_outcomes(json@).contains(Ok(tokenizer@)) && ready(
                        tokenizer@,
                    ),
                    Err(error) => exists|reason: Seq<char>| #[trigger]
                        load_outcomes(json@).contains(Err(reason)) && error@ == refusal(reason),
                }
            } else {
                result is Err && result->Err_0@ == refusal(
                    "a part of the tokenizer is not supported"@,
                )
            },
        },
{
    let file = match parse_json_bytes(json) {
        Ok(file) => file,
        Err(reason) => return Err(refused(reason.as_str())),
    };
    if !file_is_quiet(json, &file) {
        return Err(refused("a part of the tokenizer is not supported"));
    }
    match tokenizer_from_bytes(json) {
        Ok(tokenizer) => {
            assert(ready(tokenizer));
            Ok(ModelTokenizer { tokenizer })
        },
        Err(reason) => Err(refused(reason.as_str())),
    }
}

/// The tokens of a prompt: how many there were, and the last of them that are
/// used.
#[derive(Debug)]
pub struct PromptTokens {
    pub total: usize,
    pub used: Vec<u32>,
}

/// The last `limit` items.
pub open spec fn last_items(ids: Seq<u32>, limit: nat) -> Seq<u32> {
    if ids.len() > limit {
        ids.skip(ids.len() - limit)
    } else {
        ids
    }
}

/// The tokens of a prompt, given all ids: the last of them are used, and there
/// has to be one.
pub open spec fn clipped(
    ids: Seq<u32>,
    max_prompt_tokens: usize,
    result: Result<PromptTokens, TinyAgentError>,
) -> bool {
    let used = last_items(ids, max_prompt_tokens as nat);
    match result {
        Ok(prompt) => used.len() > 0 && prompt.total == ids.len() && prompt.used@ == used,
        Err(error) => used.len() == 0 && error@ == Fault::Configuration(
            "prompt encoded to zero tokens"@,
        ),
    }
}

/// The tokens of a prompt that are used, given all of them.
pub fn clip_prompt(ids: &Vec<u32>, max_prompt_tokens: usize) -> (result: Result<
    PromptTokens,
    TinyAgentError,
>)
    ensures
        clipped(ids@, max_prompt_tokens, result),
{
    let total: usize = ids.len();
    let start: usize = if total > max_prompt_tokens {
        total - max_prompt_tokens
    } else {
        0
    };
    let ghost expected = last_items(ids@, max_prompt_tokens as nat);
    assert(expected =~= ids@.skip(start as int));
    let mut used: Vec<u32> = Vec::new();
    let mut index: usize = start;
    while index < total
        invariant
            start <= index <= total == ids@.len(),
            used@ == ids@.subrange(start as int, index as int),
        decreases total - index,
    {
        used.push(ids[index]);
        index = index + 1;
        assert(used@ =~= ids@.subrange(start as int, index as int));
    }
    assert(used@ =~= expected);
    if used.len() == 0 {
        return Err(config_error("prompt encoded to zero tokens"));
    }
    Ok(PromptTokens { total, used })
}

/// What a prompt comes to, given what its text was encoded to.
pub open spec fn prompt_outcome(
    encoded: Result<Seq<u32>, Seq<char>>,
    max_prompt_tokens: usize,
    result: Result<PromptTokens, TinyAgentError>,
) -> bool {
    match encoded {
        Ok(ids) => clipped(ids, max_prompt_tokens, result),
        Err(reason) => result is Err && result->Err_0@ == Fault::Configuration(
            "failed to encode prompt: "@ + reason,
        ),
    }
}

/// The tokens of a user's prompt, framed as a turn of a chat.
pub fn encode_prompt(
    tokenizer: &ModelTokenizer,
    prompt: &str,
    max_prompt_tokens: usize,
) -> (result: Result<PromptTokens, TinyAgentError>)
    ensures
        exists|encoded: Result<Seq<u32>, Seq<char>>| #[trigger]
            encode_outcomes(tokenizer@, chat_prompt(prompt@)).contains(encoded)
                && prompt_outcome(encoded, max_prompt_tokens, result),
{
    proof {
        use_type_invariant(tokenizer);
    }
    assert(tokenizer@ == tokenizer.tokenizer);
    let formatted = format_qwen_chat_prompt(prompt);
    match encode_text(&tokenizer.tokenizer, formatted.as_str()) {
        Ok(ids) => {
            let result = clip_prompt(&ids, max_prompt_tokens);
            assert(prompt_outcome(Ok(ids@), max_prompt_tokens, result));
            result
        },
        Err(reason) => Err(
            TinyAgentError::Configuration(cat2("failed to encode prompt: ", reason.as_str())),
        ),
    }
}

/// Ids in angle brackets, one after another.
pub open spec fn bracketed(ids: Seq<u32>) -> Seq<char>
    decreases ids.len(),
{
    if ids.len() == 0 {
        Seq::empty()
    } else {
        bracketed(ids.drop_last()) + "<"@ + decimal(ids.last() as nat) + ">"@
    }
}

/// The text of generated tokens, given what the tokenizer made of them.
pub open spec fn shown_text(decoded: Option<Seq<char>>, ids: Seq<u32>) -> Seq<char> {
    match decoded {
        Some(text) => text,
        None => bracketed(ids),
    }
}

/// The text of generated tokens: what the tokenizer made of them, else their
/// ids.
pub fn generated_text(decoded: Option<String>, ids: &Vec<u32>) -> (text: String)
    ensures
        text@ == shown_text(maybe_text(decoded), ids@),
{
    match decoded {
        Some(text) => text,
        None => {
            let mut text = String::new();
            let mut index: usize = 0;
            assert(ids@.take(0) =~= Seq::<u32>::empty());
            while index < ids.len()
                invariant
                    index <= ids@.len(),
                    text@ == bracketed(ids@.take(index as int)),
                decreases ids@.len() - index,
            {
                text.append("<");
                text.append(decimal_u64(ids[index] as u64).as_str());
                text.append(">");
                index = index + 1;
                assert(ids@.take(index as int).drop_last() =~= ids@.take(index - 1));
            }
            assert(ids@.take(index as int) =~= ids@);
            text
        },
    }
}

/// The text of generated tokens. Where the tokenizer gives none, the ids stand
/// for themselves.
pub fn decode_tokens(tokenizer: &ModelTokenizer, ids: &Vec<u32>) -> (text: String)
    ensures
        exists|decoded: Option<Seq<char>>| #[trigger]
            decode_outcomes(tokenizer@, ids@).contains(decoded) && text@ == shown_text(
                decoded,
                ids@,
            ),
{
    proof {
        use_type_invariant(tokenizer);
    }
    assert(tokenizer@ == tokenizer.tokenizer);
    generated_text(decode_ids(&tokenizer.tokenizer, ids.as_slice()), ids)
}

/// What is used of a prompt is its end: all of it where it is no longer than the
/// limit, else as much as the limit allows.
pub proof fn the_end_of_a_prompt_is_used(ids: Seq<u32>, limit: nat)
    ensures
        ({
            let used = last_items(ids, limit);
            &&& exists|before: Seq<u32>| ids == before + used
            &&& used.len() == if ids.len() <= limit {
                ids.len()
            } else {
                limit
            }
        }),
{
    let used = last_items(ids, limit);
    let before = ids.take(ids.len() - used.len());
    assert(ids =~= before + used);
}

/// Ids that stand for themselves are told in their order, each in brackets of
/// its own. They do so only where no text was made of them.
pub proof fn ids_are_told_in_order(earlier: Seq<u32>, later: Seq<u32>, id: u32)
    ensures
        bracketed(earlier + later) == bracketed(earlier) + bracketed(later),
        bracketed(seq![id]) == "<"@ + decimal(id as nat) + ">"@,
        shown_text(None, later) == bracketed(later),
        forall|text: Seq<char>| #[trigger] shown_text(Some(text), later) == text,
    decreases later.len(),
{
    assert(bracketed(seq![id]) == "<"@ + decimal(id as nat) + ">"@) by {
        reveal_with_fuel(bracketed, 2);
        assert(seq![id].drop_last() =~= Seq::<u32>::empty());
        assert(Seq::<char>::empty() + "<"@ =~= "<"@);
    }
    if later.len() == 0 {
        assert(earlier + later =~= earlier);
        assert(bracketed(earlier) + bracketed(later) =~= bracketed(earlier));
    } else {
        ids_are_told_in_order(earlier, later.drop_last(), id);
        assert((earlier + later).drop_last() =~= earlier + later.drop_last());
        assert(bracketed(earlier + later) =~= bracketed(earlier) + bracketed(later));
    }
}

/// A prompt is used just where something of it is left, and then all of its ids
/// are counted.
pub proof fn prompts_are_used_where_something_is_left(
    ids: Seq<u32>,
    max_prompt_tokens: usize,
    result: Result<PromptTokens, TinyAgentError>,
)
    requires
        clipped(ids, max_prompt_tokens, result),
    ensures
        result is Ok <==> ids.len() > 0 && max_prompt_tokens > 0,
        result is Ok ==> {
            let used = result->Ok_0.used@;
            &&& result->Ok_0.total == ids.len()
            &&& used.len() <= max_prompt_tokens
            &&& used == ids.skip(ids.len() - used.len())
            &&& used.len() < max_prompt_tokens ==> used == ids
        },
{
    if result is Ok {
        let used = result->Ok_0.used@;
        assert(used =~= ids.skip(ids.len() - used.len()));
    }
}

/// A prompt stands whole in the turn of the user, behind its opening, and the
/// text ends with the opening of the assistant's turn.
#[verifier::rlimit(50)]
pub proof fn prompts_are_turns_of_the_user(prompt: Seq<char>)
    ensures
        ({
            let text = chat_prompt(prompt);
            let opening = "<|im_start|>user\n"@;
            let closing = "<|im_end|>\n"@;
            let answer = "<|im_start|>assistant\n"@;
            &&& text.len() == opening.len() + prompt.len() + closing.len() + answer.len()
            &&& text.take(opening.len() as int) == opening
            &&& text.subrange(opening.len() as int, (opening.len() + prompt.len()) as int) == prompt
            &&& text.skip(text.len() - answer.len()) == answer
            &&& text == opening + prompt + closing + answer
        }),
{
    reveal_strlit("<|im_end|>\n<|im_start|>assistant\n");
    reveal_strlit("<|im_start|>assistant\n");
    reveal_strlit("<|im_end|>\n");
    let text = chat_prompt(prompt);
    let opening = "<|im_start|>user\n"@;
    let closing = "<|im_end|>\n"@;
    let answer = "<|im_start|>assistant\n"@;
    assert("<|im_end|>\n<|im_start|>assistant\n"@ =~= closing + answer);
    assert(text =~= opening + prompt + closing + answer);
    assert(text.take(opening.len() as int) =~= opening);
    assert(text.subrange(opening.len() as int, (opening.len() + prompt.len()) as int) =~= prompt);
    assert(text.skip(text.len() - answer.len()) =~= answer);
}

} // verus!
