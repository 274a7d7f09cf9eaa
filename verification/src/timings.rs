//! What a run of llama.cpp prints about itself.

use crate::scan::{
    all_digits, begins_with, behind, digit_value, find_char, join, join_from, joined_by,
    lemma_end_trimmed, lines, parse_usize, place_of, read_outcome, said, split_behind,
    start_trimmed, starts_with, text_lines, trim, trim_start, trimmed, trimming_is_final,
    unsigned_value, ReadFault, Refusal,
};
use crate::text::{
    cat2, cat3, from_chars, lemma_run_stops, run_length, same_text, split_whitespace,
    to_chars, views, words,
};
use vstd::prelude::*;

verus! {

/// What a line reports: what stands behind the mark of the printer, if it
/// bears one.
pub open spec fn metric_of(line: Seq<char>) -> Seq<char> {
    match behind(line, "common_perf_print:"@) {
        Some(metric) => metric,
        None => line,
    }
}

pub fn perf_metric(line: &str) -> (metric: String)
    ensures
        metric@ == metric_of(line@),
{
    match split_behind(line, "common_perf_print:") {
        Some(metric) => metric,
        None => line.to_owned(),
    }
}

/// Whether a line reports what the label names.
pub open spec fn reports(line: Seq<char>, label: Seq<char>) -> bool {
    begins_with(start_trimmed(metric_of(line)), label)
}

/// The first line that reports what the label names.
pub open spec fn reporting_line(all: Seq<Seq<char>>, label: Seq<char>) -> Option<Seq<char>>
    decreases all.len(),
{
    if all.len() == 0 {
        None
    } else if reports(all[0], label) {
        Some(all[0])
    } else {
        reporting_line(all.drop_first(), label)
    }
}

fn find_line(stderr: &str, label: &str) -> (found: Option<String>)
    ensures
        match found {
            Some(line) => reporting_line(text_lines(stderr@), label@) == Some(line@),
            None => reporting_line(text_lines(stderr@), label@) is None,
        },
{
    let all: Vec<String> = lines(stderr);
    let ghost texts = text_lines(stderr@);
    let mut index: usize = 0;
    assert(texts.skip(0) =~= texts);
    while index < all.len()
        invariant
            views(all@) == texts,
            index <= all@.len(),
            texts == text_lines(stderr@),
            reporting_line(texts.skip(index as int), label@) == reporting_line(texts, label@),
        decreases all@.len() - index,
    {
        let ghost here = texts.skip(index as int);
        assert(here[0] == all@[index as int]@);
        assert(here.drop_first() =~= texts.skip(index + 1));
        let metric = perf_metric(all[index].as_str());
        if starts_with(trim_start(metric.as_str()).as_str(), label) {
            return Some(all[index].clone());
        }
        index = index + 1;
    }
    None
}

/// A text with each comma replaced by a point.
pub open spec fn with_points(text: Seq<char>) -> Seq<char> {
    Seq::new(
        text.len(),
        |i: int|
            if text[i] == ',' {
                '.'
            } else {
                text[i]
            },
    )
}

fn replace_commas(text: &str) -> (replaced: String)
    ensures
        replaced@ == with_points(text@),
{
    let chars: Vec<char> = to_chars(text);
    let mut replaced = String::new();
    let mut index: usize = 0;
    assert(with_points(text@).take(0) =~= Seq::<char>::empty());
    while index < chars.len()
        invariant
            chars@ == text@,
            index <= chars@.len(),
            replaced@ == with_points(text@).take(index as int),
        decreases chars@.len() - index,
    {
        if chars[index] == ',' {
            replaced.push('.');
        } else {
            replaced.push(chars[index]);
        }
        index = index + 1;
        assert(replaced@ =~= with_points(text@).take(index as int));
    }
    assert(with_points(text@).take(index as int) =~= with_points(text@));
    replaced
}

/// The code of a character, that of the small letter for a capital one of
/// ASCII.
pub open spec fn lowered(ch: char) -> int {
    if 'A' <= ch && ch <= 'Z' {
        ch as u32 + 32
    } else {
        ch as u32 as int
    }
}

/// Whether a text is a word, whatever the case of its letters.
pub open spec fn is_word(text: Seq<char>, word: Seq<char>) -> bool {
    text.len() == word.len() && forall|i: int|
        0 <= i < text.len() ==> lowered(#[trigger] text[i]) == word[i] as u32
}

/// A text without one sign at its start.
pub open spec fn without_sign(text: Seq<char>) -> Seq<char> {
    if text.len() > 0 && (text[0] == '+' || text[0] == '-') {
        text.drop_first()
    } else {
        text
    }
}

/// The first place of a mark of an exponent, or the length.
pub open spec fn exponent_place(text: Seq<char>) -> nat {
    let small = place_of(text, 'e');
    let large = place_of(text, 'E');
    if small < large {
        small
    } else {
        large
    }
}

/// Digits with at most one point among them, and at least one digit.
pub open spec fn is_mantissa(text: Seq<char>) -> bool {
    let point = place_of(text, '.') as int;
    if point == text.len() {
        text.len() > 0 && all_digits(text)
    } else {
        text.len() > 1 && all_digits(text.take(point)) && all_digits(text.skip(point + 1))
    }
}

/// Digits behind a sign or not.
pub open spec fn is_exponent(text: Seq<char>) -> bool {
    without_sign(text).len() > 0 && all_digits(without_sign(text))
}

/// Whether a text spells a floating-point number: `inf`, `infinity`, `nan` or
/// a decimal number, behind a sign or not.
pub open spec fn is_float(text: Seq<char>) -> bool {
    let body = without_sign(text);
    let mark = exponent_place(body) as int;
    ||| is_word(body, "inf"@)
    ||| is_word(body, "infinity"@)
    ||| is_word(body, "nan"@)
    ||| (is_mantissa(body.take(mark)) && (mark < body.len() ==> is_exponent(body.skip(mark + 1))))
}

fn digits_between(chars: &Vec<char>, start: usize, end: usize) -> (yes: bool)
    requires
        start <= end <= chars@.len(),
    ensures
        yes == all_digits(chars@.subrange(start as int, end as int)),
{
    let ghost part = chars@.subrange(start as int, end as int);
    let mut index: usize = start;
    while index < end
        invariant
            start <= index <= end <= chars@.len(),
            part == chars@.subrange(start as int, end as int),
            forall|i: int| 0 <= i < index - start ==> digit_value(#[trigger] part[i]) is Some,
        decreases end - index,
    {
        assert(part[index - start] == chars@[index as int]);
        if !('0' <= chars[index] && chars[index] <= '9') {
            assert(digit_value(part[index - start]) is None);
            return false;
        }
        index = index + 1;
    }
    true
}

fn word_from(chars: &Vec<char>, start: usize, word: &str) -> (yes: bool)
    requires
        start <= chars@.len(),
    ensures
        yes == is_word(chars@.skip(start as int), word@),
{
    let wanted: Vec<char> = to_chars(word);
    let ghost body = chars@.skip(start as int);
    if chars.len() - start != wanted.len() {
        return false;
    }
    let mut index: usize = 0;
    while index < wanted.len()
        invariant
            index <= wanted@.len(),
            wanted@ == word@,
            chars@.len() == chars.len(),
            chars@.len() - start == wanted@.len(),
            body == chars@.skip(start as int),
            forall|i: int| 0 <= i < index ==> lowered(#[trigger] body[i]) == word@[i] as u32,
        decreases wanted@.len() - index,
    {
        let ch: char = chars[start + index];
        assert(body[index as int] == ch);
        let code: u32 = ch as u32;
        let lower_code: u32 = if 'A' <= ch && ch <= 'Z' {
            code + 32
        } else {
            code
        };
        if lower_code != wanted[index] as u32 {
            return false;
        }
        index = index + 1;
    }
    true
}

/// Whether a text spells a floating-point number.
pub fn float_text(text: &str) -> (yes: bool)
    ensures
        yes == is_float(text@),
{
    let chars: Vec<char> = to_chars(text);
    let start: usize = if chars.len() > 0 && (chars[0] == '+' || chars[0] == '-') {
        1
    } else {
        0
    };
    let ghost body = without_sign(text@);
    assert(body =~= chars@.skip(start as int));
    if word_from(&chars, start, "inf") || word_from(&chars, start, "infinity") || word_from(
        &chars,
        start,
        "nan",
    ) {
        return true;
    }
    let small: usize = find_char(&chars, start, 'e');
    let large: usize = find_char(&chars, start, 'E');
    let mark: usize = if small < large {
        small
    } else {
        large
    };
    let ghost mantissa = body.take(mark - start);
    assert(mantissa =~= chars@.subrange(start as int, mark as int));
    let head: Vec<char> = to_chars(from_chars(&chars, start, mark).as_str());
    let point: usize = find_char(&head, 0, '.');
    assert(head@.skip(0) =~= head@);
    assert(head@ == mantissa);
    let mantissa_ok: bool = if point == head.len() {
        assert(head@.subrange(0, point as int) =~= mantissa);
        head.len() > 0 && digits_between(&head, 0, point)
    } else {
        assert(head@.subrange(0, point as int) =~= mantissa.take(point as int));
        assert(head@.subrange(point + 1, head@.len() as int) =~= mantissa.skip(point + 1));
        head.len() > 1 && digits_between(&head, 0, point) && digits_between(
            &head,
            point + 1,
            head.len(),
        )
    };
    if !mantissa_ok {
        return false;
    }
    if mark == chars.len() {
        return true;
    }
    let ghost exponent = body.skip(mark - start + 1);
    let from: usize = mark + 1;
    let digits_from: usize = if from < chars.len() && (chars[from] == '+' || chars[from] == '-') {
        from + 1
    } else {
        from
    };
    assert(exponent =~= chars@.skip(from as int));
    assert(without_sign(exponent) =~= chars@.subrange(digits_from as int, chars@.len() as int));
    digits_from < chars.len() && digits_between(&chars, digits_from, chars.len())
}

/// The first word behind a mark in a line's report, or what is said where the
/// mark or the word is missing.
pub open spec fn word_behind(
    line: Seq<char>,
    mark: Seq<char>,
    no_mark: Seq<char>,
    no_word: Seq<char>,
) -> Result<Seq<char>, Seq<char>> {
    match behind(metric_of(line), mark) {
        None => Err(no_mark + line),
        Some(rest) => if words(start_trimmed(rest)).len() == 0 {
            Err(no_word + line)
        } else {
            Ok(words(start_trimmed(rest))[0])
        },
    }
}

/// The outcome of a function that gives a text and whose errors are texts.
pub open spec fn words_outcome(
    result: Result<String, String>,
    expected: Result<Seq<char>, Seq<char>>,
) -> bool {
    match result {
        Ok(text) => expected == Ok::<Seq<char>, Seq<char>>(text@),
        Err(error) => expected == Err::<Seq<char>, Seq<char>>(error@),
    }
}

fn find_word(line: &str, mark: &str, no_mark: &str, no_word: &str) -> (result: Result<
    String,
    String,
>)
    ensures
        words_outcome(result, word_behind(line@, mark@, no_mark@, no_word@)),
{
    let metric = perf_metric(line);
    match split_behind(metric.as_str(), mark) {
        None => Err(cat2(no_mark, line)),
        Some(rest) => {
            let parts: Vec<String> = split_whitespace(trim_start(rest.as_str()).as_str());
            assert(views(parts@).len() == parts@.len());
            if parts.len() == 0 {
                Err(cat2(no_word, line))
            } else {
                assert(views(parts@)[0] == parts@[0]@);
                Ok(parts[0].clone())
            }
        },
    }
}

/// The milliseconds of a line, as the text of a floating-point number.
pub open spec fn line_ms(line: Seq<char>) -> Result<Seq<char>, Refusal> {
    match word_behind(
        line,
        "="@,
        "missing `=` in llama.cpp timing line: "@,
        "missing ms value in llama.cpp timing line: "@,
    ) {
        Err(text) => Err(Refusal::Said { text }),
        Ok(raw) => if is_float(with_points(raw)) {
            Ok(with_points(raw))
        } else {
            Err(
                Refusal::NoFloat {
                    text: "invalid ms value `"@ + raw + "` in llama.cpp timing line"@,
                    raw: with_points(raw),
                },
            )
        },
    }
}

/// The count of a line.
pub open spec fn line_count(line: Seq<char>) -> Result<usize, Refusal> {
    match word_behind(
        line,
        "/"@,
        "missing `/` count in llama.cpp timing line: "@,
        "missing count in llama.cpp timing line: "@,
    ) {
        Err(text) => Err(Refusal::Said { text }),
        Ok(raw) => match unsigned_value(raw, usize::MAX as nat) {
            Some(count) => Ok(count as usize),
            None => Err(
                Refusal::NoCount {
                    text: "invalid count `"@ + raw + "` in llama.cpp timing line"@,
                    raw,
                },
            ),
        },
    }
}

pub open spec fn missing_line(label: Seq<char>) -> Refusal {
    Refusal::Said { text: "missing llama.cpp timing line `"@ + label + "`"@ }
}

/// The milliseconds that the output reports under a label.
pub open spec fn reported_ms(stderr: Seq<char>, label: Seq<char>) -> Result<Seq<char>, Refusal> {
    match reporting_line(text_lines(stderr), label) {
        None => Err(missing_line(label)),
        Some(line) => line_ms(line),
    }
}

/// The milliseconds and the count that the output reports under a label.
pub open spec fn reported_ms_count(stderr: Seq<char>, label: Seq<char>) -> Result<
    (Seq<char>, usize),
    Refusal,
> {
    match reporting_line(text_lines(stderr), label) {
        None => Err(missing_line(label)),
        Some(line) => match reported_ms(line, label) {
            Err(text) => Err(text),
            Ok(ms) => match line_count(line) {
                Err(text) => Err(text),
                Ok(count) => Ok((ms, count)),
            },
        },
    }
}

fn read_ms(line: &str) -> (result: Result<String, ReadFault>)
    ensures
        read_outcome(result, line_ms(line@)),
{
    let raw = match find_word(
        line,
        "=",
        "missing `=` in llama.cpp timing line: ",
        "missing ms value in llama.cpp timing line: ",
    ) {
        Ok(raw) => raw,
        Err(error) => return Err(said(error)),
    };
    let text = replace_commas(raw.as_str());
    if float_text(text.as_str()) {
        Ok(text)
    } else {
        Err(
            ReadFault::NoFloat {
                text: cat3("invalid ms value `", raw.as_str(), "` in llama.cpp timing line"),
                raw: text,
            },
        )
    }
}

fn read_count(line: &str) -> (result: Result<usize, ReadFault>)
    ensures
        match result {
            Ok(count) => line_count(line@) == Ok::<usize, Refusal>(count),
            Err(fault) => line_count(line@) == Err::<usize, Refusal>(fault@),
        },
{
    let raw = match find_word(
        line,
        "/",
        "missing `/` count in llama.cpp timing line: ",
        "missing count in llama.cpp timing line: ",
    ) {
        Ok(raw) => raw,
        Err(error) => return Err(said(error)),
    };
    match parse_usize(raw.as_str()) {
        Some(count) => Ok(count),
        None => Err(
            ReadFault::NoCount {
                text: cat3("invalid count `", raw.as_str(), "` in llama.cpp timing line"),
                raw,
            },
        ),
    }
}

/// The milliseconds that the output reports under a label.
pub fn parse_perf_ms(stderr: &str, label: &str) -> (result: Result<String, ReadFault>)
    ensures
        read_outcome(result, reported_ms(stderr@, label@)),
{
    match find_line(stderr, label) {
        Some(line) => read_ms(line.as_str()),
        None => Err(said(cat3("missing llama.cpp timing line `", label, "`"))),
    }
}

/// The milliseconds and the count that the output reports under a label.
pub fn parse_perf_ms_count(stderr: &str, label: &str) -> (result: Result<
    (String, usize),
    ReadFault,
>)
    ensures
        match result {
            Ok(found) => reported_ms_count(stderr@, label@) == Ok::<
                (Seq<char>, usize),
                Refusal,
            >((found.0@, found.1)),
            Err(error) => reported_ms_count(stderr@, label@) == Err::<
                (Seq<char>, usize),
                Refusal,
            >(error@),
        },
{
    match find_line(stderr, label) {
        Some(line) => match parse_perf_ms(line.as_str(), label) {
            Err(error) => Err(error),
            Ok(ms) => match read_count(line.as_str()) {
                Err(error) => Err(error),
                Ok(count) => Ok((ms, count)),
            },
        },
        None => Err(said(cat3("missing llama.cpp timing line `", label, "`"))),
    }
}

/// What a run reports; times are texts of floating-point numbers.
#[derive(Debug)]
pub struct LlamaCompletionTimings {
    pub load_ms: String,
    pub prompt_eval_ms: String,
    pub prompt_eval_tokens: usize,
    pub eval_ms: String,
    pub eval_runs: usize,
    pub total_ms: String,
    pub total_tokens: usize,
}

/// The mathematical value of `LlamaCompletionTimings`.
pub struct Timings {
    pub load_ms: Seq<char>,
    pub prompt_eval: (Seq<char>, usize),
    pub eval: (Seq<char>, usize),
    pub total: (Seq<char>, usize),
}

impl View for LlamaCompletionTimings {
    type V = Timings;

    open spec fn view(&self) -> Timings {
        Timings {
            load_ms: self.load_ms@,
            prompt_eval: (self.prompt_eval_ms@, self.prompt_eval_tokens),
            eval: (self.eval_ms@, self.eval_runs),
            total: (self.total_ms@, self.total_tokens),
        }
    }
}

pub open spec fn reported_timings(stderr: Seq<char>) -> Result<Timings, Refusal> {
    match reported_ms(stderr, "load time"@) {
        Err(text) => Err(text),
        Ok(load_ms) => match reported_ms_count(stderr, "prompt eval time"@) {
            Err(text) => Err(text),
            Ok(prompt_eval) => match reported_ms_count(stderr, "eval time"@) {
                Err(text) => Err(text),
                Ok(eval) => match reported_ms_count(stderr, "total time"@) {
                    Err(text) => Err(text),
                    Ok(total) => Ok(Timings { load_ms, prompt_eval, eval, total }),
                },
            },
        },
    }
}

pub fn parse_llama_completion_timings(stderr: &str) -> (result: Result<
    LlamaCompletionTimings,
    ReadFault,
>)
    ensures
        read_outcome(result, reported_timings(stderr@)),
{
    let load_ms = match parse_perf_ms(stderr, "load time") {
        Ok(load_ms) => load_ms,
        Err(error) => return Err(error),
    };
    let (prompt_eval_ms, prompt_eval_tokens) = match parse_perf_ms_count(
        stderr,
        "prompt eval time",
    ) {
        Ok(found) => found,
        Err(error) => return Err(error),
    };
    let (eval_ms, eval_runs) = match parse_perf_ms_count(stderr, "eval time") {
        Ok(found) => found,
        Err(error) => return Err(error),
    };
    let (total_ms, total_tokens) = match parse_perf_ms_count(stderr, "total time") {
        Ok(found) => found,
        Err(error) => return Err(error),
    };
    Ok(
        LlamaCompletionTimings {
            load_ms,
            prompt_eval_ms,
            prompt_eval_tokens,
            eval_ms,
            eval_runs,
            total_ms,
            total_tokens,
        },
    )
}

/// The control characters: the Unicode category `Cc`.
pub open spec fn is_control(ch: char) -> bool {
    (ch as u32) <= 0x1F || 0x7F <= (ch as u32) <= 0x9F
}

/// A character that stays in a cleaned text.
pub open spec fn is_shown(ch: char) -> bool {
    ch == '\n' || ch == '\t' || !is_control(ch)
}

/// The characters of a text that are shown: all but the control characters
/// other than newline and tabulator.
pub open spec fn shown(text: Seq<char>) -> Seq<char>
    decreases text.len(),
{
    if text.len() == 0 {
        Seq::empty()
    } else {
        let ch = text.last();
        if is_shown(ch) {
            shown(text.drop_last()).push(ch)
        } else {
            shown(text.drop_last())
        }
    }
}

/// A generated text without control characters and without the white space
/// around it.
pub fn clean_generated_text(text: &str) -> (cleaned: String)
    ensures
        cleaned@ == trimmed(shown(text@)),
{
    let chars: Vec<char> = to_chars(text);
    let mut kept = String::new();
    let mut index: usize = 0;
    assert(text@.take(0) =~= Seq::<char>::empty());
    while index < chars.len()
        invariant
            chars@ == text@,
            index <= chars@.len(),
            kept@ == shown(text@.take(index as int)),
        decreases chars@.len() - index,
    {
        let ch: char = chars[index];
        assert(text@.take(index + 1).drop_last() =~= text@.take(index as int));
        let code: u32 = ch as u32;
        if ch == '\n' || ch == '\t' || !(code <= 0x1F || (0x7F <= code && code <= 0x9F)) {
            kept.push(ch);
        }
        index = index + 1;
    }
    assert(text@.take(index as int) =~= text@);
    trim(kept.as_str())
}

/// The last `count` lines of a text.
pub open spec fn tail(text: Seq<char>, count: nat) -> Seq<char> {
    let all = text_lines(text);
    if all.len() > count {
        joined_by(all.skip(all.len() - count), "\n"@)
    } else {
        joined_by(all, "\n"@)
    }
}

pub fn stderr_tail(stderr: &str, count: usize) -> (text: String)
    ensures
        text@ == tail(stderr@, count as nat),
{
    let all: Vec<String> = lines(stderr);
    assert(views(all@).len() == all@.len());
    let start: usize = if all.len() > count {
        all.len() - count
    } else {
        0
    };
    assert(views(all@).skip(0) =~= views(all@));
    join_from(&all, start, "\n")
}

/// Trimmed lines that are not empty.
pub open spec fn filled(all: Seq<Seq<char>>) -> Seq<Seq<char>>
    decreases all.len(),
{
    if all.len() == 0 {
        Seq::empty()
    } else if trimmed(all.last()).len() == 0 {
        filled(all.drop_last())
    } else {
        filled(all.drop_last()).push(trimmed(all.last()))
    }
}

/// The version that llama.cpp reports, on one line.
pub fn version_text(stdout: &str, stderr: &str) -> (text: String)
    ensures
        text@ == joined_by(filled(text_lines(stdout@ + stderr@)), " | "@),
{
    let all: Vec<String> = lines(cat2(stdout, stderr).as_str());
    let ghost texts = text_lines(stdout@ + stderr@);
    let mut kept: Vec<String> = Vec::new();
    let mut index: usize = 0;
    assert(texts.take(0) =~= Seq::<Seq<char>>::empty());
    assert(views(kept@) =~= Seq::<Seq<char>>::empty());
    while index < all.len()
        invariant
            views(all@) == texts,
            index <= all@.len(),
            views(kept@) == filled(texts.take(index as int)),
        decreases all@.len() - index,
    {
        assert(texts.take(index + 1).drop_last() =~= texts.take(index as int));
        assert(texts.take(index + 1).last() == all@[index as int]@);
        let line = trim(all[index].as_str());
        let ghost before = kept@;
        if !same_text(line.as_str(), "") {
            kept.push(line);
            assert(views(kept@) =~= views(before).push(line@));
        }
        proof {
            reveal_strlit("");
            if line@.len() == 0 {
                assert(line@ =~= ""@);
            }
        }
        index = index + 1;
    }
    assert(views(all@).len() == all@.len());
    assert(texts.take(index as int) =~= texts);
    join(&kept, " | ")
}

/// A text that was cleaned is clean.
pub proof fn cleaning_is_final(text: Seq<char>)
    ensures
        trimmed(shown(trimmed(shown(text)))) == trimmed(shown(text)),
{
    let kept = shown(text);
    lemma_shown_chars(text);
    let from_start = start_trimmed(kept);
    lemma_run_stops(kept, true);
    lemma_end_trimmed(from_start);
    let cleaned = trimmed(kept);
    assert forall|i: int| 0 <= i < cleaned.len() implies is_shown(#[trigger] cleaned[i]) by {
        assert(cleaned[i] == from_start[i]);
        assert(from_start[i] == kept[i + run_length(kept, true)]);
    }
    lemma_all_shown(cleaned);
    trimming_is_final(kept);
}

proof fn lemma_shown_chars(text: Seq<char>)
    ensures
        forall|i: int| 0 <= i < shown(text).len() ==> is_shown(#[trigger] shown(text)[i]),
    decreases text.len(),
{
    if text.len() > 0 {
        let before = shown(text.drop_last());
        lemma_shown_chars(text.drop_last());
        assert forall|i: int| 0 <= i < shown(text).len() implies is_shown(
            #[trigger] shown(text)[i],
        ) by {
            if i < before.len() {
                assert(shown(text)[i] == before[i]);
            }
        }
    }
}

proof fn lemma_all_shown(text: Seq<char>)
    requires
        forall|i: int| 0 <= i < text.len() ==> is_shown(#[trigger] text[i]),
    ensures
        shown(text) == text,
    decreases text.len(),
{
    if text.len() > 0 {
        let before = text.drop_last();
        assert forall|i: int| 0 <= i < before.len() implies is_shown(#[trigger] before[i]) by {
            assert(before[i] == text[i]);
        }
        lemma_all_shown(before);
        assert(is_shown(text[text.len() - 1]));
        assert(before.push(text.last()) =~= text);
    }
}

/// The line that is read for a label is the first that reports it.
pub proof fn the_first_report_is_read(all: Seq<Seq<char>>, label: Seq<char>)
    ensures
        match reporting_line(all, label) {
            Some(line) => exists|at: int|
                0 <= at < all.len() && #[trigger] all[at] == line && reports(line, label) && forall|
                    i: int,
                |
                    0 <= i < at ==> !reports(#[trigger] all[i], label),
            None => forall|i: int| 0 <= i < all.len() ==> !reports(#[trigger] all[i], label),
        },
    decreases all.len(),
{
    if all.len() > 0 {
        if reports(all[0], label) {
            assert(all[0] == reporting_line(all, label)->0);
        } else {
            let rest = all.drop_first();
            the_first_report_is_read(rest, label);
            match reporting_line(rest, label) {
                Some(line) => {
                    let at = choose|at: int|
                        0 <= at < rest.len() && #[trigger] rest[at] == line && reports(line, label)
                            && forall|i: int| 0 <= i < at ==> !reports(#[trigger] rest[i], label);
                    assert(all[at + 1] == line);
                    assert forall|i: int| 0 <= i < at + 1 implies !reports(
                        #[trigger] all[i],
                        label,
                    ) by {
                        if i > 0 {
                            assert(rest[i - 1] == all[i]);
                        }
                    }
                },
                None => {
                    assert forall|i: int| 0 <= i < all.len() implies !reports(
                        #[trigger] all[i],
                        label,
                    ) by {
                        if i > 0 {
                            assert(rest[i - 1] == all[i]);
                        }
                    }
                },
            }
        }
    }
}

/// The four timings are read under their own labels.
pub proof fn timings_are_read_under_their_labels(stderr: Seq<char>)
    requires
        reported_timings(stderr) is Ok,
    ensures
        ({
            let timings = reported_timings(stderr)->Ok_0;
            &&& reported_ms(stderr, "load time"@) == Ok::<_, Refusal>(timings.load_ms)
            &&& reported_ms_count(stderr, "prompt eval time"@) == Ok::<_, Refusal>(
                timings.prompt_eval,
            )
            &&& reported_ms_count(stderr, "eval time"@) == Ok::<_, Refusal>(timings.eval)
            &&& reported_ms_count(stderr, "total time"@) == Ok::<_, Refusal>(timings.total)
        }),
{
}

/// The end of an output is its last lines, in their order: all of them where
/// there are no more than asked for.
pub proof fn the_end_of_an_output_is_its_last_lines(text: Seq<char>, count: nat)
    ensures
        ({
            let all = text_lines(text);
            let left = if all.len() <= count {
                0
            } else {
                all.len() - count
            };
            tail(text, count) == joined_by(all.skip(left), "\n"@) && all.skip(left).len() <= count
        }),
{
    let all = text_lines(text);
    assert(all.skip(0) =~= all);
}

} // verus!
