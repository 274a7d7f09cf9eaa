//! Taking texts apart and putting them together.

use crate::text::{
    decimal, from_chars, is_white, lemma_run_length, lemma_run_stops, run_length, to_chars, views,
    white,
};
use vstd::prelude::*;
use vstd::string::StringExecFns;

verus! {

/// Why a text could not be read: something is said of it, and where a number
/// in it is the cause, that number is given as it stood.
#[derive(Debug, Clone, PartialEq, Eq)]
pub enum ReadFault {
    Said { text: String },
    NoCount { text: String, raw: String },
    NoFloat { text: String, raw: String },
}

/// The mathematical value of a `ReadFault`.
pub enum Refusal {
    Said { text: Seq<char> },
    NoCount { text: Seq<char>, raw: Seq<char> },
    NoFloat { text: Seq<char>, raw: Seq<char> },
}

impl View for ReadFault {
    type V = Refusal;

    open spec fn view(&self) -> Refusal {
        match self {
            ReadFault::Said { text } => Refusal::Said { text: text@ },
            ReadFault::NoCount { text, raw } => Refusal::NoCount { text: text@, raw: raw@ },
            ReadFault::NoFloat { text, raw } => Refusal::NoFloat { text: text@, raw: raw@ },
        }
    }
}

impl Refusal {
    pub open spec fn said(self) -> Seq<char> {
        match self {
            Refusal::Said { text } => text,
            Refusal::NoCount { text, .. } => text,
            Refusal::NoFloat { text, .. } => text,
        }
    }
}

impl ReadFault {
    pub fn message(&self) -> (text: &str)
        ensures
            text@ == self@.said(),
    {
        match self {
            ReadFault::Said { text } => text.as_str(),
            ReadFault::NoCount { text, .. } => text.as_str(),
            ReadFault::NoFloat { text, .. } => text.as_str(),
        }
    }
}

/// What is said, with no number as its cause.
pub fn said(text: String) -> (fault: ReadFault)
    ensures
        fault@ == (Refusal::Said { text: text@ }),
{
    ReadFault::Said { text }
}

/// The outcome of a function that reads a text.
pub open spec fn read_outcome<T: View>(
    result: Result<T, ReadFault>,
    expected: Result<T::V, Refusal>,
) -> bool {
    match result {
        Ok(value) => expected == Ok::<T::V, Refusal>(value@),
        Err(fault) => expected == Err::<T::V, Refusal>(fault@),
    }
}

/// The first place of a character, or the length where there is none.
pub open spec fn place_of(text: Seq<char>, ch: char) -> nat
    decreases text.len(),
{
    if text.len() == 0 || text[0] == ch {
        0
    } else {
        1 + place_of(text.drop_first(), ch)
    }
}

pub proof fn lemma_place(text: Seq<char>, ch: char, place: nat)
    requires
        place <= text.len(),
        forall|i: int| 0 <= i < place ==> #[trigger] text[i] != ch,
        place < text.len() ==> text[place as int] == ch,
    ensures
        place_of(text, ch) == place,
    decreases text.len(),
{
    if place > 0 {
        let rest = text.drop_first();
        assert forall|i: int| 0 <= i < place - 1 implies #[trigger] rest[i] != ch by {
            assert(rest[i] == text[i + 1]);
        }
        lemma_place(rest, ch, (place - 1) as nat);
    }
}

pub proof fn lemma_place_bound(text: Seq<char>, ch: char)
    ensures
        place_of(text, ch) <= text.len(),
        place_of(text, ch) < text.len() ==> text[place_of(text, ch) as int] == ch,
    decreases text.len(),
{
    if text.len() > 0 && text[0] != ch {
        lemma_place_bound(text.drop_first(), ch);
    }
}

/// The first place at or behind `start` of a character.
pub fn find_char(chars: &Vec<char>, start: usize, ch: char) -> (place: usize)
    requires
        start <= chars@.len(),
    ensures
        start <= place <= chars@.len(),
        place - start == place_of(chars@.skip(start as int), ch),
        place < chars@.len() ==> chars@[place as int] == ch,
{
    let mut place: usize = start;
    while place < chars.len() && chars[place] != ch
        invariant
            start <= place <= chars@.len(),
            forall|i: int| start <= i < place ==> #[trigger] chars@[i] != ch,
        decreases chars@.len() - place,
    {
        place = place + 1;
    }
    proof {
        let rest = chars@.skip(start as int);
        assert forall|i: int| 0 <= i < place - start implies #[trigger] rest[i] != ch by {
            assert(rest[i] == chars@[start + i]);
        }
        lemma_place(rest, ch, (place - start) as nat);
    }
    place
}

/// The parts of a text between occurrences of a character.
pub open spec fn pieces(text: Seq<char>, ch: char) -> Seq<Seq<char>>
    decreases text.len(),
{
    let place = place_of(text, ch);
    proof {
        lemma_place_bound(text, ch);
    }
    if place == text.len() {
        seq![text]
    } else {
        seq![text.take(place as int)] + pieces(text.skip(place as int + 1), ch)
    }
}

pub fn split_on(text: &str, ch: char) -> (parts: Vec<String>)
    ensures
        views(parts@) == pieces(text@, ch),
{
    let chars: Vec<char> = to_chars(text);
    let mut parts: Vec<String> = Vec::new();
    let mut start: usize = 0;
    assert(text@.skip(0) =~= text@);
    assert(views(parts@) + pieces(text@, ch) =~= pieces(text@, ch));
    loop
        invariant_except_break
            start <= chars@.len(),
            views(parts@) + pieces(text@.skip(start as int), ch) == pieces(text@, ch),
        invariant
            chars@ == text@,
        ensures
            views(parts@) == pieces(text@, ch),
        decreases chars@.len() + 1 - start,
    {
        let ghost rest = text@.skip(start as int);
        let place: usize = find_char(&chars, start, ch);
        let ghost before = parts@;
        parts.push(from_chars(&chars, start, place));
        proof {
            assert(views(parts@) =~= views(before).push(
                text@.subrange(start as int, place as int),
            ));
        }
        if place == chars.len() {
            proof {
                assert(text@.subrange(start as int, place as int) =~= rest);
                assert(views(parts@) =~= views(before) + pieces(rest, ch));
            }
            break;
        }
        proof {
            assert(rest.take(place - start) =~= text@.subrange(start as int, place as int));
            assert(rest.skip(place - start + 1) =~= text@.skip(place + 1));
            assert(views(parts@) + pieces(text@.skip(place + 1), ch) =~= views(before) + pieces(
                rest,
                ch,
            ));
        }
        start = place + 1;
    }
    parts
}

/// A text without a carriage return at its end.
pub open spec fn without_return(text: Seq<char>) -> Seq<char> {
    if text.len() > 0 && text.last() == '\r' {
        text.drop_last()
    } else {
        text
    }
}

/// The lines of a text. A line ends with a newline, or with a carriage return
/// and a newline; the last one may end with the text.
pub open spec fn text_lines(text: Seq<char>) -> Seq<Seq<char>>
    decreases text.len(),
{
    let place = place_of(text, '\n');
    proof {
        lemma_place_bound(text, '\n');
    }
    if text.len() == 0 {
        Seq::empty()
    } else if place == text.len() {
        seq![text]
    } else {
        seq![without_return(text.take(place as int))] + text_lines(text.skip(place as int + 1))
    }
}

pub fn lines(text: &str) -> (lines: Vec<String>)
    ensures
        views(lines@) == text_lines(text@),
{
    let chars: Vec<char> = to_chars(text);
    let mut lines: Vec<String> = Vec::new();
    let mut start: usize = 0;
    assert(text@.skip(0) =~= text@);
    assert(views(lines@) + text_lines(text@) =~= text_lines(text@));
    loop
        invariant_except_break
            start <= chars@.len(),
            views(lines@) + text_lines(text@.skip(start as int)) == text_lines(text@),
        invariant
            chars@ == text@,
        ensures
            views(lines@) == text_lines(text@),
        decreases chars@.len() - start,
    {
        let ghost rest = text@.skip(start as int);
        if start == chars.len() {
            assert(views(lines@) + text_lines(rest) =~= views(lines@));
            break;
        }
        let place: usize = find_char(&chars, start, '\n');
        let ghost before = lines@;
        if place == chars.len() {
            lines.push(from_chars(&chars, start, place));
            proof {
                assert(text@.subrange(start as int, place as int) =~= rest);
                assert(views(lines@) =~= views(before) + text_lines(rest));
            }
            break;
        }
        let end: usize = if place > start && chars[place - 1] == '\r' {
            place - 1
        } else {
            place
        };
        lines.push(from_chars(&chars, start, end));
        proof {
            let whole = rest.take(place - start);
            assert(whole =~= text@.subrange(start as int, place as int));
            assert(without_return(whole) =~= text@.subrange(start as int, end as int));
            assert(rest.skip(place - start + 1) =~= text@.skip(place + 1));
            assert(views(lines@) =~= views(before).push(
                text@.subrange(start as int, end as int),
            ));
            assert(views(lines@) + text_lines(text@.skip(place + 1)) =~= views(before)
                + text_lines(rest));
        }
        start = place + 1;
    }
    lines
}

/// Texts with a separator between them.
pub open spec fn joined_by(parts: Seq<Seq<char>>, separator: Seq<char>) -> Seq<char>
    decreases parts.len(),
{
    if parts.len() == 0 {
        Seq::empty()
    } else if parts.len() == 1 {
        parts[0]
    } else {
        joined_by(parts.drop_last(), separator) + separator + parts.last()
    }
}

/// The texts from `start` on, with a separator between them.
pub fn join_from(parts: &Vec<String>, start: usize, separator: &str) -> (text: String)
    requires
        start <= parts@.len(),
    ensures
        text@ == joined_by(views(parts@).skip(start as int), separator@),
{
    let mut text = String::new();
    let mut index: usize = start;
    let ghost chosen = views(parts@).skip(start as int);
    assert(chosen.take(0) =~= Seq::<Seq<char>>::empty());
    while index < parts.len()
        invariant
            start <= index <= parts@.len(),
            chosen == views(parts@).skip(start as int),
            text@ == joined_by(chosen.take(index - start), separator@),
        decreases parts@.len() - index,
    {
        let ghost next = chosen.take(index - start + 1);
        assert(next.drop_last() =~= chosen.take(index - start));
        assert(next.last() == parts@[index as int]@);
        if index > start {
            text.append(separator);
            text.append(parts[index].as_str());
        } else {
            text = parts[index].clone();
        }
        index = index + 1;
    }
    assert(chosen.take(index - start) =~= chosen);
    text
}

pub fn join(parts: &Vec<String>, separator: &str) -> (text: String)
    ensures
        text@ == joined_by(views(parts@), separator@),
{
    assert(views(parts@).skip(0) =~= views(parts@));
    join_from(parts, 0, separator)
}

/// A text without the white space at its start.
pub open spec fn start_trimmed(text: Seq<char>) -> Seq<char> {
    text.skip(run_length(text, true) as int)
}

/// A text without the white space at its end.
pub open spec fn end_trimmed(text: Seq<char>) -> Seq<char>
    decreases text.len(),
{
    if text.len() > 0 && is_white(text.last()) {
        end_trimmed(text.drop_last())
    } else {
        text
    }
}

/// A text without the white space around it.
pub open spec fn trimmed(text: Seq<char>) -> Seq<char> {
    end_trimmed(start_trimmed(text))
}

fn white_end(chars: &Vec<char>) -> (end: usize)
    ensures
        end <= chars@.len(),
        end == run_length(chars@, true),
{
    let mut end: usize = 0;
    while end < chars.len() && white(chars[end])
        invariant
            end <= chars@.len(),
            forall|i: int| 0 <= i < end ==> is_white(#[trigger] chars@[i]),
        decreases chars@.len() - end,
    {
        end = end + 1;
    }
    proof {
        lemma_run_length(chars@, true, end as nat);
    }
    end
}

pub fn trim_start(text: &str) -> (rest: String)
    ensures
        rest@ == start_trimmed(text@),
{
    let chars: Vec<char> = to_chars(text);
    let start: usize = white_end(&chars);
    assert(chars@.subrange(start as int, chars@.len() as int) =~= start_trimmed(text@));
    from_chars(&chars, start, chars.len())
}

pub fn trim(text: &str) -> (rest: String)
    ensures
        rest@ == trimmed(text@),
{
    let chars: Vec<char> = to_chars(text);
    let start: usize = white_end(&chars);
    let mut end: usize = chars.len();
    assert(chars@.subrange(start as int, end as int) =~= start_trimmed(text@));
    while end > start && white(chars[end - 1])
        invariant
            start <= end <= chars@.len(),
            end_trimmed(chars@.subrange(start as int, end as int)) == trimmed(text@),
        decreases end,
    {
        assert(chars@.subrange(start as int, end as int).drop_last() =~= chars@.subrange(
            start as int,
            end - 1,
        ));
        end = end - 1;
    }
    from_chars(&chars, start, end)
}

/// Whether a text begins with another.
pub open spec fn begins_with(text: Seq<char>, prefix: Seq<char>) -> bool {
    prefix.len() <= text.len() && text.take(prefix.len() as int) == prefix
}

fn matches_at(chars: &Vec<char>, start: usize, pattern: &Vec<char>) -> (yes: bool)
    requires
        start <= chars@.len(),
    ensures
        yes == begins_with(chars@.skip(start as int), pattern@),
{
    let ghost rest = chars@.skip(start as int);
    if pattern.len() > chars.len() - start {
        return false;
    }
    let mut index: usize = 0;
    while index < pattern.len()
        invariant
            index <= pattern@.len() <= chars@.len() - start,
            chars@.len() == chars.len(),
            rest == chars@.skip(start as int),
            forall|i: int| 0 <= i < index ==> #[trigger] pattern@[i] == rest[i],
        decreases pattern@.len() - index,
    {
        if chars[start + index] != pattern[index] {
            assert(rest.take(pattern@.len() as int)[index as int] != pattern@[index as int]);
            return false;
        }
        index = index + 1;
    }
    assert(rest.take(pattern@.len() as int) =~= pattern@);
    true
}

pub fn starts_with(text: &str, prefix: &str) -> (yes: bool)
    ensures
        yes == begins_with(text@, prefix@),
{
    let chars: Vec<char> = to_chars(text);
    assert(chars@.skip(0) =~= chars@);
    matches_at(&chars, 0, &to_chars(prefix))
}

/// What stands behind the first occurrence of a pattern, if there is one.
pub open spec fn behind(text: Seq<char>, pattern: Seq<char>) -> Option<Seq<char>>
    decreases text.len(),
{
    if begins_with(text, pattern) {
        Some(text.skip(pattern.len() as int))
    } else if text.len() == 0 {
        None
    } else {
        behind(text.drop_first(), pattern)
    }
}

pub fn split_behind(text: &str, pattern: &str) -> (rest: Option<String>)
    ensures
        match rest {
            Some(rest) => behind(text@, pattern@) == Some(rest@),
            None => behind(text@, pattern@) is None,
        },
{
    let chars: Vec<char> = to_chars(text);
    let wanted: Vec<char> = to_chars(pattern);
    let mut start: usize = 0;
    assert(text@.skip(0) =~= text@);
    loop
        invariant
            chars@ == text@,
            wanted@ == pattern@,
            start <= chars@.len(),
            behind(text@.skip(start as int), pattern@) == behind(text@, pattern@),
        decreases chars@.len() - start,
    {
        let ghost here = text@.skip(start as int);
        if matches_at(&chars, start, &wanted) {
            assert(chars@.len() == chars.len());
            let from: usize = start + wanted.len();
            assert(here.skip(pattern@.len() as int) =~= chars@.subrange(
                from as int,
                chars@.len() as int,
            ));
            return Some(from_chars(&chars, from, chars.len()));
        }
        if start == chars.len() {
            return None;
        }
        assert(here.drop_first() =~= text@.skip(start + 1));
        start = start + 1;
    }
}

/// The value of a decimal digit.
pub open spec fn digit_value(ch: char) -> Option<nat> {
    if '0' <= ch && ch <= '9' {
        Some((ch as u32 - '0' as u32) as nat)
    } else {
        None
    }
}

/// All characters are decimal digits.
pub open spec fn all_digits(text: Seq<char>) -> bool {
    forall|i: int| 0 <= i < text.len() ==> digit_value(#[trigger] text[i]) is Some
}

/// The number that decimal digits spell.
pub open spec fn digits_value(text: Seq<char>) -> nat
    decreases text.len(),
{
    if text.len() == 0 {
        0
    } else {
        10 * digits_value(text.drop_last()) + match digit_value(text.last()) {
            Some(value) => value,
            None => 0,
        }
    }
}

/// A text without one plus sign at its start.
pub open spec fn without_plus(text: Seq<char>) -> Seq<char> {
    if text.len() > 0 && text[0] == '+' {
        text.drop_first()
    } else {
        text
    }
}

/// The unsigned number that a text spells: digits behind a plus sign or not,
/// and no greater than the limit.
pub open spec fn unsigned_value(text: Seq<char>, limit: nat) -> Option<nat> {
    let digits = without_plus(text);
    if digits.len() > 0 && all_digits(digits) && digits_value(digits) <= limit {
        Some(digits_value(digits))
    } else {
        None
    }
}

fn digit_of(ch: char) -> (value: Option<u64>)
    ensures
        match value {
            Some(value) => digit_value(ch) == Some(value as nat),
            None => digit_value(ch) is None,
        },
        value is Some ==> value->0 < 10,
{
    if '0' <= ch && ch <= '9' {
        Some((ch as u32 - '0' as u32) as u64)
    } else {
        None
    }
}

proof fn lemma_digits_grow(text: Seq<char>, prefix: nat)
    requires
        prefix <= text.len(),
    ensures
        digits_value(text.take(prefix as int)) <= digits_value(text),
    decreases text.len(),
{
    if prefix == text.len() {
        assert(text.take(prefix as int) =~= text);
    } else {
        lemma_digits_grow(text.drop_last(), prefix);
        assert(text.drop_last().take(prefix as int) =~= text.take(prefix as int));
    }
}

pub fn parse_u64(text: &str) -> (value: Option<u64>)
    ensures
        match value {
            Some(value) => unsigned_value(text@, u64::MAX as nat) == Some(value as nat),
            None => unsigned_value(text@, u64::MAX as nat) is None,
        },
{
    let chars: Vec<char> = to_chars(text);
    let start: usize = if chars.len() > 0 && chars[0] == '+' {
        1
    } else {
        0
    };
    let ghost digits = without_plus(text@);
    assert(digits =~= chars@.skip(start as int));
    if start == chars.len() {
        return None;
    }
    let mut value: u64 = 0;
    let mut index: usize = start;
    assert(digits.take(0) =~= Seq::<char>::empty());
    while index < chars.len()
        invariant
            start <= index <= chars@.len(),
            start < chars@.len(),
            digits == chars@.skip(start as int),
            digits == without_plus(text@),
            value == digits_value(digits.take(index - start)),
            forall|i: int| 0 <= i < index - start ==> digit_value(#[trigger] digits[i]) is Some,
        decreases chars@.len() - index,
    {
        let ghost next = digits.take(index - start + 1);
        assert(next.drop_last() =~= digits.take(index - start));
        assert(next.last() == digits[index - start]);
        let digit: u64 = match digit_of(chars[index]) {
            Some(digit) => digit,
            None => {
                assert(digit_value(digits[index - start]) is None);
                return None;
            },
        };
        if value > (u64::MAX - digit) / 10 {
            proof {
                lemma_digits_grow(digits, (index - start + 1) as nat);
            }
            return None;
        }
        value = 10 * value + digit;
        index = index + 1;
    }
    assert(digits.take(index - start) =~= digits);
    Some(value)
}

pub fn parse_usize(text: &str) -> (value: Option<usize>)
    ensures
        match value {
            Some(value) => unsigned_value(text@, usize::MAX as nat) == Some(value as nat),
            None => unsigned_value(text@, usize::MAX as nat) is None,
        },
{
    match parse_u64(text) {
        Some(value) => if value <= usize::MAX as u64 {
            Some(value as usize)
        } else {
            None
        },
        None => None,
    }
}

/// A number that was written in decimal is read back.
pub proof fn decimal_reads_back(value: nat, limit: nat)
    requires
        value <= limit,
    ensures
        unsigned_value(decimal(value), limit) == Some(value),
{
    lemma_decimal_digits(value);
}

proof fn lemma_decimal_digits(value: nat)
    ensures
        decimal(value).len() > 0,
        all_digits(decimal(value)),
        digits_value(decimal(value)) == value,
        decimal(value)[0] != '+',
    decreases value,
{
    if value < 10 {
        assert(decimal(value).drop_last() =~= Seq::<char>::empty());
        assert(digits_value(Seq::<char>::empty()) == 0);
    } else {
        let before = decimal(value / 10);
        lemma_decimal_digits(value / 10);
        assert(decimal(value).drop_last() =~= before);
        assert forall|i: int| 0 <= i < decimal(value).len() implies digit_value(
            #[trigger] decimal(value)[i],
        ) is Some by {
            if i < before.len() {
                assert(decimal(value)[i] == before[i]);
            }
        }
    }
}

/// The parts that a text is split into make it up again.
pub proof fn pieces_join_again(text: Seq<char>, ch: char)
    ensures
        joined_by(pieces(text, ch), seq![ch]) == text,
    decreases text.len(),
{
    let place = place_of(text, ch) as int;
    lemma_place_bound(text, ch);
    if place < text.len() {
        let rest = text.skip(place + 1);
        pieces_join_again(rest, ch);
        lemma_pieces_some(rest, ch);
        lemma_join_front(text.take(place), pieces(rest, ch), seq![ch]);
        assert(text.take(place) + seq![ch] + rest =~= text);
    }
}

proof fn lemma_pieces_some(text: Seq<char>, ch: char)
    ensures
        pieces(text, ch).len() > 0,
    decreases text.len(),
{
}

proof fn lemma_join_front(first: Seq<char>, parts: Seq<Seq<char>>, separator: Seq<char>)
    requires
        parts.len() > 0,
    ensures
        joined_by(seq![first] + parts, separator) == first + separator + joined_by(
            parts,
            separator,
        ),
    decreases parts.len(),
{
    let all = seq![first] + parts;
    if parts.len() == 1 {
        assert(all.drop_last() =~= seq![first]);
        assert(joined_by(seq![first], separator) == first);
    } else {
        lemma_join_front(first, parts.drop_last(), separator);
        assert(all.drop_last() =~= seq![first] + parts.drop_last());
        assert(joined_by(all, separator) =~= first + separator + joined_by(parts, separator));
    }
}

/// What is trimmed has no white space left to trim.
pub proof fn trimming_is_final(text: Seq<char>)
    ensures
        trimmed(trimmed(text)) == trimmed(text),
{
    let from_start = start_trimmed(text);
    lemma_run_stops(text, true);
    lemma_end_trimmed(from_start);
    let rest = trimmed(text);
    if rest.len() > 0 {
        assert(rest[0] == from_start[0]);
    }
    lemma_run_length(rest, true, 0);
    assert(start_trimmed(rest) =~= rest);
}

pub proof fn lemma_end_trimmed(text: Seq<char>)
    ensures
        end_trimmed(text).len() <= text.len(),
        end_trimmed(text) == text.take(end_trimmed(text).len() as int),
        end_trimmed(text).len() > 0 ==> !is_white(end_trimmed(text).last()),
        end_trimmed(end_trimmed(text)) == end_trimmed(text),
    decreases text.len(),
{
    if text.len() > 0 && is_white(text.last()) {
        lemma_end_trimmed(text.drop_last());
        assert(text.drop_last().take(end_trimmed(text).len() as int) =~= text.take(
            end_trimmed(text).len() as int,
        ));
    } else {
        assert(text.take(text.len() as int) =~= text);
    }
}


} // verus!
