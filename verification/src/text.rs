//! Texts: their comparison, joining and decimal numbers.

use vstd::prelude::*;
use vstd::string::StringExecFns;

verus! {

/// `String::push` appends the one character it is given.
pub assume_specification[ String::push ](text: &mut String, ch: char)
    ensures
        final(text)@ == old(text)@.push(ch),
;

/// Whether two texts hold the same characters.
pub fn same_text(left: &str, right: &str) -> (same: bool)
    ensures
        same == (left@ == right@),
{
    left.to_owned() == right.to_owned()
}

pub fn cat2(a: &str, b: &str) -> (text: String)
    ensures
        text@ == a@ + b@,
{
    let mut text = a.to_owned();
    text.append(b);
    text
}

pub fn cat3(a: &str, b: &str, c: &str) -> (text: String)
    ensures
        text@ == a@ + b@ + c@,
{
    let mut text = cat2(a, b);
    text.append(c);
    text
}

pub fn cat4(a: &str, b: &str, c: &str, d: &str) -> (text: String)
    ensures
        text@ == a@ + b@ + c@ + d@,
{
    let mut text = cat3(a, b, c);
    text.append(d);
    text
}

pub fn cat5(a: &str, b: &str, c: &str, d: &str, e: &str) -> (text: String)
    ensures
        text@ == a@ + b@ + c@ + d@ + e@,
{
    let mut text = cat4(a, b, c, d);
    text.append(e);
    text
}

pub fn cat6(a: &str, b: &str, c: &str, d: &str, e: &str, f: &str) -> (text: String)
    ensures
        text@ == a@ + b@ + c@ + d@ + e@ + f@,
{
    let mut text = cat5(a, b, c, d, e);
    text.append(f);
    text
}

/// The character of one decimal digit.
pub open spec fn digit(value: nat) -> char {
    if value == 0 {
        '0'
    } else if value == 1 {
        '1'
    } else if value == 2 {
        '2'
    } else if value == 3 {
        '3'
    } else if value == 4 {
        '4'
    } else if value == 5 {
        '5'
    } else if value == 6 {
        '6'
    } else if value == 7 {
        '7'
    } else if value == 8 {
        '8'
    } else {
        '9'
    }
}

/// A natural number in decimal, without leading zeros.
pub open spec fn decimal(value: nat) -> Seq<char>
    decreases value,
{
    if value < 10 {
        seq![digit(value)]
    } else {
        decimal(value / 10).push(digit(value % 10))
    }
}

/// An integer in decimal, with a sign where it is negative.
pub open spec fn signed_decimal(value: int) -> Seq<char> {
    if value < 0 {
        "-"@ + decimal((-value) as nat)
    } else {
        decimal(value as nat)
    }
}

fn digit_char(value: u64) -> (ch: char)
    requires
        value < 10,
    ensures
        ch == digit(value as nat),
{
    if value == 0 {
        '0'
    } else if value == 1 {
        '1'
    } else if value == 2 {
        '2'
    } else if value == 3 {
        '3'
    } else if value == 4 {
        '4'
    } else if value == 5 {
        '5'
    } else if value == 6 {
        '6'
    } else if value == 7 {
        '7'
    } else if value == 8 {
        '8'
    } else {
        '9'
    }
}

pub fn decimal_u64(value: u64) -> (text: String)
    ensures
        text@ == decimal(value as nat),
    decreases value,
{
    if value < 10 {
        let mut text = String::new();
        text.push(digit_char(value));
        assert(text@ =~= decimal(value as nat));
        text
    } else {
        let mut text = decimal_u64(value / 10);
        text.push(digit_char(value % 10));
        text
    }
}

pub fn decimal_usize(value: usize) -> (text: String)
    ensures
        text@ == decimal(value as nat),
{
    decimal_u64(value as u64)
}

pub fn decimal_i32(value: i32) -> (text: String)
    ensures
        text@ == signed_decimal(value as int),
{
    if value < 0 {
        let magnitude: u64 = (-(value as i64)) as u64;
        cat2("-", decimal_u64(magnitude).as_str())
    } else {
        decimal_u64(value as u64)
    }
}

/// What a sequence of values stands for, value by value.
pub open spec fn views<T: View>(items: Seq<T>) -> Seq<T::V> {
    Seq::new(items.len(), |i: int| items[i]@)
}

/// The characters of a text.
pub fn to_chars(text: &str) -> (chars: Vec<char>)
    ensures
        chars@ == text@,
{
    let mut chars: Vec<char> = Vec::new();
    for ch in iter: text.chars()
        invariant
            chars@ == iter.seq().take(iter.index() as int),
            iter.seq() == text@,
    {
        chars.push(ch);
        assert(chars@ =~= text@.take(iter.index() as int + 1));
    }
    assert(text@.take(text@.len() as int) =~= text@);
    chars
}

/// The text made of the characters from `start` up to `end`.
pub fn from_chars(chars: &Vec<char>, start: usize, end: usize) -> (text: String)
    requires
        start <= end <= chars@.len(),
    ensures
        text@ == chars@.subrange(start as int, end as int),
{
    let mut text = String::new();
    let mut index: usize = start;
    while index < end
        invariant
            start <= index <= end <= chars@.len(),
            text@ == chars@.subrange(start as int, index as int),
        decreases end - index,
    {
        text.push(chars[index]);
        index = index + 1;
        assert(text@ =~= chars@.subrange(start as int, index as int));
    }
    text
}

/// The characters with the Unicode property `White_Space`.
pub open spec fn is_white(ch: char) -> bool {
    let code = ch as u32;
    ||| 0x9 <= code <= 0xD
    ||| code == 0x20
    ||| code == 0x85
    ||| code == 0xA0
    ||| code == 0x1680
    ||| 0x2000 <= code <= 0x200A
    ||| code == 0x2028
    ||| code == 0x2029
    ||| code == 0x202F
    ||| code == 0x205F
    ||| code == 0x3000
}

pub fn white(ch: char) -> (yes: bool)
    ensures
        yes == is_white(ch),
{
    let code: u32 = ch as u32;
    (0x9 <= code && code <= 0xD) || code == 0x20 || code == 0x85 || code == 0xA0 || code == 0x1680
        || (0x2000 <= code && code <= 0x200A) || code == 0x2028 || code == 0x2029 || code == 0x202F
        || code == 0x205F || code == 0x3000
}

/// The number of leading characters that are white (`of` true) or that are
/// not (`of` false).
pub open spec fn run_length(text: Seq<char>, of: bool) -> nat
    decreases text.len(),
{
    if text.len() == 0 || is_white(text[0]) != of {
        0
    } else {
        1 + run_length(text.drop_first(), of)
    }
}

pub proof fn lemma_run_length(text: Seq<char>, of: bool, length: nat)
    requires
        length <= text.len(),
        forall|i: int| 0 <= i < length ==> is_white(#[trigger] text[i]) == of,
        length < text.len() ==> is_white(text[length as int]) != of,
    ensures
        run_length(text, of) == length,
    decreases text.len(),
{
    if length > 0 {
        let rest = text.drop_first();
        assert forall|i: int| 0 <= i < length - 1 implies is_white(#[trigger] rest[i]) == of by {
            assert(rest[i] == text[i + 1]);
        }
        lemma_run_length(rest, of, (length - 1) as nat);
    }
}

pub proof fn lemma_run_stops(text: Seq<char>, of: bool)
    ensures
        run_length(text, of) <= text.len(),
        run_length(text, of) < text.len() ==> is_white(text[run_length(text, of) as int]) != of,
    decreases text.len(),
{
    if text.len() > 0 {
        lemma_run_stops(text.drop_first(), of);
    }
}

/// The words of a text: its maximal runs of characters that are not white.
pub open spec fn words(text: Seq<char>) -> Seq<Seq<char>>
    decreases text.len(),
{
    let rest = text.skip(run_length(text, true) as int);
    proof {
        lemma_run_stops(text, true);
        lemma_run_stops(rest, false);
    }
    if run_length(text, true) == text.len() {
        Seq::empty()
    } else {
        seq![rest.take(run_length(rest, false) as int)] + words(
            rest.skip(run_length(rest, false) as int),
        )
    }
}

/// The end of the run of characters that begins at `start`.
fn run_end(chars: &Vec<char>, start: usize, of: bool) -> (end: usize)
    requires
        start <= chars@.len(),
    ensures
        start <= end <= chars@.len(),
        end - start == run_length(chars@.skip(start as int), of),
        end < chars@.len() ==> is_white(chars@[end as int]) != of,
{
    let mut end: usize = start;
    while end < chars.len() && white(chars[end]) == of
        invariant
            start <= end <= chars@.len(),
            forall|i: int| start <= i < end ==> is_white(#[trigger] chars@[i]) == of,
        decreases chars@.len() - end,
    {
        end = end + 1;
    }
    proof {
        let rest = chars@.skip(start as int);
        assert forall|i: int| 0 <= i < end - start implies is_white(#[trigger] rest[i]) == of by {
            assert(rest[i] == chars@[start + i]);
        }
        lemma_run_length(rest, of, (end - start) as nat);
    }
    end
}

pub fn split_whitespace(text: &str) -> (parts: Vec<String>)
    ensures
        views(parts@) == words(text@),
{
    let chars: Vec<char> = to_chars(text);
    let mut parts: Vec<String> = Vec::new();
    let mut index: usize = 0;
    assert(text@.skip(0) =~= text@);
    assert(views(parts@) + words(text@) =~= words(text@));
    loop
        invariant
            chars@ == text@,
            index <= chars@.len(),
            views(parts@) + words(text@.skip(index as int)) == words(text@),
        ensures
            views(parts@) == words(text@),
        decreases chars@.len() - index,
    {
        let ghost here = text@.skip(index as int);
        let start: usize = run_end(&chars, index, true);
        let ghost rest = text@.skip(start as int);
        assert(here.skip(run_length(here, true) as int) =~= rest);
        if start == chars.len() {
            assert(words(here) =~= Seq::empty());
            assert(views(parts@) + words(here) =~= views(parts@));
            break;
        }
        let end: usize = run_end(&chars, start, false);
        assert(rest[0] == text@[start as int]);
        assert(run_length(rest, false) >= 1);
        let ghost before = parts@;
        parts.push(from_chars(&chars, start, end));
        proof {
            let word = rest.take(run_length(rest, false) as int);
            assert(word =~= text@.subrange(start as int, end as int));
            assert(rest.skip(run_length(rest, false) as int) =~= text@.skip(end as int));
            assert(words(here) == seq![word] + words(text@.skip(end as int)));
            assert(views(parts@) =~= views(before).push(word));
            assert(views(parts@) + words(text@.skip(end as int)) =~= views(before) + words(here));
        }
        index = end;
    }
    parts
}

} // verus!
