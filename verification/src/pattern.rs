//! Which regular expressions a tokenizer may split and replace by: a plain part
//! of the language, in which a match begins where the search stands or behind.

use crate::text::to_chars;
use vstd::prelude::*;

verus! {

/// What may stand behind a backslash: a class of characters, a line break, a
/// tabulator, or a sign that is taken as it is.
pub open spec fn is_plain_escape(ch: char) -> bool {
    match ch {
        'r' | 'n' | 't' | 's' | 'S' | 'd' | 'D' | 'w' | 'W' | 'p' | 'P' => true,
        '.' | '+' | '*' | '?' | '(' | ')' | '[' | ']' | '{' | '}' | '|' | '^' | '$' => true,
        '/' | '-' | '\'' | '"' | '!' | '#' | '&' | '~' | ',' | ':' | ';' | '=' | '@' => true,
        '%' | '_' | ' ' | '\\' => true,
        _ => false,
    }
}

fn plain_escape(ch: char) -> (yes: bool)
    ensures
        yes == is_plain_escape(ch),
{
    match ch {
        'r' | 'n' | 't' | 's' | 'S' | 'd' | 'D' | 'w' | 'W' | 'p' | 'P' => true,
        '.' | '+' | '*' | '?' | '(' | ')' | '[' | ']' | '{' | '}' | '|' | '^' | '$' => true,
        '/' | '-' | '\'' | '"' | '!' | '#' | '&' | '~' | ',' | ':' | ';' | '=' | '@' => true,
        '%' | '_' | ' ' | '\\' => true,
        _ => false,
    }
}

pub open spec fn is_digit(ch: char) -> bool {
    '0' <= ch <= '9'
}

/// The character at a place, if there is one.
pub open spec fn char_at(pattern: Seq<char>, at: int) -> Option<char> {
    if 0 <= at < pattern.len() {
        Some(pattern[at])
    } else {
        None
    }
}

fn look(pattern: &Vec<char>, at: usize) -> (found: Option<char>)
    ensures
        found == char_at(pattern@, at as int),
{
    if at < pattern.len() {
        Some(pattern[at])
    } else {
        None
    }
}

/// A brace that begins a count.
pub open spec fn begins_count(pattern: Seq<char>, at: int) -> bool {
    char_at(pattern, at) == Some('{') && char_at(pattern, at + 1) is Some && is_digit(
        char_at(pattern, at + 1)->0,
    )
}

/// A place of a plain expression. A backslash is followed by what may follow
/// it. A group is a plain one, one without regard to case, or one that must
/// not follow. A count begins with one digit.
pub open spec fn is_plain_at(pattern: Seq<char>, at: int) -> bool {
    let second = char_at(pattern, at + 1);
    let third = char_at(pattern, at + 2);
    match pattern[at] {
        '\\' => second is Some && is_plain_escape(second->0),
        '(' => second == Some('?') ==> {
            ||| third == Some(':')
            ||| third == Some('!')
            ||| third == Some('i') && char_at(pattern, at + 3) == Some(':')
        },
        '{' => begins_count(pattern, at) ==> third == Some(',') || third == Some('}'),
        _ => true,
    }
}

fn plain_at(pattern: &Vec<char>, at: usize) -> (yes: bool)
    requires
        at < pattern@.len(),
    ensures
        yes == is_plain_at(pattern@, at as int),
{
    let rest: usize = pattern.len() - at;
    let second: Option<char> = if rest > 1 {
        look(pattern, at + 1)
    } else {
        None
    };
    let third: Option<char> = if rest > 2 {
        look(pattern, at + 2)
    } else {
        None
    };
    let fourth: Option<char> = if rest > 3 {
        look(pattern, at + 3)
    } else {
        None
    };
    match pattern[at] {
        '\\' => match second {
            Some(ch) => plain_escape(ch),
            None => false,
        },
        '(' => match (second, third) {
            (Some('?'), Some(':')) => true,
            (Some('?'), Some('!')) => true,
            (Some('?'), Some('i')) => match fourth {
                Some(':') => true,
                _ => false,
            },
            (Some('?'), _) => false,
            _ => true,
        },
        '{' => match second {
            Some(ch) => if '0' <= ch && ch <= '9' {
                match third {
                    Some(',') => true,
                    Some('}') => true,
                    _ => false,
                }
            } else {
                true
            },
            None => true,
        },
        _ => true,
    }
}

/// How many counts begin before a place.
pub open spec fn counts_before(pattern: Seq<char>, at: nat) -> nat
    decreases at,
{
    if at == 0 {
        0
    } else {
        counts_before(pattern, (at - 1) as nat) + if begins_count(pattern, at - 1) {
            1nat
        } else {
            0
        }
    }
}

/// A plain expression with few counts.
pub open spec fn is_plain(pattern: Seq<char>) -> bool {
    &&& forall|at: int| 0 <= at < pattern.len() ==> #[trigger] is_plain_at(pattern, at)
    &&& counts_before(pattern, pattern.len()) <= 8
}

/// Whether an expression is a plain one.
pub fn plain_pattern(pattern: &str) -> (yes: bool)
    ensures
        yes == is_plain(pattern@),
{
    let chars: Vec<char> = to_chars(pattern);
    let mut counts: usize = 0;
    let mut at: usize = 0;
    while at < chars.len()
        invariant
            chars@ == pattern@,
            chars@.len() == chars.len(),
            at <= chars@.len(),
            counts == counts_before(pattern@, at as nat) <= at,
            forall|i: int| 0 <= i < at ==> #[trigger] is_plain_at(pattern@, i),
        decreases chars@.len() - at,
    {
        if !plain_at(&chars, at) {
            return false;
        }
        if chars[at] == '{' && chars.len() - at > 1 {
            let next: char = chars[at + 1];
            if '0' <= next && next <= '9' {
                counts = counts + 1;
            }
        }
        at = at + 1;
    }
    counts <= 8
}

/// A place of an expression each of whose parts takes a character: no choice,
/// no group, no place that is not one of a character, no count from zero.
pub open spec fn takes_at(pattern: Seq<char>, at: int) -> bool {
    match pattern[at] {
        '?' | '*' | '|' | '(' | ')' | '$' => false,
        '^' => char_at(pattern, at - 1) == Some('['),
        '{' => char_at(pattern, at + 1) is Some && char_at(pattern, at + 1)->0 != ','
            && char_at(pattern, at + 1)->0 != '0',
        _ => true,
    }
}

/// An expression that matches no empty text.
pub open spec fn takes_something(pattern: Seq<char>) -> bool {
    &&& pattern.len() > 0
    &&& forall|at: int| 0 <= at < pattern.len() ==> #[trigger] takes_at(pattern, at)
}

/// Whether an expression matches no empty text.
pub fn taking_pattern(pattern: &str) -> (yes: bool)
    ensures
        yes == takes_something(pattern@),
{
    let chars: Vec<char> = to_chars(pattern);
    let mut at: usize = 0;
    while at < chars.len()
        invariant
            chars@ == pattern@,
            chars@.len() == chars.len(),
            at <= chars@.len(),
            forall|i: int| 0 <= i < at ==> #[trigger] takes_at(pattern@, i),
        decreases chars@.len() - at,
    {
        let takes: bool = match chars[at] {
            '?' | '*' | '|' | '(' | ')' | '$' => false,
            '^' => at > 0 && chars[at - 1] == '[',
            '{' => chars.len() - at > 1 && chars[at + 1] != ',' && chars[at + 1] != '0',
            _ => true,
        };
        if !takes {
            assert(!takes_at(pattern@, at as int));
            return false;
        }
        at = at + 1;
    }
    chars.len() > 0
}

/// A plain expression neither looks behind nor ahead for what it takes, moves no
/// beginning of a match, refers to no group, and sets no flag but that of the
/// case: behind a backslash stands no `K`, `G`, `A`, `Z`, `b`, `B`, `k`, `g` or
/// digit, and behind an opened group and a question mark one of three signs.
pub proof fn plain_patterns_stay_plain(pattern: Seq<char>, at: int)
    requires
        is_plain(pattern),
        0 <= at < pattern.len(),
    ensures
        pattern[at] == '\\' ==> {
            let next = pattern[at + 1];
            &&& at + 1 < pattern.len()
            &&& next != 'K' && next != 'G' && next != 'A' && next != 'Z' && next != 'z'
            &&& next != 'b' && next != 'B' && next != 'k' && next != 'g' && next != 'h'
            &&& !('0' <= next <= '9')
        },
        pattern[at] == '(' && at + 1 < pattern.len() && pattern[at + 1] == '?' ==> at + 2
            < pattern.len() && (pattern[at + 2] == ':' || pattern[at + 2] == '!' || pattern[at + 2]
            == 'i'),
{
    assert(is_plain_at(pattern, at));
}

} // verus!
