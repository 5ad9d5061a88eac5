//! The arguments of the program: the term file and the position to start at.

use crate::error::ProgramError;
use crate::text::chars_of;
use vstd::prelude::*;

verus! {

/// Whether `c` is one of the digits `0` to `9`.
pub open spec fn is_digit(c: char) -> bool {
    0x30 <= c as u32 <= 0x39
}

/// The value of the digit `c`.
pub open spec fn digit_value(c: char) -> nat {
    if is_digit(c) {
        (c as u32 - 0x30) as nat
    } else {
        0
    }
}

/// The number that `digits` write in base ten.
pub open spec fn decimal(digits: Seq<char>) -> nat
    decreases digits.len(),
{
    if digits.len() == 0 {
        0
    } else {
        decimal(digits.drop_last()) * 10 + digit_value(digits.last())
    }
}

/// `text` without the plus sign that may stand before a number.
pub open spec fn unsigned(text: Seq<char>) -> Seq<char> {
    if text.len() > 0 && text[0] == '+' {
        text.skip(1)
    } else {
        text
    }
}

/// The number that `text` writes: one digit or more, after a plus sign or
/// without one, with nothing before, between or behind, and with a value
/// that a `usize` holds. `None` for every other text.
pub open spec fn number_written(text: Seq<char>) -> Option<usize> {
    let digits = unsigned(text);
    if digits.len() > 0 && (forall|i: int| 0 <= i < digits.len() ==> is_digit(digits[i]))
        && decimal(digits) <= usize::MAX {
        Some(decimal(digits) as usize)
    } else {
        None
    }
}

/// A number is at least the number that its first digits write.
pub proof fn lemma_decimal_grows(digits: Seq<char>, length: int)
    requires
        0 <= length <= digits.len(),
    ensures
        decimal(digits.take(length)) <= decimal(digits),
    decreases digits.len(),
{
    if length == digits.len() {
        assert(digits.take(length) == digits);
    } else {
        lemma_decimal_grows(digits.drop_last(), length);
        assert(digits.drop_last().take(length) == digits.take(length));
    }
}

/// Reads the number that `text` writes.
pub fn parse_number(text: &str) -> (number: Option<usize>)
    ensures
        number == number_written(text@),
{
    let chars = chars_of(text);
    let first: usize = if chars.len() > 0 && chars[0] == '+' {
        1
    } else {
        0
    };
    let ghost digits = unsigned(text@);
    assert(digits == chars@.skip(first as int));
    if first == chars.len() {
        return None;
    }
    let mut value: usize = 0;
    let mut at: usize = first;
    assert(digits.take(0) == Seq::<char>::empty());
    while at < chars.len()
        invariant
            first <= at <= chars.len(),
            digits == unsigned(text@),
            digits == chars@.skip(first as int),
            forall|i: int| 0 <= i < at - first ==> is_digit(digits[i]),
            value == decimal(digits.take(at - first)),
        decreases chars.len() - at,
    {
        let code: u32 = chars[at] as u32;
        if code < 0x30 || code > 0x39 {
            assert(!is_digit(digits[at - first]));
            return None;
        }
        let digit: usize = (code - 0x30) as usize;
        proof {
            assert(digits.take(at + 1 - first).drop_last() == digits.take(at - first));
            assert(digits.take(at + 1 - first).last() == chars[at as int]);
            lemma_decimal_grows(digits, at + 1 - first);
        }
        let scaled = match value.checked_mul(10) {
            Some(scaled) => scaled,
            None => {
                return None;
            },
        };
        value = match scaled.checked_add(digit) {
            Some(sum) => sum,
            None => {
                return None;
            },
        };
        at += 1;
    }
    assert(digits.take(at - first) == digits);
    Some(value)
}

/// What the program is told to do.
#[derive(Debug, PartialEq, Eq)]
pub struct Arguments {
    /// The path of the term file.
    pub file: String,
    /// The position of the first term to look up, counted from 1.
    pub start_index: usize,
}

/// The arguments, as the contracts speak of them.
pub struct ArgumentsView {
    pub file: Seq<char>,
    pub start_index: nat,
}

impl View for Arguments {
    type V = ArgumentsView;

    open spec fn view(&self) -> ArgumentsView {
        ArgumentsView { file: self.file@, start_index: self.start_index as nat }
    }
}

/// The words, each by its view.
pub open spec fn word_views(words: Seq<String>) -> Seq<Seq<char>> {
    words.map_values(|word: String| word@)
}

/// The position that the words of the command line ask for: the number that
/// the third word writes, and 1 where there is no third word or it writes no
/// number.
pub open spec fn start_asked(words: Seq<Seq<char>>) -> usize {
    if words.len() > 2 {
        match number_written(words[2]) {
            Some(number) => number,
            None => 1,
        }
    } else {
        1
    }
}

/// What the words of the command line ask for. The first word is the
/// program's name, the second the term file, the third the start position.
/// Without a term file, or with a start position below 1, they are refused.
pub open spec fn arguments_of(words: Seq<Seq<char>>) -> Result<ArgumentsView, ProgramError> {
    if words.len() < 2 || start_asked(words) < 1 {
        Err(ProgramError::Arg)
    } else {
        Ok(ArgumentsView { file: words[1], start_index: start_asked(words) as nat })
    }
}

/// Reads the words of the command line.
pub fn read_arguments(words: &Vec<String>) -> (read: Result<Arguments, ProgramError>)
    ensures
        match read {
            Ok(arguments) => arguments_of(word_views(words@)) == Ok::<
                ArgumentsView,
                ProgramError,
            >(arguments@),
            Err(error) => arguments_of(word_views(words@)) == Err::<ArgumentsView, ProgramError>(
                error,
            ),
        },
        read matches Ok(arguments) ==> arguments.start_index >= 1,
{
    if words.len() < 2 {
        return Err(ProgramError::Arg);
    }
    let start_index: usize = if words.len() > 2 {
        match parse_number(words[2].as_str()) {
            Some(number) => number,
            None => 1,
        }
    } else {
        1
    };
    if start_index < 1 {
        return Err(ProgramError::Arg);
    }
    Ok(Arguments { file: words[1].clone(), start_index })
}

} // verus!
