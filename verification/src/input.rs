//! Reading what the players answer when a round is over.
//!
//! After every round each player is asked two things: whether the phase was
//! completed, and the score. The answers come as text, one line each
//! without its line end.

use vstd::prelude::*;

use crate::decimal::{
    decimal, digit_of, digit_value, digits_value, is_digits, lemma_decimal_reads_back,
    lemma_digits_value_grows,
};

verus! {

/// Why an answer was not accepted.
#[derive(Debug, PartialEq, Eq)]
pub enum InputError {
    /// The answer to a yes-or-no question was neither "y" nor "n".
    NotYesOrNo,
    /// The answer was to be a number and is not one that can be used; the
    /// answer is kept as it was given.
    NotANumber(String),
}

impl InputError {
    /// What the player is told.
    pub open spec fn message_text(self) -> Seq<char> {
        match self {
            InputError::NotYesOrNo => "Only accepts 'y' or 'n'"@,
            InputError::NotANumber(given) => "'"@ + given@ + "' is not a number"@,
        }
    }

    /// What the player is told.
    pub fn message(&self) -> (text: String)
        ensures
            text@ == self.message_text(),
    {
        match self {
            InputError::NotYesOrNo => "Only accepts 'y' or 'n'".to_owned(),
            InputError::NotANumber(given) => {
                let mut text: String = "'".to_owned();
                text.append(given.as_str());
                text.append("' is not a number");
                text
            },
        }
    }
}

/// The digits of a number: the text itself, without the plus sign that may
/// stand in front.
pub open spec fn number_digits(text: Seq<char>) -> Seq<char> {
    if text.len() > 0 && text[0] == '+' {
        text.drop_first()
    } else {
        text
    }
}

/// The score that `text` gives: `text` is one or more digits, with or
/// without a plus sign in front, and the number fits the score's type.
pub open spec fn score_in(text: Seq<char>) -> Option<usize> {
    let digits = number_digits(text);
    if digits.len() > 0 && is_digits(digits) && digits_value(digits) <= usize::MAX {
        Some(digits_value(digits) as usize)
    } else {
        None
    }
}

/// Whether the answer says that the phase was completed: "y" for yes, "n"
/// for no, and nothing else.
pub fn parse_phased_up(text: &str) -> (parsed: Result<bool, InputError>)
    ensures
        match parsed {
            Ok(phased_up) => text@ == if phased_up {
                seq!['y']
            } else {
                seq!['n']
            },
            Err(e) => text@ != seq!['y'] && text@ != seq!['n'] && e == InputError::NotYesOrNo,
        },
{
    if text.unicode_len() == 1 {
        let c: char = text.get_char(0);
        if c == 'y' {
            assert(text@ =~= seq!['y']);
            return Ok(true);
        }
        if c == 'n' {
            assert(text@ =~= seq!['n']);
            return Ok(false);
        }
        assert(seq!['y'][0] == 'y' && seq!['n'][0] == 'n');
    } else {
        assert(seq!['y'].len() == 1 && seq!['n'].len() == 1);
    }
    Err(InputError::NotYesOrNo)
}

/// The score that the answer gives. The answer has to be a number in
/// decimal that fits the score's type: digits only, but for a plus sign
/// that may stand in front.
pub fn parse_score(text: &str) -> (parsed: Result<usize, InputError>)
    ensures
        match parsed {
            Ok(score) => score_in(text@) == Some(score),
            Err(e) => {
                &&& score_in(text@) is None
                &&& e matches InputError::NotANumber(given)
                &&& given@ == text@
            },
        },
{
    let len: usize = text.unicode_len();
    let start: usize = if len > 0 && text.get_char(0) == '+' {
        1
    } else {
        0
    };
    let ghost digits = number_digits(text@);
    assert(digits =~= text@.subrange(start as int, len as int));
    if start == len {
        return Err(InputError::NotANumber(text.to_owned()));
    }
    let mut value: usize = 0;
    let mut i: usize = start;
    while i < len
        invariant
            start <= i <= len,
            len == text@.len(),
            digits == number_digits(text@),
            digits == text@.subrange(start as int, len as int),
            is_digits(digits.take(i - start)),
            value == digits_value(digits.take(i - start)),
        decreases len - i,
    {
        let c: char = text.get_char(i);
        let ghost seen = digits.take(i - start + 1);
        proof {
            assert(seen.drop_last() =~= digits.take(i - start));
            assert(seen.last() == c);
            assert(digits[i - start] == c);
        }
        let grown: Option<usize> = match digit_of(c) {
            Some(d) => match value.checked_mul(10) {
                Some(tens) => tens.checked_add(d as usize),
                None => None,
            },
            None => None,
        };
        match grown {
            Some(next) => {
                value = next;
            },
            None => {
                proof {
                    if is_digits(digits) {
                        assert(digit_value(digits[i - start]) is Some);
                        lemma_digits_value_grows(digits, i - start + 1);
                        assert(digits_value(seen) == value * 10 + digit_value(c).unwrap());
                    }
                }
                return Err(InputError::NotANumber(text.to_owned()));
            },
        }
        i = i + 1;
    }
    assert(digits.take(i - start) =~= digits);
    Ok(value)
}

/// A score that the standings show reads back as the same score.
pub proof fn lemma_score_reads_back(score: usize)
    ensures
        score_in(decimal(score as nat)) == Some(score),
{
    lemma_decimal_reads_back(score as nat);
}

} // verus!
