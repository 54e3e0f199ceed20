//! The two numbers that the command line gives: how they are read and which
//! are accepted.

use vstd::prelude::*;
use vstd::string::StrSliceExecFns;
use crate::wall_map::{check_size, size_verdict, SizeError};

verus! {

/// `c` is one of the digits 0 to 9.
pub open spec fn is_digit(c: char) -> bool {
    '0' <= c <= '9'
}

/// The number that a sequence of digits stands for in base ten.
pub open spec fn digits_value(s: Seq<char>) -> nat
    decreases s.len(),
{
    if s.len() == 0 {
        0
    } else {
        (10 * digits_value(s.drop_last()) + (s.last() as nat - '0' as nat)) as nat
    }
}

/// The text without the plus sign that may stand at its front.
pub open spec fn unsigned_part(s: Seq<char>) -> Seq<char> {
    if s.len() > 0 && s[0] == '+' {
        s.skip(1)
    } else {
        s
    }
}

/// The number that a text stands for: the text is one digit or more, with
/// or without a plus sign before them, and the number fits a `usize`. Any
/// other text stands for no number.
pub open spec fn number_of(s: Seq<char>) -> Option<usize> {
    let body = unsigned_part(s);
    if body.len() > 0 && (forall|i: int| 0 <= i < body.len() ==> is_digit(#[trigger] body[i]))
        && digits_value(body) <= usize::MAX {
        Some(digits_value(body) as usize)
    } else {
        None
    }
}

/// Reads a number written in base ten.
pub fn parse_number(text: &str) -> (number: Option<usize>)
    ensures
        number == number_of(text@),
{
    let len = text.unicode_len();
    let mut at: usize = 0;
    if len > 0 && text.get_char(0) == '+' {
        at = 1;
    }
    if at == len {
        return None;
    }
    let ghost body = unsigned_part(text@);
    let first = at;
    let mut value: usize = 0;
    let mut fits = true;
    while at < len
        invariant
            len == text@.len(),
            first <= at <= len,
            first <= 1,
            body == unsigned_part(text@),
            body == text@.skip(first as int),
            forall|i: int| 0 <= i < at - first ==> is_digit(#[trigger] body[i]),
            fits ==> value == digits_value(body.take(at - first)),
            !fits ==> digits_value(body.take(at - first)) > usize::MAX,
        decreases len - at,
    {
        let c = text.get_char(at);
        if !(c >= '0' && c <= '9') {
            assert(!is_digit(body[at - first]));
            return None;
        }
        let digit = (c as u8 - 48u8) as usize;
        proof {
            assert(body.take(at + 1 - first).drop_last() == body.take(at - first));
            assert(body.take(at + 1 - first).last() == c);
        }
        if fits {
            match value.checked_mul(10) {
                None => {
                    fits = false;
                },
                Some(tens) => match tens.checked_add(digit) {
                    None => {
                        fits = false;
                    },
                    Some(sum) => {
                        value = sum;
                    },
                },
            }
        }
        at += 1;
    }
    assert(body.take(at - first) == body);
    if fits {
        Some(value)
    } else {
        None
    }
}

/// The size of the map to dig, as the command line gave it.
#[derive(Debug, Clone, Copy, PartialEq, Eq, Structural)]
pub struct Options {
    pub height: usize,
    pub width: usize,
}

/// Why the command line was not accepted.
#[derive(Debug, Clone, Copy, PartialEq, Eq, Structural)]
pub enum OptionsError {
    /// There are not two arguments, or one of the two is not a number.
    Usage,
    /// The two numbers are no size for a map.
    Size(SizeError),
}

/// What [`Options::new`] makes of the arguments `args`: the height, then the
/// width.
pub open spec fn reading(args: Seq<String>) -> Result<Options, OptionsError> {
    if args.len() != 2 {
        Err(OptionsError::Usage)
    } else {
        match (number_of(args[0]@), number_of(args[1]@)) {
            (Some(height), Some(width)) => match size_verdict(height, width) {
                Ok(()) => Ok(Options { height, width }),
                Err(e) => Err(OptionsError::Size(e)),
            },
            _ => Err(OptionsError::Usage),
        }
    }
}

impl Options {
    /// Reads the height and the width of the map from the arguments of the
    /// command line, the name of the program left out.
    pub fn new(args: &Vec<String>) -> (made: Result<Options, OptionsError>)
        ensures
            made == reading(args@),
    {
        if args.len() != 2 {
            return Err(OptionsError::Usage);
        }
        let height = match parse_number(args[0].as_str()) {
            Some(n) => n,
            None => {
                return Err(OptionsError::Usage);
            },
        };
        let width = match parse_number(args[1].as_str()) {
            Some(n) => n,
            None => {
                return Err(OptionsError::Usage);
            },
        };
        match check_size(height, width) {
            Ok(()) => Ok(Options { height, width }),
            Err(e) => Err(OptionsError::Size(e)),
        }
    }
}

impl OptionsError {
    /// The line to show to the user.
    pub fn message(&self) -> (text: &'static str)
        ensures
            text@ == match self {
                OptionsError::Usage => "Usage: cargo run <height> <width>"@,
                OptionsError::Size(SizeError::WidthTooSmall) => "`width >= 3` shall be met."@,
                OptionsError::Size(SizeError::HeightTooSmall) => "`height >= 3` shall be met."@,
            },
    {
        match self {
            OptionsError::Usage => "Usage: cargo run <height> <width>",
            OptionsError::Size(SizeError::WidthTooSmall) => "`width >= 3` shall be met.",
            OptionsError::Size(SizeError::HeightTooSmall) => "`height >= 3` shall be met.",
        }
    }
}

} // verus!
