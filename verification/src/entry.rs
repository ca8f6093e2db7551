//! Substitution entries written as `key=value`.

use vstd::prelude::*;
use crate::syntax::fold;
use crate::text::{all_ascii, ascii_upto, chars_of, folded, lowercase, string_of};

verus! {

/// Why an entry was not accepted.
#[derive(Debug)]
pub enum ParseError {
    /// The entry holds no `=`.
    Format { entry: String },
    /// Nothing follows the first `=` of the entry.
    MissingValue { key: String },
}

/// A `ParseError` with its strings taken as sequences of characters.
pub enum ParseFailure {
    Format { entry: Seq<char> },
    MissingValue { key: Seq<char> },
}

impl View for ParseError {
    type V = ParseFailure;

    open spec fn view(&self) -> ParseFailure {
        match self {
            ParseError::Format { entry } => ParseFailure::Format { entry: entry@ },
            ParseError::MissingValue { key } => ParseFailure::MissingValue { key: key@ },
        }
    }
}

/// The text that reports a `ParseFailure`.
pub open spec fn failure_text(failure: ParseFailure) -> Seq<char> {
    match failure {
        ParseFailure::Format { entry } => "Invalid substitution format '"@ + entry
            + "'. Use key=value."@,
        ParseFailure::MissingValue { key } => "Missing value for variable '"@ + key + "'"@,
    }
}

impl ParseError {
    /// The message for the user; it names the entry or the key at fault.
    pub fn message(&self) -> (text: String)
        ensures
            text@ == failure_text(self@),
    {
        match self {
            ParseError::Format { entry } => {
                let mut text = String::from_str("Invalid substitution format '");
                text.append(entry.as_str());
                text.append("'. Use key=value.");
                text
            },
            ParseError::MissingValue { key } => {
                let mut text = String::from_str("Missing value for variable '");
                text.append(key.as_str());
                text.append("'");
                text
            },
        }
    }
}

/// `at` is the place of the first `=` of `raw`.
pub open spec fn is_separator(raw: Seq<char>, at: int) -> bool {
    &&& 0 <= at < raw.len()
    &&& raw[at] == '='
    &&& forall|j: int| 0 <= j < at ==> raw[j] != '='
}

/// The place of the first `=` of `raw`, if it holds one.
pub open spec fn separator(raw: Seq<char>) -> Option<int> {
    if exists|at: int| is_separator(raw, at) {
        Some(choose|at: int| is_separator(raw, at))
    } else {
        None
    }
}

/// The form in which a key is stored. A key of ASCII characters is
/// folded as the names in placeholders are; any other key is brought to
/// lower case by the rules of Unicode.
pub open spec fn fold_key(key: Seq<char>) -> Seq<char> {
    if all_ascii(key) {
        fold(key)
    } else {
        lowercase(key)
    }
}

/// What an entry means: the key before its first `=`, folded, and the
/// value behind it, which may hold further `=` and may not be empty.
pub open spec fn parse_entry(raw: Seq<char>) -> Result<(Seq<char>, Seq<char>), ParseFailure> {
    match separator(raw) {
        None => Err(ParseFailure::Format { entry: raw }),
        Some(at) => {
            let key = fold_key(raw.take(at));
            let value = raw.skip(at + 1);
            if value.len() == 0 {
                Err(ParseFailure::MissingValue { key })
            } else {
                Ok((key, value))
            }
        },
    }
}

/// Looks for the first `=`.
fn find_separator(chars: &[char]) -> (r: Option<usize>)
    ensures
        r is Some ==> separator(chars@) == Some(r.unwrap() as int),
        r is None ==> separator(chars@) is None,
{
    let mut i: usize = 0;
    while i < chars.len()
        invariant
            i <= chars.len(),
            forall|j: int| 0 <= j < i ==> chars@[j] != '=',
        decreases chars.len() - i,
    {
        if chars[i] == '=' {
            assert(is_separator(chars@, i as int));
            return Some(i);
        }
        i += 1;
    }
    None
}

/// The stored form of the key `chars[..to]`.
fn key_of(chars: &[char], to: usize) -> (key: String)
    requires
        to <= chars.len(),
    ensures
        key@ == fold_key(chars@.take(to as int)),
{
    if ascii_upto(chars, to) {
        folded(chars, 0, to)
    } else {
        string_of(chars, 0, to).as_str().to_lowercase()
    }
}

/// The result of parsing an entry, with its strings taken as sequences
/// of characters.
pub open spec fn entry_view(r: Result<(String, String), ParseError>) -> Result<
    (Seq<char>, Seq<char>),
    ParseFailure,
> {
    match r {
        Ok((key, value)) => Ok((key@, value@)),
        Err(e) => Err(e@),
    }
}

/// Parses an entry of the form `key=value`: the key is what stands
/// before the first `=`, folded; the value is all that follows it.
pub fn parse_substitution(sub: &str) -> (r: Result<(String, String), ParseError>)
    ensures
        entry_view(r) == parse_entry(sub@),
{
    let chars = chars_of(sub);
    match find_separator(chars.as_slice()) {
        None => Err(ParseError::Format { entry: String::from_str(sub) }),
        Some(at) => {
            let key = key_of(chars.as_slice(), at);
            if at + 1 == chars.len() {
                Err(ParseError::MissingValue { key })
            } else {
                Ok((key, string_of(chars.as_slice(), at + 1, chars.len())))
            }
        },
    }
}

} // verus!
