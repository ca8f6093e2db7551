//! From a text and what was given on the command line to what is to be
//! done.

use vstd::prelude::*;
use crate::engine::{process_content, substitute};
use crate::entry::{failure_text, parse_entry, parse_substitution, ParseError, ParseFailure};
use crate::extractor::{extract_variables, variables_of};
use crate::reconciler::{chars_of_option, error_text, reconcile, reconciled, ReconcileError};
use crate::substitutions::Substitutions;
use crate::variables::VariableSet;

verus! {

/// Why a run ended without a result.
#[derive(Debug)]
pub enum Error {
    /// An entry was not of the form `key=value`.
    Parse(ParseError),
    /// The sources of values did not agree with each other or with the
    /// text.
    Reconcile(ReconcileError),
    /// The text could not be read.
    InputUnavailable { path: String },
}

/// An `Error` with its strings taken as sequences of characters.
pub enum Failure {
    Parse(ParseFailure),
    Reconcile(ReconcileError),
    InputUnavailable { path: Seq<char> },
}

impl View for Error {
    type V = Failure;

    open spec fn view(&self) -> Failure {
        match self {
            Error::Parse(e) => Failure::Parse(e@),
            Error::Reconcile(e) => Failure::Reconcile(*e),
            Error::InputUnavailable { path } => Failure::InputUnavailable { path: path@ },
        }
    }
}

/// The text that reports a `Failure`.
pub open spec fn report(failure: Failure) -> Seq<char> {
    match failure {
        Failure::Parse(e) => failure_text(e),
        Failure::Reconcile(e) => error_text(e),
        Failure::InputUnavailable { path } => "Error: Could not read file '"@ + path + "'"@,
    }
}

impl Error {
    /// The message for the user.
    pub fn message(&self) -> (text: String)
        ensures
            text@ == report(self@),
    {
        match self {
            Error::Parse(e) => e.message(),
            Error::Reconcile(e) => e.message(),
            Error::InputUnavailable { path } => {
                let mut text = String::from_str("Error: Could not read file '");
                text.append(path.as_str());
                text.append("'");
                text
            },
        }
    }
}

/// What is to be done with a text.
#[derive(Debug)]
pub enum Outcome {
    /// The variables were asked for: they are shown, and nothing else
    /// is done.
    Listed(VariableSet),
    /// The text has variables and none was given a value: they are
    /// shown in place of a result.
    Unfilled(VariableSet),
    /// The text has no variable and nothing was given: it is the result
    /// as it is.
    Verbatim,
    /// The text with the values in place.
    Substituted(String),
}

/// An `Outcome` with its parts taken as sets and sequences.
pub enum Plan {
    Listed(Set<Seq<char>>),
    Unfilled(Set<Seq<char>>),
    Verbatim,
    Substituted(Seq<char>),
}

impl View for Outcome {
    type V = Plan;

    open spec fn view(&self) -> Plan {
        match self {
            Outcome::Listed(variables) => Plan::Listed(variables@),
            Outcome::Unfilled(variables) => Plan::Unfilled(variables@),
            Outcome::Verbatim => Plan::Verbatim,
            Outcome::Substituted(text) => Plan::Substituted(text@),
        }
    }
}

/// The characters of each string of a list.
pub open spec fn texts(entries: Seq<String>) -> Seq<Seq<char>> {
    Seq::new(entries.len(), |i: int| entries[i]@)
}

/// The entries from the `at`-th on, added to `map` in their order: a
/// later entry for a key takes the place of an earlier one, and the
/// first entry that is not accepted ends it with its error.
pub open spec fn collected_from(
    entries: Seq<Seq<char>>,
    at: int,
    map: Map<Seq<char>, Seq<char>>,
) -> Result<Map<Seq<char>, Seq<char>>, ParseFailure>
    decreases entries.len() - at,
{
    if at < 0 || at >= entries.len() {
        Ok(map)
    } else {
        match parse_entry(entries[at]) {
            Err(e) => Err(e),
            Ok((key, value)) => collected_from(entries, at + 1, map.insert(key, value)),
        }
    }
}

/// The map that a list of entries stands for.
pub open spec fn collected(entries: Seq<Seq<char>>) -> Result<
    Map<Seq<char>, Seq<char>>,
    ParseFailure,
> {
    collected_from(entries, 0, Map::empty())
}

/// Gathered substitutions or an error, taken as a map or a failure.
pub open spec fn collected_view(r: Result<Substitutions, ParseError>) -> Result<
    Map<Seq<char>, Seq<char>>,
    ParseFailure,
> {
    match r {
        Ok(map) => Ok(map@),
        Err(e) => Err(e@),
    }
}

/// Parses the entries in their order and gathers them in one map.
pub fn collect_substitutions(entries: &Vec<String>) -> (r: Result<Substitutions, ParseError>)
    ensures
        collected_view(r) == collected(texts(entries@)),
{
    let mut map = Substitutions::new();
    let mut i: usize = 0;
    while i < entries.len()
        invariant
            i <= entries.len(),
            collected_from(texts(entries@), i as int, map@) == collected(texts(entries@)),
        decreases entries.len() - i,
    {
        match parse_substitution(entries[i].as_str()) {
            Err(e) => {
                return Err(e);
            },
            Ok((key, value)) => {
                map.insert(key, value);
            },
        }
        i += 1;
    }
    Ok(map)
}

/// What is to be done with the text `content`, given the entries with
/// keys, the value without a key and the wish to see the variables.
/// Where the variables are asked for, the entries are not looked at.
pub open spec fn outcome_of(
    content: Seq<char>,
    entries: Seq<Seq<char>>,
    positional: Option<Seq<char>>,
    list: bool,
) -> Result<Plan, Failure> {
    let variables = variables_of(content);
    if list {
        Ok(Plan::Listed(variables))
    } else {
        match collected(entries) {
            Err(e) => Err(Failure::Parse(e)),
            Ok(keyed) => match reconciled(variables, keyed, positional) {
                Err(e) => Err(Failure::Reconcile(e)),
                Ok(map) => if map != Map::<Seq<char>, Seq<char>>::empty() {
                    Ok(Plan::Substituted(substitute(content, map)))
                } else if variables != Set::<Seq<char>>::empty() {
                    Ok(Plan::Unfilled(variables))
                } else {
                    Ok(Plan::Verbatim)
                },
            },
        }
    }
}

/// An outcome or an error, taken as a plan or a failure.
pub open spec fn outcome_view(r: Result<Outcome, Error>) -> Result<Plan, Failure> {
    match r {
        Ok(outcome) => Ok(outcome@),
        Err(e) => Err(e@),
    }
}

/// Decides what is to be done with `content`, and does the rewriting
/// where there is any to do.
pub fn run(content: &str, entries: &Vec<String>, positional: Option<&str>, list: bool) -> (r:
    Result<Outcome, Error>)
    ensures
        outcome_view(r) == outcome_of(content@, texts(entries@), chars_of_option(positional), list),
{
    let variables = extract_variables(content);
    if list {
        return Ok(Outcome::Listed(variables));
    }
    let keyed = match collect_substitutions(entries) {
        Ok(keyed) => keyed,
        Err(e) => {
            return Err(Error::Parse(e));
        },
    };
    let map = match reconcile(&variables, keyed, positional) {
        Ok(map) => map,
        Err(e) => {
            return Err(Error::Reconcile(e));
        },
    };
    if !map.is_empty() {
        Ok(Outcome::Substituted(process_content(content, &map)))
    } else if !variables.is_empty() {
        Ok(Outcome::Unfilled(variables))
    } else {
        Ok(Outcome::Verbatim)
    }
}

} // verus!
