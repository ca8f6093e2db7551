//! Deciding where the values come from: entries with keys, or one value
//! without a key.

use vstd::prelude::*;
use crate::substitutions::Substitutions;
use crate::variables::VariableSet;

verus! {

/// Why no substitutions could be settled on.
#[derive(Clone, Copy, Debug, PartialEq, Eq, Structural)]
pub enum ReconcileError {
    /// Entries with keys and a value without a key were both given.
    AmbiguousSource,
    /// A value without a key was given, and the text has no variable.
    NoVariables,
    /// A value without a key was given, and the text has more than one
    /// variable.
    MultipleVariables,
}

/// The text that reports a `ReconcileError`.
pub open spec fn error_text(error: ReconcileError) -> Seq<char> {
    match error {
        ReconcileError::AmbiguousSource => "Error: Cannot use positional substitution and -s flag together."@,
        ReconcileError::NoVariables => "Error: No variables found in the prompt file to substitute."@,
        ReconcileError::MultipleVariables => "Error: More than one variable found in the prompt file. Please use the -s flag to specify values for each variable."@,
    }
}

impl ReconcileError {
    /// The message for the user.
    pub fn message(&self) -> (text: String)
        ensures
            text@ == error_text(*self),
    {
        match self {
            ReconcileError::AmbiguousSource => String::from_str(
                "Error: Cannot use positional substitution and -s flag together.",
            ),
            ReconcileError::NoVariables => String::from_str(
                "Error: No variables found in the prompt file to substitute.",
            ),
            ReconcileError::MultipleVariables => String::from_str(
                "Error: More than one variable found in the prompt file. Please use the -s flag to specify values for each variable.",
            ),
        }
    }
}

/// The characters of a value that may be wanting.
pub open spec fn chars_of_option(value: Option<&str>) -> Option<Seq<char>> {
    match value {
        Some(v) => Some(v@),
        None => None,
    }
}

/// Substitutions or an error, with the substitutions taken as a map.
pub open spec fn map_view(r: Result<Substitutions, ReconcileError>) -> Result<
    Map<Seq<char>, Seq<char>>,
    ReconcileError,
> {
    match r {
        Ok(map) => Ok(map@),
        Err(e) => Err(e),
    }
}

/// The map that gives `value` to every member of `variables`.
pub open spec fn assign(variables: Set<Seq<char>>, value: Seq<char>) -> Map<Seq<char>, Seq<char>> {
    Map::new(|name: Seq<char>| variables.contains(name), |name: Seq<char>| value)
}

/// What a value without a key stands for: with no such value, no
/// substitution; with one, that value for the one variable of the text,
/// and an error where the text has no variable or more than one.
pub open spec fn single_substitution(
    variables: Set<Seq<char>>,
    positional: Option<Seq<char>>,
) -> Result<Map<Seq<char>, Seq<char>>, ReconcileError> {
    match positional {
        None => Ok(Map::empty()),
        Some(value) => if variables == Set::<Seq<char>>::empty() {
            Err(ReconcileError::NoVariables)
        } else if variables.len() > 1 {
            Err(ReconcileError::MultipleVariables)
        } else {
            Ok(assign(variables, value))
        },
    }
}

/// The substitutions that the two sources give together. A value
/// without a key shuts out entries with keys, and asks for a text with
/// exactly one variable; without such a value the entries stand as they
/// are.
pub open spec fn reconciled(
    variables: Set<Seq<char>>,
    keyed: Map<Seq<char>, Seq<char>>,
    positional: Option<Seq<char>>,
) -> Result<Map<Seq<char>, Seq<char>>, ReconcileError> {
    match positional {
        None => Ok(keyed),
        Some(value) => if keyed != Map::<Seq<char>, Seq<char>>::empty() {
            Err(ReconcileError::AmbiguousSource)
        } else if variables == Set::<Seq<char>>::empty() {
            Err(ReconcileError::NoVariables)
        } else if variables.len() > 1 {
            Err(ReconcileError::MultipleVariables)
        } else {
            Ok(assign(variables, value))
        },
    }
}

/// Turns a value without a key into substitutions for a text with the
/// variables `variables`: the value for the one variable, `NoVariables`
/// where there is none, `MultipleVariables` where there are more.
pub fn get_single_substitution(variables: &VariableSet, pos_value: Option<&str>) -> (r: Result<
    Substitutions,
    ReconcileError,
>)
    ensures
        map_view(r) == single_substitution(variables@, chars_of_option(pos_value)),
{
    let mut map = Substitutions::new();
    match pos_value {
        None => Ok(map),
        Some(value) => {
            let count = variables.len();
            if count == 0 {
                proof {
                    variables@.lemma_len0_is_empty();
                }
                return Err(ReconcileError::NoVariables);
            }
            if count > 1 {
                return Err(ReconcileError::MultipleVariables);
            }
            let names = variables.names();
            map.insert(names[0].clone(), String::from_str(value));
            proof {
                let listed = variables.listed();
                assert(listed.len() == 1);
                assert(listed[0] == names@[0]@);
                assert forall|name: Seq<char>| variables@.contains(name) <==> name
                    == listed[0] by {
                    if name == listed[0] {
                        assert(listed.contains(name));
                    }
                }
                assert(map@ =~= assign(variables@, value@));
            }
            Ok(map)
        },
    }
}

/// Settles the substitutions for a text with the variables `variables`
/// from the entries with keys and the value without a key.
pub fn reconcile(variables: &VariableSet, keyed: Substitutions, positional: Option<&str>) -> (r:
    Result<Substitutions, ReconcileError>)
    ensures
        map_view(r) == reconciled(variables@, keyed@, chars_of_option(positional)),
{
    match positional {
        None => Ok(keyed),
        Some(_) => {
            if !keyed.is_empty() {
                Err(ReconcileError::AmbiguousSource)
            } else {
                get_single_substitution(variables, positional)
            }
        },
    }
}

} // verus!
