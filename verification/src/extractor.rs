//! Finding the variables of a text.

use vstd::prelude::*;
use crate::syntax::{
    begins_at, is_placeholder, lemma_one_placeholder_per_start, lemma_placeholders_apart, name_of,
    placeholder_at, Occurrence,
};
use crate::text::{chars_of, folded};
use crate::variables::VariableSet;

verus! {

/// The variables of a text: the folded names of its placeholders.
pub open spec fn variables_of(s: Seq<char>) -> Set<Seq<char>> {
    Set::new(|name: Seq<char>| exists|o: Occurrence| is_placeholder(s, o) && name_of(s, o) == name)
}

/// The folded names of the placeholders of `s` that begin before `at`.
pub open spec fn variables_before(s: Seq<char>, at: int) -> Set<Seq<char>> {
    Set::new(
        |name: Seq<char>|
            exists|o: Occurrence| is_placeholder(s, o) && o.start < at && name_of(s, o) == name,
    )
}

/// Collects the variables of `content`: the name of every placeholder,
/// folded, each name once however often and in whatever case it is
/// written.
pub fn extract_variables(content: &str) -> (found: VariableSet)
    ensures
        found@ == variables_of(content@),
{
    let chars = chars_of(content);
    let text = chars.as_slice();
    let mut found = VariableSet::new();
    let mut at: usize = 0;
    assert(found@ =~= variables_before(text@, 0));
    while at < text.len()
        invariant
            at <= text.len(),
            found@ == variables_before(text@, at as int),
        decreases text.len() - at,
    {
        match placeholder_at(text, at) {
            Some(span) => {
                let name = folded(text, span.name_start, span.name_end);
                found.insert(name);
                proof {
                    let s = text@;
                    assert(begins_at(s, at as int, span@));
                    assert forall|o: Occurrence| is_placeholder(s, o) && o.start < span.end implies o.start
                        < at || o == span@ by {
                        if o.start == at {
                            lemma_one_placeholder_per_start(s, o, span@);
                        } else if o.start > at {
                            lemma_placeholders_apart(s, span@, o);
                        }
                    }
                    assert(found@ =~= variables_before(s, span.end as int));
                }
                at = span.end;
            },
            None => {
                proof {
                    let s = text@;
                    assert forall|o: Occurrence| is_placeholder(s, o) implies o.start != at by {
                        if o.start == at {
                            assert(begins_at(s, at as int, o));
                        }
                    }
                    assert(found@ =~= variables_before(s, at + 1));
                }
                at += 1;
            },
        }
    }
    assert(found@ =~= variables_of(text@));
    found
}

} // verus!
