//! Putting values in the place of placeholders.

use vstd::prelude::*;
use crate::substitutions::Substitutions;
use crate::syntax::{name_of, occurrence_at, placeholder_at, text_of, Occurrence};
use crate::text::{chars_of, folded, push_range};

verus! {

/// What stands in the place of the placeholder `o` of `s`: the value
/// that `map` has for its name, or, where it has none, the placeholder
/// as it is written.
pub open spec fn replacement(
    s: Seq<char>,
    o: Occurrence,
    map: Map<Seq<char>, Seq<char>>,
) -> Seq<char> {
    if map.dom().contains(name_of(s, o)) {
        map[name_of(s, o)]
    } else {
        text_of(s, o)
    }
}

/// The text `s` from `at` on, with each placeholder replaced. The text
/// is read once from left to right; what is put in is not read again.
pub open spec fn substitute_from(s: Seq<char>, at: int, map: Map<Seq<char>, Seq<char>>) -> Seq<
    char,
>
    decreases s.len() - at,
{
    if at < 0 || at >= s.len() {
        Seq::empty()
    } else {
        match occurrence_at(s, at) {
            Some(o) => replacement(s, o, map) + substitute_from(s, o.end, map),
            None => seq![s[at]] + substitute_from(s, at + 1, map),
        }
    }
}

/// The text `s` with each placeholder replaced.
pub open spec fn substitute(s: Seq<char>, map: Map<Seq<char>, Seq<char>>) -> Seq<char> {
    substitute_from(s, 0, map)
}

/// Rewrites `content`: each placeholder whose name, folded, has a value
/// in `substitutions` gives way to that value; every other placeholder
/// and all other text stay as they are.
pub fn process_content(content: &str, substitutions: &Substitutions) -> (out: String)
    ensures
        out@ == substitute(content@, substitutions@),
{
    let chars = chars_of(content);
    let text = chars.as_slice();
    let mut out = String::new();
    let mut at: usize = 0;
    while at < text.len()
        invariant
            at <= text.len(),
            out@ + substitute_from(text@, at as int, substitutions@) == substitute(
                text@,
                substitutions@,
            ),
        decreases text.len() - at,
    {
        let ghost before = out@;
        match placeholder_at(text, at) {
            Some(span) => {
                let name = folded(text, span.name_start, span.name_end);
                match substitutions.get(name.as_str()) {
                    Some(value) => {
                        out.append(value.as_str());
                    },
                    None => {
                        push_range(&mut out, text, span.start, span.end);
                    },
                }
                proof {
                    let tail = substitute_from(text@, span.end as int, substitutions@);
                    assert(out@ == before + replacement(text@, span@, substitutions@));
                    assert(out@ + tail =~= before + (replacement(text@, span@, substitutions@)
                        + tail));
                }
                at = span.end;
            },
            None => {
                out.push(text[at]);
                proof {
                    let tail = substitute_from(text@, at + 1, substitutions@);
                    assert(out@ + tail =~= before + (seq![text@[at as int]] + tail));
                }
                at += 1;
            },
        }
    }
    assert(out@ + Seq::<char>::empty() =~= out@);
    out
}

} // verus!
