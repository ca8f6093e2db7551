//! What holds of every text and every map of substitutions.

use vstd::prelude::*;
use crate::engine::{replacement, substitute, substitute_from};
use crate::entry::{fold_key, is_separator, parse_entry, separator, ParseFailure};
use crate::extractor::{variables_before, variables_of};
use crate::pipeline::{collected, collected_from};
use crate::syntax::{
    begins_at, fold, fold_char, is_name_char, is_placeholder, is_space,
    lemma_one_placeholder_per_start, lemma_placeholders_apart, lemma_same_placeholder, name_of,
    occurrence_at, shifted, text_of, Occurrence,
};

verus! {

/// A text without placeholders has no variables.
pub proof fn law_no_placeholder_no_variable(text: Seq<char>)
    requires
        forall|o: Occurrence| !is_placeholder(text, o),
    ensures
        variables_of(text) == Set::<Seq<char>>::empty(),
{
    assert(variables_of(text) =~= Set::empty());
}

/// The placeholders that begin before `at` have finitely many names, no
/// more than `at`.
proof fn lemma_finitely_many_before(text: Seq<char>, at: int)
    requires
        0 <= at,
    ensures
        variables_before(text, at).finite(),
        variables_before(text, at).len() <= at,
    decreases at,
{
    if at == 0 {
        assert(variables_before(text, 0) =~= Set::empty());
    } else {
        lemma_finitely_many_before(text, at - 1);
        let before = variables_before(text, at - 1);
        match occurrence_at(text, at - 1) {
            Some(o) => {
                assert(begins_at(text, at - 1, o));
                assert forall|p: Occurrence| is_placeholder(text, p) && p.start == at - 1 implies p
                    == o by {
                    lemma_one_placeholder_per_start(text, p, o);
                }
                assert(variables_before(text, at) =~= before.insert(name_of(text, o)));
            },
            None => {
                assert forall|p: Occurrence| is_placeholder(text, p) implies p.start != at - 1 by {
                    if p.start == at - 1 {
                        assert(begins_at(text, at - 1, p));
                    }
                }
                assert(variables_before(text, at) =~= before);
            },
        }
    }
}

/// A text has finitely many variables, and no more than it has
/// characters.
pub proof fn law_finitely_many_variables(text: Seq<char>)
    ensures
        variables_of(text).finite(),
        variables_of(text).len() <= text.len(),
{
    lemma_finitely_many_before(text, text.len() as int);
    assert(variables_of(text) =~= variables_before(text, text.len() as int));
}

/// Two sequences of characters are the same but for the case of their
/// ASCII letters.
pub open spec fn same_but_for_case(x: Seq<char>, y: Seq<char>) -> bool {
    &&& x.len() == y.len()
    &&& forall|k: int| 0 <= k < x.len() ==> fold_char(#[trigger] x[k]) == fold_char(y[k])
}

/// The name of every placeholder, folded, is a variable of the text,
/// and two placeholders whose names are the same but for case stand for
/// one variable.
pub proof fn law_every_name_is_a_variable(text: Seq<char>, a: Occurrence, b: Occurrence)
    requires
        is_placeholder(text, a),
        is_placeholder(text, b),
    ensures
        variables_of(text).contains(name_of(text, a)),
        same_but_for_case(
            text.subrange(a.name_start, a.name_end),
            text.subrange(b.name_start, b.name_end),
        ) ==> name_of(text, a) == name_of(text, b),
{
    let x = text.subrange(a.name_start, a.name_end);
    let y = text.subrange(b.name_start, b.name_end);
    if same_but_for_case(x, y) {
        assert forall|k: int| 0 <= k < x.len() implies fold(x)[k] == fold(y)[k] by {
            assert(fold_char(x[k]) == fold_char(y[k]));
        }
        assert(fold(x) =~= fold(y));
    }
}

/// Every variable of a text is the folded name of one of its
/// placeholders: it is not empty, it is made of name characters, and
/// folding leaves it as it is.
pub proof fn law_variables_are_folded_names(text: Seq<char>, name: Seq<char>)
    requires
        variables_of(text).contains(name),
    ensures
        exists|o: Occurrence| is_placeholder(text, o) && name_of(text, o) == name,
        name.len() > 0,
        forall|k: int| 0 <= k < name.len() ==> is_name_char(#[trigger] name[k]),
        fold(name) == name,
{
    let o = choose|o: Occurrence| is_placeholder(text, o) && name_of(text, o) == name;
    let written = text.subrange(o.name_start, o.name_end);
    assert forall|k: int| 0 <= k < name.len() implies is_name_char(#[trigger] name[k]) by {
        assert(written[k] == text[o.name_start + k]);
    }
    assert(fold(name) =~= name);
}

/// Without a value for any variable of the text, the text from `at` on
/// is rewritten as itself.
proof fn lemma_untouched_from(text: Seq<char>, at: int, map: Map<Seq<char>, Seq<char>>)
    requires
        0 <= at <= text.len(),
        forall|name: Seq<char>| variables_of(text).contains(name) ==> !map.dom().contains(name),
    ensures
        substitute_from(text, at, map) == text.subrange(at, text.len() as int),
    decreases text.len() - at,
{
    if at < text.len() {
        match occurrence_at(text, at) {
            Some(o) => {
                assert(begins_at(text, at, o));
                assert(variables_of(text).contains(name_of(text, o)));
                lemma_untouched_from(text, o.end, map);
                assert(text_of(text, o) + text.subrange(o.end, text.len() as int)
                    =~= text.subrange(at, text.len() as int));
            },
            None => {
                lemma_untouched_from(text, at + 1, map);
                assert(seq![text[at]] + text.subrange(at + 1, text.len() as int)
                    =~= text.subrange(at, text.len() as int));
            },
        }
    } else {
        assert(text.subrange(at, text.len() as int) =~= Seq::empty());
    }
}

/// Substitution leaves a text as it is where no variable of the text
/// has a value; so it does with a text without placeholders.
pub proof fn law_nothing_to_replace(text: Seq<char>, map: Map<Seq<char>, Seq<char>>)
    requires
        forall|name: Seq<char>| variables_of(text).contains(name) ==> !map.dom().contains(name),
    ensures
        substitute(text, map) == text,
{
    lemma_untouched_from(text, 0, map);
    assert(text.subrange(0, text.len() as int) =~= text);
}

/// No placeholder of `a + b` lies across the place where `a` ends.
pub open spec fn clean_seam(a: Seq<char>, b: Seq<char>) -> bool {
    forall|o: Occurrence| is_placeholder(a + b, o) ==> o.end <= a.len() || a.len() <= o.start
}

/// Before a clean seam, `a + b` is rewritten as `a` is.
proof fn lemma_before_seam(a: Seq<char>, b: Seq<char>, at: int, map: Map<Seq<char>, Seq<char>>)
    requires
        0 <= at <= a.len(),
        clean_seam(a, b),
    ensures
        substitute_from(a + b, at, map) == substitute_from(a, at, map) + substitute_from(
            a + b,
            a.len() as int,
            map,
        ),
    decreases a.len() - at,
{
    let s = a + b;
    let rest = substitute_from(s, a.len() as int, map);
    if at < a.len() {
        match occurrence_at(s, at) {
            Some(o) => {
                assert(begins_at(s, at, o));
                lemma_same_placeholder(s, a, o, 0);
                assert(begins_at(a, at, o));
                lemma_one_placeholder_per_start(a, occurrence_at(a, at).unwrap(), o);
                lemma_before_seam(a, b, o.end, map);
                assert((replacement(a, o, map) + substitute_from(a, o.end, map)) + rest
                    =~= replacement(a, o, map) + (substitute_from(a, o.end, map) + rest));
            },
            None => {
                if occurrence_at(a, at) is Some {
                    let o = occurrence_at(a, at).unwrap();
                    assert(begins_at(a, at, o));
                    lemma_same_placeholder(a, s, o, 0);
                    assert(begins_at(s, at, o));
                }
                lemma_before_seam(a, b, at + 1, map);
                assert((seq![a[at]] + substitute_from(a, at + 1, map)) + rest =~= seq![s[at]] + (
                substitute_from(a, at + 1, map) + rest));
            },
        }
    } else {
        assert(Seq::<char>::empty() + rest =~= rest);
    }
}

/// Behind `a`, `a + b` is rewritten as `b` is.
proof fn lemma_behind_seam(a: Seq<char>, b: Seq<char>, at: int, map: Map<Seq<char>, Seq<char>>)
    requires
        0 <= at <= b.len(),
    ensures
        substitute_from(a + b, a.len() + at, map) == substitute_from(b, at, map),
    decreases b.len() - at,
{
    let s = a + b;
    let n = a.len() as int;
    if at < b.len() {
        match occurrence_at(s, n + at) {
            Some(o) => {
                assert(begins_at(s, n + at, o));
                lemma_same_placeholder(s, b, o, -n);
                let p = shifted(o, -n);
                assert(begins_at(b, at, p));
                lemma_one_placeholder_per_start(b, occurrence_at(b, at).unwrap(), p);
                lemma_behind_seam(a, b, p.end, map);
            },
            None => {
                if occurrence_at(b, at) is Some {
                    let p = occurrence_at(b, at).unwrap();
                    assert(begins_at(b, at, p));
                    lemma_same_placeholder(b, s, p, n);
                    assert(begins_at(s, n + at, shifted(p, n)));
                }
                lemma_behind_seam(a, b, at + 1, map);
            },
        }
    }
}

/// Substitution goes through a text piece by piece: where no
/// placeholder lies across the seam, `a + b` is rewritten as `a`
/// rewritten, followed by `b` rewritten.
pub proof fn law_piece_by_piece(a: Seq<char>, b: Seq<char>, map: Map<Seq<char>, Seq<char>>)
    requires
        clean_seam(a, b),
    ensures
        substitute(a + b, map) == substitute(a, map) + substitute(b, map),
{
    lemma_before_seam(a, b, 0, map);
    lemma_behind_seam(a, b, 0, map);
}

/// A text that begins with a placeholder is rewritten as the value for
/// that placeholder, followed by the rest rewritten.
proof fn lemma_placeholder_first(s: Seq<char>, o: Occurrence, map: Map<Seq<char>, Seq<char>>)
    requires
        begins_at(s, 0, o),
    ensures
        substitute(s, map) == replacement(s, o, map) + substitute(s.skip(o.end), map),
{
    lemma_one_placeholder_per_start(s, occurrence_at(s, 0).unwrap(), o);
    assert(s.take(o.end) + s.skip(o.end) =~= s);
    lemma_behind_seam(s.take(o.end), s.skip(o.end), 0, map);
}

/// No placeholder lies across the place where another begins.
proof fn lemma_seam_before_placeholder(text: Seq<char>, o: Occurrence)
    requires
        is_placeholder(text, o),
    ensures
        clean_seam(text.take(o.start), text.skip(o.start)),
{
    assert(text.take(o.start) + text.skip(o.start) =~= text);
    assert forall|p: Occurrence| is_placeholder(text, p) implies p.end <= o.start || o.start
        <= p.start by {
        if p.start < o.start {
            lemma_placeholders_apart(text, p, o);
        }
    }
}

/// Every placeholder is dealt with in its place: the text is rewritten
/// as what stands before the placeholder, rewritten, then the value for
/// its name, then what stands behind it, rewritten. A placeholder whose
/// name has no value comes out as it was written, with its braces, its
/// whitespace and the case of its letters.
pub proof fn law_each_placeholder_in_place(
    text: Seq<char>,
    map: Map<Seq<char>, Seq<char>>,
    o: Occurrence,
)
    requires
        is_placeholder(text, o),
    ensures
        substitute(text, map) == substitute(text.take(o.start), map) + replacement(text, o, map)
            + substitute(text.skip(o.end), map),
        !map.dom().contains(name_of(text, o)) ==> replacement(text, o, map) == text.subrange(
            o.start,
            o.end,
        ),
{
    let before = text.take(o.start);
    let from = text.skip(o.start);
    let p = shifted(o, -o.start);
    assert(substitute(text, map) == substitute(before, map) + substitute(from, map)) by {
        assert(before + from =~= text);
        lemma_seam_before_placeholder(text, o);
        law_piece_by_piece(before, from, map);
    }
    assert(substitute(from, map) == replacement(text, o, map) + substitute(
        text.skip(o.end),
        map,
    )) by {
        lemma_same_placeholder(text, from, o, -o.start);
        lemma_placeholder_first(from, p, map);
        assert(from.skip(p.end) =~= text.skip(o.end));
    }
    assert(substitute(before, map) + (replacement(text, o, map) + substitute(
        text.skip(o.end),
        map,
    )) =~= substitute(before, map) + replacement(text, o, map) + substitute(
        text.skip(o.end),
        map,
    ));
}

/// A value that is not empty, holds no opening brace and does not begin
/// with a closing brace.
pub open spec fn plain(value: Seq<char>) -> bool {
    &&& value.len() > 0
    &&& value[0] != '}'
    &&& forall|k: int| 0 <= k < value.len() ==> #[trigger] value[k] != '{'
}

/// Every variable of `text` has a value in `map`, and a plain one.
pub open spec fn fills(text: Seq<char>, map: Map<Seq<char>, Seq<char>>) -> bool {
    forall|name: Seq<char>| #[trigger]
        variables_of(text).contains(name) ==> map.dom().contains(name) && plain(map[name])
}

/// Two opening braces stand at `from`, and nothing but whitespace and
/// name characters between them and `to`.
pub open spec fn opened(s: Seq<char>, from: int, to: int) -> bool {
    &&& 0 <= from
    &&& from + 2 <= to <= s.len()
    &&& s[from] == '{'
    &&& s[from + 1] == '{'
    &&& forall|k: int| from + 2 <= k < to ==> is_space(#[trigger] s[k]) || is_name_char(s[k])
}

/// No placeholder of `s` stands inside an opened pair of braces, as the
/// inner one does in `{{ {{a}} }}`.
pub open spec fn unnested(s: Seq<char>) -> bool {
    forall|o: Occurrence, from: int|
        #![trigger is_placeholder(s, o), opened(s, from, o.start)]
        is_placeholder(s, o) ==> !opened(s, from, o.start)
}

/// A brace at the head of a rewritten text was a brace of the text.
proof fn lemma_brace_was_written(s: Seq<char>, at: int, map: Map<Seq<char>, Seq<char>>)
    requires
        0 <= at,
        fills(s, map),
        substitute_from(s, at, map).len() > 0,
        substitute_from(s, at, map)[0] == '{' || substitute_from(s, at, map)[0] == '}',
    ensures
        at < s.len(),
        occurrence_at(s, at) is None,
        substitute_from(s, at, map) == seq![s[at]] + substitute_from(s, at + 1, map),
{
    if occurrence_at(s, at) is Some {
        let o = occurrence_at(s, at).unwrap();
        assert(begins_at(s, at, o));
        assert(variables_of(s).contains(name_of(s, o)));
        let value = map[name_of(s, o)];
        assert(substitute_from(s, at, map)[0] == value[0]);
    }
}

/// Whitespace and name characters at the head of the rewritten text
/// behind an opened pair of braces were written in the text, where no
/// placeholder is nested.
proof fn lemma_inner_was_written(
    s: Seq<char>,
    from: int,
    at: int,
    count: int,
    map: Map<Seq<char>, Seq<char>>,
)
    requires
        unnested(s),
        opened(s, from, at),
        0 <= count <= substitute_from(s, at, map).len(),
        forall|i: int|
            0 <= i < count ==> is_space(#[trigger] substitute_from(s, at, map)[i]) || is_name_char(
                substitute_from(s, at, map)[i],
            ),
    ensures
        at + count <= s.len(),
        forall|i: int| 0 <= i < count ==> s[at + i] == #[trigger] substitute_from(s, at, map)[i],
        substitute_from(s, at, map).skip(count) == substitute_from(s, at + count, map),
    decreases count,
{
    let r = substitute_from(s, at, map);
    if count > 0 {
        if occurrence_at(s, at) is Some {
            let o = occurrence_at(s, at).unwrap();
            assert(begins_at(s, at, o));
            assert(is_placeholder(s, o) && opened(s, from, o.start));
        }
        let tail = substitute_from(s, at + 1, map);
        assert(r == seq![s[at]] + tail);
        assert(r[0] == s[at]);
        assert(opened(s, from, at + 1));
        assert forall|i: int| 0 <= i < count - 1 implies is_space(#[trigger] tail[i])
            || is_name_char(tail[i]) by {
            assert(tail[i] == r[i + 1]);
        }
        lemma_inner_was_written(s, from, at + 1, count - 1, map);
        assert forall|i: int| 0 <= i < count implies s[at + i] == #[trigger] r[i] by {
            if i > 0 {
                assert(tail[i - 1] == r[i]);
            }
        }
        assert(r.skip(count) =~= tail.skip(count - 1));
    } else {
        assert(r.skip(0) =~= r);
    }
}

/// A placeholder at the head of a rewritten text was written in the
/// text, where the text has plain values for its variables and no
/// placeholder is nested.
proof fn lemma_head_was_written(
    s: Seq<char>,
    at: int,
    map: Map<Seq<char>, Seq<char>>,
    o: Occurrence,
)
    requires
        0 <= at,
        fills(s, map),
        unnested(s),
        is_placeholder(substitute_from(s, at, map), o),
        o.start == 0,
    ensures
        is_placeholder(s, shifted(o, at)),
{
    let r = substitute_from(s, at, map);
    lemma_brace_was_written(s, at, map);
    let r1 = substitute_from(s, at + 1, map);
    assert(r1[0] == r[1]);
    lemma_brace_was_written(s, at + 1, map);
    let r2 = substitute_from(s, at + 2, map);
    assert(r2 =~= r.skip(2));
    let count = o.end - 4;
    assert(opened(s, at, at + 2));
    assert forall|i: int| 0 <= i < count implies is_space(#[trigger] r2[i]) || is_name_char(
        r2[i],
    ) by {
        assert(r2[i] == r[i + 2]);
    }
    lemma_inner_was_written(s, at, at + 2, count, map);
    let end = at + 2 + count;
    let r3 = substitute_from(s, end, map);
    assert(r3 == r2.skip(count));
    assert(r3[0] == r[o.end - 2]);
    lemma_brace_was_written(s, end, map);
    let r4 = substitute_from(s, end + 1, map);
    assert(r4[0] == r3[1]);
    assert(r3[1] == r[o.end - 1]);
    lemma_brace_was_written(s, end + 1, map);
    assert forall|k: int| o.start <= k < o.end implies #[trigger] r[k] == s[k + at] by {
        if 2 <= k < o.end - 2 {
            assert(r2[k - 2] == r[k]);
            assert(s[at + 2 + (k - 2)] == r2[k - 2]);
        }
    }
    lemma_same_placeholder(r, s, o, at);
}

/// From `at` on, nothing of the rewritten text is a placeholder.
proof fn lemma_nothing_left_from(s: Seq<char>, at: int, map: Map<Seq<char>, Seq<char>>)
    requires
        0 <= at,
        fills(s, map),
        unnested(s),
    ensures
        forall|o: Occurrence| !is_placeholder(substitute_from(s, at, map), o),
    decreases s.len() - at,
{
    let r = substitute_from(s, at, map);
    if at < s.len() {
        match occurrence_at(s, at) {
            Some(found) => {
                assert(begins_at(s, at, found));
                assert(variables_of(s).contains(name_of(s, found)));
                let value = map[name_of(s, found)];
                let tail = substitute_from(s, found.end, map);
                lemma_nothing_left_from(s, found.end, map);
                assert forall|o: Occurrence| !is_placeholder(r, o) by {
                    if is_placeholder(r, o) {
                        if o.start >= value.len() {
                            lemma_same_placeholder(r, tail, o, -(value.len() as int));
                        } else {
                            assert(r[o.start] == value[o.start]);
                        }
                    }
                }
            },
            None => {
                let tail = substitute_from(s, at + 1, map);
                lemma_nothing_left_from(s, at + 1, map);
                assert forall|o: Occurrence| !is_placeholder(r, o) by {
                    if is_placeholder(r, o) {
                        if o.start >= 1 {
                            lemma_same_placeholder(r, tail, o, -1);
                        } else {
                            lemma_head_was_written(s, at, map, o);
                            assert(begins_at(s, at, shifted(o, at)));
                        }
                    }
                }
            },
        }
    }
}

/// Once every variable has its value, no placeholder is left: the
/// rewritten text holds none, where the values are plain and no
/// placeholder of the text is nested. Each condition is needed. A value
/// with an opening brace can bring a placeholder with it, one that
/// begins with a closing brace can close what the text left open, an
/// empty one can bring two braces of the text together, and a nested
/// placeholder can leave a name between the outer braces.
pub proof fn law_nothing_left(text: Seq<char>, map: Map<Seq<char>, Seq<char>>)
    requires
        fills(text, map),
        unnested(text),
    ensures
        forall|o: Occurrence| !is_placeholder(substitute(text, map), o),
        variables_of(substitute(text, map)) == Set::<Seq<char>>::empty(),
{
    lemma_nothing_left_from(text, 0, map);
    law_no_placeholder_no_variable(substitute(text, map));
}

/// An accepted entry is its key as written, the first `=` and its
/// value: the key as written holds no `=`, the key is its folded form,
/// and the value is not empty.
pub proof fn law_accepted_entry(raw: Seq<char>, key: Seq<char>, value: Seq<char>)
    requires
        parse_entry(raw) == Ok::<_, ParseFailure>((key, value)),
    ensures
        value.len() > 0,
        exists|written: Seq<char>|
            raw == written + seq!['='] + value && !written.contains('=') && key == fold_key(
                written,
            ),
{
    let at = separator(raw).unwrap();
    assert(is_separator(raw, at));
    let written = raw.take(at);
    assert(raw =~= written + seq!['='] + value);
    assert(!written.contains('=')) by {
        if written.contains('=') {
            let j = choose|j: int| 0 <= j < written.len() && written[j] == '=';
            assert(raw[j] == '=');
        }
    }
}

/// Entries added to a map without empty values give a map without
/// empty values.
proof fn lemma_no_empty_value_from(
    entries: Seq<Seq<char>>,
    at: int,
    held: Map<Seq<char>, Seq<char>>,
    map: Map<Seq<char>, Seq<char>>,
)
    requires
        0 <= at,
        forall|key: Seq<char>| held.dom().contains(key) ==> (#[trigger] held[key]).len() > 0,
        collected_from(entries, at, held) == Ok::<_, ParseFailure>(map),
    ensures
        forall|key: Seq<char>| map.dom().contains(key) ==> (#[trigger] map[key]).len() > 0,
    decreases entries.len() - at,
{
    if at < entries.len() {
        match parse_entry(entries[at]) {
            Ok((key, value)) => {
                lemma_no_empty_value_from(entries, at + 1, held.insert(key, value), map);
            },
            Err(_) => {},
        }
    }
}

/// No map gathered from entries holds an empty value.
pub proof fn law_no_empty_value(entries: Seq<Seq<char>>, map: Map<Seq<char>, Seq<char>>)
    requires
        collected(entries) == Ok::<_, ParseFailure>(map),
    ensures
        forall|key: Seq<char>| map.dom().contains(key) ==> (#[trigger] map[key]).len() > 0,
{
    lemma_no_empty_value_from(entries, 0, Map::empty(), map);
}

} // verus!
