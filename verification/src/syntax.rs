//! The placeholder syntax: two opening braces, optional whitespace, a
//! name of one or more letters, digits or underscores, optional
//! whitespace, two closing braces. As a regular expression:
//! `\{\{\s*([a-zA-Z0-9_]+)\s*\}\}`.
//!
//! The three kinds of character that make up a placeholder (braces,
//! whitespace, name characters) have nothing in common, so a text can be
//! read as a placeholder from a given place in one way at most, and two
//! placeholders of a text never overlap.

use vstd::prelude::*;

verus! {

/// Holds for the characters that count as whitespace inside the braces:
/// the code points that Unicode marks as `White_Space`.
pub open spec fn is_space(c: char) -> bool {
    ||| ('\t' <= c && c <= '\r')
    ||| c == ' '
    ||| c == '\u{85}'
    ||| c == '\u{a0}'
    ||| c == '\u{1680}'
    ||| ('\u{2000}' <= c && c <= '\u{200a}')
    ||| c == '\u{2028}'
    ||| c == '\u{2029}'
    ||| c == '\u{202f}'
    ||| c == '\u{205f}'
    ||| c == '\u{3000}'
}

/// Holds for the characters that may occur in a variable name: the
/// ASCII letters, the ASCII digits and the underscore.
pub open spec fn is_name_char(c: char) -> bool {
    ||| ('a' <= c && c <= 'z')
    ||| ('A' <= c && c <= 'Z')
    ||| ('0' <= c && c <= '9')
    ||| c == '_'
}

/// Every character of `s[from..to]` is whitespace.
pub open spec fn spaces(s: Seq<char>, from: int, to: int) -> bool {
    forall|k: int| from <= k < to ==> is_space(#[trigger] s[k])
}

/// Every character of `s[from..to]` may occur in a name.
pub open spec fn name_chars(s: Seq<char>, from: int, to: int) -> bool {
    forall|k: int| from <= k < to ==> is_name_char(#[trigger] s[k])
}

/// Where one placeholder lies in a text: the whole of it is
/// `[start, end)`, its name is `[name_start, name_end)`.
pub struct Occurrence {
    pub start: int,
    pub name_start: int,
    pub name_end: int,
    pub end: int,
}

/// `o` marks a placeholder of `s`.
pub open spec fn is_placeholder(s: Seq<char>, o: Occurrence) -> bool {
    &&& 0 <= o.start
    &&& o.start + 2 <= o.name_start
    &&& o.name_start < o.name_end
    &&& o.name_end + 2 <= o.end
    &&& o.end <= s.len()
    &&& s[o.start] == '{'
    &&& s[o.start + 1] == '{'
    &&& spaces(s, o.start + 2, o.name_start)
    &&& name_chars(s, o.name_start, o.name_end)
    &&& spaces(s, o.name_end, o.end - 2)
    &&& s[o.end - 2] == '}'
    &&& s[o.end - 1] == '}'
}

/// `o` marks a placeholder of `s` that begins at `at`.
pub open spec fn begins_at(s: Seq<char>, at: int, o: Occurrence) -> bool {
    is_placeholder(s, o) && o.start == at
}

/// The placeholder of `s` that begins at `at`, if there is one.
pub open spec fn occurrence_at(s: Seq<char>, at: int) -> Option<Occurrence> {
    if exists|o: Occurrence| begins_at(s, at, o) {
        Some(choose|o: Occurrence| begins_at(s, at, o))
    } else {
        None
    }
}

/// A character with an ASCII capital letter brought to lower case.
pub open spec fn fold_char(c: char) -> char {
    if 'A' <= c && c <= 'Z' {
        ((c as u8) + 32) as char
    } else {
        c
    }
}

/// A sequence of characters with its ASCII capital letters brought to
/// lower case. Names are compared by this form.
pub open spec fn fold(s: Seq<char>) -> Seq<char> {
    Seq::new(s.len(), |k: int| fold_char(s[k]))
}

/// The name of the placeholder `o` of `s`, folded.
pub open spec fn name_of(s: Seq<char>, o: Occurrence) -> Seq<char> {
    fold(s.subrange(o.name_start, o.name_end))
}

/// The whole text of the placeholder `o` of `s`, braces included.
pub open spec fn text_of(s: Seq<char>, o: Occurrence) -> Seq<char> {
    s.subrange(o.start, o.end)
}

/// A placeholder's parts are fixed by the place where it begins.
pub proof fn lemma_one_placeholder_per_start(s: Seq<char>, a: Occurrence, b: Occurrence)
    requires
        is_placeholder(s, a),
        is_placeholder(s, b),
        a.start == b.start,
    ensures
        a == b,
{
    lemma_parts(s, a, b.name_start, b.name_end, b.end - 2);
}

/// Placeholders do not overlap: one that begins after another begins
/// after its end.
pub proof fn lemma_placeholders_apart(s: Seq<char>, a: Occurrence, b: Occurrence)
    requires
        is_placeholder(s, a),
        is_placeholder(s, b),
        a.start < b.start,
    ensures
        a.end <= b.start,
{
    if b.start < a.end {
        let k = b.start;
        if k == a.start + 1 {
            assert(is_space(s[k + 1]) || is_name_char(s[k + 1]));
        } else if k < a.end - 2 {
            assert(is_space(s[k]) || is_name_char(s[k]));
        }
    }
}

/// The same marks, moved by `by` places.
pub open spec fn shifted(o: Occurrence, by: int) -> Occurrence {
    Occurrence {
        start: o.start + by,
        name_start: o.name_start + by,
        name_end: o.name_end + by,
        end: o.end + by,
    }
}

/// A placeholder is one wherever its characters stand: if `t` holds, `by`
/// places further on, the characters that `s` holds in `o`, then `t` has
/// the same placeholder there, with the same name and the same text.
pub proof fn lemma_same_placeholder(s: Seq<char>, t: Seq<char>, o: Occurrence, by: int)
    requires
        is_placeholder(s, o),
        0 <= o.start + by,
        o.end + by <= t.len(),
        forall|k: int| o.start <= k < o.end ==> #[trigger] s[k] == t[k + by],
    ensures
        is_placeholder(t, shifted(o, by)),
        name_of(t, shifted(o, by)) == name_of(s, o),
        text_of(t, shifted(o, by)) == text_of(s, o),
{
    let p = shifted(o, by);
    assert(s[o.start] == t[o.start + by]);
    assert(s[o.start + 1] == t[o.start + 1 + by]);
    assert(s[o.end - 2] == t[o.end - 2 + by]);
    assert(s[o.end - 1] == t[o.end - 1 + by]);
    assert forall|k: int| p.start + 2 <= k < p.name_start implies is_space(#[trigger] t[k]) by {
        assert(s[k - by] == t[k - by + by]);
    }
    assert forall|k: int| p.name_start <= k < p.name_end implies is_name_char(#[trigger] t[k]) by {
        assert(s[k - by] == t[k - by + by]);
    }
    assert forall|k: int| p.name_end <= k < p.end - 2 implies is_space(#[trigger] t[k]) by {
        assert(s[k - by] == t[k - by + by]);
    }
    assert(text_of(t, p) =~= text_of(s, o)) by {
        assert forall|k: int| 0 <= k < o.end - o.start implies text_of(t, p)[k] == text_of(s, o)[k] by {
            assert(s[o.start + k] == t[o.start + k + by]);
        }
    }
    assert(t.subrange(p.name_start, p.name_end) =~= s.subrange(o.name_start, o.name_end)) by {
        assert forall|k: int| 0 <= k < o.name_end - o.name_start implies t.subrange(
            p.name_start,
            p.name_end,
        )[k] == s.subrange(o.name_start, o.name_end)[k] by {
            assert(s[o.name_start + k] == t[o.name_start + k + by]);
        }
    }
}

/// The parts of a placeholder are the longest runs of whitespace and of
/// name characters behind its opening braces.
proof fn lemma_parts(s: Seq<char>, o: Occurrence, a: int, b: int, c: int)
    requires
        is_placeholder(s, o),
        o.start + 2 <= a <= b <= c <= s.len(),
        spaces(s, o.start + 2, a),
        a == s.len() || !is_space(s[a]),
        name_chars(s, a, b),
        b == s.len() || !is_name_char(s[b]),
        spaces(s, b, c),
        c == s.len() || !is_space(s[c]),
    ensures
        o.name_start == a,
        o.name_end == b,
        o.end == c + 2,
{
    assert(o.name_start == a) by {
        if o.name_start < a {
            assert(is_space(s[o.name_start]) && is_name_char(s[o.name_start]));
        } else if a < o.name_start {
            assert(is_space(s[a]));
        }
    }
    assert(o.name_end == b) by {
        if o.name_end < b {
            assert(is_name_char(s[o.name_end]));
            assert(is_space(s[o.name_end]) || s[o.name_end] == '}');
        } else if b < o.name_end {
            assert(is_name_char(s[b]));
        }
    }
    assert(o.end - 2 == c) by {
        if o.end - 2 < c {
            assert(is_space(s[o.end - 2]));
        } else if c < o.end - 2 {
            assert(is_space(s[c]));
        }
    }
}

/// Tests whether `c` counts as whitespace inside the braces.
pub fn space_char(c: char) -> (r: bool)
    ensures
        r == is_space(c),
{
    ('\t' <= c && c <= '\r') || c == ' ' || c == '\u{85}' || c == '\u{a0}' || c == '\u{1680}' || (
    '\u{2000}' <= c && c <= '\u{200a}') || c == '\u{2028}' || c == '\u{2029}' || c == '\u{202f}'
        || c == '\u{205f}' || c == '\u{3000}'
}

/// Tests whether `c` may occur in a variable name.
pub fn name_char(c: char) -> (r: bool)
    ensures
        r == is_name_char(c),
{
    ('a' <= c && c <= 'z') || ('A' <= c && c <= 'Z') || ('0' <= c && c <= '9') || c == '_'
}

/// Brings an ASCII capital letter to lower case and leaves every other
/// character as it is.
pub fn fold_one(c: char) -> (r: char)
    ensures
        r == fold_char(c),
{
    if 'A' <= c && c <= 'Z' {
        let b: u8 = c as u8;
        (b + 32) as char
    } else {
        c
    }
}

/// Where one placeholder lies in a text, as indices into its characters.
#[derive(Clone, Copy, Debug)]
pub struct Span {
    pub start: usize,
    pub name_start: usize,
    pub name_end: usize,
    pub end: usize,
}

impl View for Span {
    type V = Occurrence;

    open spec fn view(&self) -> Occurrence {
        Occurrence {
            start: self.start as int,
            name_start: self.name_start as int,
            name_end: self.name_end as int,
            end: self.end as int,
        }
    }
}

/// A span that may be wanting, taken as marks in the text.
pub open spec fn span_view(r: Option<Span>) -> Option<Occurrence> {
    match r {
        Some(span) => Some(span@),
        None => None,
    }
}

/// The end of the run of whitespace that begins at `from`.
fn skip_spaces(text: &[char], from: usize) -> (to: usize)
    requires
        from <= text.len(),
    ensures
        from <= to <= text.len(),
        spaces(text@, from as int, to as int),
        to == text.len() || !is_space(text@[to as int]),
{
    let mut to: usize = from;
    while to < text.len() && space_char(text[to])
        invariant
            from <= to <= text.len(),
            spaces(text@, from as int, to as int),
        decreases text.len() - to,
    {
        to += 1;
    }
    to
}

/// The end of the run of name characters that begins at `from`.
fn skip_name(text: &[char], from: usize) -> (to: usize)
    requires
        from <= text.len(),
    ensures
        from <= to <= text.len(),
        name_chars(text@, from as int, to as int),
        to == text.len() || !is_name_char(text@[to as int]),
{
    let mut to: usize = from;
    while to < text.len() && name_char(text[to])
        invariant
            from <= to <= text.len(),
            name_chars(text@, from as int, to as int),
        decreases text.len() - to,
    {
        to += 1;
    }
    to
}

/// Looks for a placeholder that begins at `at`.
pub fn placeholder_at(text: &[char], at: usize) -> (r: Option<Span>)
    ensures
        span_view(r) == occurrence_at(text@, at as int),
{
    let n = text.len();
    if at >= n || n - at < 5 || text[at] != '{' || text[at + 1] != '{' {
        return None;
    }
    let a = skip_spaces(text, at + 2);
    let b = skip_name(text, a);
    let c = skip_spaces(text, b);
    let found = a < b && n - c >= 2 && text[c] == '}' && text[c + 1] == '}';
    proof {
        assert forall|o: Occurrence| begins_at(text@, at as int, o) implies o.name_start == a
            && o.name_end == b && o.end == c + 2 by {
            lemma_parts(text@, o, a as int, b as int, c as int);
        }
    }
    if found {
        let span = Span { start: at, name_start: a, name_end: b, end: c + 2 };
        assert(begins_at(text@, at as int, span@));
        Some(span)
    } else {
        None
    }
}

} // verus!
