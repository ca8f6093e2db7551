//! Moving between strings and sequences of characters.

use vstd::prelude::*;
use crate::syntax::{fold, fold_one};

verus! {

/// What `str::to_lowercase` makes of the characters `s`.
pub uninterp spec fn lowercase(s: Seq<char>) -> Seq<char>;

/// Believed of `str::to_lowercase`, not proved: the string that it
/// returns depends on the characters of `s` alone. What that string
/// holds is not said here.
pub assume_specification[ str::to_lowercase ](s: &str) -> (r: String)
    ensures
        r@ == lowercase(s@),
;

/// Believed of `String::push`, not proved: it appends the character to
/// the end of the string and leaves the rest as it was.
pub assume_specification[ String::push ](s: &mut String, c: char)
    ensures
        final(s)@ == old(s)@.push(c),
;

/// Every character of `s` is an ASCII character.
pub open spec fn all_ascii(s: Seq<char>) -> bool {
    forall|k: int| 0 <= k < s.len() ==> #[trigger] s[k] <= '\u{7f}'
}

/// The characters of `s`, in order.
pub fn chars_of(s: &str) -> (v: Vec<char>)
    ensures
        v@ == s@,
{
    let mut v: Vec<char> = Vec::new();
    for c in it: s.chars()
        invariant
            it.seq() == s@,
            v@ == s@.take(it.index() as int),
    {
        v.push(c);
    }
    v
}

/// Tests whether two string slices hold the same characters.
pub fn str_eq(a: &str, b: &str) -> (r: bool)
    ensures
        r == (a@ == b@),
{
    let x = a.as_bytes();
    let y = b.as_bytes();
    proof {
        vstd::utf8::encode_utf8_decode_utf8(a@);
        vstd::utf8::encode_utf8_decode_utf8(b@);
    }
    if x.len() != y.len() {
        return false;
    }
    let mut i: usize = 0;
    while i < x.len()
        invariant
            i <= x.len(),
            x.len() == y.len(),
            x@ == vstd::utf8::encode_utf8(a@),
            y@ == vstd::utf8::encode_utf8(b@),
            forall|k: int| 0 <= k < i ==> x@[k] == y@[k],
        decreases x.len() - i,
    {
        if x[i] != y[i] {
            return false;
        }
        i += 1;
    }
    assert(x@ =~= y@);
    true
}

/// Appends `chars[from..to]` to `out`.
pub fn push_range(out: &mut String, chars: &[char], from: usize, to: usize)
    requires
        from <= to <= chars.len(),
    ensures
        final(out)@ == old(out)@ + chars@.subrange(from as int, to as int),
{
    let mut i: usize = from;
    while i < to
        invariant
            from <= i <= to <= chars.len(),
            out@ == old(out)@ + chars@.subrange(from as int, i as int),
        decreases to - i,
    {
        out.push(chars[i]);
        i += 1;
    }
}

/// The string made of `chars[from..to]`.
pub fn string_of(chars: &[char], from: usize, to: usize) -> (s: String)
    requires
        from <= to <= chars.len(),
    ensures
        s@ == chars@.subrange(from as int, to as int),
{
    let mut s = String::new();
    push_range(&mut s, chars, from, to);
    s
}

/// The string made of `chars[from..to]` with its ASCII capital letters
/// brought to lower case.
pub fn folded(chars: &[char], from: usize, to: usize) -> (s: String)
    requires
        from <= to <= chars.len(),
    ensures
        s@ == fold(chars@.subrange(from as int, to as int)),
{
    let mut s = String::new();
    let mut i: usize = from;
    while i < to
        invariant
            from <= i <= to <= chars.len(),
            s@ == fold(chars@.subrange(from as int, i as int)),
        decreases to - i,
    {
        s.push(fold_one(chars[i]));
        i += 1;
    }
    s
}

/// Tests whether `chars[..to]` holds ASCII characters only.
pub fn ascii_upto(chars: &[char], to: usize) -> (r: bool)
    requires
        to <= chars.len(),
    ensures
        r == all_ascii(chars@.take(to as int)),
{
    let mut i: usize = 0;
    while i < to
        invariant
            i <= to <= chars.len(),
            all_ascii(chars@.take(i as int)),
        decreases to - i,
    {
        if chars[i] > '\u{7f}' {
            assert(chars@.take(to as int)[i as int] == chars@[i as int]);
            return false;
        }
        i += 1;
    }
    true
}

} // verus!
