//! Conversions between strings and character buffers.

use vstd::prelude::*;
use vstd::string::*;

verus! {

/// `String::push` appends the given character to the end of the string.
pub assume_specification[ std::string::String::push ](s: &mut std::string::String, ch: char)
    ensures
        final(s)@ == old(s)@.push(ch),
;

/// Whether `c` has the Unicode property `Alphabetic`, as `char::is_alphabetic`
/// reads it from the tables of the standard library.
pub uninterp spec fn unicode_alphabetic(c: char) -> bool;

/// Whether `c` is a number in Unicode's terms, as `char::is_numeric` reads
/// it from the tables of the standard library.
pub uninterp spec fn unicode_numeric(c: char) -> bool;

/// `char::is_alphabetic` looks its argument up in fixed tables, so its answer
/// depends on the character alone.
pub assume_specification[ char::is_alphabetic ](c: char) -> (alphabetic: bool)
    ensures
        alphabetic == unicode_alphabetic(c),
;

/// `char::is_alphanumeric` holds of the characters of which
/// `char::is_alphabetic` or `char::is_numeric` holds.
pub assume_specification[ char::is_alphanumeric ](c: char) -> (alphanumeric: bool)
    ensures
        alphanumeric == (unicode_alphabetic(c) || unicode_numeric(c)),
;

/// The characters of `s`, in order.
pub fn chars_of(s: &str) -> (chars: Vec<char>)
    ensures
        chars@ == s@,
{
    let mut chars: Vec<char> = Vec::new();
    for c in it: s.chars()
        invariant
            it.seq() == s@,
            chars@ == s@.subrange(0, it.index() as int),
    {
        chars.push(c);
    }
    assert(chars@ == s@);
    chars
}

/// The string made of `chars[from..to]`.
pub fn string_of(chars: &Vec<char>, from: usize, to: usize) -> (s: String)
    requires
        from <= to <= chars.len(),
    ensures
        s@ == chars@.subrange(from as int, to as int),
{
    let mut s = String::new();
    let mut i: usize = from;
    while i < to
        invariant
            from <= i <= to <= chars.len(),
            s@ == chars@.subrange(from as int, i as int),
        decreases to - i,
    {
        s.push(chars[i]);
        i += 1;
    }
    s
}

/// Whether `chars[from..to]` spells exactly `word`.
pub fn text_is(chars: &Vec<char>, from: usize, to: usize, word: &str) -> (same: bool)
    requires
        from <= to <= chars.len(),
    ensures
        same == (chars@.subrange(from as int, to as int) == word@),
{
    let n = word.unicode_len();
    if to - from != n {
        return false;
    }
    let mut i: usize = 0;
    while i < n
        invariant
            from <= to <= chars.len(),
            to - from == n,
            n == word@.len(),
            i <= n,
            chars@.subrange(from as int, from + i) == word@.subrange(0, i as int),
        decreases n - i,
    {
        if chars[from + i] != word.get_char(i) {
            assert(chars@.subrange(from as int, to as int)[i as int] != word@[i as int]);
            return false;
        }
        assert(chars@.subrange(from as int, from + i + 1) == word@.subrange(0, i + 1)) by {
            let a = chars@.subrange(from as int, from + i + 1);
            let b = word@.subrange(0, i + 1);
            assert(a.len() == b.len());
            assert forall|k: int| 0 <= k < a.len() implies a[k] == b[k] by {
                if k < i {
                    assert(a[k] == chars@.subrange(from as int, from + i)[k]);
                    assert(b[k] == word@.subrange(0, i as int)[k]);
                }
            }
        }
        i += 1;
    }
    assert(chars@.subrange(from as int, to as int) == word@) by {
        assert(word@.subrange(0, n as int) == word@);
    }
    true
}

} // verus!
