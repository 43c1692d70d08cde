//! Moving between strings and vectors of characters.

use vstd::prelude::*;

verus! {

/// `String::push` of the standard library appends one character to the end
/// of the string and leaves the characters before it as they were.
pub assume_specification[ String::push ](s: &mut String, c: char)
    ensures
        final(s)@ == old(s)@.push(c),
;

/// The characters of `text`, in order.
pub fn chars_of(text: &str) -> (chars: Vec<char>)
    ensures
        chars@ == text@,
{
    let mut chars: Vec<char> = Vec::new();
    for c in it: text.chars()
        invariant
            it.seq() == text@,
            chars@ == it.seq().take(it.index() as int),
    {
        chars.push(c);
    }
    chars
}

/// The characters of `chars` from `from` up to, not including, `to`, as a
/// string.
pub fn string_of(chars: &Vec<char>, from: usize, to: usize) -> (text: String)
    requires
        from <= to <= chars.len(),
    ensures
        text@ == chars@.subrange(from as int, to as int),
{
    let mut text = String::new();
    let mut i: usize = from;
    while i < to
        invariant
            from <= i <= to <= chars.len(),
            text@ == chars@.subrange(from as int, i as int),
        decreases to - i,
    {
        text.push(chars[i]);
        i += 1;
    }
    text
}

/// Whether `text` is spelled exactly as `word`, character by character.
/// Meant for a short `word`: the cost grows with the square of its length.
pub fn same_text(text: &str, word: &str) -> (same: bool)
    ensures
        same == (text@ == word@),
{
    let n: usize = text.unicode_len();
    if n != word.unicode_len() {
        return false;
    }
    let mut i: usize = 0;
    while i < n
        invariant
            i <= n,
            n == text@.len(),
            n == word@.len(),
            forall|j: int| 0 <= j < i ==> text@[j] == word@[j],
        decreases n - i,
    {
        if text.get_char(i) != word.get_char(i) {
            return false;
        }
        i += 1;
    }
    assert(text@ =~= word@);
    true
}

/// Whether `ch` is one of the characters of `text`.
pub fn holds_char(text: &str, ch: char) -> (found: bool)
    ensures
        found == text@.contains(ch),
{
    for c in it: text.chars()
        invariant
            it.seq() == text@,
            forall|j: int| 0 <= j < it.index() ==> text@[j] != ch,
    {
        if c == ch {
            assert(text@[it.index() as int] == ch);
            return true;
        }
    }
    false
}

} // verus!
