//! Character classes, and the longest run of one class in a text.

use vstd::prelude::*;

verus! {

/// Whether the standard library counts `c` as alphabetic.
pub uninterp spec fn unicode_alphabetic(c: char) -> bool;

/// Whether the standard library counts `c` as alphanumeric.
pub uninterp spec fn unicode_alphanumeric(c: char) -> bool;

/// `char::is_alphabetic` of the standard library looks `c` up in the Unicode
/// tables. The tables are not spelled out here: the answer is only given the
/// name [`unicode_alphabetic`], so all that is assumed is that it depends on
/// `c` alone.
pub assume_specification[ char::is_alphabetic ](c: char) -> (b: bool)
    ensures
        b == unicode_alphabetic(c),
;

/// `char::is_alphanumeric` of the standard library looks `c` up in the Unicode
/// tables. The answer is only given the name [`unicode_alphanumeric`], so all
/// that is assumed is that it depends on `c` alone.
pub assume_specification[ char::is_alphanumeric ](c: char) -> (b: bool)
    ensures
        b == unicode_alphanumeric(c),
;

/// Space, tab, carriage return and newline separate tokens.
pub open spec fn blank(c: char) -> bool {
    c == ' ' || c == '\t' || c == '\r' || c == '\n'
}

/// The ten decimal digits.
pub open spec fn digit(c: char) -> bool {
    '0' <= c <= '9'
}

/// A letter or an underscore may start an identifier.
pub open spec fn identifier_start(c: char) -> bool {
    unicode_alphabetic(c) || c == '_'
}

/// Whatever may start an identifier may continue it, and so may any
/// alphanumeric character.
pub open spec fn identifier_char(c: char) -> bool {
    identifier_start(c) || unicode_alphanumeric(c)
}

/// Whether `ch` is a blank.
pub fn is_blank(ch: char) -> (b: bool)
    ensures
        b == blank(ch),
{
    ch == ' ' || ch == '\t' || ch == '\r' || ch == '\n'
}

/// Whether `ch` is a decimal digit.
pub fn is_digit(ch: char) -> (b: bool)
    ensures
        b == digit(ch),
{
    '0' <= ch && ch <= '9'
}

/// Whether `ch` can start an identifier.
pub fn is_identifier_start(ch: char) -> (b: bool)
    ensures
        b == identifier_start(ch),
{
    ch.is_alphabetic() || ch == '_'
}

/// Whether `ch` can be part of an identifier.
pub fn is_identifier_char(ch: char) -> (b: bool)
    ensures
        b == identifier_char(ch),
{
    is_identifier_start(ch) || ch.is_alphanumeric()
}

/// The kinds of character that the lexer consumes in runs.
#[derive(Debug, Clone, Copy, PartialEq, Eq, Structural)]
pub enum CharClass {
    /// Blanks between tokens.
    Blank,
    /// Decimal digits.
    Digit,
    /// Characters of an identifier.
    Identifier,
    /// Everything up to the end of the line: the text of a comment.
    CommentText,
    /// Everything up to the next double quote: the text of a string literal.
    StringText,
}

impl CharClass {
    /// Whether `c` belongs to the class.
    pub open spec fn contains(self, c: char) -> bool {
        match self {
            CharClass::Blank => blank(c),
            CharClass::Digit => digit(c),
            CharClass::Identifier => identifier_char(c),
            CharClass::CommentText => c != '\n',
            CharClass::StringText => c != '"',
        }
    }

    /// Whether `ch` belongs to the class.
    pub fn has(self, ch: char) -> (b: bool)
        ensures
            b == self.contains(ch),
    {
        match self {
            CharClass::Blank => is_blank(ch),
            CharClass::Digit => is_digit(ch),
            CharClass::Identifier => is_identifier_char(ch),
            CharClass::CommentText => ch != '\n',
            CharClass::StringText => ch != '"',
        }
    }
}

/// Where the longest run of `class` characters that begins at `pos` ends: the
/// first position from `pos` on that is outside `src` or holds a character of
/// another class.
pub open spec fn run_end(src: Seq<char>, pos: int, class: CharClass) -> int
    decreases src.len() - pos,
{
    if 0 <= pos < src.len() && class.contains(src[pos]) {
        run_end(src, pos + 1, class)
    } else {
        pos
    }
}

/// Whether `end` closes a run of `class` characters that begins at `pos` and
/// cannot be made longer.
pub open spec fn is_longest_run(src: Seq<char>, pos: int, end: int, class: CharClass) -> bool {
    &&& pos <= end <= src.len()
    &&& forall|i: int| pos <= i < end ==> class.contains(#[trigger] src[i])
    &&& end < src.len() ==> !class.contains(src[end])
}

/// A run ends at or after its beginning, and inside the text.
pub proof fn lemma_run_end_bounds(src: Seq<char>, pos: int, class: CharClass)
    ensures
        pos <= run_end(src, pos, class),
        pos <= src.len() ==> run_end(src, pos, class) <= src.len(),
    decreases src.len() - pos,
{
    if 0 <= pos < src.len() && class.contains(src[pos]) {
        lemma_run_end_bounds(src, pos + 1, class);
    }
}

/// `run_end` gives the longest run: every character before it is of the
/// class, and the run stops only at the end of the text or at a character of
/// another class.
pub proof fn lemma_run_end_is_longest(src: Seq<char>, pos: int, class: CharClass)
    requires
        0 <= pos <= src.len(),
    ensures
        is_longest_run(src, pos, run_end(src, pos, class), class),
    decreases src.len() - pos,
{
    if pos < src.len() && class.contains(src[pos]) {
        lemma_run_end_is_longest(src, pos + 1, class);
    }
}

/// A run that is entered in its middle ends where the whole run ends.
pub proof fn lemma_run_end_from_inside(src: Seq<char>, pos: int, mid: int, class: CharClass)
    requires
        0 <= pos <= mid <= run_end(src, pos, class),
    ensures
        run_end(src, mid, class) == run_end(src, pos, class),
    decreases mid - pos,
{
    if pos < mid {
        lemma_run_end_from_inside(src, pos + 1, mid, class);
    }
}

} // verus!
