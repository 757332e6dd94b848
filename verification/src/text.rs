//! Text helpers over the character view of strings.

use vstd::prelude::*;
use vstd::std_specs::iter::IteratorSpec;

verus! {

/// A set of characters that a scan runs over.
#[derive(Clone, Copy, Debug, PartialEq, Eq)]
pub enum CharClass {
    /// Blanks: space, tab, line feed, vertical tab, form feed, carriage return.
    Space,
    /// Every character that is no blank.
    Word,
    /// Every character but the one given.
    Except(char),
}

/// Whether `c` is a blank.
pub open spec fn is_space(c: char) -> bool {
    c == ' ' || c == '\t' || c == '\n' || c == '\x0b' || c == '\x0c' || c == '\r'
}

impl CharClass {
    /// Whether `c` belongs to the class.
    pub open spec fn has(self, c: char) -> bool {
        match self {
            CharClass::Space => is_space(c),
            CharClass::Word => !is_space(c),
            CharClass::Except(other) => c != other,
        }
    }

    /// Whether `c` belongs to the class.
    pub fn contains(&self, c: char) -> (b: bool)
        ensures
            b == self.has(c),
    {
        match self {
            CharClass::Space => c == ' ' || c == '\t' || c == '\n' || c == '\x0b' || c == '\x0c'
                || c == '\r',
            CharClass::Word => !(c == ' ' || c == '\t' || c == '\n' || c == '\x0b' || c == '\x0c'
                || c == '\r'),
            CharClass::Except(other) => c != *other,
        }
    }
}

/// The end of the longest run of characters of `class` that starts at
/// `from`: the position of the first character at or after `from` that is
/// not of the class, or the length of `text`.
pub open spec fn run_end(text: Seq<char>, from: int, class: CharClass) -> int
    decreases text.len() - from,
{
    if 0 <= from < text.len() && class.has(text[from]) {
        run_end(text, from + 1, class)
    } else {
        from
    }
}

/// The length of `text` without the line feeds at its end.
pub open spec fn trimmed_len(text: Seq<char>) -> int
    decreases text.len(),
{
    if text.len() > 0 && text.last() == '\n' {
        trimmed_len(text.drop_last())
    } else {
        text.len() as int
    }
}

/// `text` without the line feeds at its end.
pub open spec fn strip_newlines(text: Seq<char>) -> Seq<char> {
    text.take(trimmed_len(text))
}

/// Whether `text` begins with `prefix`.
pub open spec fn starts_with(text: Seq<char>, prefix: Seq<char>) -> bool {
    prefix.len() <= text.len() && text.take(prefix.len() as int) == prefix
}

/// The characters of `s`, in order.
pub fn chars_of(s: &str) -> (v: Vec<char>)
    ensures
        v@ == s@,
{
    broadcast use vstd::string::group_string_axioms;

    let mut v: Vec<char> = Vec::new();
    let mut it = s.chars();
    loop
        invariant
            it.obeys_prophetic_iter_laws(),
            it.decrease() is Some,
            v@ + it.remaining() == s@,
        ensures
            v@ == s@,
        decreases it.decrease()->0,
    {
        match it.next() {
            Some(c) => {
                v.push(c);
            },
            None => {
                assert(v@ + it.remaining() =~= v@);
                break ;
            },
        }
    }
    v
}

/// The end of the longest run of characters of `class` in the first `end`
/// characters of `text` that starts at `from`.
pub fn scan(text: &Vec<char>, from: usize, end: usize, class: CharClass) -> (stop: usize)
    requires
        from <= end <= text.len(),
    ensures
        from <= stop <= end,
        stop == run_end(text@.take(end as int), from as int, class),
{
    let ghost part = text@.take(end as int);
    let mut i: usize = from;
    while i < end && class.contains(text[i])
        invariant
            from <= i <= end <= text.len(),
            part == text@.take(end as int),
            run_end(part, from as int, class) == run_end(part, i as int, class),
        decreases end - i,
    {
        assert(part[i as int] == text@[i as int]);
        i = i + 1;
    }
    assert(i < end ==> part[i as int] == text@[i as int]);
    i
}

/// The length of `text` without the line feeds at its end.
pub fn trim_newlines(text: &Vec<char>) -> (end: usize)
    ensures
        end <= text.len(),
        end == trimmed_len(text@),
{
    let mut end: usize = text.len();
    assert(text@.take(end as int) =~= text@);
    while end > 0 && text[end - 1] == '\n'
        invariant
            end <= text.len(),
            trimmed_len(text@) == trimmed_len(text@.take(end as int)),
        decreases end,
    {
        assert(text@.take(end as int).last() == text@[end - 1]);
        assert(text@.take(end as int).drop_last() =~= text@.take(end - 1));
        end = end - 1;
    }
    assert(end > 0 ==> text@.take(end as int).last() == text@[end - 1]);
    end
}

/// Whether the first `end` characters of `text` are exactly `word`.
pub fn is_word(text: &Vec<char>, end: usize, word: &str) -> (b: bool)
    requires
        end <= text.len(),
    ensures
        b == (text@.take(end as int) == word@),
{
    let letters = chars_of(word);
    if letters.len() != end {
        return false;
    }
    let mut i: usize = 0;
    while i < end
        invariant
            i <= end <= text.len(),
            letters.len() == end,
            letters@ == word@,
            forall|j: int| 0 <= j < i ==> text@[j] == letters@[j],
        decreases end - i,
    {
        if text[i] != letters[i] {
            assert(text@.take(end as int)[i as int] != word@[i as int]);
            return false;
        }
        i = i + 1;
    }
    assert(text@.take(end as int) =~= word@);
    true
}

/// Whether the first `end` characters of `text` begin with `prefix`.
pub fn has_prefix(text: &Vec<char>, end: usize, prefix: &str) -> (b: bool)
    requires
        end <= text.len(),
    ensures
        b == starts_with(text@.take(end as int), prefix@),
        b ==> prefix@.len() <= end,
{
    let letters = chars_of(prefix);
    if letters.len() > end {
        return false;
    }
    let b = is_word(text, letters.len(), prefix);
    assert(text@.take(end as int).take(letters.len() as int) =~= text@.take(
        letters.len() as int,
    ));
    b
}

/// Whether the characters of `text` from `from` up to `to` are exactly
/// `word`.
pub fn is_word_at(text: &Vec<char>, from: usize, to: usize, word: &str) -> (b: bool)
    requires
        from <= to <= text.len(),
    ensures
        b == (text@.subrange(from as int, to as int) == word@),
{
    let letters = chars_of(word);
    if letters.len() != to - from {
        return false;
    }
    let mut i: usize = 0;
    while i < letters.len()
        invariant
            i <= letters.len(),
            from <= to <= text.len(),
            letters.len() == to - from,
            letters@ == word@,
            forall|j: int| 0 <= j < i ==> text@[from + j] == letters@[j],
        decreases letters.len() - i,
    {
        if text[from + i] != letters[i] {
            assert(text@.subrange(from as int, to as int)[i as int] != word@[i as int]);
            return false;
        }
        i = i + 1;
    }
    assert(text@.subrange(from as int, to as int) =~= word@);
    true
}

/// Whether `c` has the Unicode property `White_Space`: the controls from
/// tab to carriage return, the space, next line, the no-break space, the
/// ogham space mark, the spaces from en quad to hair space, the line and
/// paragraph separators, the narrow no-break space, the medium mathematical
/// space and the ideographic space.
pub open spec fn is_whitespace(c: char) -> bool {
    let n = c as u32;
    (0x09 <= n <= 0x0d) || n == 0x20 || n == 0x85 || n == 0xa0 || n == 0x1680 || (0x2000 <= n
        <= 0x200a) || n == 0x2028 || n == 0x2029 || n == 0x202f || n == 0x205f || n == 0x3000
}

/// The number of white-space characters at the start of `text`.
pub open spec fn leading_whitespace(text: Seq<char>) -> int
    decreases text.len(),
{
    if text.len() > 0 && is_whitespace(text[0]) {
        1 + leading_whitespace(text.skip(1))
    } else {
        0
    }
}

/// The length of `text` without the white space at its end.
pub open spec fn without_trailing_whitespace(text: Seq<char>) -> int
    decreases text.len(),
{
    if text.len() > 0 && is_whitespace(text.last()) {
        without_trailing_whitespace(text.drop_last())
    } else {
        text.len() as int
    }
}

/// `text` without the white space at its two ends.
pub open spec fn trimmed(text: Seq<char>) -> Seq<char> {
    let rest = text.skip(leading_whitespace(text));
    rest.take(without_trailing_whitespace(rest))
}

/// Calls `char::is_whitespace`, which tells whether a character has the
/// Unicode property `White_Space`; the property holds of twenty-five
/// characters, those that `is_whitespace` lists.
#[verifier::external_body]
fn is_white_space(c: char) -> (b: bool)
    ensures
        b == is_whitespace(c),
{
    c.is_whitespace()
}

/// Where `text` without the white space at its two ends begins and ends.
pub fn trim_bounds(text: &Vec<char>) -> (r: (usize, usize))
    ensures
        r.0 <= r.1 <= text.len(),
        trimmed(text@) == text@.subrange(r.0 as int, r.1 as int),
{
    let mut start: usize = 0;
    assert(text@.skip(0) =~= text@);
    while start < text.len() && is_white_space(text[start])
        invariant
            start <= text.len(),
            leading_whitespace(text@) == start + leading_whitespace(text@.skip(start as int)),
        decreases text.len() - start,
    {
        assert(text@.skip(start as int)[0] == text@[start as int]);
        assert(text@.skip(start as int).skip(1) =~= text@.skip(start + 1));
        start = start + 1;
    }
    assert(start < text.len() ==> text@.skip(start as int)[0] == text@[start as int]);
    let ghost rest = text@.skip(start as int);
    let mut end: usize = text.len();
    assert(rest.take(end - start) =~= rest);
    while end > start && is_white_space(text[end - 1])
        invariant
            start <= end <= text.len(),
            rest == text@.skip(start as int),
            without_trailing_whitespace(rest) == without_trailing_whitespace(
                rest.take(end - start),
            ),
        decreases end,
    {
        assert(rest.take(end - start).last() == text@[end - 1]);
        assert(rest.take(end - start).drop_last() =~= rest.take(end - start - 1));
        end = end - 1;
    }
    assert(end > start ==> rest.take(end - start).last() == text@[end - 1]);
    assert(rest.take(end - start) =~= text@.subrange(start as int, end as int));
    (start, end)
}

} // verus!
