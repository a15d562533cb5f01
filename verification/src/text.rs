//! Strings as sequences of characters: the conversions between `str`,
//! `String` and slices of characters that the assembler reads and writes
//! text through.

use vstd::prelude::*;

verus! {

/// `String::push` is taken on trust: it appends the character to the end of
/// the string and changes nothing else.
pub assume_specification[ String::push ](text: &mut String, c: char)
    ensures
        final(text)@ == old(text)@.push(c),
;

/// The characters of `text`, in order.
pub fn chars_of(text: &str) -> (chars: Vec<char>)
    ensures
        chars@ == text@,
{
    let mut chars: Vec<char> = Vec::new();
    for c in it: text.chars()
        invariant
            chars@ == it.seq().take(it.index() as int),
    {
        chars.push(c);
    }
    chars
}

/// The string made of `chars`, in order.
pub fn string_of(chars: &[char]) -> (text: String)
    ensures
        text@ == chars@,
{
    let mut text = String::new();
    let mut i: usize = 0;
    while i < chars.len()
        invariant
            i <= chars.len(),
            text@ == chars@.take(i as int),
        decreases chars.len() - i,
    {
        text.push(chars[i]);
        i = i + 1;
    }
    text
}

/// Whether `chars` spells exactly `text`.
pub fn spells(chars: &[char], text: &str) -> (same: bool)
    ensures
        same == (chars@ == text@),
{
    let mut i: usize = 0;
    for c in it: text.chars()
        invariant
            i == it.index(),
            i <= chars.len(),
            chars@.take(i as int) == it.seq().take(i as int),
            it.seq() == text@,
    {
        if i >= chars.len() || chars[i] != c {
            assert(chars@ != text@) by {
                if chars@ == text@ {
                    assert(chars@[i as int] == c);
                }
            }
            return false;
        }
        i = i + 1;
    }
    assert(text@ =~= text@.take(i as int));
    assert(chars@.len() == i ==> chars@ =~= chars@.take(i as int));
    i == chars.len()
}

} // verus!
