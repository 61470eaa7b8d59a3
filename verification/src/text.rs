//! Strings as sequences of characters.

use vstd::prelude::*;

verus! {

/// The characters of a string.
pub(crate) fn characters(s: &str) -> (res: Vec<char>)
    ensures
        res@ == s@,
{
    let mut res: Vec<char> = Vec::new();
    for c in it: s.chars()
        invariant
            res@ == it.seq().take(it.index() as int),
            it.seq() == s@,
    {
        res.push(c);
    }
    assert(s@.take(s@.len() as int) == s@);
    res
}

/// Appends a character to a string, by `String::push`: the string then holds what it held and
/// the character after it.
#[verifier::external_body]
pub(crate) fn push_char(s: &mut String, c: char)
    ensures
        final(s)@ == old(s)@.push(c),
{
    s.push(c)
}

/// The text that bytes are the UTF-8 encoding of, by `String::from_utf8`: there is one exactly
/// where the bytes are valid UTF-8, and it is what they decode to.
#[verifier::external_body]
pub(crate) fn decode(bytes: Vec<u8>) -> (res: Option<String>)
    ensures
        res is Some == vstd::utf8::valid_utf8(bytes@),
        res is Some ==> res->0@ == vstd::utf8::decode_utf8(bytes@),
{
    String::from_utf8(bytes).ok()
}

/// A string of the given characters.
pub(crate) fn string_of(chars: &Vec<char>) -> (res: String)
    ensures
        res@ == chars@,
{
    let mut res = String::new();
    let mut i: usize = 0;
    while i < chars.len()
        invariant
            i <= chars.len(),
            res@ == chars@.take(i as int),
        decreases chars.len() - i,
    {
        push_char(&mut res, chars[i]);
        i += 1;
        assert(chars@.take(i as int) == chars@.take(i - 1).push(chars@[i - 1]));
    }
    assert(chars@.take(i as int) == chars@);
    res
}

} // verus!
