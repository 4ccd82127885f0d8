//! Character classes and string building blocks shared by the lexer and the
//! parser.

use vstd::prelude::*;

verus! {

/// Whether a character carries Unicode's `Alphabetic` property.
pub uninterp spec fn alphabetic(c: char) -> bool;

/// Whether a character belongs to one of Unicode's numeric categories.
pub uninterp spec fn numeric(c: char) -> bool;

/// `char::is_alphabetic`: the answer is a fixed property of the character,
/// named `alphabetic` in contracts.
#[verifier::external_body]
pub(crate) fn is_alphabetic(c: char) -> (b: bool)
    ensures
        b == alphabetic(c),
{
    c.is_alphabetic()
}

/// `char::is_numeric`: the answer is a fixed property of the character,
/// named `numeric` in contracts.
#[verifier::external_body]
pub(crate) fn is_numeric(c: char) -> (b: bool)
    ensures
        b == numeric(c),
{
    c.is_numeric()
}

/// `String::push`: appends one character to the end of the string.
#[verifier::external_body]
pub(crate) fn push_char(s: &mut String, c: char)
    ensures
        final(s)@ == old(s)@.push(c),
{
    s.push(c)
}

/// The characters of a string, in order.
pub(crate) fn to_chars(s: &str) -> (v: Vec<char>)
    ensures
        v@ == s@,
{
    let mut v: Vec<char> = Vec::new();
    for c in it: s.chars()
        invariant
            it.seq() == s@,
            v@ == it.seq().take(it.index()),
    {
        v.push(c);
        assert(it.seq().take(it.index() + 1) == it.seq().take(it.index()).push(c));
    }
    assert(v@ == s@);
    v
}

/// The string made of characters `from..to` of `chars`.
pub(crate) fn to_string(chars: &Vec<char>, from: usize, to: usize) -> (s: String)
    requires
        from <= to <= chars.len(),
    ensures
        s@ == chars@.subrange(from as int, to as int),
{
    let mut s = String::new();
    let mut i: usize = from;
    while i < to
        invariant
            from <= i <= to <= chars.len(),
            s@ == chars@.subrange(from as int, i as int),
        decreases to - i,
    {
        push_char(&mut s, chars[i]);
        i += 1;
        assert(chars@.subrange(from as int, i as int) == chars@.subrange(from as int, i - 1).push(
            chars@[i - 1],
        ));
    }
    s
}

} // verus!
