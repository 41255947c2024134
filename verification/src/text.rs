//! Character sequences: the character classes that the rules speak of, and
//! conversions between strings and vectors of characters.

use vstd::prelude::*;

verus! {

/// Whether `c` is alphabetic beyond ASCII, as `char::is_alphabetic` reports
/// it there.
pub uninterp spec fn alphabetic_beyond_ascii(c: char) -> bool;

/// Whether `c` is an uppercase letter beyond ASCII, as `char::is_uppercase`
/// reports it there.
pub uninterp spec fn uppercase_beyond_ascii(c: char) -> bool;

/// Whether `c` is numeric beyond ASCII, as `char::is_numeric` reports it
/// there.
pub uninterp spec fn numeric_beyond_ascii(c: char) -> bool;

/// The lowercase form of a text, as `str::to_lowercase` builds it.
pub uninterp spec fn lowered(s: Seq<char>) -> Seq<char>;

/// `c` is an ASCII character.
pub open spec fn ascii(c: char) -> bool {
    (c as u32) < 0x80
}

/// `c` is one of the 26 capital letters of ASCII.
pub open spec fn ascii_capital(c: char) -> bool {
    0x41 <= (c as u32) <= 0x5A
}

/// `c` is one of the 52 letters of ASCII.
pub open spec fn ascii_letter(c: char) -> bool {
    ascii_capital(c) || 0x61 <= (c as u32) <= 0x7A
}

/// `c` is one of the 10 digits of ASCII.
pub open spec fn ascii_digit(c: char) -> bool {
    0x30 <= (c as u32) <= 0x39
}

/// Whether `c` is alphabetic: a letter within ASCII, and beyond it what
/// Unicode calls alphabetic.
pub open spec fn alphabetic(c: char) -> bool {
    if ascii(c) {
        ascii_letter(c)
    } else {
        alphabetic_beyond_ascii(c)
    }
}

/// Whether `c` is an uppercase letter: a capital letter within ASCII, and
/// beyond it what Unicode calls uppercase.
pub open spec fn uppercase_letter(c: char) -> bool {
    if ascii(c) {
        ascii_capital(c)
    } else {
        uppercase_beyond_ascii(c)
    }
}

/// Whether `c` is numeric: a digit within ASCII, and beyond it what Unicode
/// puts into one of its categories of numbers.
pub open spec fn numeric(c: char) -> bool {
    if ascii(c) {
        ascii_digit(c)
    } else {
        numeric_beyond_ascii(c)
    }
}

/// Whether `c` is white space: one of the 25 characters to which Unicode
/// gives the property White_Space.
pub open spec fn white_space(c: char) -> bool {
    ||| 0x09 <= (c as u32) <= 0x0D
    ||| (c as u32) == 0x20
    ||| (c as u32) == 0x85
    ||| (c as u32) == 0xA0
    ||| (c as u32) == 0x1680
    ||| 0x2000 <= (c as u32) <= 0x200A
    ||| (c as u32) == 0x2028
    ||| (c as u32) == 0x2029
    ||| (c as u32) == 0x202F
    ||| (c as u32) == 0x205F
    ||| (c as u32) == 0x3000
}

/// `char::is_alphabetic` tells whether the character has Unicode's property
/// Alphabetic. Within ASCII these are the letters; beyond ASCII the answer
/// depends on the character alone and is named `alphabetic_beyond_ascii`.
pub assume_specification[ char::is_alphabetic ](c: char) -> (b: bool)
    ensures
        b == if ascii(c) {
            ascii_letter(c)
        } else {
            alphabetic_beyond_ascii(c)
        },
;

/// `char::is_uppercase` tells whether the character has Unicode's property
/// Uppercase. Within ASCII these are the capital letters; beyond ASCII the
/// answer depends on the character alone and is named
/// `uppercase_beyond_ascii`.
pub assume_specification[ char::is_uppercase ](c: char) -> (b: bool)
    ensures
        b == if ascii(c) {
            ascii_capital(c)
        } else {
            uppercase_beyond_ascii(c)
        },
;

/// `char::is_numeric` tells whether the character is in one of Unicode's
/// categories of numbers. Within ASCII these are the digits; beyond ASCII the
/// answer depends on the character alone and is named `numeric_beyond_ascii`.
pub assume_specification[ char::is_numeric ](c: char) -> (b: bool)
    ensures
        b == if ascii(c) {
            ascii_digit(c)
        } else {
            numeric_beyond_ascii(c)
        },
;

/// `char::is_whitespace` tells whether the character has Unicode's property
/// White_Space, which 25 characters have.
pub assume_specification[ char::is_whitespace ](c: char) -> (b: bool)
    ensures
        b == white_space(c),
;

/// `str::to_lowercase` returns a new string that depends on the characters of
/// its argument alone; its characters are named `lowered`.
pub assume_specification[ str::to_lowercase ](s: &str) -> (r: String)
    ensures
        r@ == lowered(s@),
;

/// `String::push` appends one character to the end of the string.
pub assume_specification[ String::push ](s: &mut String, c: char)
    ensures
        final(s)@ == old(s)@.push(c),
;

/// The characters of `s`, in order.
pub fn chars_of(s: &str) -> (v: Vec<char>)
    ensures
        v@ == s@,
{
    let mut v: Vec<char> = Vec::new();
    for c in it: s.chars()
        invariant
            it.seq() == s@,
            v@ == it.seq().take(it.index() as int),
    {
        v.push(c);
    }
    v
}

/// The string made of the characters of `v`, in order.
pub fn string_of(v: &Vec<char>) -> (s: String)
    ensures
        s@ == v@,
{
    let mut s = String::new();
    let mut i: usize = 0;
    while i < v.len()
        invariant
            i <= v.len(),
            s@ == v@.take(i as int),
        decreases v.len() - i,
    {
        s.push(v[i]);
        i += 1;
    }
    s
}

/// Whether two strings hold the same characters.
pub fn same_str(a: &str, b: &str) -> (same: bool)
    ensures
        same == (a@ == b@),
{
    let x = chars_of(a);
    let y = chars_of(b);
    if x.len() != y.len() {
        return false;
    }
    let mut i: usize = 0;
    while i < x.len()
        invariant
            i <= x.len(),
            x.len() == y.len(),
            x@ == a@,
            y@ == b@,
            forall|k: int| 0 <= k < i ==> x@[k] == y@[k],
        decreases x.len() - i,
    {
        if x[i] != y[i] {
            assert(x@[i as int] != y@[i as int]);
            return false;
        }
        i += 1;
    }
    assert(x@ =~= y@);
    true
}

} // verus!
