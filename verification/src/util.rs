//! Small helpers on names.

use vstd::prelude::*;

use crate::text::push_char;

verus! {

/// ASCII upper case of `c`; other characters stay.
pub open spec fn ascii_upper(c: char) -> char {
    if 'a' <= c && c <= 'z' {
        ((c as u32) - 32) as char
    } else {
        c
    }
}

/// ASCII lower case of `c`; other characters stay.
pub open spec fn ascii_lower(c: char) -> char {
    if 'A' <= c && c <= 'Z' {
        ((c as u32) + 32) as char
    } else {
        c
    }
}

/// Text and pending capital after reading `s`: a leading underscore is kept,
/// other underscores are dropped and make the next character upper case;
/// other characters are lower case.
pub open spec fn camel_state(s: Seq<char>) -> (Seq<char>, bool)
    decreases s.len(),
{
    if s.len() == 0 {
        (Seq::empty(), false)
    } else {
        let (b, caps) = camel_state(s.drop_last());
        let c = s.last();
        if c == '_' {
            if b.len() == 0 {
                (b.push(c), caps)
            } else {
                (b, true)
            }
        } else {
            (b.push(if caps { ascii_upper(c) } else { ascii_lower(c) }), false)
        }
    }
}

/// ASCII upper case of a character.
pub fn to_ascii_upper(c: char) -> (r: char)
    ensures
        r == ascii_upper(c),
{
    if 'a' <= c && c <= 'z' {
        ((c as u8) - 32) as char
    } else {
        c
    }
}

/// ASCII lower case of a character.
pub fn to_ascii_lower(c: char) -> (r: char)
    ensures
        r == ascii_lower(c),
{
    if 'A' <= c && c <= 'Z' {
        ((c as u8) + 32) as char
    } else {
        c
    }
}

/// `snake_case` name as `lowerCamelCase`.
pub fn to_lower_camel_case(name: &str) -> (r: String)
    ensures
        r@ == camel_state(name@).0,
{
    let n = name.unicode_len();
    let mut buffer = String::new();
    let mut needs_caps = false;
    let mut i: usize = 0;
    while i < n
        invariant
            n == name@.len(),
            i <= n,
            (buffer@, needs_caps) == camel_state(name@.take(i as int)),
        decreases n - i,
    {
        let c = name.get_char(i);
        assert(name@.take(i + 1).drop_last() =~= name@.take(i as int));
        assert(name@.take(i + 1).last() == c);
        if c == '_' {
            if buffer.as_str().unicode_len() == 0 {
                push_char(&mut buffer, c);
            } else {
                needs_caps = true;
            }
        } else {
            let d = if needs_caps {
                to_ascii_upper(c)
            } else {
                to_ascii_lower(c)
            };
            push_char(&mut buffer, d);
            needs_caps = false;
        }
        i += 1;
    }
    assert(name@.take(n as int) =~= name@);
    buffer
}

} // verus!
