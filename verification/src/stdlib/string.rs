//! Builtin functions on strings.

use vstd::prelude::*;
use vstd::string::StringExecFns;

use crate::error::{ErrorV, Lovm2Error, Lovm2Result};
use crate::value::data::box_spec;
use crate::value::heap::Heap;
use crate::value::conv::{error_op_not_supported, op_not_supported};
use crate::value::eq::EQ_DEPTH;
use crate::value::show::value_text;
use crate::value::{view_values, Value, ValueV};

verus! {

broadcast use crate::value::group_value_views;

/// Position of the first occurrence of `p` in `s` at or after `i`.
pub open spec fn find_from(s: Seq<u8>, p: Seq<u8>, i: int) -> Option<int>
    decreases s.len() + 1 - i,
{
    if i < 0 || i + p.len() > s.len() {
        None
    } else if s.subrange(i, i + p.len()) == p {
        Some(i)
    } else {
        find_from(s, p, i + 1)
    }
}

/// Byte position of the first occurrence of `pat` in `base`.
pub fn index_of(base: &str, pat: &str) -> (r: Option<i64>)
    ensures
        match find_from(vstd::utf8::encode_utf8(base@), vstd::utf8::encode_utf8(pat@), 0) {
            Some(i) => r == Some(i as i64),
            None => r is None,
        },
{
    let s = base.as_bytes();
    let p = pat.as_bytes();
    let n = s.len();
    let m = p.len();
    if m > n {
        return None;
    }
    let mut i: usize = 0;
    while i <= n - m
        invariant
            s@ == vstd::utf8::encode_utf8(base@),
            p@ == vstd::utf8::encode_utf8(pat@),
            n == s@.len(),
            m == p@.len(),
            m <= n,
            i <= n - m + 1,
            find_from(s@, p@, i as int) == find_from(s@, p@, 0),
        decreases n - i,
    {
        let mut j: usize = 0;
        let mut same = true;
        while j < m
            invariant
                n == s@.len(),
                m == p@.len(),
                i + m <= n,
                j <= m,
                same == (forall|t: int| 0 <= t < j ==> s@[i + t] == p@[t]),
            decreases m - j,
        {
            if s[i + j] != p[j] {
                same = false;
            }
            j += 1;
        }
        if same {
            assert(s@.subrange(i as int, i + m) =~= p@);
            return Some(i as i64);
        }
        assert(s@.subrange(i as int, i + m) != p@) by {
            let t = choose|t: int| 0 <= t < m && s@[i + t] != p@[t];
            assert(s@.subrange(i as int, i + m)[t] == s@[i + t]);
        }
        i += 1;
    }
    None
}

/// The byte `b` alone, or nothing where it is zero.
pub open spec fn nonzero(b: u8) -> Seq<u8> {
    if b != 0 {
        seq![b]
    } else {
        Seq::empty()
    }
}

/// The four low bytes of `n`, most significant first, without zero bytes.
pub open spec fn chr_bytes(n: i64) -> Seq<u8> {
    nonzero(((n >> 24) & 0xff) as u8) + nonzero(((n >> 16) & 0xff) as u8) + nonzero(
        ((n >> 8) & 0xff) as u8,
    ) + nonzero((n & 0xff) as u8)
}

/// Text of the error of bytes that are not UTF-8, as the standard library
/// prints it.
pub uninterp spec fn utf8_error_text(bytes: Seq<u8>) -> Seq<char>;

/// Decodes UTF-8 bytes (`String::from_utf8`); the error is given by its
/// text.
#[verifier::external_body]
fn string_from_utf8(bytes: Vec<u8>) -> (r: Result<String, String>)
    ensures
        match r {
            Ok(s) => vstd::utf8::valid_utf8(bytes@) && vstd::utf8::encode_utf8(s@) == bytes@,
            Err(m) => !vstd::utf8::valid_utf8(bytes@) && m@ == utf8_error_text(bytes@),
        },
{
    String::from_utf8(bytes).map_err(|e| e.to_string())
}

/// Decodes UTF-8 bytes; the error is given by its text.
pub fn utf8_to_string(bytes: Vec<u8>) -> (r: Result<String, String>)
    ensures
        match r {
            Ok(s) => vstd::utf8::valid_utf8(bytes@) && vstd::utf8::encode_utf8(s@) == bytes@,
            Err(m) => !vstd::utf8::valid_utf8(bytes@) && m@ == utf8_error_text(bytes@),
        },
{
    string_from_utf8(bytes)
}

/// The character whose UTF-8 bytes are the non-zero bytes among the four
/// low bytes of `n`.
pub fn chr(n: i64) -> (r: Lovm2Result<String>)
    ensures
        match r {
            Ok(s) => vstd::utf8::valid_utf8(chr_bytes(n)) && vstd::utf8::encode_utf8(s@) == chr_bytes(n),
            Err(e) => !vstd::utf8::valid_utf8(chr_bytes(n)) && e@ == (ErrorV {
                ty: None,
                msg: utf8_error_text(chr_bytes(n)),
            }),
        },
{
    let b3 = ((n >> 24) & 0xff) as u8;
    let b2 = ((n >> 16) & 0xff) as u8;
    let b1 = ((n >> 8) & 0xff) as u8;
    let b0 = (n & 0xff) as u8;
    let mut bytes: Vec<u8> = Vec::new();
    if b3 != 0 {
        bytes.push(b3);
    }
    let ghost s3 = bytes@;
    if b2 != 0 {
        bytes.push(b2);
    }
    let ghost s2 = bytes@;
    if b1 != 0 {
        bytes.push(b1);
    }
    let ghost s1 = bytes@;
    if b0 != 0 {
        bytes.push(b0);
    }
    assert(s3 =~= nonzero(b3));
    assert(s2 =~= nonzero(b3) + nonzero(b2));
    assert(s1 =~= nonzero(b3) + nonzero(b2) + nonzero(b1));
    assert(bytes@ =~= chr_bytes(n));
    match utf8_to_string(bytes) {
        Ok(s) => Ok(s),
        Err(m) => Err(Lovm2Error::from_string(m)),
    }
}

/// Number read from bytes, most significant first.
pub open spec fn bytes_number(s: Seq<u8>) -> i64
    decreases s.len(),
{
    if s.len() == 0 {
        0
    } else {
        (bytes_number(s.drop_last()) << 8) | (s.last() as i64)
    }
}

/// The bytes of the single character `c`, read as a number.
pub fn ord(c: &str) -> (r: Lovm2Result<i64>)
    ensures
        c@.len() == 1 ==> r == Ok::<i64, Lovm2Error>(bytes_number(vstd::utf8::encode_utf8(c@))),
        c@.len() != 1 ==> (r matches Err(e) && e@ == (ErrorV { ty: None, msg: "ord requires string of length one"@ })),
{
    if c.unicode_len() != 1 {
        return Err(Lovm2Error::from_msg("ord requires string of length one"));
    }
    let bytes = c.as_bytes();
    let mut n: i64 = 0;
    let mut i: usize = 0;
    while i < bytes.len()
        invariant
            i <= bytes@.len(),
            bytes@ == vstd::utf8::encode_utf8(c@),
            n == bytes_number(bytes@.take(i as int)),
        decreases bytes@.len() - i,
    {
        assert(bytes@.take(i + 1).drop_last() =~= bytes@.take(i as int));
        n = (n << 8) | (bytes[i] as i64);
        i += 1;
    }
    assert(bytes@.take(i as int) =~= bytes@);
    Ok(n)
}

/// `base` with every occurrence of `pat` replaced by `repl`, as
/// `str::replace` computes it: occurrences are taken from the left and do not
/// overlap; an empty pattern occurs before each character and at the end.
pub open spec fn replaced(base: Seq<char>, pat: Seq<char>, repl: Seq<char>) -> Seq<char>
    decreases base.len(),
{
    if pat.len() == 0 {
        if base.len() == 0 {
            repl
        } else {
            repl + seq![base[0]] + replaced(base.drop_first(), pat, repl)
        }
    } else if base.len() < pat.len() {
        base
    } else if base.take(pat.len() as int) == pat {
        repl + replaced(base.skip(pat.len() as int), pat, repl)
    } else {
        seq![base[0]] + replaced(base.drop_first(), pat, repl)
    }
}

/// Lower case of `s` after Unicode, as `str::to_lowercase` computes it.
pub uninterp spec fn lowercase(s: Seq<char>) -> Seq<char>;

/// Upper case of `s` after Unicode, as `str::to_uppercase` computes it.
pub uninterp spec fn uppercase(s: Seq<char>) -> Seq<char>;

/// Whether `c` has the Unicode property White_Space (`char::is_whitespace`).
pub open spec fn is_white_space(c: char) -> bool {
    ||| '\u{9}' <= c <= '\u{D}'
    ||| c == ' '
    ||| c == '\u{85}'
    ||| c == '\u{A0}'
    ||| c == '\u{1680}'
    ||| '\u{2000}' <= c <= '\u{200A}'
    ||| c == '\u{2028}'
    ||| c == '\u{2029}'
    ||| c == '\u{202F}'
    ||| c == '\u{205F}'
    ||| c == '\u{3000}'
}

/// `s` without leading white space.
pub open spec fn trimmed_start(s: Seq<char>) -> Seq<char>
    decreases s.len(),
{
    if s.len() > 0 && is_white_space(s[0]) {
        trimmed_start(s.drop_first())
    } else {
        s
    }
}

/// `s` without trailing white space.
pub open spec fn trimmed_end(s: Seq<char>) -> Seq<char>
    decreases s.len(),
{
    if s.len() > 0 && is_white_space(s.last()) {
        trimmed_end(s.drop_last())
    } else {
        s
    }
}

/// `s` without leading and trailing white space, as `str::trim` computes it.
pub open spec fn trimmed(s: Seq<char>) -> Seq<char> {
    trimmed_end(trimmed_start(s))
}

/// Parts of `s` after a part that has `cur` so far, split at the
/// occurrences of the non-empty `sep`, taken from the left.
pub open spec fn split_from(s: Seq<char>, sep: Seq<char>, cur: Seq<char>) -> Seq<Seq<char>>
    decreases s.len(),
{
    if sep.len() == 0 || s.len() < sep.len() {
        seq![cur + s]
    } else if s.take(sep.len() as int) == sep {
        seq![cur] + split_from(s.skip(sep.len() as int), sep, Seq::empty())
    } else {
        split_from(s.drop_first(), sep, cur.push(s[0]))
    }
}

/// Parts of `s` between the occurrences of `sep`, as `str::split` computes
/// them; an empty separator occurs at the start, between characters and at
/// the end.
pub open spec fn split_parts(s: Seq<char>, sep: Seq<char>) -> Seq<Seq<char>> {
    if sep.len() == 0 {
        seq![Seq::<char>::empty()] + s.map_values(|c: char| seq![c]) + seq![Seq::<char>::empty()]
    } else {
        split_from(s, sep, Seq::empty())
    }
}

/// `str::to_lowercase`.
#[verifier::external_body]
fn std_lowercase(s: &str) -> (r: String)
    ensures
        r@ == lowercase(s@),
{
    s.to_lowercase()
}

/// `str::to_uppercase`.
#[verifier::external_body]
fn std_uppercase(s: &str) -> (r: String)
    ensures
        r@ == uppercase(s@),
{
    s.to_uppercase()
}

/// Whether `pat` occurs in `base` at position `i`.
fn occurs_at(base: &str, pat: &str, i: usize) -> (r: bool)
    requires
        i + pat@.len() <= base@.len(),
    ensures
        r == (base@.subrange(i as int, i + pat@.len()) == pat@),
{
    let m = pat.unicode_len();
    let nb = base.unicode_len();
    let mut k: usize = 0;
    while k < m
        invariant
            m == pat@.len(),
            nb == base@.len(),
            k <= m,
            i + m <= base@.len(),
            forall|q: int| 0 <= q < k ==> base@[i + q] == pat@[q],
        decreases m - k,
    {
        if base.get_char(i + k) != pat.get_char(k) {
            assert(base@.subrange(i as int, i + m)[k as int] != pat@[k as int]);
            return false;
        }
        k += 1;
    }
    assert(base@.subrange(i as int, i + m) =~= pat@);
    true
}

/// `base` with every occurrence of `pat` replaced by `repl`.
pub fn replace(base: &str, pat: &str, repl: &str) -> (r: String)
    ensures
        r@ == replaced(base@, pat@, repl@),
{
    let n = base.unicode_len();
    let m = pat.unicode_len();
    let mut out = String::new();
    let mut i: usize = 0;
    assert(base@.skip(0) =~= base@);
    if m == 0 {
        while i < n
            invariant
                i <= n,
                n == base@.len(),
                m == pat@.len(),
                m == 0,
                out@ + replaced(base@.skip(i as int), pat@, repl@) == replaced(base@, pat@, repl@),
            decreases n - i,
        {
            let ghost rest = base@.skip(i as int);
            assert(rest.drop_first() =~= base@.skip(i + 1));
            assert(replaced(rest, pat@, repl@) == repl@ + seq![rest[0]] + replaced(base@.skip(i + 1), pat@, repl@));
            let ghost before = out@;
            out.append(repl);
            crate::text::push_char(&mut out, base.get_char(i));
            assert(out@ == before + repl@ + seq![rest[0]]);
            assert(out@ + replaced(base@.skip(i + 1), pat@, repl@) =~= before + replaced(rest, pat@, repl@));
            i += 1;
        }
        assert(base@.skip(i as int).len() == 0);
        let ghost before = out@;
        out.append(repl);
        assert(out@ =~= before + replaced(base@.skip(i as int), pat@, repl@));
        return out;
    }
    while i < n
        invariant
            i <= n,
            n == base@.len(),
            m == pat@.len(),
            m > 0,
            out@ + replaced(base@.skip(i as int), pat@, repl@) == replaced(base@, pat@, repl@),
        decreases n - i,
    {
        let ghost rest = base@.skip(i as int);
        let ghost before = out@;
        if m <= n - i && occurs_at(base, pat, i) {
            assert(rest.take(m as int) =~= base@.subrange(i as int, i + m));
            assert(rest.skip(m as int) =~= base@.skip(i + m));
            assert(replaced(rest, pat@, repl@) == repl@ + replaced(base@.skip(i + m), pat@, repl@));
            out.append(repl);
            assert(out@ + replaced(base@.skip(i + m), pat@, repl@) =~= before + replaced(rest, pat@, repl@));
            i += m;
        } else {
            assert(rest.drop_first() =~= base@.skip(i + 1));
            if m <= n - i {
                assert(rest.take(m as int) =~= base@.subrange(i as int, i + m));
            } else {
                assert(replaced(base@.skip(i + 1), pat@, repl@) == base@.skip(i + 1));
            }
            assert(replaced(rest, pat@, repl@) == seq![rest[0]] + replaced(base@.skip(i + 1), pat@, repl@));
            crate::text::push_char(&mut out, base.get_char(i));
            assert(out@ + replaced(base@.skip(i + 1), pat@, repl@) =~= before + replaced(rest, pat@, repl@));
            i += 1;
        }
    }
    assert(base@.skip(i as int).len() == 0);
    assert(out@ + replaced(base@.skip(i as int), pat@, repl@) =~= out@);
    out
}

/// Lower case of the text.
pub fn to_lower(base: &str) -> (r: String)
    ensures
        r@ == lowercase(base@),
{
    std_lowercase(base)
}

/// Upper case of the text.
pub fn to_upper(base: &str) -> (r: String)
    ensures
        r@ == uppercase(base@),
{
    std_uppercase(base)
}

/// Whether `c` is white space (see [is_white_space]).
fn white_space(c: char) -> (r: bool)
    ensures
        r == is_white_space(c),
{
    ('\u{9}' <= c && c <= '\u{D}') || c == ' ' || c == '\u{85}' || c == '\u{A0}' || c == '\u{1680}' || ('\u{2000}'
        <= c && c <= '\u{200A}') || c == '\u{2028}' || c == '\u{2029}' || c == '\u{202F}' || c == '\u{205F}' || c
        == '\u{3000}'
}

/// The text without leading and trailing white space.
pub fn trim(base: &str) -> (r: String)
    ensures
        r@ == trimmed(base@),
{
    let n = base.unicode_len();
    let mut i: usize = 0;
    assert(base@.skip(0) =~= base@);
    while i < n && white_space(base.get_char(i))
        invariant
            i <= n,
            n == base@.len(),
            trimmed_start(base@) == trimmed_start(base@.skip(i as int)),
        decreases n - i,
    {
        assert(base@.skip(i + 1) =~= base@.skip(i as int).drop_first());
        i += 1;
    }
    let ghost rest = base@.skip(i as int);
    assert(trimmed_start(rest) == rest);
    let mut j: usize = n;
    assert(base@.subrange(i as int, n as int) =~= rest);
    while j > i && white_space(base.get_char(j - 1))
        invariant
            i <= j <= n,
            n == base@.len(),
            rest == base@.subrange(i as int, n as int),
            trimmed_end(rest) == trimmed_end(base@.subrange(i as int, j as int)),
        decreases j,
    {
        assert(base@.subrange(i as int, j - 1) =~= base@.subrange(i as int, j as int).drop_last());
        j -= 1;
    }
    assert(trimmed_end(base@.subrange(i as int, j as int)) == base@.subrange(i as int, j as int));
    String::from_str(base.substring_char(i, j))
}

/// Strings as string values.
pub open spec fn str_values(parts: Seq<Seq<char>>) -> Seq<ValueV> {
    parts.map_values(|p: Seq<char>| ValueV::Str(p))
}

/// The parts of `base` between the occurrences of `sep` (see
/// [split_parts]).
fn split_text(base: &str, sep: &str) -> (r: Vec<String>)
    ensures
        r@.map_values(|x: String| x@) == split_parts(base@, sep@),
{
    let n = base.unicode_len();
    let m = sep.unicode_len();
    let mut parts: Vec<String> = Vec::new();
    let mut i: usize = 0;
    if m == 0 {
        parts.push(String::new());
        while i < n
            invariant
                i <= n,
                n == base@.len(),
                parts@.map_values(|x: String| x@) == seq![Seq::<char>::empty()] + base@.take(i as int).map_values(
                    |c: char| seq![c],
                ),
            decreases n - i,
        {
            let ghost before = parts@.map_values(|x: String| x@);
            let mut one = String::new();
            let c = base.get_char(i);
            crate::text::push_char(&mut one, c);
            assert(one@ =~= seq![c]);
            parts.push(one);
            assert(parts@.map_values(|x: String| x@) =~= before.push(seq![c]));
            assert(base@.take(i + 1).map_values(|c: char| seq![c]) =~= base@.take(i as int).map_values(|c: char| seq![c]).push(
                seq![c],
            ));
            i += 1;
        }
        let ghost before = parts@.map_values(|x: String| x@);
        parts.push(String::new());
        assert(parts@.map_values(|x: String| x@) =~= before.push(Seq::<char>::empty()));
        assert(base@.take(i as int) =~= base@);
        return parts;
    }
    let mut cur = String::new();
    assert(base@.skip(0) =~= base@);
    while i < n
        invariant
            i <= n,
            n == base@.len(),
            m == sep@.len(),
            m > 0,
            parts@.map_values(|x: String| x@) + split_from(base@.skip(i as int), sep@, cur@) == split_parts(base@, sep@),
        decreases n - i,
    {
        let ghost rest = base@.skip(i as int);
        let ghost before = parts@.map_values(|x: String| x@);
        let ghost c0 = cur@;
        if m <= n - i && occurs_at(base, sep, i) {
            assert(rest.take(m as int) =~= base@.subrange(i as int, i + m));
            assert(rest.skip(m as int) =~= base@.skip(i + m));
            assert(split_from(rest, sep@, c0) == seq![c0] + split_from(base@.skip(i + m), sep@, Seq::empty()));
            parts.push(cur);
            cur = String::new();
            assert(parts@.map_values(|x: String| x@) =~= before.push(c0));
            assert(parts@.map_values(|x: String| x@) + split_from(base@.skip(i + m), sep@, cur@) =~= before + split_from(
                rest,
                sep@,
                c0,
            ));
            i += m;
        } else {
            let c = base.get_char(i);
            assert(rest[0] == c);
            assert(rest.drop_first() =~= base@.skip(i + 1));
            if m <= n - i {
                assert(rest.take(m as int) =~= base@.subrange(i as int, i + m));
                assert(split_from(rest, sep@, c0) == split_from(base@.skip(i + 1), sep@, c0.push(c)));
            } else {
                assert(c0 + rest =~= c0.push(c) + base@.skip(i + 1));
                assert(split_from(rest, sep@, c0) == split_from(base@.skip(i + 1), sep@, c0.push(c)));
            }
            crate::text::push_char(&mut cur, c);
            i += 1;
        }
    }
    let ghost before = parts@.map_values(|x: String| x@);
    let ghost c0 = cur@;
    assert(base@.skip(i as int) =~= Seq::<char>::empty());
    assert(split_from(base@.skip(i as int), sep@, c0) == seq![c0 + Seq::<char>::empty()]);
    assert(c0 + Seq::<char>::empty() =~= c0);
    parts.push(cur);
    assert(parts@.map_values(|x: String| x@) =~= before.push(c0));
    parts
}

/// The parts of `base` between the occurrences of `sep`, as a list of
/// strings in a new cell.
pub fn split(heap: &mut Heap, base: &str, sep: &str) -> (r: Value)
    ensures
        (final(heap).cells_v(), r@) == box_spec(
            old(heap).cells_v(),
            ValueV::List(str_values(split_parts(base@, sep@))),
        ),
{
    let parts = split_text(base, sep);
    let ghost pv = parts@.map_values(|x: String| x@);
    let mut items: Vec<Value> = Vec::new();
    let mut i: usize = 0;
    while i < parts.len()
        invariant
            i <= parts@.len(),
            pv == parts@.map_values(|x: String| x@),
            view_values(items@) == str_values(pv.take(i as int)),
        decreases parts@.len() - i,
    {
        let ghost before = view_values(items@);
        items.push(Value::Str(parts[i].clone()));
        assert(view_values(items@) =~= before.push(ValueV::Str(pv[i as int])));
        assert(str_values(pv.take(i + 1)) =~= str_values(pv.take(i as int)).push(ValueV::Str(pv[i as int])));
        i += 1;
    }
    assert(pv.take(i as int) =~= pv);
    heap.box_value(Value::List(items))
}

/// Position of the first `{}` in `s` at or after `i`.
pub open spec fn first_braces(s: Seq<char>, i: int) -> Option<int>
    decreases s.len() - i,
{
    if i < 0 || i + 2 > s.len() {
        None
    } else if s[i] == '{' && s[i + 1] == '}' {
        Some(i)
    } else {
        first_braces(s, i + 1)
    }
}

/// `s` with its first `{}` replaced by `a`.
pub open spec fn fill_first(s: Seq<char>, a: Seq<char>) -> Seq<char> {
    match first_braces(s, 0) {
        Some(i) => s.take(i) + a + s.skip(i + 2),
        None => s,
    }
}

/// `base` with its `{}` placeholders filled with `args` in order; a
/// placeholder that an argument brings in is filled like the others.
pub open spec fn format_spec(base: Seq<char>, args: Seq<Seq<char>>) -> Seq<char>
    decreases args.len(),
{
    if args.len() == 0 {
        base
    } else {
        fill_first(format_spec(base, args.drop_last()), args.last())
    }
}

fn fill_first_exec(s: &String, a: &str) -> (r: String)
    ensures
        r@ == fill_first(s@, a@),
{
    let n = s.as_str().unicode_len();
    let mut i: usize = 0;
    let mut found = false;
    while i < n && n - i >= 2
        invariant_except_break
            !found,
        invariant
            n == s@.len(),
            i <= n,
            first_braces(s@, 0) == first_braces(s@, i as int),
        ensures
            found ==> i + 2 <= n && s@[i as int] == '{' && s@[i + 1] == '}',
            !found ==> i + 2 > n,
        decreases n - i,
    {
        if s.as_str().get_char(i) == '{' && s.as_str().get_char(i + 1) == '}' {
            found = true;
            break;
        }
        i += 1;
    }
    if !found {
        assert(first_braces(s@, i as int) is None);
        return String::from_str(s.as_str());
    }
    assert(first_braces(s@, 0) == Some(i as int));
    let mut out = String::new();
    assert(out@ =~= s@.take(0));
    let mut j: usize = 0;
    while j < i
        invariant
            j <= i,
            i + 2 <= n,
            n == s@.len(),
            out@ == s@.take(j as int),
        decreases i - j,
    {
        crate::text::push_char(&mut out, s.as_str().get_char(j));
        assert(s@.take(j + 1) =~= s@.take(j as int).push(s@[j as int]));
        j += 1;
    }
    out.append(a);
    let ghost mid = out@;
    let mut k: usize = i + 2;
    while k < n
        invariant
            i + 2 <= k <= n,
            n == s@.len(),
            out@ == mid + s@.subrange(i + 2, k as int),
        decreases n - k,
    {
        crate::text::push_char(&mut out, s.as_str().get_char(k));
        assert(s@.subrange(i + 2, k + 1) =~= s@.subrange(i + 2, k as int).push(s@[k as int]));
        k += 1;
    }
    assert(s@.subrange(i + 2, n as int) =~= s@.skip(i + 2));
    out
}

/// Fill the `{}` placeholders of `base` with the texts of `args`, in order.
pub fn format_text(base: &str, args: &Vec<String>) -> (r: String)
    ensures
        r@ == format_spec(base@, args@.map_values(|x: String| x@)),
{
    let ghost av = args@.map_values(|x: String| x@);
    let mut out = String::from_str(base);
    let mut i: usize = 0;
    while i < args.len()
        invariant
            i <= args@.len(),
            av == args@.map_values(|x: String| x@),
            out@ == format_spec(base@, av.take(i as int)),
        decreases args@.len() - i,
    {
        assert(av.take(i + 1).drop_last() =~= av.take(i as int));
        out = fill_first_exec(&out, args[i].as_str());
        i += 1;
    }
    assert(av.take(args@.len() as int) =~= av);
    out
}

/// Texts of the first `n` values joined by `sep`; `None` where a value has
/// no text here.
pub open spec fn join_spec(cells: Seq<ValueV>, l: Seq<ValueV>, sep: Seq<char>, n: int) -> Option<Seq<char>>
    decreases n,
{
    if n <= 0 {
        Some(Seq::empty())
    } else {
        match value_text(cells, l[n - 1], EQ_DEPTH as nat) {
            Some(t) => if n == 1 {
                Some(t)
            } else {
                match join_spec(cells, l, sep, n - 1) {
                    Some(a) => Some(a + sep + t),
                    None => None,
                }
            },
            None => None,
        }
    }
}

/// The texts of the items of a list joined by `sep`. `Ok(None)` where an
/// item's text is left to the host; an error for other values.
pub fn join(heap: &Heap, base: &Value, sep: &str) -> (r: Lovm2Result<Option<String>>)
    ensures
        match base@ {
            ValueV::List(l) => match join_spec(heap.cells_v(), l, sep@, l.len() as int) {
                Some(t) => r matches Ok(Some(s)) && s@ == t,
                None => r matches Ok(None),
            },
            _ => r matches Err(e) && e@ == op_not_supported("join"@),
        },
{
    match base {
        Value::List(ls) => {
            let ghost lv = view_values(ls@);
            let mut out = String::new();
            let mut i: usize = 0;
            while i < ls.len()
                invariant
                    i <= ls@.len(),
                    lv == view_values(ls@),
                    base@ == ValueV::List(lv),
                    join_spec(heap.cells_v(), lv, sep@, i as int) == Some(out@),
                decreases ls@.len() - i,
            {
                assert(lv[i as int] == ls@[i as int]@);
                let t = match ls[i].to_text(heap) {
                    Some(t) => t,
                    None => {
                        proof {
                            lemma_join_stop(heap.cells_v(), lv, sep@, i + 1, ls@.len() as int);
                        }
                        return Ok(None);
                    },
                };
                if i > 0 {
                    out.append(sep);
                }
                out.append(t.as_str());
                proof {
                    if i == 0 {
                        assert(out@ =~= t@);
                    }
                }
                i += 1;
            }
            Ok(Some(out))
        },
        _ => Err(error_op_not_supported("join")),
    }
}

proof fn lemma_join_stop(cells: Seq<ValueV>, l: Seq<ValueV>, sep: Seq<char>, n: int, m: int)
    requires
        1 <= n <= m,
        join_spec(cells, l, sep, n) is None,
    ensures
        join_spec(cells, l, sep, m) is None,
    decreases m - n,
{
    if n < m {
        lemma_join_stop(cells, l, sep, n, m - 1);
    }
}

} // verus!
