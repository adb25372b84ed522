//! Builtin functions on collections.

use vstd::prelude::*;

use crate::error::{ErrorV, Lovm2Result};
use crate::value::conv::{as_bool_v, error_empty_deref, error_not_supported, empty_deref, not_supported};
use crate::value::eq::{value_eq, EQ_DEPTH};
use crate::value::data::{key_text, len_spec};
use crate::value::heap::{deref_cell, resolve, Heap};
use crate::value::{view_values, Value, ValueV};

verus! {

broadcast use crate::value::group_value_views;

/// Whether every item of `ls` from position `i` on is true, or the first
/// error converting an item.
pub open spec fn all_from(cells: Seq<ValueV>, ls: Seq<ValueV>, i: int) -> Result<bool, ErrorV>
    decreases ls.len() - i,
{
    if i < 0 || i >= ls.len() {
        Ok(true)
    } else {
        match as_bool_v(cells, ls[i]) {
            Err(e) => Err(e),
            Ok(false) => Ok(false),
            Ok(true) => all_from(cells, ls, i + 1),
        }
    }
}

/// Whether some item of `ls` from position `i` on is true, or the first
/// error converting an item.
pub open spec fn any_from(cells: Seq<ValueV>, ls: Seq<ValueV>, i: int) -> Result<bool, ErrorV>
    decreases ls.len() - i,
{
    if i < 0 || i >= ls.len() {
        Ok(false)
    } else {
        match as_bool_v(cells, ls[i]) {
            Err(e) => Err(e),
            Ok(true) => Ok(true),
            Ok(false) => any_from(cells, ls, i + 1),
        }
    }
}

/// The collection an argument stands for: a reference is followed first.
pub open spec fn argument(cells: Seq<ValueV>, v: ValueV) -> Result<ValueV, ErrorV> {
    match resolve(cells, v) {
        Some(x) => Ok(x),
        None => Err(empty_deref()),
    }
}

/// Result of `all`: whether every item of a list is true.
pub open spec fn all_spec(cells: Seq<ValueV>, collection: ValueV) -> Result<bool, ErrorV> {
    match argument(cells, collection) {
        Ok(ValueV::List(ls)) => all_from(cells, ls, 0),
        Ok(_) => Err(not_supported()),
        Err(e) => Err(e),
    }
}

/// Result of `any`: whether some item of a list is true.
pub open spec fn any_spec(cells: Seq<ValueV>, collection: ValueV) -> Result<bool, ErrorV> {
    match argument(cells, collection) {
        Ok(ValueV::List(ls)) => any_from(cells, ls, 0),
        Ok(_) => Err(not_supported()),
        Err(e) => Err(e),
    }
}

/// The list behind `collection`, as reference to the value in the heap.
fn list_argument<'a>(heap: &'a Heap, collection: &'a Value) -> (r: Lovm2Result<&'a Vec<Value>>)
    ensures
        match argument(heap.cells_v(), collection@) {
            Ok(ValueV::List(ls)) => r matches Ok(v) && view_values(v@) == ls,
            Ok(_) => r matches Err(e) && e@ == not_supported(),
            Err(e) => r matches Err(x) && x@ == e,
        },
{
    match heap.resolve_value(collection) {
        Some(x) => match x {
            Value::List(ls) => {
                assert(x@ == ValueV::List(view_values(ls@)));
                Ok(ls)
            },
            _ => Err(error_not_supported()),
        },
        None => Err(error_empty_deref()),
    }
}

/// Whether every item of the list is true.
pub fn all(heap: &Heap, collection: &Value) -> (r: Lovm2Result<bool>)
    ensures
        match (r, all_spec(heap.cells_v(), collection@)) {
            (Ok(a), Ok(b)) => a == b,
            (Err(a), Err(b)) => a@ == b,
            _ => false,
        },
{
    let ls = match list_argument(heap, collection) {
        Ok(ls) => ls,
        Err(e) => {
            return Err(e);
        },
    };
    let ghost lv = view_values(ls@);
    let mut i: usize = 0;
    while i < ls.len()
        invariant
            i <= ls@.len(),
            lv == view_values(ls@),
            all_spec(heap.cells_v(), collection@) == all_from(heap.cells_v(), lv, i as int),
        decreases ls@.len() - i,
    {
        assert(lv[i as int] == ls@[i as int]@);
        match ls[i].as_bool_inner(heap) {
            Ok(b) => if !b {
                return Ok(false);
            },
            Err(e) => {
                return Err(e);
            },
        }
        i += 1;
    }
    Ok(true)
}

/// Whether some item of the list is true.
pub fn any(heap: &Heap, collection: &Value) -> (r: Lovm2Result<bool>)
    ensures
        match (r, any_spec(heap.cells_v(), collection@)) {
            (Ok(a), Ok(b)) => a == b,
            (Err(a), Err(b)) => a@ == b,
            _ => false,
        },
{
    let ls = match list_argument(heap, collection) {
        Ok(ls) => ls,
        Err(e) => {
            return Err(e);
        },
    };
    let ghost lv = view_values(ls@);
    let mut i: usize = 0;
    while i < ls.len()
        invariant
            i <= ls@.len(),
            lv == view_values(ls@),
            any_spec(heap.cells_v(), collection@) == any_from(heap.cells_v(), lv, i as int),
        decreases ls@.len() - i,
    {
        assert(lv[i as int] == ls@[i as int]@);
        match ls[i].as_bool_inner(heap) {
            Ok(b) => if b {
                return Ok(true);
            },
            Err(e) => {
                return Err(e);
            },
        }
        i += 1;
    }
    Ok(false)
}

/// Cells and result of `append`: the value is added to the end of the list
/// a reference names, unchanged; a list that is not behind a reference is a
/// copy, so nothing visible changes.
pub open spec fn append_std_spec(cells: Seq<ValueV>, collection: ValueV, value: ValueV) -> (Seq<ValueV>, Result<(), ErrorV>) {
    match collection {
        ValueV::Ref(r) => match deref_cell(cells, r) {
            Some(i) => match cells[i] {
                ValueV::List(ls) => (cells.update(i, ValueV::List(ls.push(value))), Ok(())),
                _ => (cells, Err(not_supported())),
            },
            None => (cells, Err(empty_deref())),
        },
        ValueV::List(_) => (cells, Ok(())),
        _ => (cells, Err(not_supported())),
    }
}

/// Add `value` to the end of the list `collection` stands for.
pub fn append(heap: &mut Heap, collection: &Value, value: Value) -> (r: Lovm2Result<()>)
    ensures
        ({
            let (c, res) = append_std_spec(old(heap).cells_v(), collection@, value@);
            &&& final(heap).cells_v() == c
            &&& match (r, res) {
                (Ok(_), Ok(_)) => true,
                (Err(a), Err(b)) => a@ == b,
                _ => false,
            }
        }),
{
    match collection {
        Value::Ref(r) => match heap.deref_index(r) {
            Some(i) => {
                let ghost c0 = heap.cells_v();
                let cell = heap.cells.remove(i);
                assert(c0[i as int] == cell@);
                match cell {
                    Value::List(mut ls) => {
                        let ghost lv = view_values(ls@);
                        ls.push(value);
                        assert(view_values(ls@) =~= lv.push(value@));
                        heap.cells.insert(i, Value::List(ls));
                        assert(heap.cells_v() =~= c0.update(i as int, ValueV::List(lv.push(value@))));
                        Ok(())
                    },
                    other => {
                        heap.cells.insert(i, other);
                        assert(heap.cells_v() =~= c0);
                        Err(error_not_supported())
                    },
                }
            },
            None => Err(error_empty_deref()),
        },
        Value::List(_) => Ok(()),
        _ => Err(error_not_supported()),
    }
}

/// Whether `needle` equals an item of `ls` from position `i` on; `None` when
/// a comparison nests too deep.
pub open spec fn list_contains_from(cells: Seq<ValueV>, ls: Seq<ValueV>, needle: ValueV, i: int) -> Option<bool>
    decreases ls.len() - i,
{
    if i < 0 || i >= ls.len() {
        Some(false)
    } else {
        match value_eq(cells, ls[i], needle, EQ_DEPTH as nat) {
            None => None,
            Some(true) => Some(true),
            Some(false) => list_contains_from(cells, ls, needle, i + 1),
        }
    }
}

/// Whether `needle` occurs in `s` as a substring.
pub open spec fn has_substring(s: Seq<char>, needle: Seq<char>) -> bool {
    exists|i: int| 0 <= i <= s.len() - needle.len() && #[trigger] s.subrange(i, i + needle.len()) == needle
}

/// Whether `needle` occurs in `s`.
pub fn str_contains(s: &str, needle: &str) -> (r: bool)
    ensures
        r == has_substring(s@, needle@),
{
    let n = s.unicode_len();
    let m = needle.unicode_len();
    if m > n {
        return false;
    }
    let mut i: usize = 0;
    while i <= n - m
        invariant
            n == s@.len(),
            m == needle@.len(),
            m <= n,
            i <= n - m + 1,
            forall|k: int| 0 <= k < i ==> #[trigger] s@.subrange(k, k + m) != needle@,
        decreases n - i,
    {
        let mut j: usize = 0;
        let mut same = true;
        while j < m
            invariant
                n == s@.len(),
                m == needle@.len(),
                i + m <= n,
                j <= m,
                same == (forall|t: int| 0 <= t < j ==> s@[i + t] == needle@[t]),
            decreases m - j,
        {
            if s.get_char(i + j) != needle.get_char(j) {
                same = false;
            }
            j += 1;
        }
        if same {
            assert(s@.subrange(i as int, i + m) =~= needle@);
            return true;
        }
        assert(s@.subrange(i as int, i + m) != needle@) by {
            let t = choose|t: int| 0 <= t < m && s@[i + t] != needle@[t];
            assert(s@.subrange(i as int, i + m)[t] == s@[i + t]);
        }
        i += 1;
    }
    assert forall|k: int| 0 <= k <= s@.len() - needle@.len() implies #[trigger] s@.subrange(k, k + needle@.len()) != needle@ by {
        assert(k < i);
    }
    false
}

/// Result of `contains`: whether a dictionary has the key, a list an equal
/// item, or a string the text of the needle. `None` when a comparison nests
/// too deep.
pub open spec fn contains_spec(cells: Seq<ValueV>, haystack: ValueV, needle: ValueV) -> Result<Option<bool>, ErrorV> {
    match argument(cells, haystack) {
        Ok(ValueV::Dict(d)) => Ok(Some(crate::value::data::get_spec(cells, haystack, needle) is Ok)),
        Ok(ValueV::List(ls)) => Ok(list_contains_from(cells, ls, needle, 0)),
        Ok(ValueV::Str(s)) => match resolve(cells, needle) {
            Some(x) => if x is Str || x is Int || x is Bool || x is Nil {
                Ok(Some(has_substring(s, key_text(cells, needle))))
            } else {
                Ok(None)
            },
            None => Ok(None),
        },
        Ok(_) => Err(crate::value::conv::op_not_supported("contains"@)),
        Err(e) => Err(e),
    }
}

/// Whether the collection holds `needle`: a dictionary as key, a list as
/// item, a string the printed needle as substring. `Ok(None)` when a
/// comparison nests too deep, or a needle for a string is a float or a
/// collection, whose text the host prints.
pub fn contains(heap: &Heap, haystack: &Value, needle: &Value) -> (r: Lovm2Result<Option<bool>>)
    requires
        crate::value::data::get_ok(heap.cells_v(), haystack@, needle@),
    ensures
        match (r, contains_spec(heap.cells_v(), haystack@, needle@)) {
            (Ok(a), Ok(b)) => a == b,
            (Err(a), Err(b)) => a@ == b,
            _ => false,
        },
{
    match heap.resolve_value(haystack) {
        Some(x) => match x {
            Value::Dict(_) => Ok(Some(haystack.get(heap, needle).is_ok())),
            Value::List(ls) => {
                assert(x@ == ValueV::List(view_values(ls@)));
                let ghost lv = view_values(ls@);
                let mut i: usize = 0;
                while i < ls.len()
                    invariant
                        i <= ls@.len(),
                        lv == view_values(ls@),
                        contains_spec(heap.cells_v(), haystack@, needle@) == Ok::<Option<bool>, ErrorV>(
                            list_contains_from(heap.cells_v(), lv, needle@, 0),
                        ),
                        list_contains_from(heap.cells_v(), lv, needle@, 0) == list_contains_from(
                            heap.cells_v(),
                            lv,
                            needle@,
                            i as int,
                        ),
                    decreases ls@.len() - i,
                {
                    assert(lv[i as int] == ls@[i as int]@);
                    match ls[i].equals(heap, needle, EQ_DEPTH) {
                        None => {
                            return Ok(None);
                        },
                        Some(true) => {
                            return Ok(Some(true));
                        },
                        Some(false) => {},
                    }
                    i += 1;
                }
                Ok(Some(false))
            },
            Value::Str(s) => {
                assert(x@ == ValueV::Str(s@));
                match heap.resolve_value(needle) {
                    Some(y) => match y {
                        Value::Str(_) | Value::Int(_) | Value::Bool(_) | Value::Nil => {
                            let t = heap.key_text(needle);
                            Ok(Some(str_contains(s.as_str(), t.as_str())))
                        },
                        _ => Ok(None),
                    },
                    None => Ok(None),
                }
            },
            _ => Err(crate::value::conv::error_op_not_supported("contains")),
        },
        None => Err(error_empty_deref()),
    }
}

/// Number of items of a string (its bytes), a list or a dictionary; a
/// reference is followed to the collection it stands for.
pub fn count(heap: &Heap, collection: &Value) -> (r: Lovm2Result<usize>)
    ensures
        match (r, len_spec(heap.cells_v(), collection@)) {
            (Ok(a), Ok(b)) => a == b,
            (Err(a), Err(b)) => a@ == b,
            _ => false,
        },
{
    collection.len(heap)
}

} // verus!
