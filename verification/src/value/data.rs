//! Reading and changing values: keys, indices, boxing into references.

use vstd::prelude::*;
use vstd::string::{StrSliceExecFns, StringExecFns, StringSliceAdditionalSpecFns};

use crate::error::{err_v, ErrorKind, ErrorV, Lovm2Error, Lovm2ErrorTy, Lovm2Result};
use crate::text::{i64_to_string, int_text, nat_text, push_char, usize_to_string};

use super::conv::{
    as_int_v, error_borrow_failed, error_empty_deref, error_op_not_supported, empty_deref,
    is_float_v, borrow_failed, op_not_supported,
};
use super::heap::{
    extends, lemma_resolve_extend,
    chain_visits, deref_cell, lemma_deref_cell_end, lemma_deref_cell_frame, lemma_deref_cell_visits,
    lemma_resolve_frame, resolve, shares_cell, visits, Heap,
};
use super::{view_pairs, view_value, view_values, Reference, Value, ValueV};

verus! {

broadcast use super::group_value_views;

/// Equality of two values that are not references, as far as dictionary keys
/// need it.
pub open spec fn scalar_eq(x: ValueV, y: ValueV) -> bool {
    match (x, y) {
        (ValueV::Nil, ValueV::Nil) => true,
        (ValueV::Bool(a), ValueV::Bool(b)) => a == b,
        (ValueV::Int(a), ValueV::Int(b)) => a == b,
        (ValueV::Str(a), ValueV::Str(b)) => a == b,
        _ => false,
    }
}

/// Whether two keys are equal once their references are followed.
pub open spec fn key_eq(cells: Seq<ValueV>, a: ValueV, b: ValueV) -> bool {
    match (resolve(cells, a), resolve(cells, b)) {
        (Some(x), Some(y)) => scalar_eq(x, y),
        _ => false,
    }
}

/// Whether `k` can be hashed: a boolean, an integer or a string, possibly
/// behind references.
pub open spec fn hashable(cells: Seq<ValueV>, k: ValueV) -> bool {
    match resolve(cells, k) {
        Some(x) => x is Bool || x is Int || x is Str,
        None => false,
    }
}

/// Position of the first entry at or after `i` whose key equals `key`.
pub open spec fn dict_find_from(
    cells: Seq<ValueV>,
    d: Seq<(ValueV, ValueV)>,
    key: ValueV,
    i: int,
) -> Option<int>
    decreases d.len() - i,
{
    if i < 0 || i >= d.len() {
        None
    } else if key_eq(cells, d[i].0, key) {
        Some(i)
    } else {
        dict_find_from(cells, d, key, i + 1)
    }
}

/// Position of the entry whose key equals `key`.
pub open spec fn dict_find(cells: Seq<ValueV>, d: Seq<(ValueV, ValueV)>, key: ValueV) -> Option<int> {
    dict_find_from(cells, d, key, 0)
}

/// Entries after inserting `val` under `key`: an existing entry keeps its
/// key and place, a new entry goes last.
pub open spec fn dict_insert(
    cells: Seq<ValueV>,
    d: Seq<(ValueV, ValueV)>,
    key: ValueV,
    val: ValueV,
) -> Seq<(ValueV, ValueV)> {
    match dict_find(cells, d, key) {
        Some(i) => d.update(i, (d[i].0, val)),
        None => d.push((key, val)),
    }
}

/// Entries after removing `key`: the last entry takes the place of the
/// removed one.
pub open spec fn dict_remove(cells: Seq<ValueV>, d: Seq<(ValueV, ValueV)>, key: ValueV) -> Seq<(ValueV, ValueV)> {
    match dict_find(cells, d, key) {
        Some(i) => d.update(i, d.last()).drop_last(),
        None => d,
    }
}

/// Text of a scalar key as it is printed.
pub open spec fn scalar_text(x: ValueV) -> Seq<char> {
    match x {
        ValueV::Nil => "Nil"@,
        ValueV::Bool(b) => if b {
            "true"@
        } else {
            "false"@
        },
        ValueV::Int(n) => int_text(n as int),
        ValueV::Str(s) => s,
        _ => Seq::empty(),
    }
}

/// Text of a key once its references are followed.
pub open spec fn key_text(cells: Seq<ValueV>, k: ValueV) -> Seq<char> {
    match resolve(cells, k) {
        Some(x) => scalar_text(x),
        None => Seq::empty(),
    }
}

/// Error of a missing key.
pub open spec fn key_not_found(text: Seq<char>) -> ErrorV {
    err_v(ErrorKind::KeyNotFound, text)
}

/// Cells and value after wrapping `v` into a new cell; the items of lists
/// and the values of dictionaries that are not references are wrapped first,
/// in order.
pub open spec fn box_spec(cells: Seq<ValueV>, v: ValueV) -> (Seq<ValueV>, ValueV)
    decreases v,
{
    let (c1, inner) = match v {
        ValueV::Dict(d) => {
            let (c, d2) = box_pairs_spec(cells, d);
            (c, ValueV::Dict(d2))
        },
        ValueV::List(l) => {
            let (c, l2) = box_items_spec(cells, l);
            (c, ValueV::List(l2))
        },
        _ => (cells, v),
    };
    (c1.push(inner), ValueV::Ref(Some(c1.len() as usize)))
}

pub open spec fn box_items_spec(cells: Seq<ValueV>, l: Seq<ValueV>) -> (Seq<ValueV>, Seq<ValueV>)
    decreases l,
{
    if l.len() == 0 {
        (cells, Seq::empty())
    } else {
        let (c1, prev) = box_items_spec(cells, l.drop_last());
        let e = l.last();
        if e is Ref {
            (c1, prev.push(e))
        } else {
            let (c2, b) = box_spec(c1, e);
            (c2, prev.push(b))
        }
    }
}

pub open spec fn box_pairs_spec(cells: Seq<ValueV>, d: Seq<(ValueV, ValueV)>) -> (
    Seq<ValueV>,
    Seq<(ValueV, ValueV)>,
)
    decreases d,
{
    if d.len() == 0 {
        (cells, Seq::empty())
    } else {
        let (c1, prev) = box_pairs_spec(cells, d.drop_last());
        let (k, e) = d.last();
        if e is Ref {
            (c1, prev.push((k, e)))
        } else {
            let (c2, b) = box_spec(c1, e);
            (c2, prev.push((k, b)))
        }
    }
}

/// `val` as it is stored into a collection: references stay, other values
/// are wrapped.
pub open spec fn boxed_arg(cells: Seq<ValueV>, val: ValueV) -> (Seq<ValueV>, ValueV) {
    if val is Ref {
        (cells, val)
    } else {
        box_spec(cells, val)
    }
}

/// Result of looking `key` up in a value that is not a reference (`get`).
pub open spec fn get_plain(cells: Seq<ValueV>, target: ValueV, key: ValueV) -> Result<ValueV, ErrorV> {
    match target {
        ValueV::Str(s) => match as_int_v(cells, key) {
            Ok(n) => {
                let idx = n as usize;
                if idx < s.len() {
                    Ok(ValueV::Str(seq![s[idx as int]]))
                } else {
                    Err(key_not_found(nat_text(idx as nat)))
                }
            },
            Err(e) => Err(e),
        },
        ValueV::Dict(d) => match dict_find(cells, d, key) {
            Some(i) => Ok(d[i].1),
            None => Err(key_not_found(key_text(cells, key))),
        },
        ValueV::List(l) => match as_int_v(cells, key) {
            Ok(n) => if (n as usize) < l.len() {
                Ok(l[(n as usize) as int])
            } else {
                Err(key_not_found(int_text(n as int)))
            },
            Err(e) => Err(e),
        },
        _ => Err(op_not_supported("get"@)),
    }
}

/// Result of looking `key` up in `target` (`get`).
pub open spec fn get_spec(cells: Seq<ValueV>, target: ValueV, key: ValueV) -> Result<ValueV, ErrorV> {
    match target {
        ValueV::Ref(r) => match deref_cell(cells, r) {
            Some(i) => get_plain(cells, cells[i], key),
            None => Err(borrow_failed()),
        },
        _ => get_plain(cells, target, key),
    }
}

/// Whether looking `key` up in the collection `c` runs without a panic:
/// dictionaries hash their keys, strings and lists convert them to integers.
pub open spec fn lookup_ok(cells: Seq<ValueV>, c: ValueV, key: ValueV) -> bool {
    match c {
        ValueV::Dict(d) => d.len() > 0 ==> hashable(cells, key),
        ValueV::Str(_) => !is_float_v(cells, key),
        ValueV::List(_) => !is_float_v(cells, key),
        _ => true,
    }
}

/// Whether `get` on `target` with `key` runs without a panic.
pub open spec fn get_ok(cells: Seq<ValueV>, target: ValueV, key: ValueV) -> bool {
    match resolve(cells, target) {
        Some(c) => lookup_ok(cells, c, key),
        None => true,
    }
}

impl Heap {
    /// Wrap `value` inside a new cell. Items of lists and values of
    /// dictionaries that are not references are wrapped as well, deeply.
    pub fn box_value(&mut self, value: Value) -> (r: Value)
        ensures
            (final(self).cells_v(), r@) == box_spec(old(self).cells_v(), value@),
        decreases value@,
    {
        let ghost c0 = self.cells_v();
        let inner = match value {
            Value::Dict(d) => {
                let mut out: Vec<(Value, Value)> = Vec::new();
                let mut i: usize = 0;
                while i < d.len()
                    invariant
                        i <= d@.len(),
                        value@ == ValueV::Dict(view_pairs(d@)),
                        (self.cells_v(), view_pairs(out@)) == box_pairs_spec(c0, view_pairs(d@).take(i as int)),
                    decreases d@.len() - i,
                {
                    let k = d[i].0.duplicate();
                    let e = d[i].1.duplicate();
                    let ghost dv = view_pairs(d@);
                    assert(dv.take(i + 1).drop_last() =~= dv.take(i as int));
                    assert(dv[i as int] == (d@[i as int].0@, d@[i as int].1@));
                    assert(dv.take(i + 1).last() == (k@, e@));
                    let ghost before = view_pairs(out@);
                    if e.is_ref() {
                        out.push((k, e));
                        assert(view_pairs(out@) =~= before.push((k@, e@)));
                    } else {
                        proof {
                            assert(value@->Dict_0 == dv);
                            assert(decreases_to!(value@ => value@->Dict_0));
                            assert(decreases_to!(dv => dv[i as int]));
                            assert(decreases_to!(dv[i as int] => dv[i as int].1));
                        }
                        let b = self.box_value(e);
                        out.push((k, b));
                        assert(view_pairs(out@) =~= before.push((k@, b@)));
                    }
                    i += 1;
                }
                assert(view_pairs(d@).take(d@.len() as int) =~= view_pairs(d@));
                Value::Dict(out)
            },
            Value::List(l) => {
                let mut out: Vec<Value> = Vec::new();
                let mut i: usize = 0;
                while i < l.len()
                    invariant
                        i <= l@.len(),
                        value@ == ValueV::List(view_values(l@)),
                        (self.cells_v(), view_values(out@)) == box_items_spec(c0, view_values(l@).take(i as int)),
                    decreases l@.len() - i,
                {
                    let e = l[i].duplicate();
                    let ghost lv = view_values(l@);
                    assert(lv.take(i + 1).drop_last() =~= lv.take(i as int));
                    assert(lv.take(i + 1).last() == e@);
                    let ghost before = view_values(out@);
                    if e.is_ref() {
                        out.push(e);
                        assert(view_values(out@) =~= before.push(e@));
                    } else {
                        proof {
                            assert(value@->List_0 == lv);
                            assert(decreases_to!(value@ => value@->List_0));
                            assert(decreases_to!(lv => lv[i as int]));
                        }
                        let b = self.box_value(e);
                        out.push(b);
                        assert(view_values(out@) =~= before.push(b@));
                    }
                    i += 1;
                }
                assert(view_values(l@).take(l@.len() as int) =~= view_values(l@));
                Value::List(out)
            },
            other => other,
        };
        let r = self.allocate(inner);
        Value::Ref(r)
    }

    /// Whether two keys are equal once their references are followed.
    pub fn key_eq(&self, a: &Value, b: &Value) -> (r: bool)
        ensures
            r == key_eq(self.cells_v(), a@, b@),
    {
        let x = match a {
            Value::Ref(r) => match self.deref_index(r) {
                Some(i) => &self.cells[i],
                None => { return false; },
            },
            _ => a,
        };
        let y = match b {
            Value::Ref(r) => match self.deref_index(r) {
                Some(i) => &self.cells[i],
                None => { return false; },
            },
            _ => b,
        };
        match (x, y) {
            (Value::Nil, Value::Nil) => true,
            (Value::Bool(p), Value::Bool(q)) => *p == *q,
            (Value::Int(p), Value::Int(q)) => *p == *q,
            (Value::Str(p), Value::Str(q)) => *p == *q,
            _ => false,
        }
    }

    /// Position of the entry of `d` whose key equals `key`.
    pub fn dict_find(&self, d: &Vec<(Value, Value)>, key: &Value) -> (r: Option<usize>)
        ensures
            match r {
                Some(i) => dict_find(self.cells_v(), view_pairs(d@), key@) == Some(i as int) && i < d@.len(),
                None => dict_find(self.cells_v(), view_pairs(d@), key@) is None,
            },
    {
        let ghost dv = view_pairs(d@);
        let mut i: usize = 0;
        while i < d.len()
            invariant
                i <= d@.len(),
                dv == view_pairs(d@),
                dict_find_from(self.cells_v(), dv, key@, i as int) == dict_find(self.cells_v(), dv, key@),
            decreases d@.len() - i,
        {
            if self.key_eq(&d[i].0, key) {
                return Some(i);
            }
            i += 1;
        }
        None
    }

    /// Text of a key as it is printed.
    pub fn key_text(&self, k: &Value) -> (r: String)
        ensures
            r@ == key_text(self.cells_v(), k@),
    {
        let x = match k {
            Value::Ref(r) => match self.deref_index(r) {
                Some(i) => &self.cells[i],
                None => { return String::new(); },
            },
            _ => k,
        };
        match x {
            Value::Nil => String::from_str("Nil"),
            Value::Bool(b) => if *b {
                String::from_str("true")
            } else {
                String::from_str("false")
            },
            Value::Int(n) => i64_to_string(*n),
            Value::Str(s) => s.clone(),
            _ => String::new(),
        }
    }
}

/// One character of a string as a string.
fn char_string(s: &String, idx: usize) -> (r: String)
    requires
        idx < s@.len(),
    ensures
        r@ == seq![s@[idx as int]],
{
    let c = s.as_str().get_char(idx);
    let mut r = String::new();
    push_char(&mut r, c);
    assert(r@ =~= seq![s@[idx as int]]);
    r
}

impl Value {
    fn get_plain(&self, heap: &Heap, key: &Value) -> (r: Lovm2Result<Value>)
        requires
            !(self@ is Ref),
            lookup_ok(heap.cells_v(), self@, key@),
        ensures
            match (r, get_plain(heap.cells_v(), self@, key@)) {
                (Ok(a), Ok(b)) => a@ == b,
                (Err(a), Err(b)) => a@ == b,
                _ => false,
            },
    {
        match self {
            Value::Str(s) => {
                let n = match key.as_integer_inner(heap) {
                    Ok(n) => n,
                    Err(e) => { return Err(e); },
                };
                let idx = n as usize;
                assert(as_int_v(heap.cells_v(), key@) == Ok::<i64, ErrorV>(n));
                if idx < s.as_str().unicode_len() {
                    let r = Value::Str(char_string(s, idx));
                    assert(get_plain(heap.cells_v(), self@, key@) == Ok::<ValueV, ErrorV>(r@));
                    Ok(r)
                } else {
                    let r = Lovm2Error { ty: Some(Lovm2ErrorTy::KeyNotFound), msg: usize_to_string(idx) };
                    assert(get_plain(heap.cells_v(), self@, key@) == Err::<ValueV, ErrorV>(r@));
                    Err(r)
                }
            },
            Value::Dict(d) => match heap.dict_find(d, key) {
                Some(i) => {
                    assert(view_pairs(d@)[i as int].1 == d@[i as int].1@);
                    Ok(d[i].1.duplicate())
                },
                None => Err(Lovm2Error { ty: Some(Lovm2ErrorTy::KeyNotFound), msg: heap.key_text(key) }),
            },
            Value::List(l) => {
                let n = match key.as_integer_inner(heap) {
                    Ok(n) => n,
                    Err(e) => { return Err(e); },
                };
                let idx = n as usize;
                assert(as_int_v(heap.cells_v(), key@) == Ok::<i64, ErrorV>(n));
                assert(self@ == ValueV::List(view_values(l@)));
                assert(view_values(l@).len() == l@.len());
                if idx < l.len() {
                    assert(view_values(l@)[idx as int] == l@[idx as int]@);
                    let r = l[idx].duplicate();
                    assert(get_plain(heap.cells_v(), self@, key@) == Ok::<ValueV, ErrorV>(r@));
                    Ok(r)
                } else {
                    let r = Lovm2Error { ty: Some(Lovm2ErrorTy::KeyNotFound), msg: i64_to_string(n) };
                    assert(get_plain(heap.cells_v(), self@, key@) == Err::<ValueV, ErrorV>(r@));
                    Err(r)
                }
            },
            _ => Err(error_op_not_supported("get")),
        }
    }

    /// Retrieve an item by key. Strings and lists are indexed by the key as
    /// integer, dictionaries by the key itself; a reference is followed to the
    /// collection it stands for.
    pub fn get(&self, heap: &Heap, key: &Value) -> (r: Lovm2Result<Value>)
        requires
            get_ok(heap.cells_v(), self@, key@),
        ensures
            match (r, get_spec(heap.cells_v(), self@, key@)) {
                (Ok(a), Ok(b)) => a@ == b,
                (Err(a), Err(b)) => a@ == b,
                _ => false,
            },
    {
        match self {
            Value::Ref(r) => match heap.deref_index(r) {
                Some(i) => heap.cells[i].get_plain(heap, key),
                None => Err(error_borrow_failed()),
            },
            _ => self.get_plain(heap, key),
        }
    }
}

} // verus!

verus! {

/// Container after storing `bval` under `key`, for a container that is not
/// a reference.
pub open spec fn set_plain_spec(cells: Seq<ValueV>, cont: ValueV, key: ValueV, bval: ValueV) -> (
    ValueV,
    Result<(), ErrorV>,
) {
    match cont {
        ValueV::Dict(d) => (ValueV::Dict(dict_insert(cells, d, key, bval)), Ok(())),
        ValueV::List(l) => match as_int_v(cells, key) {
            Ok(n) => if (n as usize) == l.len() {
                (ValueV::List(l.push(bval)), Ok(()))
            } else {
                (ValueV::List(l.update((n as usize) as int, bval)), Ok(()))
            },
            Err(e) => (cont, Err(e)),
        },
        _ => (cont, Err(op_not_supported("set"@))),
    }
}

/// Cells, target and result of `set`: the value is wrapped first unless it
/// is a reference; a reference target changes the cell it stands for.
pub open spec fn set_spec(cells: Seq<ValueV>, target: ValueV, key: ValueV, val: ValueV) -> (
    Seq<ValueV>,
    ValueV,
    Result<(), ErrorV>,
) {
    let (c1, bval) = boxed_arg(cells, val);
    match target {
        ValueV::Ref(r) => match deref_cell(c1, r) {
            Some(i) => {
                let (cont, res) = set_plain_spec(c1, c1[i], key, bval);
                (c1.update(i, cont), target, res)
            },
            None => (c1, target, Err(borrow_failed())),
        },
        _ => {
            let (t2, res) = set_plain_spec(c1, target, key, bval);
            (c1, t2, res)
        },
    }
}

/// Whether a container update with `key` on `target` runs without a panic:
/// the key can be hashed or converted, a list index is in range, and where
/// the target is a reference, neither the key nor a stored key reads a cell
/// that the update holds borrowed.
pub open spec fn update_ok(cells: Seq<ValueV>, target: ValueV, key: ValueV, appending: bool) -> bool {
    match resolve(cells, target) {
        Some(ValueV::Dict(d)) => {
            &&& (appending || d.len() > 0) ==> hashable(cells, key)
            &&& target is Ref ==> !shares_cell(cells, target, key)
            &&& target is Ref ==> forall|j: int|
                0 <= j < d.len() ==> !shares_cell(cells, target, #[trigger] d[j].0)
        },
        Some(ValueV::List(l)) => {
            &&& !is_float_v(cells, key)
            &&& target is Ref ==> !shares_cell(cells, target, key)
            &&& as_int_v(cells, key) matches Ok(n) ==> if appending {
                (n as usize) <= l.len()
            } else {
                (n as usize) < l.len()
            }
        },
        _ => true,
    }
}

/// Container after removing `key`, for a container that is not a reference.
pub open spec fn delete_plain_spec(cells: Seq<ValueV>, cont: ValueV, key: ValueV) -> (
    ValueV,
    Result<(), ErrorV>,
) {
    match cont {
        ValueV::Dict(d) => (ValueV::Dict(dict_remove(cells, d, key)), Ok(())),
        ValueV::List(l) => match as_int_v(cells, key) {
            Ok(n) => (ValueV::List(l.remove((n as usize) as int)), Ok(())),
            Err(e) => (cont, Err(e)),
        },
        _ => (cont, Err(op_not_supported("delete"@))),
    }
}

/// Cells, target and result of `delete`.
pub open spec fn delete_spec(cells: Seq<ValueV>, target: ValueV, key: ValueV) -> (
    Seq<ValueV>,
    ValueV,
    Result<(), ErrorV>,
) {
    match target {
        ValueV::Ref(r) => match deref_cell(cells, r) {
            Some(i) => {
                let (cont, res) = delete_plain_spec(cells, cells[i], key);
                (cells.update(i, cont), target, res)
            },
            None => (cells, target, Err(borrow_failed())),
        },
        _ => {
            let (t2, res) = delete_plain_spec(cells, target, key);
            (cells, t2, res)
        },
    }
}

/// Cells, target and result of `append`.
pub open spec fn append_spec(cells: Seq<ValueV>, target: ValueV, val: ValueV) -> (
    Seq<ValueV>,
    ValueV,
    Result<(), ErrorV>,
) {
    let (c1, bval) = boxed_arg(cells, val);
    match target {
        ValueV::List(l) => (c1, ValueV::List(l.push(bval)), Ok(())),
        ValueV::Ref(r) => match deref_cell(c1, r) {
            Some(i) => match c1[i] {
                ValueV::List(l) => (c1.update(i, ValueV::List(l.push(bval))), target, Ok(())),
                _ => (c1, target, Err(op_not_supported("append"@))),
            },
            None => (c1, target, Err(borrow_failed())),
        },
        _ => (c1, target, Err(op_not_supported("append"@))),
    }
}

/// Length of a value that is not a reference: bytes of a string, entries of
/// a collection.
pub open spec fn len_plain(v: ValueV) -> Result<usize, ErrorV> {
    match v {
        ValueV::Str(s) => Ok(vstd::utf8::encode_utf8(s).len() as usize),
        ValueV::Dict(d) => Ok(d.len() as usize),
        ValueV::List(l) => Ok(l.len() as usize),
        _ => Err(op_not_supported("len"@)),
    }
}

/// Length of a value (`len`).
pub open spec fn len_spec(cells: Seq<ValueV>, v: ValueV) -> Result<usize, ErrorV> {
    match v {
        ValueV::Ref(r) => match deref_cell(cells, r) {
            Some(i) => len_plain(cells[i]),
            None => Err(borrow_failed()),
        },
        _ => len_plain(v),
    }
}

/// Cells and result of taking the item at position `idx` of a value that is
/// not a reference. A dictionary entry comes as a new wrapped list of key and
/// value.
pub open spec fn get_by_index_plain(cells: Seq<ValueV>, v: ValueV, idx: usize) -> (
    Seq<ValueV>,
    Result<ValueV, ErrorV>,
) {
    match v {
        ValueV::Str(s) => if idx < s.len() {
            (cells, Ok(ValueV::Str(seq![s[idx as int]])))
        } else {
            (cells, Err(key_not_found(nat_text(idx as nat))))
        },
        ValueV::Dict(d) => if idx < d.len() {
            let (c, b) = box_spec(cells, ValueV::List(seq![d[idx as int].0, d[idx as int].1]));
            (c, Ok(b))
        } else {
            (cells, Err(key_not_found(nat_text(idx as nat))))
        },
        ValueV::List(l) => if idx < l.len() {
            (cells, Ok(l[idx as int]))
        } else {
            (cells, Err(key_not_found(nat_text(idx as nat))))
        },
        _ => (cells, Err(op_not_supported("get_by_index"@))),
    }
}

/// Cells and result of `get_by_index`.
pub open spec fn get_by_index_spec(cells: Seq<ValueV>, v: ValueV, idx: usize) -> (
    Seq<ValueV>,
    Result<ValueV, ErrorV>,
) {
    match v {
        ValueV::Ref(r) => match deref_cell(cells, r) {
            Some(i) => get_by_index_plain(cells, cells[i], idx),
            None => (cells, Err(borrow_failed())),
        },
        _ => get_by_index_plain(cells, v, idx),
    }
}

/// The value a reference stands for, or the value itself (`clone_inner`).
pub open spec fn clone_inner_spec(cells: Seq<ValueV>, v: ValueV) -> Result<ValueV, ErrorV> {
    match v {
        ValueV::Ref(r) => match deref_cell(cells, r) {
            Some(i) => Ok(cells[i]),
            None => Err(empty_deref()),
        },
        _ => Ok(v),
    }
}

} // verus!

verus! {

/// Integer conversion does not depend on a cell the key's chain does not pass.
pub proof fn lemma_as_int_frame(cells: Seq<ValueV>, v: ValueV, k: int, x: ValueV)
    requires
        !visits(cells, v, k),
        0 <= k < cells.len(),
    ensures
        as_int_v(cells.update(k, x), v) == as_int_v(cells, v),
        is_float_v(cells.update(k, x), v) == is_float_v(cells, v),
{
    lemma_resolve_frame(cells, v, k, x);
    if let ValueV::Ref(r) = v {
        lemma_deref_cell_frame(cells, r, k, x);
        if deref_cell(cells, r) is Some {
            lemma_deref_cell_visits(cells, r);
            lemma_deref_cell_end(cells, r);
        }
    }
}

/// Key search does not depend on a cell that no key involved reads.
pub proof fn lemma_dict_find_frame(
    cells: Seq<ValueV>,
    d: Seq<(ValueV, ValueV)>,
    key: ValueV,
    k: int,
    x: ValueV,
    i: int,
)
    requires
        !visits(cells, key, k),
        forall|j: int| 0 <= j < d.len() ==> !visits(cells, #[trigger] d[j].0, k),
        0 <= k < cells.len(),
    ensures
        dict_find_from(cells.update(k, x), d, key, i) == dict_find_from(cells, d, key, i),
    decreases d.len() - i,
{
    if 0 <= i < d.len() {
        lemma_resolve_frame(cells, key, k, x);
        lemma_resolve_frame(cells, d[i].0, k, x);
        lemma_dict_find_frame(cells, d, key, k, x, i + 1);
    }
}

/// The chain of a reference passes the cell where it ends, so a value that
/// shares no cell with the reference does not read that cell.
proof fn lemma_no_share_end(cells: Seq<ValueV>, target: ValueV, other: ValueV)
    requires
        target is Ref,
        deref_cell(cells, target->Ref_0) is Some,
        !shares_cell(cells, target, other),
    ensures
        !visits(cells, other, deref_cell(cells, target->Ref_0)->0),
{
    lemma_deref_cell_visits(cells, target->Ref_0);
}

impl Value {
    fn set_plain(&mut self, heap: &Heap, key: &Value, val: Value) -> (r: Lovm2Result<()>)
        requires
            !(old(self)@ is Ref),
            update_ok(heap.cells_v(), old(self)@, key@, true),
        ensures
            match (r, set_plain_spec(heap.cells_v(), old(self)@, key@, val@)) {
                (Ok(_), (c, Ok(_))) => final(self)@ == c,
                (Err(a), (c, Err(b))) => final(self)@ == c && a@ == b,
                _ => false,
            },
    {
        match self {
            Value::Dict(d) => {
                let ghost dv = view_pairs(d@);
                match heap.dict_find(d, key) {
                    Some(i) => {
                        let k = d[i].0.duplicate();
                        d.set(i, (k, val));
                        assert(view_pairs(d@) =~= dv.update(i as int, (dv[i as int].0, val@)));
                    },
                    None => {
                        d.push((key.duplicate(), val));
                        assert(view_pairs(d@) =~= dv.push((key@, val@)));
                    },
                }
                Ok(())
            },
            Value::List(l) => {
                let ghost lv = view_values(l@);
                let n = match key.as_integer_inner(heap) {
                    Ok(n) => n,
                    Err(e) => { return Err(e); },
                };
                let idx = n as usize;
                if l.len() == idx {
                    l.push(val);
                    assert(view_values(l@) =~= lv.push(val@));
                } else {
                    l.set(idx, val);
                    assert(view_values(l@) =~= lv.update(idx as int, val@));
                }
                Ok(())
            },
            _ => Err(error_op_not_supported("set")),
        }
    }

    /// Insert a new item into the value. A value that is not a reference is
    /// wrapped into a cell first. Dictionaries store it under `key`, lists at
    /// the position `key` or at the end where `key` equals the length; a
    /// reference changes the collection it stands for.
    pub fn set(&mut self, heap: &mut Heap, key: &Value, val: Value) -> (r: Lovm2Result<()>)
        requires
            update_ok(boxed_arg(old(heap).cells_v(), val@).0, old(self)@, key@, true),
        ensures
            ({
                let (c, t, res) = set_spec(old(heap).cells_v(), old(self)@, key@, val@);
                &&& final(heap).cells_v() == c
                &&& final(self)@ == t
                &&& match (r, res) {
                    (Ok(_), Ok(_)) => true,
                    (Err(a), Err(b)) => a@ == b,
                    _ => false,
                }
            }),
    {
        let val = if val.is_ref() {
            val
        } else {
            heap.box_value(val)
        };
        let ghost c1 = heap.cells_v();
        match self {
            Value::Ref(r) => match heap.deref_index(r) {
                None => Err(error_borrow_failed()),
                Some(i) => {
                    let mut cont = Value::Nil;
                    heap.cells.set_and_swap(i, &mut cont);
                    proof {
                        let t = old(self)@;
                        assert(heap.cells_v() =~= c1.update(i as int, ValueV::Nil));
                        if c1[i as int] is Dict || c1[i as int] is List {
                            lemma_no_share_end(c1, t, key@);
                            lemma_as_int_frame(c1, key@, i as int, ValueV::Nil);
                            lemma_resolve_frame(c1, key@, i as int, ValueV::Nil);
                        }
                        if let ValueV::Dict(d) = c1[i as int] {
                            assert forall|j: int| 0 <= j < d.len() implies !visits(c1, #[trigger] d[j].0, i as int) by {
                                lemma_no_share_end(c1, t, d[j].0);
                            }
                            lemma_dict_find_frame(c1, d, key@, i as int, ValueV::Nil, 0);
                        }
                    }
                    let res = cont.set_plain(heap, key, val);
                    heap.cells.set_and_swap(i, &mut cont);
                    proof {
                        assert(heap.cells_v() =~= c1.update(i as int, view_values(heap.cells@)[i as int]));
                    }
                    res
                },
            },
            _ => self.set_plain(heap, key, val),
        }
    }
}

} // verus!

verus! {

impl Value {
    fn delete_plain(&mut self, heap: &Heap, key: &Value) -> (r: Lovm2Result<()>)
        requires
            !(old(self)@ is Ref),
            update_ok(heap.cells_v(), old(self)@, key@, false),
        ensures
            match (r, delete_plain_spec(heap.cells_v(), old(self)@, key@)) {
                (Ok(_), (c, Ok(_))) => final(self)@ == c,
                (Err(a), (c, Err(b))) => final(self)@ == c && a@ == b,
                _ => false,
            },
    {
        match self {
            Value::Dict(d) => {
                let ghost dv = view_pairs(d@);
                match heap.dict_find(d, key) {
                    Some(i) => {
                        let _ = d.swap_remove(i);
                        assert(view_pairs(d@) =~= dv.update(i as int, dv.last()).drop_last());
                    },
                    None => {},
                }
                Ok(())
            },
            Value::List(l) => {
                let ghost lv = view_values(l@);
                let n = match key.as_integer_inner(heap) {
                    Ok(n) => n,
                    Err(e) => { return Err(e); },
                };
                let idx = n as usize;
                let _ = l.remove(idx);
                assert(view_values(l@) =~= lv.remove(idx as int));
                Ok(())
            },
            _ => Err(error_op_not_supported("delete")),
        }
    }

    /// Delete an item from a value by key: a dictionary entry by its key, a
    /// list item by its position; a reference changes the collection it
    /// stands for.
    pub fn delete(&mut self, heap: &mut Heap, key: &Value) -> (r: Lovm2Result<()>)
        requires
            update_ok(old(heap).cells_v(), old(self)@, key@, false),
        ensures
            ({
                let (c, t, res) = delete_spec(old(heap).cells_v(), old(self)@, key@);
                &&& final(heap).cells_v() == c
                &&& final(self)@ == t
                &&& match (r, res) {
                    (Ok(_), Ok(_)) => true,
                    (Err(a), Err(b)) => a@ == b,
                    _ => false,
                }
            }),
    {
        let ghost c1 = heap.cells_v();
        match self {
            Value::Ref(r) => match heap.deref_index(r) {
                None => Err(error_borrow_failed()),
                Some(i) => {
                    let mut cont = Value::Nil;
                    heap.cells.set_and_swap(i, &mut cont);
                    proof {
                        let t = old(self)@;
                        assert(heap.cells_v() =~= c1.update(i as int, ValueV::Nil));
                        if c1[i as int] is Dict || c1[i as int] is List {
                            lemma_no_share_end(c1, t, key@);
                            lemma_as_int_frame(c1, key@, i as int, ValueV::Nil);
                            lemma_resolve_frame(c1, key@, i as int, ValueV::Nil);
                        }
                        if let ValueV::Dict(d) = c1[i as int] {
                            assert forall|j: int| 0 <= j < d.len() implies !visits(c1, #[trigger] d[j].0, i as int) by {
                                lemma_no_share_end(c1, t, d[j].0);
                            }
                            lemma_dict_find_frame(c1, d, key@, i as int, ValueV::Nil, 0);
                        }
                    }
                    let res = cont.delete_plain(heap, key);
                    heap.cells.set_and_swap(i, &mut cont);
                    proof {
                        assert(heap.cells_v() =~= c1.update(i as int, view_values(heap.cells@)[i as int]));
                    }
                    res
                },
            },
            _ => self.delete_plain(heap, key),
        }
    }

    /// Append a new item to a list. A value that is not a reference is
    /// wrapped into a cell first; a reference changes the list it stands for.
    pub fn append(&mut self, heap: &mut Heap, val: Value) -> (r: Lovm2Result<()>)
        ensures
            ({
                let (c, t, res) = append_spec(old(heap).cells_v(), old(self)@, val@);
                &&& final(heap).cells_v() == c
                &&& final(self)@ == t
                &&& match (r, res) {
                    (Ok(_), Ok(_)) => true,
                    (Err(a), Err(b)) => a@ == b,
                    _ => false,
                }
            }),
    {
        let val = if val.is_ref() {
            val
        } else {
            heap.box_value(val)
        };
        let ghost c1 = heap.cells_v();
        match self {
            Value::List(l) => {
                let ghost lv = view_values(l@);
                l.push(val);
                assert(view_values(l@) =~= lv.push(val@));
                Ok(())
            },
            Value::Ref(r) => match heap.deref_index(r) {
                None => Err(error_borrow_failed()),
                Some(i) => {
                    let mut cont = Value::Nil;
                    heap.cells.set_and_swap(i, &mut cont);
                    let res = match &mut cont {
                        Value::List(l) => {
                            let ghost lv = view_values(l@);
                            l.push(val);
                            assert(view_values(l@) =~= lv.push(val@));
                            Ok(())
                        },
                        _ => Err(error_op_not_supported("append")),
                    };
                    heap.cells.set_and_swap(i, &mut cont);
                    proof {
                        assert(heap.cells_v() =~= c1.update(i as int, view_values(heap.cells@)[i as int]));
                    }
                    res
                },
            },
            _ => Err(error_op_not_supported("append")),
        }
    }

    fn len_plain(&self) -> (r: Lovm2Result<usize>)
        ensures
            match (r, len_plain(self@)) {
                (Ok(a), Ok(b)) => a == b,
                (Err(a), Err(b)) => a@ == b,
                _ => false,
            },
    {
        match self {
            Value::Str(s) => {
                let t = s.as_str();
                let n = t.len();
                assert(t.spec_bytes() == vstd::utf8::encode_utf8(s@));
                assert(self@ == ValueV::Str(s@));
                Ok(n)
            },
            Value::Dict(d) => {
                assert(self@ == ValueV::Dict(view_pairs(d@)));
                Ok(d.len())
            },
            Value::List(l) => {
                assert(self@ == ValueV::List(view_values(l@)));
                Ok(l.len())
            },
            _ => Err(error_op_not_supported("len")),
        }
    }

    /// Retrieve the length of the value: the number of bytes of a string or
    /// the number of items of a collection.
    pub fn len(&self, heap: &Heap) -> (r: Lovm2Result<usize>)
        ensures
            match (r, len_spec(heap.cells_v(), self@)) {
                (Ok(a), Ok(b)) => a == b,
                (Err(a), Err(b)) => a@ == b,
                _ => false,
            },
    {
        match self {
            Value::Ref(r) => match heap.deref_index(r) {
                Some(i) => heap.cells[i].len_plain(),
                None => Err(error_borrow_failed()),
            },
            _ => self.len_plain(),
        }
    }

    /// Get an item by its position. This is mainly used for iteration. A
    /// dictionary entry is returned as a wrapped list of key and value.
    pub fn get_by_index(&self, heap: &mut Heap, idx: usize) -> (r: Lovm2Result<Value>)
        ensures
            ({
                let (c, res) = get_by_index_spec(old(heap).cells_v(), self@, idx);
                &&& final(heap).cells_v() == c
                &&& match (r, res) {
                    (Ok(a), Ok(b)) => a@ == b,
                    (Err(a), Err(b)) => a@ == b,
                    _ => false,
                }
            }),
    {
        let target = match self {
            Value::Ref(r) => match heap.deref_index(r) {
                Some(i) => heap.cells[i].duplicate(),
                None => { return Err(error_borrow_failed()); },
            },
            _ => self.duplicate(),
        };
        assert(get_by_index_spec(old(heap).cells_v(), self@, idx) == get_by_index_plain(old(heap).cells_v(), target@, idx));
        match &target {
            Value::Str(s) => {
                assert(target@ == ValueV::Str(s@));
                if idx < s.as_str().unicode_len() {
                    Ok(Value::Str(char_string(s, idx)))
                } else {
                    Err(Lovm2Error { ty: Some(Lovm2ErrorTy::KeyNotFound), msg: usize_to_string(idx) })
                }
            },
            Value::Dict(d) => {
                assert(target@ == ValueV::Dict(view_pairs(d@)));
                if idx < d.len() {
                    let k = d[idx].0.duplicate();
                    let v = d[idx].1.duplicate();
                    let mut pair: Vec<Value> = Vec::new();
                    pair.push(k);
                    pair.push(v);
                    proof {
                        let dv = view_pairs(d@);
                        assert(view_values(pair@) =~= seq![dv[idx as int].0, dv[idx as int].1]);
                    }
                    Ok(heap.box_value(Value::List(pair)))
                } else {
                    Err(Lovm2Error { ty: Some(Lovm2ErrorTy::KeyNotFound), msg: usize_to_string(idx) })
                }
            },
            Value::List(l) => {
                assert(target@ == ValueV::List(view_values(l@)));
                assert(view_values(l@).len() == l@.len());
                if idx < l.len() {
                    assert(view_values(l@)[idx as int] == l@[idx as int]@);
                    Ok(l[idx].duplicate())
                } else {
                    Err(Lovm2Error { ty: Some(Lovm2ErrorTy::KeyNotFound), msg: usize_to_string(idx) })
                }
            },
            _ => Err(error_op_not_supported("get_by_index")),
        }
    }

    /// If the value is a reference, an owned copy of the value it stands
    /// for; otherwise a copy of the value.
    pub fn clone_inner(&self, heap: &Heap) -> (r: Lovm2Result<Value>)
        ensures
            match (r, clone_inner_spec(heap.cells_v(), self@)) {
                (Ok(a), Ok(b)) => a@ == b,
                (Err(a), Err(b)) => a@ == b,
                _ => false,
            },
    {
        match self {
            Value::Ref(r) => match heap.deref_index(r) {
                Some(i) => Ok(heap.cells[i].duplicate()),
                None => Err(error_empty_deref()),
            },
            _ => Ok(self.duplicate()),
        }
    }

    /// Ensure that the value is not wrapped in a reference: a reference is
    /// replaced by a copy of the value it stands for.
    pub fn unref_inplace(&mut self, heap: &Heap) -> (r: Lovm2Result<()>)
        ensures
            match clone_inner_spec(heap.cells_v(), old(self)@) {
                Ok(v) => r is Ok && final(self)@ == v,
                Err(e) => r matches Err(a) && a@ == e && final(self)@ == old(self)@,
            },
    {
        match self.clone_inner(heap) {
            Ok(v) => {
                *self = v;
                Ok(())
            },
            Err(e) => Err(e),
        }
    }

    /// A new empty dictionary.
    pub fn dict() -> (r: Value)
        ensures
            r@ == ValueV::Dict(Seq::empty()),
    {
        let d: Vec<(Value, Value)> = Vec::new();
        assert(view_pairs(d@) =~= Seq::empty());
        Value::Dict(d)
    }

    /// A new empty list.
    pub fn list() -> (r: Value)
        ensures
            r@ == ValueV::List(Seq::empty()),
    {
        let l: Vec<Value> = Vec::new();
        assert(view_values(l@) =~= Seq::empty());
        Value::List(l)
    }
}

} // verus!

verus! {

/// Wrapping a value only appends cells.
pub proof fn lemma_box_extends(cells: Seq<ValueV>, v: ValueV)
    ensures
        extends(cells, box_spec(cells, v).0),
    decreases v,
{
    match v {
        ValueV::Dict(d) => lemma_box_pairs_extends(cells, d),
        ValueV::List(l) => lemma_box_items_extends(cells, l),
        _ => {},
    }
    let c1 = match v {
        ValueV::Dict(d) => box_pairs_spec(cells, d).0,
        ValueV::List(l) => box_items_spec(cells, l).0,
        _ => cells,
    };
    assert(box_spec(cells, v).0 == c1.push(match v {
        ValueV::Dict(d) => ValueV::Dict(box_pairs_spec(cells, d).1),
        ValueV::List(l) => ValueV::List(box_items_spec(cells, l).1),
        _ => v,
    }));
}

pub proof fn lemma_box_items_extends(cells: Seq<ValueV>, l: Seq<ValueV>)
    ensures
        extends(cells, box_items_spec(cells, l).0),
    decreases l,
{
    if l.len() > 0 {
        lemma_box_items_extends(cells, l.drop_last());
        let c1 = box_items_spec(cells, l.drop_last()).0;
        if !(l.last() is Ref) {
            lemma_box_extends(c1, l.last());
        }
    }
}

pub proof fn lemma_box_pairs_extends(cells: Seq<ValueV>, d: Seq<(ValueV, ValueV)>)
    ensures
        extends(cells, box_pairs_spec(cells, d).0),
    decreases d,
{
    if d.len() > 0 {
        lemma_box_pairs_extends(cells, d.drop_last());
        let c1 = box_pairs_spec(cells, d.drop_last()).0;
        if !(d.last().1 is Ref) {
            lemma_box_extends(c1, d.last().1);
        }
    }
}

/// Number of items that positions can reach in a value: characters of a
/// string, entries of a collection.
pub open spec fn item_count(cells: Seq<ValueV>, v: ValueV) -> nat {
    match resolve(cells, v) {
        Some(ValueV::Str(s)) => s.len(),
        Some(ValueV::Dict(d)) => d.len(),
        Some(ValueV::List(l)) => l.len(),
        _ => 0,
    }
}

/// Taking an item by position succeeds exactly below the item count, and
/// only appends cells.
pub proof fn lemma_get_by_index_facts(cells: Seq<ValueV>, v: ValueV, idx: usize)
    ensures
        (get_by_index_spec(cells, v, idx).1 is Ok) == (idx < item_count(cells, v)),
        extends(cells, get_by_index_spec(cells, v, idx).0),
        resolve(cells, v) is Some ==> item_count(get_by_index_spec(cells, v, idx).0, v) == item_count(cells, v),
        resolve(cells, v) is None ==> get_by_index_spec(cells, v, idx).0 == cells,
{
    let target = resolve(cells, v);
    if let ValueV::Ref(r) = v {
        if deref_cell(cells, r) is Some {
            lemma_deref_cell_end(cells, r);
        }
    }
    match target {
        Some(t) => {
            if let ValueV::Dict(d) = t {
                if idx < d.len() {
                    lemma_box_extends(cells, ValueV::List(seq![d[idx as int].0, d[idx as int].1]));
                }
            }
            let c2 = get_by_index_spec(cells, v, idx).0;
            lemma_resolve_extend(cells, c2, v);
        },
        None => {},
    }
}

} // verus!
