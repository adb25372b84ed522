//! Sorting strings, lists and dictionaries.

use vstd::prelude::*;
use vstd::string::StringExecFns;

use crate::error::{ErrorV, Lovm2Result};
use crate::text::push_char;
use crate::value::conv::{error_op_not_supported, op_not_supported};
use crate::value::data::{box_spec, clone_inner_spec};
use crate::value::deep::{clone_items, deep_clone_spec};
use crate::value::eq::EQ_DEPTH;
use crate::value::heap::{resolve, Heap};
use crate::value::op::{compare_ok, compare_spec, Order};
use crate::value::{view_pairs, view_values, Value, ValueV};

verus! {

broadcast use crate::value::group_value_views;

/// Position where `c` goes into `t`: before the first character from `i` on
/// that is greater.
pub open spec fn char_pos(t: Seq<char>, c: char, i: int) -> int
    decreases t.len() - i,
{
    if i < 0 || i >= t.len() {
        t.len() as int
    } else if c < t[i] {
        i
    } else {
        char_pos(t, c, i + 1)
    }
}

/// The characters of `s` in ascending order: each is inserted in turn before
/// the first greater one.
pub open spec fn sort_chars(s: Seq<char>) -> Seq<char>
    decreases s.len(),
{
    if s.len() == 0 {
        Seq::empty()
    } else {
        let t = sort_chars(s.drop_last());
        t.insert(char_pos(t, s.last(), 0), s.last())
    }
}

/// Whether `a` orders strictly before `b`; pairs without an order count as
/// equal.
pub open spec fn before(cells: Seq<ValueV>, a: ValueV, b: ValueV) -> bool {
    compare_spec(cells, a, b) == Some(Order::Less)
}

/// Position where `x` goes into `t`: before the first value from `i` on that
/// `x` orders before.
pub open spec fn value_pos(cells: Seq<ValueV>, t: Seq<ValueV>, x: ValueV, i: int) -> int
    decreases t.len() - i,
{
    if i < 0 || i >= t.len() {
        t.len() as int
    } else if before(cells, x, t[i]) {
        i
    } else {
        value_pos(cells, t, x, i + 1)
    }
}

/// The values of `s` sorted stably: each is inserted in turn after all
/// values it does not order before.
pub open spec fn sort_values(cells: Seq<ValueV>, s: Seq<ValueV>) -> Seq<ValueV>
    decreases s.len(),
{
    if s.len() == 0 {
        Seq::empty()
    } else {
        let t = sort_values(cells, s.drop_last());
        t.insert(value_pos(cells, t, s.last(), 0), s.last())
    }
}

/// Position where the entry `x` goes into `t`, by key.
pub open spec fn pair_pos(cells: Seq<ValueV>, t: Seq<(ValueV, ValueV)>, x: (ValueV, ValueV), i: int) -> int
    decreases t.len() - i,
{
    if i < 0 || i >= t.len() {
        t.len() as int
    } else if before(cells, x.0, t[i].0) {
        i
    } else {
        pair_pos(cells, t, x, i + 1)
    }
}

/// The entries of `s` sorted stably by key.
pub open spec fn sort_pairs(cells: Seq<ValueV>, s: Seq<(ValueV, ValueV)>) -> Seq<(ValueV, ValueV)>
    decreases s.len(),
{
    if s.len() == 0 {
        Seq::empty()
    } else {
        let t = sort_pairs(cells, s.drop_last());
        t.insert(pair_pos(cells, t, s.last(), 0), s.last())
    }
}

/// Whether `v` can be compared with other such values without a panic and
/// without float arithmetic: it is no dangling reference and no float.
pub open spec fn sortable(cells: Seq<ValueV>, v: ValueV) -> bool {
    &&& (v is Ref ==> resolve(cells, v) is Some)
    &&& !(resolve(cells, v) matches Some(ValueV::Float(_)))
}

/// Two sortable values can be compared.
proof fn lemma_sortable_compare(cells: Seq<ValueV>, a: ValueV, b: ValueV)
    requires
        sortable(cells, a),
        sortable(cells, b),
    ensures
        compare_ok(cells, a, b),
{
}

/// Cells and result of sorting: a string gets its characters in order; a
/// list gets deep copies of its items, sorted, in a new cell; a dictionary
/// is copied and its entries sorted by key, in a new cell. `Ok(None)` where
/// a copy nests too deep or a float takes part, which the host compares.
pub open spec fn sort_spec(cells: Seq<ValueV>, collection: ValueV) -> (Seq<ValueV>, Result<Option<ValueV>, ErrorV>) {
    match collection {
        ValueV::Str(s) => (cells, Ok(Some(ValueV::Str(sort_chars(s))))),
        ValueV::List(l) => match clone_items(cells, l, l.len() as int, EQ_DEPTH as nat) {
            Some((c, items)) => if forall|i: int| 0 <= i < items.len() ==> sortable(c, #[trigger] items[i]) {
                let (c2, r) = box_spec(c, ValueV::List(sort_values(c, items)));
                (c2, Ok(Some(r)))
            } else {
                (c, Ok(None))
            },
            None => (cells, Ok(None)),
        },
        ValueV::Dict(_) => match deep_clone_spec(cells, collection, EQ_DEPTH as nat) {
            Some((c, copy)) => match clone_inner_spec(c, copy) {
                Ok(ValueV::Dict(d)) => if forall|i: int| 0 <= i < d.len() ==> sortable(c, #[trigger] d[i].0) {
                    let (c2, r) = box_spec(c, ValueV::Dict(sort_pairs(c, d)));
                    (c2, Ok(Some(r)))
                } else {
                    (c, Ok(None))
                },
                _ => (c, Ok(None)),
            },
            None => (cells, Ok(None)),
        },
        _ => (cells, Err(op_not_supported("sort"@))),
    }
}

fn sorted_chars(s: &str) -> (r: String)
    ensures
        r@ == sort_chars(s@),
{
    let n = s.unicode_len();
    let mut t: Vec<char> = Vec::new();
    let mut k: usize = 0;
    while k < n
        invariant
            n == s@.len(),
            k <= n,
            t@ == sort_chars(s@.take(k as int)),
        decreases n - k,
    {
        let c = s.get_char(k);
        assert(s@.take(k + 1).drop_last() =~= s@.take(k as int));
        assert(s@.take(k + 1).last() == c);
        let mut p: usize = 0;
        while p < t.len() && !(c < t[p])
            invariant
                p <= t@.len(),
                char_pos(t@, c, 0) == char_pos(t@, c, p as int),
            decreases t@.len() - p,
        {
            p += 1;
        }
        t.insert(p, c);
        k += 1;
    }
    assert(s@.take(n as int) =~= s@);
    let mut out = String::new();
    let mut j: usize = 0;
    while j < t.len()
        invariant
            j <= t@.len(),
            out@ == t@.take(j as int),
        decreases t@.len() - j,
    {
        push_char(&mut out, t[j]);
        assert(t@.take(j + 1) =~= t@.take(j as int).push(t@[j as int]));
        j += 1;
    }
    assert(t@.take(t@.len() as int) =~= t@);
    out
}

fn sorted_values(heap: &Heap, items: Vec<Value>) -> (r: Vec<Value>)
    requires
        forall|i: int| 0 <= i < items@.len() ==> sortable(heap.cells_v(), #[trigger] items@[i]@),
    ensures
        view_values(r@) == sort_values(heap.cells_v(), view_values(items@)),
{
    let ghost cells = heap.cells_v();
    let ghost iv = view_values(items@);
    let mut t: Vec<Value> = Vec::new();
    let mut k: usize = 0;
    while k < items.len()
        invariant
            k <= items@.len(),
            cells == heap.cells_v(),
            iv == view_values(items@),
            forall|i: int| 0 <= i < items@.len() ==> sortable(cells, #[trigger] items@[i]@),
            view_values(t@) == sort_values(cells, iv.take(k as int)),
            forall|i: int| 0 <= i < t@.len() ==> sortable(cells, #[trigger] t@[i]@),
        decreases items@.len() - k,
    {
        let ghost tv = view_values(t@);
        assert(iv.take(k + 1).drop_last() =~= iv.take(k as int));
        assert(iv.take(k + 1).last() == items@[k as int]@);
        let mut p: usize = 0;
        loop
            invariant
                p <= t@.len(),
                k < items@.len(),
                tv == view_values(t@),
                cells == heap.cells_v(),
                sortable(cells, items@[k as int]@),
                forall|i: int| 0 <= i < t@.len() ==> sortable(cells, #[trigger] t@[i]@),
                value_pos(cells, tv, items@[k as int]@, 0) == value_pos(cells, tv, items@[k as int]@, p as int),
            ensures
                p <= t@.len(),
                value_pos(cells, tv, items@[k as int]@, 0) == p as int,
            decreases t@.len() - p,
        {
            if p >= t.len() {
                break;
            }
            proof {
                lemma_sortable_compare(cells, items@[k as int]@, t@[p as int]@);
            }
            let o = items[k].compare(heap, &t[p]);
            if let Some(Order::Less) = o {
                break;
            }
            p += 1;
        }
        let x = items[k].duplicate();
        let ghost t_old = t@;
        t.insert(p, x);
        assert(view_values(t@) =~= tv.insert(p as int, x@));
        assert forall|i: int| 0 <= i < t@.len() implies sortable(cells, #[trigger] t@[i]@) by {
            if i < p {
            } else if i == p {
                assert(t@[i] == x);
            } else {
                assert(t@[i] == t_old[i - 1]);
            }
        }
        k += 1;
    }
    assert(iv.take(items@.len() as int) =~= iv);
    t
}

fn sorted_pairs(heap: &Heap, entries: Vec<(Value, Value)>) -> (r: Vec<(Value, Value)>)
    requires
        forall|i: int| 0 <= i < entries@.len() ==> sortable(heap.cells_v(), #[trigger] entries@[i].0@),
    ensures
        view_pairs(r@) == sort_pairs(heap.cells_v(), view_pairs(entries@)),
{
    let ghost cells = heap.cells_v();
    let ghost ev = view_pairs(entries@);
    let mut t: Vec<(Value, Value)> = Vec::new();
    let mut k: usize = 0;
    while k < entries.len()
        invariant
            k <= entries@.len(),
            cells == heap.cells_v(),
            ev == view_pairs(entries@),
            forall|i: int| 0 <= i < entries@.len() ==> sortable(cells, #[trigger] entries@[i].0@),
            view_pairs(t@) == sort_pairs(cells, ev.take(k as int)),
            forall|i: int| 0 <= i < t@.len() ==> sortable(cells, #[trigger] t@[i].0@),
        decreases entries@.len() - k,
    {
        let ghost tv = view_pairs(t@);
        assert(ev.take(k + 1).drop_last() =~= ev.take(k as int));
        assert(ev.take(k + 1).last() == (entries@[k as int].0@, entries@[k as int].1@));
        let mut p: usize = 0;
        loop
            invariant
                p <= t@.len(),
                k < entries@.len(),
                tv == view_pairs(t@),
                cells == heap.cells_v(),
                ev == view_pairs(entries@),
                sortable(cells, entries@[k as int].0@),
                forall|i: int| 0 <= i < t@.len() ==> sortable(cells, #[trigger] t@[i].0@),
                pair_pos(cells, tv, ev[k as int], 0) == pair_pos(cells, tv, ev[k as int], p as int),
            ensures
                p <= t@.len(),
                pair_pos(cells, tv, ev[k as int], 0) == p as int,
            decreases t@.len() - p,
        {
            if p >= t.len() {
                break;
            }
            proof {
                lemma_sortable_compare(cells, entries@[k as int].0@, t@[p as int].0@);
            }
            let o = entries[k].0.compare(heap, &t[p].0);
            if let Some(Order::Less) = o {
                break;
            }
            p += 1;
        }
        let x = (entries[k].0.duplicate(), entries[k].1.duplicate());
        let ghost t_old = t@;
        t.insert(p, x);
        assert(view_pairs(t@) =~= tv.insert(p as int, (x.0@, x.1@)));
        assert forall|i: int| 0 <= i < t@.len() implies sortable(cells, #[trigger] t@[i].0@) by {
            if i < p {
            } else if i == p {
                assert(t@[i] == x);
            } else {
                assert(t@[i] == t_old[i - 1]);
            }
        }
        k += 1;
    }
    assert(ev.take(entries@.len() as int) =~= ev);
    t
}

/// Whether every value can take part in sorting.
fn all_sortable(heap: &Heap, vals: &Vec<Value>) -> (r: bool)
    ensures
        r == forall|i: int| 0 <= i < vals@.len() ==> sortable(heap.cells_v(), #[trigger] vals@[i]@),
{
    let mut i: usize = 0;
    while i < vals.len()
        invariant
            i <= vals@.len(),
            forall|j: int| 0 <= j < i ==> sortable(heap.cells_v(), #[trigger] vals@[j]@),
        decreases vals@.len() - i,
    {
        let v = &vals[i];
        if v.is_ref() && heap.resolve_value(v).is_none() {
            return false;
        }
        if heap.is_float(v) {
            return false;
        }
        i += 1;
    }
    true
}

/// Whether every key can take part in sorting.
fn all_keys_sortable(heap: &Heap, d: &Vec<(Value, Value)>) -> (r: bool)
    ensures
        r == forall|i: int| 0 <= i < d@.len() ==> sortable(heap.cells_v(), #[trigger] d@[i].0@),
{
    let mut i: usize = 0;
    while i < d.len()
        invariant
            i <= d@.len(),
            forall|j: int| 0 <= j < i ==> sortable(heap.cells_v(), #[trigger] d@[j].0@),
        decreases d@.len() - i,
    {
        let v = &d[i].0;
        if v.is_ref() && heap.resolve_value(v).is_none() {
            return false;
        }
        if heap.is_float(v) {
            return false;
        }
        i += 1;
    }
    true
}

/// Sort a string, a list or a dictionary; see [sort_spec].
pub fn sort(heap: &mut Heap, collection: &Value) -> (r: Lovm2Result<Option<Value>>)
    ensures
        ({
            let (c, res) = sort_spec(old(heap).cells_v(), collection@);
            match res {
                Ok(Some(b)) => r matches Ok(Some(a)) && a@ == b && final(heap).cells_v() == c,
                Ok(None) => r matches Ok(None),
                Err(b) => r matches Err(a) && a@ == b && final(heap).cells_v() == c,
            }
        }),
{
    match collection {
        Value::Str(s) => Ok(Some(Value::Str(sorted_chars(s.as_str())))),
        Value::List(l) => {
            let ghost c0 = heap.cells_v();
            let ghost lv = view_values(l@);
            let mut items: Vec<Value> = Vec::new();
            let mut i: usize = 0;
            while i < l.len()
                invariant
                    i <= l@.len(),
                    lv == view_values(l@),
                    collection@ == ValueV::List(lv),
                    c0 == old(heap).cells_v(),
                    clone_items(c0, lv, i as int, EQ_DEPTH as nat) == Some((heap.cells_v(), view_values(items@))),
                decreases l@.len() - i,
            {
                assert(lv[i as int] == l@[i as int]@);
                let ghost before = view_values(items@);
                let ghost cb = heap.cells_v();
                match l[i].deep_clone(heap) {
                    Some(x) => {
                        items.push(x);
                        assert(view_values(items@) =~= before.push(x@));
                    },
                    None => {
                        proof {
                            assert(deep_clone_spec(cb, lv[i as int], EQ_DEPTH as nat) is None);
                            assert(clone_items(c0, lv, i + 1, EQ_DEPTH as nat) is None);
                            crate::value::deep::lemma_clone_items_stop(c0, lv, i + 1, l@.len() as int, EQ_DEPTH as nat);
                        }
                        return Ok(None);
                    },
                }
                i += 1;
            }
            if !all_sortable(heap, &items) {
                proof {
                    let j = choose|j: int| 0 <= j < items@.len() && !sortable(heap.cells_v(), #[trigger] items@[j]@);
                    assert(view_values(items@)[j] == items@[j]@);
                }
                return Ok(None);
            }
            assert forall|j: int| 0 <= j < view_values(items@).len() implies sortable(
                heap.cells_v(),
                #[trigger] view_values(items@)[j],
            ) by {
                assert(view_values(items@)[j] == items@[j]@);
            }
            let sorted = sorted_values(heap, items);
            Ok(Some(heap.box_value(Value::List(sorted))))
        },
        Value::Dict(_) => {
            let mut copy = match collection.deep_clone(heap) {
                Some(x) => x,
                None => {
                    return Ok(None);
                },
            };
            match copy.unref_inplace(heap) {
                Ok(_) => {},
                Err(_) => {
                    return Ok(None);
                },
            }
            match copy {
                Value::Dict(d) => {
                    if !all_keys_sortable(heap, &d) {
                        proof {
                            let j = choose|j: int| 0 <= j < d@.len() && !sortable(heap.cells_v(), #[trigger] d@[j].0@);
                            assert(view_pairs(d@)[j].0 == d@[j].0@);
                        }
                        return Ok(None);
                    }
                    assert forall|j: int| 0 <= j < view_pairs(d@).len() implies sortable(
                        heap.cells_v(),
                        #[trigger] view_pairs(d@)[j].0,
                    ) by {
                        assert(view_pairs(d@)[j].0 == d@[j].0@);
                    }
                    let sorted = sorted_pairs(heap, d);
                    Ok(Some(heap.box_value(Value::Dict(sorted))))
                },
                _ => Ok(None),
            }
        },
        _ => Err(error_op_not_supported("sort")),
    }
}

} // verus!
