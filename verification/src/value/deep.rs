//! Deep copies of values.

use vstd::prelude::*;

use super::data::{
    box_items_spec, box_pairs_spec, box_spec, boxed_arg, dict_find, dict_find_from, dict_insert, lemma_box_extends,
};
use super::heap::extends;
use super::eq::EQ_DEPTH;
use super::heap::Heap;
use super::{view_pairs, view_values, Value, ValueV};

verus! {

broadcast use super::group_value_views;

/// Cells and entries after copying the first `n` entries of `d` into an empty
/// dictionary, one after the other: key and value are copied deeply, and a
/// copied value that is no reference is wrapped into a cell of its own.
/// `None` where an entry nests deeper than `fuel` allows.
pub open spec fn clone_pairs(cells: Seq<ValueV>, d: Seq<(ValueV, ValueV)>, n: int, fuel: nat) -> Option<
    (Seq<ValueV>, Seq<(ValueV, ValueV)>),
>
    decreases fuel, n,
{
    if n <= 0 {
        Some((cells, Seq::empty()))
    } else {
        match clone_pairs(cells, d, n - 1, fuel) {
            Some((c, dc)) => match deep_clone_spec(c, d[n - 1].0, fuel) {
                Some((c1, k)) => match deep_clone_spec(c1, d[n - 1].1, fuel) {
                    Some((c2, v)) => {
                        let (c3, b) = boxed_arg(c2, v);
                        Some((c3, dict_insert(c3, dc, k, b)))
                    },
                    None => None,
                },
                None => None,
            },
            None => None,
        }
    }
}

/// Cells and copies of the first `n` items of `l`, copied one after the
/// other; `None` where an item nests deeper than `fuel` allows.
pub open spec fn clone_items(cells: Seq<ValueV>, l: Seq<ValueV>, n: int, fuel: nat) -> Option<
    (Seq<ValueV>, Seq<ValueV>),
>
    decreases fuel, n,
{
    if n <= 0 {
        Some((cells, Seq::empty()))
    } else {
        match clone_items(cells, l, n - 1, fuel) {
            Some((c, items)) => match deep_clone_spec(c, l[n - 1], fuel) {
                Some((c2, x)) => Some((c2, items.push(x))),
                None => None,
            },
            None => None,
        }
    }
}

/// Cells and result of a deep copy of `v`: a list gets copies of its items
/// in a new cell; a dictionary gets copies of its entries in a new cell; a reference gets a new cell holding a copy of what it points
/// to; other values stay as they are. `None` where the value nests deeper
/// than `fuel` allows.
pub open spec fn deep_clone_spec(cells: Seq<ValueV>, v: ValueV, fuel: nat) -> Option<(Seq<ValueV>, ValueV)>
    decreases fuel, 0nat,
{
    if fuel == 0 {
        None
    } else {
        match v {
            ValueV::Dict(d) => match clone_pairs(cells, d, d.len() as int, (fuel - 1) as nat) {
                Some((c, dc)) => Some(box_spec(c, ValueV::Dict(dc))),
                None => None,
            },
            ValueV::List(l) => match clone_items(cells, l, l.len() as int, (fuel - 1) as nat) {
                Some((c, items)) => Some(box_spec(c, ValueV::List(items))),
                None => None,
            },
            ValueV::Ref(Some(i)) => if i < cells.len() {
                match deep_clone_spec(cells, cells[i as int], (fuel - 1) as nat) {
                    Some((c, x)) => Some((c.push(x), ValueV::Ref(Some(c.len() as usize)))),
                    None => None,
                }
            } else {
                Some((cells, v))
            },
            _ => Some((cells, v)),
        }
    }
}

/// Once copying the items stops, copying more of them stops as well.
pub proof fn lemma_clone_items_stop(cells: Seq<ValueV>, l: Seq<ValueV>, n: int, m: int, fuel: nat)
    requires
        n <= m,
        clone_items(cells, l, n, fuel) is None,
    ensures
        clone_items(cells, l, m, fuel) is None,
    decreases m - n,
{
    if n < m {
        lemma_clone_items_stop(cells, l, n, m - 1, fuel);
    }
}

/// Once copying the entries stops, copying more of them stops as well.
pub proof fn lemma_clone_pairs_stop(cells: Seq<ValueV>, d: Seq<(ValueV, ValueV)>, n: int, m: int, fuel: nat)
    requires
        n <= m,
        clone_pairs(cells, d, n, fuel) is None,
    ensures
        clone_pairs(cells, d, m, fuel) is None,
    decreases m - n,
{
    if n < m {
        lemma_clone_pairs_stop(cells, d, n, m - 1, fuel);
    }
}

/// Whether `x` holds no collection of its own and, where it is a
/// reference, names a cell at `n` or later.
pub open spec fn atom_from(x: ValueV, n: int) -> bool {
    match x {
        ValueV::Ref(Some(i)) => i >= n,
        ValueV::List(_) | ValueV::Dict(_) => false,
        _ => true,
    }
}

/// Whether every reference in `v`, or among its items and entries, names a
/// cell at `n` or later; the items and entries hold no collections of their
/// own, so whatever `v` reaches it reaches through such references.
/// Whether key and value of an entry are such values.
pub open spec fn pair_from(p: (ValueV, ValueV), n: int) -> bool {
    atom_from(p.0, n) && atom_from(p.1, n)
}

pub open spec fn refs_from(v: ValueV, n: int) -> bool {
    match v {
        ValueV::List(l) => forall|k: int| 0 <= k < l.len() ==> atom_from(#[trigger] l[k], n),
        ValueV::Dict(d) => forall|k: int| 0 <= k < d.len() ==> #[trigger] pair_from(d[k], n),
        _ => atom_from(v, n),
    }
}

proof fn lemma_atom(x: ValueV, n: int)
    ensures
        atom_from(x, n) ==> !(x is List) && !(x is Dict),
        atom_from(x, n) ==> refs_from(x, n),
{
    match x {
        ValueV::List(_) => {},
        ValueV::Dict(_) => {},
        _ => {},
    }
}

proof fn lemma_refs_dict(d: Seq<(ValueV, ValueV)>, n: int)
    ensures
        refs_from(ValueV::Dict(d), n) == (forall|k: int| 0 <= k < d.len() ==> #[trigger] pair_from(d[k], n)),
{
    let v = ValueV::Dict(d);
    assert(v->Dict_0 == d);
}

proof fn lemma_refs_list(l: Seq<ValueV>, n: int)
    ensures
        refs_from(ValueV::List(l), n) == (forall|k: int| 0 <= k < l.len() ==> atom_from(#[trigger] l[k], n)),
{
    let v = ValueV::List(l);
    assert(v->List_0 == l);
}

/// Whether the cells from `n` on refer only to cells from `n` on.
pub open spec fn closed(cells: Seq<ValueV>, n: int) -> bool {
    forall|i: int| n <= i < cells.len() ==> refs_from(#[trigger] cells[i], n)
}

proof fn lemma_box_items_fresh(cells: Seq<ValueV>, l: Seq<ValueV>, n: int)
    requires
        0 <= n <= cells.len(),
        closed(cells, n),
        forall|k: int| 0 <= k < l.len() ==> atom_from(#[trigger] l[k], n),
    ensures
        extends(cells, box_items_spec(cells, l).0),
        box_items_spec(cells, l).0.len() <= usize::MAX ==> closed(box_items_spec(cells, l).0, n),
        box_items_spec(cells, l).0.len() <= usize::MAX ==> forall|k: int|
            0 <= k < box_items_spec(cells, l).1.len() ==> atom_from(#[trigger] box_items_spec(cells, l).1[k], n),
    decreases l,
{
    if l.len() > 0 {
        let m = l.drop_last();
        assert forall|k: int| 0 <= k < m.len() implies atom_from(#[trigger] m[k], n) by {
            assert(m[k] == l[k]);
        }
        lemma_box_items_fresh(cells, m, n);
        let (c1, prev) = box_items_spec(cells, m);
        let e = l.last();
        assert(atom_from(e, n));
        lemma_atom(e, n);
        let (c2, r) = box_items_spec(cells, l);
        if e is Ref {
            assert(c2 == c1 && r == prev.push(e));
        } else {
            assert(box_spec(c1, e) == (c1.push(e), ValueV::Ref(Some(c1.len() as usize))));
            assert(c2 == c1.push(e) && r == prev.push(ValueV::Ref(Some(c1.len() as usize))));
        }
        lemma_extends_trans(cells, c1, c2);
        if c2.len() <= usize::MAX {
            assert forall|k: int| 0 <= k < r.len() implies atom_from(#[trigger] r[k], n) by {
                if k < prev.len() {
                    assert(r[k] == prev[k]);
                }
            }
            assert forall|i: int| n <= i < c2.len() implies refs_from(#[trigger] c2[i], n) by {
                if i < c1.len() {
                    assert(c2[i] == c1[i]);
                } else {
                    lemma_atom(e, n);
                }
            }
        }
    }
}

proof fn lemma_box_pairs_fresh(cells: Seq<ValueV>, d: Seq<(ValueV, ValueV)>, n: int)
    requires
        0 <= n <= cells.len(),
        closed(cells, n),
        refs_from(ValueV::Dict(d), n),
    ensures
        extends(cells, box_pairs_spec(cells, d).0),
        box_pairs_spec(cells, d).0.len() <= usize::MAX ==> closed(box_pairs_spec(cells, d).0, n),
        box_pairs_spec(cells, d).0.len() <= usize::MAX ==> refs_from(ValueV::Dict(box_pairs_spec(cells, d).1), n),
    decreases d,
{
    lemma_refs_dict(d, n);
    lemma_refs_dict(box_pairs_spec(cells, d).1, n);
    if d.len() > 0 {
        let m = d.drop_last();
        lemma_refs_dict(m, n);
        assert forall|k: int| 0 <= k < m.len() implies #[trigger] pair_from(m[k], n) by {
            assert(m[k] == d[k]);
            assert(pair_from(d[k], n));
        }
        lemma_box_pairs_fresh(cells, m, n);
        let (c1, prev) = box_pairs_spec(cells, m);
        let last = d[d.len() - 1];
        assert(pair_from(last, n));
        lemma_atom(last.1, n);
        let (c2, r) = box_pairs_spec(cells, d);
        if last.1 is Ref {
            assert(c2 == c1 && r == prev.push(last));
        } else {
            assert(box_spec(c1, last.1) == (c1.push(last.1), ValueV::Ref(Some(c1.len() as usize))));
            assert(c2 == c1.push(last.1) && r == prev.push((last.0, ValueV::Ref(Some(c1.len() as usize)))));
        }
        lemma_extends_trans(cells, c1, c2);
        lemma_refs_dict(prev, n);
        if c2.len() <= usize::MAX {
            assert forall|k: int| 0 <= k < r.len() implies #[trigger] pair_from(r[k], n) by {
                if k < prev.len() {
                    assert(r[k] == prev[k]);
                    assert(pair_from(prev[k], n));
                }
            }
            assert forall|i: int| n <= i < c2.len() implies refs_from(#[trigger] c2[i], n) by {
                if i < c1.len() {
                    assert(c2[i] == c1[i]);
                } else {
                    lemma_atom(last.1, n);
                }
            }
        }
    }
}

/// Wrapping a value whose references name cells from `n` on adds cells that
/// do the same, and gives a reference to a new cell.
proof fn lemma_box_fresh(cells: Seq<ValueV>, v: ValueV, n: int)
    requires
        0 <= n <= cells.len(),
        closed(cells, n),
        refs_from(v, n),
    ensures
        extends(cells, box_spec(cells, v).0),
        box_spec(cells, v).0.len() <= usize::MAX ==> closed(box_spec(cells, v).0, n),
        box_spec(cells, v).0.len() <= usize::MAX ==> atom_from(box_spec(cells, v).1, n),
{
    let (c1, inner) = match v {
        ValueV::Dict(d) => {
            lemma_refs_dict(box_pairs_spec(cells, d).1, n);
            lemma_box_pairs_fresh(cells, d, n);
            (box_pairs_spec(cells, d).0, ValueV::Dict(box_pairs_spec(cells, d).1))
        },
        ValueV::List(l) => {
            lemma_refs_list(l, n);
            lemma_box_items_fresh(cells, l, n);
            lemma_refs_list(box_items_spec(cells, l).1, n);
            (box_items_spec(cells, l).0, ValueV::List(box_items_spec(cells, l).1))
        },
        _ => (cells, v),
    };
    let (c, r) = box_spec(cells, v);
    assert(c == c1.push(inner) && r == ValueV::Ref(Some(c1.len() as usize)));
    lemma_extends_trans(cells, c1, c);
    if c.len() <= usize::MAX {
        assert forall|i: int| n <= i < c.len() implies refs_from(#[trigger] c[i], n) by {
            if i < c1.len() {
                assert(c[i] == c1[i]);
            }
        }
    }
}

proof fn lemma_dict_find_range(cells: Seq<ValueV>, d: Seq<(ValueV, ValueV)>, k: ValueV, i: int)
    requires
        0 <= i,
    ensures
        dict_find_from(cells, d, k, i) matches Some(j) ==> i <= j < d.len(),
    decreases d.len() - i,
{
    if i < d.len() {
        lemma_dict_find_range(cells, d, k, i + 1);
    }
}

proof fn lemma_dict_insert_fresh(cells: Seq<ValueV>, dc: Seq<(ValueV, ValueV)>, k: ValueV, b: ValueV, n: int)
    requires
        refs_from(ValueV::Dict(dc), n),
        atom_from(k, n),
        atom_from(b, n),
    ensures
        refs_from(ValueV::Dict(dict_insert(cells, dc, k, b)), n),
{
    let r = dict_insert(cells, dc, k, b);
    lemma_refs_dict(dc, n);
    lemma_refs_dict(r, n);
    lemma_dict_find_range(cells, dc, k, 0);
    match dict_find(cells, dc, k) {
        Some(i) => {
            assert forall|j: int| 0 <= j < r.len() implies #[trigger] pair_from(r[j], n) by {
                assert(pair_from(dc[j], n));
                if j != i {
                    assert(r[j] == dc[j]);
                }
            }
        },
        None => {
            assert forall|j: int| 0 <= j < r.len() implies #[trigger] pair_from(r[j], n) by {
                if j < dc.len() {
                    assert(r[j] == dc[j]);
                    assert(pair_from(dc[j], n));
                }
            }
        },
    }
}

pub proof fn lemma_extends_trans(a: Seq<ValueV>, b: Seq<ValueV>, c: Seq<ValueV>)
    requires
        extends(a, b),
        extends(b, c),
    ensures
        extends(a, c),
{
    assert forall|i: int| 0 <= i < a.len() implies #[trigger] c[i] == a[i] by {
        assert(c[i] == b[i]);
    }
}

pub proof fn lemma_pairs_fresh(cells: Seq<ValueV>, d: Seq<(ValueV, ValueV)>, m: int, fuel: nat, n: int)
    requires
        0 <= n <= cells.len(),
        cells.len() <= usize::MAX ==> closed(cells, n),
    ensures
        clone_pairs(cells, d, m, fuel) matches Some((c, dc)) ==> {
            &&& extends(cells, c)
            &&& c.len() <= usize::MAX ==> closed(c, n) && refs_from(ValueV::Dict(dc), n)
        },
    decreases fuel, m,
{
    if m > 0 {
        lemma_pairs_fresh(cells, d, m - 1, fuel, n);
        if let Some((c, dc)) = clone_pairs(cells, d, m - 1, fuel) {
            lemma_deep_fresh(c, d[m - 1].0, fuel, n);
            if let Some((c1, k)) = deep_clone_spec(c, d[m - 1].0, fuel) {
                lemma_extends_trans(cells, c, c1);
                lemma_deep_fresh(c1, d[m - 1].1, fuel, n);
                if let Some((c2, v)) = deep_clone_spec(c1, d[m - 1].1, fuel) {
                    lemma_extends_trans(cells, c1, c2);
                    let (c3, b) = boxed_arg(c2, v);
                    if !(v is Ref) {
                        lemma_box_extends(c2, v);
                        lemma_extends_trans(cells, c2, c3);
                        if c3.len() <= usize::MAX {
                            lemma_atom(v, n);
                            lemma_box_fresh(c2, v, n);
                        }
                    }
                    if c3.len() <= usize::MAX {
                        lemma_dict_insert_fresh(c3, dc, k, b, n);
                    }
                }
            }
        }
    }
}

pub proof fn lemma_items_fresh(cells: Seq<ValueV>, l: Seq<ValueV>, m: int, fuel: nat, n: int)
    requires
        0 <= n <= cells.len(),
        cells.len() <= usize::MAX ==> closed(cells, n),
    ensures
        clone_items(cells, l, m, fuel) matches Some((c, items)) ==> {
            &&& extends(cells, c)
            &&& c.len() <= usize::MAX ==> closed(c, n) && forall|k: int|
                0 <= k < items.len() ==> atom_from(#[trigger] items[k], n)
        },
    decreases fuel, m,
{
    if m > 0 {
        lemma_items_fresh(cells, l, m - 1, fuel, n);
        if let Some((c, items)) = clone_items(cells, l, m - 1, fuel) {
            lemma_deep_fresh(c, l[m - 1], fuel, n);
            if let Some((c2, x)) = deep_clone_spec(c, l[m - 1], fuel) {
                lemma_extends_trans(cells, c, c2);
                let r = items.push(x);
                if c2.len() <= usize::MAX {
                    assert forall|k: int| 0 <= k < r.len() implies atom_from(#[trigger] r[k], n) by {
                        if k < items.len() {
                            assert(r[k] == items[k]);
                        }
                    }
                }
            }
        }
    }
}

/// A deep copy changes no existing cell, and its result and the cells it
/// adds refer only to cells from `n` on, given the cells from `n` on did so
/// before.
pub proof fn lemma_deep_fresh(cells: Seq<ValueV>, v: ValueV, fuel: nat, n: int)
    requires
        0 <= n <= cells.len(),
        cells.len() <= usize::MAX ==> closed(cells, n),
    ensures
        deep_clone_spec(cells, v, fuel) matches Some((c, x)) ==> {
            &&& extends(cells, c)
            &&& c.len() <= usize::MAX ==> closed(c, n) && atom_from(x, n)
        },
    decreases fuel, 0nat,
{
    if fuel > 0 {
        match v {
            ValueV::Dict(d) => {
                lemma_pairs_fresh(cells, d, d.len() as int, (fuel - 1) as nat, n);
                if let Some((c, dc)) = clone_pairs(cells, d, d.len() as int, (fuel - 1) as nat) {
                    lemma_box_extends(c, ValueV::Dict(dc));
                    lemma_extends_trans(cells, c, box_spec(c, ValueV::Dict(dc)).0);
                    if box_spec(c, ValueV::Dict(dc)).0.len() <= usize::MAX {
                        lemma_box_fresh(c, ValueV::Dict(dc), n);
                    }
                }
            },
            ValueV::List(l) => {
                lemma_items_fresh(cells, l, l.len() as int, (fuel - 1) as nat, n);
                if let Some((c, items)) = clone_items(cells, l, l.len() as int, (fuel - 1) as nat) {
                    lemma_box_extends(c, ValueV::List(items));
                    lemma_extends_trans(cells, c, box_spec(c, ValueV::List(items)).0);
                    if box_spec(c, ValueV::List(items)).0.len() <= usize::MAX {
                        lemma_refs_list(items, n);
                        lemma_box_fresh(c, ValueV::List(items), n);
                    }
                }
            },
            ValueV::Ref(Some(i)) => {
                if i < cells.len() {
                    lemma_deep_fresh(cells, cells[i as int], (fuel - 1) as nat, n);
                    if let Some((c, x)) = deep_clone_spec(cells, cells[i as int], (fuel - 1) as nat) {
                        let c2 = c.push(x);
                        if c2.len() <= usize::MAX {
                            lemma_atom(x, n);
                            assert forall|j: int| n <= j < c2.len() implies refs_from(#[trigger] c2[j], n) by {
                                if j < c.len() {
                                    assert(c2[j] == c[j]);
                                }
                            }
                        }
                    }
                }
            },
            _ => {},
        }
    }
}

impl Heap {
    fn clone_dict(&mut self, d: &Vec<(Value, Value)>, fuel: u64) -> (r: Option<Value>)
        ensures
            match clone_pairs(old(self).cells_v(), view_pairs(d@), d@.len() as int, fuel as nat) {
                Some((c, dc)) => r matches Some(y) && (final(self).cells_v(), y@) == box_spec(c, ValueV::Dict(dc)),
                None => r is None,
            },
        decreases fuel, 1nat,
    {
        let ghost dv = view_pairs(d@);
        let ghost c0 = self.cells_v();
        let mut dc: Vec<(Value, Value)> = Vec::new();
        let mut i: usize = 0;
        while i < d.len()
            invariant
                i <= d@.len(),
                dv == view_pairs(d@),
                c0 == old(self).cells_v(),
                clone_pairs(c0, dv, i as int, fuel as nat) == Some((self.cells_v(), view_pairs(dc@))),
            decreases d@.len() - i,
        {
            assert(dv[i as int] == (d@[i as int].0@, d@[i as int].1@));
            let ghost cb = self.cells_v();
            let k = match self.deep_clone_fuel(&d[i].0, fuel) {
                Some(k) => k,
                None => {
                    proof {
                        assert(clone_pairs(c0, dv, i + 1, fuel as nat) is None);
                        lemma_clone_pairs_stop(c0, dv, i + 1, d@.len() as int, fuel as nat);
                    }
                    return None;
                },
            };
            let ghost ck = self.cells_v();
            let val = match self.deep_clone_fuel(&d[i].1, fuel) {
                Some(x) => x,
                None => {
                    proof {
                        assert(deep_clone_spec(cb, dv[i as int].0, fuel as nat) == Some((ck, k@)));
                        assert(clone_pairs(c0, dv, i + 1, fuel as nat) is None);
                        lemma_clone_pairs_stop(c0, dv, i + 1, d@.len() as int, fuel as nat);
                    }
                    return None;
                },
            };
            let b = if val.is_ref() {
                val
            } else {
                self.box_value(val)
            };
            let ghost before = view_pairs(dc@);
            match self.dict_find(&dc, &k) {
                Some(j) => {
                    let kj = dc[j].0.duplicate();
                    dc.set(j, (kj, b));
                    assert(view_pairs(dc@) =~= before.update(j as int, (before[j as int].0, b@)));
                },
                None => {
                    dc.push((k, b));
                    assert(view_pairs(dc@) =~= before.push((k@, b@)));
                },
            }
            i += 1;
        }
        Some(self.box_value(Value::Dict(dc)))
    }

    fn deep_clone_fuel(&mut self, v: &Value, fuel: u64) -> (r: Option<Value>)
        ensures
            match deep_clone_spec(old(self).cells_v(), v@, fuel as nat) {
                Some((c, x)) => r matches Some(y) && y@ == x && final(self).cells_v() == c,
                None => r is None,
            },
        decreases fuel, 0nat,
    {
        if fuel == 0 {
            return None;
        }
        match v {
            Value::Dict(d) => self.clone_dict(d, fuel - 1),
            Value::List(l) => {
                let ghost lv = view_values(l@);
                let ghost c0 = self.cells_v();
                let mut items: Vec<Value> = Vec::new();
                let mut i: usize = 0;
                while i < l.len()
                    invariant
                        i <= l@.len(),
                        fuel > 0,
                        lv == view_values(l@),
                        v@ == ValueV::List(lv),
                        c0 == old(self).cells_v(),
                        clone_items(c0, lv, i as int, (fuel - 1) as nat) == Some(
                            (self.cells_v(), view_values(items@)),
                        ),
                    decreases l@.len() - i,
                {
                    assert(lv[i as int] == l@[i as int]@);
                    let ghost before = view_values(items@);
                    let ghost cb = self.cells_v();
                    match self.deep_clone_fuel(&l[i], fuel - 1) {
                        Some(x) => {
                            items.push(x);
                            assert(view_values(items@) =~= before.push(x@));
                        },
                        None => {
                            proof {
                                assert(deep_clone_spec(cb, lv[i as int], (fuel - 1) as nat) is None);
                                assert(clone_items(c0, lv, i + 1, (fuel - 1) as nat) is None);
                                lemma_clone_items_stop(c0, lv, i + 1, l@.len() as int, (fuel - 1) as nat);
                            }
                            return None;
                        },
                    }
                    i += 1;
                }
                Some(self.box_value(Value::List(items)))
            },
            Value::Ref(r) => match r.0 {
                Some(i) => if i < self.cells.len() {
                    let inner = self.cells[i].duplicate();
                    match self.deep_clone_fuel(&inner, fuel - 1) {
                        Some(x) => Some(Value::Ref(self.allocate(x))),
                        None => None,
                    }
                } else {
                    Some(v.duplicate())
                },
                None => Some(v.duplicate()),
            },
            _ => Some(v.duplicate()),
        }
    }
}

impl Value {
    /// A copy of the value that shares no cell with it: lists and
    /// dictionaries are copied item by item, references get a cell of their
    /// own. From the copy only cells that the copy added can be reached.
    /// `None` where the value nests deeper than the equality depth.
    pub fn deep_clone(&self, heap: &mut Heap) -> (r: Option<Value>)
        ensures
            match deep_clone_spec(old(heap).cells_v(), self@, EQ_DEPTH as nat) {
                Some((c, x)) => r matches Some(y) && y@ == x && final(heap).cells_v() == c,
                None => r is None,
            },
            r is Some ==> {
                let n = old(heap).cells_v().len() as int;
                &&& extends(old(heap).cells_v(), final(heap).cells_v())
                &&& atom_from(r->Some_0@, n)
                &&& closed(final(heap).cells_v(), n)
            },
    {
        proof {
            lemma_deep_fresh(heap.cells_v(), self@, EQ_DEPTH as nat, heap.cells_v().len() as int);
        }
        let r = heap.deep_clone_fuel(self, EQ_DEPTH);
        let _ = heap.cells.len();
        r
    }
}

} // verus!
