//! Values read as trees: every reference followed, no cells left. Two values
//! are equal by value when they read as the same tree.

use vstd::prelude::*;

use super::data::{
    box_items_spec, box_pairs_spec, box_spec, boxed_arg, dict_find_from, dict_insert, key_eq,
    lemma_box_extends, lemma_box_items_extends,
};
use super::deep::{
    clone_items, clone_pairs, deep_clone_spec, lemma_deep_fresh, lemma_extends_trans, lemma_items_fresh, lemma_pairs_fresh,
};
use super::heap::{extends, lemma_resolve_extend, resolve};
use super::{Handle, ValueV};

verus! {

/// A value with every reference followed.
pub enum Tree {
    Nil,
    Bool(bool),
    Int(i64),
    Float(u64),
    Str(Seq<char>),
    List(Seq<Tree>),
    Dict(Seq<(Tree, Tree)>),
    Iter(usize),
    Any(Handle),
}

/// What a key is compared by: the scalar it holds (nil, a boolean, an
/// integer or a string); `None` for a value that equals no key.
pub open spec fn key_class(x: ValueV) -> Option<ValueV> {
    match x {
        ValueV::Nil | ValueV::Bool(_) | ValueV::Int(_) | ValueV::Str(_) => Some(x),
        _ => None,
    }
}

/// Whether every key of `d` can be followed to a value and no two keys of
/// `d` are equal.
pub open spec fn keys_apart(cells: Seq<ValueV>, d: Seq<(ValueV, ValueV)>) -> bool {
    &&& forall|i: int| 0 <= i < d.len() ==> #[trigger] resolve(cells, d[i].0) is Some
    &&& forall|i: int, j: int| #![trigger d[i], d[j]] 0 <= i < j < d.len() ==> !key_eq(cells, d[i].0, d[j].0)
}

/// The tree `v` reads as in `cells`; `None` for a reference that names no
/// cell, a dictionary whose keys are not apart, or a value nested deeper
/// than `fuel`.
pub open spec fn tree(cells: Seq<ValueV>, v: ValueV, fuel: nat) -> Option<Tree>
    decreases fuel, 0nat,
{
    if fuel == 0 {
        None
    } else {
        match v {
            ValueV::Nil => Some(Tree::Nil),
            ValueV::Bool(b) => Some(Tree::Bool(b)),
            ValueV::Int(n) => Some(Tree::Int(n)),
            ValueV::Float(f) => Some(Tree::Float(f)),
            ValueV::Str(s) => Some(Tree::Str(s)),
            ValueV::Iter(i) => Some(Tree::Iter(i)),
            ValueV::Any(h) => Some(Tree::Any(h)),
            ValueV::Ref(r) => match r {
                Some(i) => if i < cells.len() {
                    tree(cells, cells[i as int], (fuel - 1) as nat)
                } else {
                    None
                },
                None => None,
            },
            ValueV::List(l) => match trees(cells, l, l.len() as int, (fuel - 1) as nat) {
                Some(ts) => Some(Tree::List(ts)),
                None => None,
            },
            ValueV::Dict(d) => if keys_apart(cells, d) {
                match pair_trees(cells, d, d.len() as int, (fuel - 1) as nat) {
                    Some(ps) => Some(Tree::Dict(ps)),
                    None => None,
                }
            } else {
                None
            },
        }
    }
}

/// The trees of keys and values of the first `n` entries of `d`.
pub open spec fn pair_trees(cells: Seq<ValueV>, d: Seq<(ValueV, ValueV)>, n: int, fuel: nat) -> Option<
    Seq<(Tree, Tree)>,
>
    decreases fuel, n,
{
    if n <= 0 {
        Some(Seq::empty())
    } else {
        match (pair_trees(cells, d, n - 1, fuel), tree(cells, d[n - 1].0, fuel), tree(cells, d[n - 1].1, fuel)) {
            (Some(ps), Some(a), Some(b)) => Some(ps.push((a, b))),
            _ => None,
        }
    }
}

/// The trees of the first `n` items of `l`.
pub open spec fn trees(cells: Seq<ValueV>, l: Seq<ValueV>, n: int, fuel: nat) -> Option<Seq<Tree>>
    decreases fuel, n,
{
    if n <= 0 {
        Some(Seq::empty())
    } else {
        match (trees(cells, l, n - 1, fuel), tree(cells, l[n - 1], fuel)) {
            (Some(ts), Some(t)) => Some(ts.push(t)),
            _ => None,
        }
    }
}

proof fn lemma_trees_facts(cells: Seq<ValueV>, l: Seq<ValueV>, n: int, fuel: nat)
    requires
        0 <= n <= l.len(),
    ensures
        trees(cells, l, n, fuel) matches Some(ts) ==> ts.len() == n && forall|k: int|
            0 <= k < n ==> tree(cells, l[k], fuel) == Some(#[trigger] ts[k]),
        (forall|k: int| 0 <= k < n ==> #[trigger] tree(cells, l[k], fuel) is Some) ==> trees(cells, l, n, fuel) is Some,
    decreases n,
{
    if n > 0 {
        lemma_trees_facts(cells, l, n - 1, fuel);
        if forall|k: int| 0 <= k < n ==> #[trigger] tree(cells, l[k], fuel) is Some {
            assert(tree(cells, l[n - 1], fuel) is Some);
            assert forall|k: int| 0 <= k < n - 1 implies #[trigger] tree(cells, l[k], fuel) is Some by {
                assert(tree(cells, l[k], fuel) is Some);
            }
        }
        if let Some(ts) = trees(cells, l, n, fuel) {
            let prev = trees(cells, l, n - 1, fuel)->Some_0;
            assert forall|k: int| 0 <= k < n implies tree(cells, l[k], fuel) == Some(#[trigger] ts[k]) by {
                if k < n - 1 {
                    assert(ts[k] == prev[k]);
                }
            }
        }
    }
}

proof fn lemma_pair_trees_facts(cells: Seq<ValueV>, d: Seq<(ValueV, ValueV)>, n: int, fuel: nat)
    requires
        0 <= n <= d.len(),
    ensures
        pair_trees(cells, d, n, fuel) matches Some(ps) ==> ps.len() == n && forall|k: int|
            #![trigger ps[k]]
            0 <= k < n ==> tree(cells, d[k].0, fuel) == Some(ps[k].0) && tree(cells, d[k].1, fuel) == Some(ps[k].1),
        (forall|k: int|
            #![trigger d[k]]
            0 <= k < n ==> tree(cells, d[k].0, fuel) is Some && tree(cells, d[k].1, fuel) is Some) ==> pair_trees(
            cells,
            d,
            n,
            fuel,
        ) is Some,
    decreases n,
{
    if n > 0 {
        lemma_pair_trees_facts(cells, d, n - 1, fuel);
        if forall|k: int|
            #![trigger d[k]]
            0 <= k < n ==> tree(cells, d[k].0, fuel) is Some && tree(cells, d[k].1, fuel) is Some {
            let e = d[n - 1];
            assert(tree(cells, e.0, fuel) is Some && tree(cells, e.1, fuel) is Some);
            assert forall|k: int|
                #![trigger d[k]]
                0 <= k < n - 1 implies tree(cells, d[k].0, fuel) is Some && tree(cells, d[k].1, fuel) is Some by {
                let x = d[k];
            }
        }
        if let Some(ps) = pair_trees(cells, d, n, fuel) {
            let prev = pair_trees(cells, d, n - 1, fuel)->Some_0;
            assert forall|k: int|
                #![trigger ps[k]]
                0 <= k < n implies tree(cells, d[k].0, fuel) == Some(ps[k].0) && tree(cells, d[k].1, fuel) == Some(
                ps[k].1,
            ) by {
                if k < n - 1 {
                    assert(ps[k] == prev[k]);
                }
            }
        }
    }
}

/// Keys that are apart stay apart, and follow to the same values, in more
/// cells.
proof fn lemma_keys_apart_grow(c1: Seq<ValueV>, c2: Seq<ValueV>, d: Seq<(ValueV, ValueV)>)
    requires
        extends(c1, c2),
        keys_apart(c1, d),
    ensures
        keys_apart(c2, d),
        forall|i: int| 0 <= i < d.len() ==> resolve(c2, #[trigger] d[i].0) == resolve(c1, d[i].0),
{
    assert forall|i: int| 0 <= i < d.len() implies resolve(c2, #[trigger] d[i].0) == resolve(c1, d[i].0) by {
        lemma_resolve_extend(c1, c2, d[i].0);
    }
    assert forall|i: int, j: int| #![trigger d[i], d[j]] 0 <= i < j < d.len() implies !key_eq(c2, d[i].0, d[j].0) by {
        lemma_resolve_extend(c1, c2, d[i].0);
        lemma_resolve_extend(c1, c2, d[j].0);
    }
}

proof fn lemma_pair_trees_grow(c1: Seq<ValueV>, c2: Seq<ValueV>, d: Seq<(ValueV, ValueV)>, n: int, g: nat, g2: nat)
    requires
        extends(c1, c2),
        g <= g2,
    ensures
        pair_trees(c1, d, n, g) is Some ==> pair_trees(c2, d, n, g2) == pair_trees(c1, d, n, g),
    decreases g, n,
{
    if n > 0 && pair_trees(c1, d, n, g) is Some {
        lemma_pair_trees_grow(c1, c2, d, n - 1, g, g2);
        lemma_tree_grow(c1, c2, d[n - 1].0, g, g2);
        lemma_tree_grow(c1, c2, d[n - 1].1, g, g2);
    }
}

/// A tree read in some cells reads the same in more cells and with more
/// fuel.
pub proof fn lemma_tree_grow(c1: Seq<ValueV>, c2: Seq<ValueV>, v: ValueV, g: nat, g2: nat)
    requires
        extends(c1, c2),
        g <= g2,
    ensures
        tree(c1, v, g) is Some ==> tree(c2, v, g2) == tree(c1, v, g),
    decreases g, 0nat,
{
    if g > 0 && tree(c1, v, g) is Some {
        match v {
            ValueV::Ref(Some(i)) => {
                assert(c2[i as int] == c1[i as int]);
                lemma_tree_grow(c1, c2, c1[i as int], (g - 1) as nat, (g2 - 1) as nat);
            },
            ValueV::List(l) => {
                lemma_trees_grow(c1, c2, l, l.len() as int, (g - 1) as nat, (g2 - 1) as nat);
            },
            ValueV::Dict(d) => {
                lemma_keys_apart_grow(c1, c2, d);
                lemma_pair_trees_grow(c1, c2, d, d.len() as int, (g - 1) as nat, (g2 - 1) as nat);
            },
            _ => {},
        }
    }
}

proof fn lemma_trees_grow(c1: Seq<ValueV>, c2: Seq<ValueV>, l: Seq<ValueV>, n: int, g: nat, g2: nat)
    requires
        extends(c1, c2),
        g <= g2,
    ensures
        trees(c1, l, n, g) is Some ==> trees(c2, l, n, g2) == trees(c1, l, n, g),
    decreases g, n,
{
    if n > 0 && trees(c1, l, n, g) is Some {
        lemma_trees_grow(c1, c2, l, n - 1, g, g2);
        lemma_tree_grow(c1, c2, l[n - 1], g, g2);
    }
}

/// A deep copy holds no list of its own at the top.
proof fn lemma_clone_shape(cells: Seq<ValueV>, v: ValueV, fuel: nat)
    ensures
        deep_clone_spec(cells, v, fuel) matches Some((c, x)) ==> !(x is List) && !(x is Dict),
{
}

/// Wrapping items that are no collections: each item reads as before, with
/// one more step of fuel.
proof fn lemma_box_items_tree(c: Seq<ValueV>, items: Seq<ValueV>, ts: Seq<Tree>, f: nat)
    requires
        f >= 1,
        ts.len() == items.len(),
        forall|k: int| 0 <= k < items.len() ==> !(#[trigger] items[k] is List) && !(items[k] is Dict),
        forall|k: int| 0 <= k < items.len() ==> tree(c, #[trigger] items[k], f) == Some(ts[k]),
    ensures
        extends(c, box_items_spec(c, items).0),
        box_items_spec(c, items).1.len() == items.len(),
        box_items_spec(c, items).0.len() <= usize::MAX ==> forall|k: int|
            0 <= k < items.len() ==> tree(box_items_spec(c, items).0, #[trigger] box_items_spec(c, items).1[k], f + 1)
                == Some(ts[k]),
    decreases items,
{
    if items.len() > 0 {
        let m = items.drop_last();
        let tm = ts.drop_last();
        assert forall|k: int| 0 <= k < m.len() implies !(#[trigger] m[k] is List) && !(m[k] is Dict) by {
            assert(m[k] == items[k]);
        }
        assert forall|k: int| 0 <= k < m.len() implies tree(c, #[trigger] m[k], f) == Some(tm[k]) by {
            assert(m[k] == items[k]);
        }
        lemma_box_items_tree(c, m, tm, f);
        let (c1, prev) = box_items_spec(c, m);
        let e = items.last();
        let (c2, r) = box_items_spec(c, items);
        if e is Ref {
            assert(c2 == c1 && r == prev.push(e));
        } else {
            assert(box_spec(c1, e) == (c1.push(e), ValueV::Ref(Some(c1.len() as usize))));
            assert(c2 == c1.push(e) && r == prev.push(ValueV::Ref(Some(c1.len() as usize))));
        }
        assert(extends(c1, c2));
        assert forall|i: int| 0 <= i < c.len() implies #[trigger] c2[i] == c[i] by {
            assert(c2[i] == c1[i]);
        }
        if c2.len() <= usize::MAX {
            assert forall|k: int| 0 <= k < items.len() implies tree(c2, #[trigger] r[k], f + 1) == Some(ts[k]) by {
                if k < m.len() {
                    assert(r[k] == prev[k]);
                    lemma_tree_grow(c1, c2, prev[k], f + 1, f + 1);
                } else {
                    assert(k == items.len() - 1);
                    assert(tree(c, e, f) == Some(ts[k]));
                    if e is Ref {
                        lemma_tree_grow(c, c2, e, f, f + 1);
                    } else {
                        assert(c2[c1.len() as int] == e);
                        assert(tree(c2, e, f) == Some(ts[k]));
                    }
                }
            }
        }
    }
}

proof fn lemma_clone_items_tree(cells: Seq<ValueV>, l: Seq<ValueV>, n: int, f: nat, g: nat)
    requires
        0 <= n <= l.len(),
    ensures
        clone_items(cells, l, n, f) matches Some((c, items)) ==> {
            &&& extends(cells, c)
            &&& items.len() == n
            &&& forall|k: int| 0 <= k < n ==> !(#[trigger] items[k] is List) && !(items[k] is Dict)
            &&& (c.len() <= usize::MAX && trees(cells, l, n, g) is Some) ==> forall|k: int|
                0 <= k < n ==> tree(c, #[trigger] items[k], 3 * g) == tree(cells, l[k], g)
        },
    decreases f, n,
{
    if n > 0 {
        lemma_clone_items_tree(cells, l, n - 1, f, g);
        lemma_items_fresh(cells, l, n - 1, f, cells.len() as int);
        if let Some((c0, items0)) = clone_items(cells, l, n - 1, f) {
            lemma_deep_fresh(c0, l[n - 1], f, c0.len() as int);
            lemma_clone_shape(c0, l[n - 1], f);
            lemma_clone_tree(c0, l[n - 1], f, g);
            if let Some((c2, x)) = deep_clone_spec(c0, l[n - 1], f) {
                let items = items0.push(x);
                assert forall|k: int| 0 <= k < n implies !(#[trigger] items[k] is List) && !(items[k] is Dict) by {
                    if k < n - 1 {
                        assert(items[k] == items0[k]);
                    }
                }
                assert forall|i: int| 0 <= i < cells.len() implies #[trigger] c2[i] == cells[i] by {
                    assert(c2[i] == c0[i]);
                }
                if c2.len() <= usize::MAX && trees(cells, l, n, g) is Some {
                    lemma_trees_facts(cells, l, n, g);
                    lemma_trees_facts(cells, l, n - 1, g);
                    let ts = trees(cells, l, n, g)->Some_0;
                    assert(trees(cells, l, n - 1, g) is Some);
                    assert(c0.len() <= c2.len());
                    assert forall|k: int| 0 <= k < n implies tree(c2, #[trigger] items[k], 3 * g) == tree(cells, l[k], g) by {
                        assert(tree(cells, l[k], g) == Some(ts[k]));
                        if k < n - 1 {
                            assert(items[k] == items0[k]);
                            lemma_tree_grow(c0, c2, items0[k], 3 * g, 3 * g);
                        } else {
                            assert(items[k] == x);
                            lemma_tree_grow(cells, c0, l[n - 1], g, g);
                        }
                    }
                }
            }
        }
    }
}

/// Keys that follow to values of the same class compare alike.
proof fn lemma_key_eq_class(c1: Seq<ValueV>, a1: ValueV, b1: ValueV, c2: Seq<ValueV>, a2: ValueV, b2: ValueV)
    requires
        resolve(c1, a1) is Some,
        resolve(c1, b1) is Some,
        resolve(c2, a2) is Some,
        resolve(c2, b2) is Some,
        key_class(resolve(c1, a1)->Some_0) == key_class(resolve(c2, a2)->Some_0),
        key_class(resolve(c1, b1)->Some_0) == key_class(resolve(c2, b2)->Some_0),
    ensures
        key_eq(c1, a1, b1) == key_eq(c2, a2, b2),
{
}

/// A deep copy of a value that can be followed can be followed too, and
/// compares as a key just as the value does.
proof fn lemma_clone_resolve(cells: Seq<ValueV>, v: ValueV, f: nat)
    ensures
        deep_clone_spec(cells, v, f) matches Some((c, x)) ==> (c.len() <= usize::MAX && resolve(cells, v) is Some
            ==> resolve(c, x) is Some && key_class(resolve(c, x)->Some_0) == key_class(resolve(cells, v)->Some_0)),
    decreases f,
{
    if f > 0 {
        match v {
            ValueV::Ref(Some(i)) => {
                if i < cells.len() && resolve(cells, v) is Some {
                    let w = cells[i as int];
                    assert(resolve(cells, w) == resolve(cells, v));
                    lemma_clone_resolve(cells, w, (f - 1) as nat);
                    if let Some((c0, x1)) = deep_clone_spec(cells, w, (f - 1) as nat) {
                        let c = c0.push(x1);
                        if c.len() <= usize::MAX {
                            assert(extends(c0, c));
                            lemma_resolve_extend(c0, c, x1);
                            assert(c[c0.len() as int] == x1);
                            assert(resolve(c, ValueV::Ref(Some(c0.len() as usize))) == resolve(c, x1));
                        }
                    }
                }
            },
            ValueV::List(l) => {
                if let Some((c, items)) = clone_items(cells, l, l.len() as int, (f - 1) as nat) {
                    let (c1, items2) = box_items_spec(c, items);
                    let c2 = c1.push(ValueV::List(items2));
                    assert(box_spec(c, ValueV::List(items)) == (c2, ValueV::Ref(Some(c1.len() as usize))));
                    if c2.len() <= usize::MAX {
                        assert(c2[c1.len() as int] == ValueV::List(items2));
                        assert(resolve(c2, ValueV::Ref(Some(c1.len() as usize))) == Some(ValueV::List(items2)));
                    }
                }
            },
            ValueV::Dict(d) => {
                if let Some((c, dc)) = clone_pairs(cells, d, d.len() as int, (f - 1) as nat) {
                    let (c1, d2) = box_pairs_spec(c, dc);
                    let c2 = c1.push(ValueV::Dict(d2));
                    assert(box_spec(c, ValueV::Dict(dc)) == (c2, ValueV::Ref(Some(c1.len() as usize))));
                    if c2.len() <= usize::MAX {
                        assert(c2[c1.len() as int] == ValueV::Dict(d2));
                        assert(resolve(c2, ValueV::Ref(Some(c1.len() as usize))) == Some(ValueV::Dict(d2)));
                    }
                }
            },
            _ => {},
        }
    }
}

/// Entries whose values are all references are stored as they are.
proof fn lemma_box_pairs_refs(c: Seq<ValueV>, d: Seq<(ValueV, ValueV)>)
    requires
        forall|k: int| 0 <= k < d.len() ==> (#[trigger] d[k]).1 is Ref,
    ensures
        box_pairs_spec(c, d) == (c, d),
    decreases d,
{
    if d.len() > 0 {
        let m = d.drop_last();
        assert forall|k: int| 0 <= k < m.len() implies (#[trigger] m[k]).1 is Ref by {
            assert(m[k] == d[k]);
        }
        lemma_box_pairs_refs(c, m);
        assert(d.last().1 is Ref);
        assert(m.push(d.last()) =~= d);
    }
}

/// A key equal to no key of `d` from `i` on is not found there.
proof fn lemma_dict_find_none(cells: Seq<ValueV>, d: Seq<(ValueV, ValueV)>, key: ValueV, i: int)
    requires
        0 <= i,
        forall|j: int| i <= j < d.len() ==> !key_eq(cells, (#[trigger] d[j]).0, key),
    ensures
        dict_find_from(cells, d, key, i) is None,
    decreases d.len() - i,
{
    if i < d.len() {
        let x = d[i];
        lemma_dict_find_none(cells, d, key, i + 1);
    }
}

/// Copying the first `n` entries: each copied key and value reads as the
/// one copied, each value sits behind a reference, and each key compares as
/// the one copied, so keys that were apart stay apart.
proof fn lemma_clone_pairs_tree(cells: Seq<ValueV>, d: Seq<(ValueV, ValueV)>, n: int, f: nat, g: nat)
    requires
        0 <= n <= d.len(),
    ensures
        clone_pairs(cells, d, n, f) matches Some((c, dc)) ==> {
            &&& extends(cells, c)
            &&& (c.len() <= usize::MAX && keys_apart(cells, d) && pair_trees(cells, d, n, g) is Some) ==> {
                &&& dc.len() == n
                &&& forall|k: int|
                    #![trigger dc[k]]
                    0 <= k < n ==> {
                        &&& dc[k].1 is Ref
                        &&& tree(c, dc[k].0, 3 * g + 1) == tree(cells, d[k].0, g)
                        &&& tree(c, dc[k].1, 3 * g + 1) == tree(cells, d[k].1, g)
                        &&& resolve(c, dc[k].0) is Some
                        &&& key_class(resolve(c, dc[k].0)->Some_0) == key_class(resolve(cells, d[k].0)->Some_0)
                    }
            }
        },
    decreases f, n,
{
    if n > 0 {
        lemma_clone_pairs_tree(cells, d, n - 1, f, g);
        lemma_pairs_fresh(cells, d, n - 1, f, cells.len() as int);
        if let Some((c0, dc0)) = clone_pairs(cells, d, n - 1, f) {
            let e = d[n - 1];
            lemma_deep_fresh(c0, e.0, f, c0.len() as int);
            lemma_clone_tree(c0, e.0, f, g);
            lemma_clone_resolve(c0, e.0, f);
            if let Some((c1, k1)) = deep_clone_spec(c0, e.0, f) {
                lemma_deep_fresh(c1, e.1, f, c1.len() as int);
                lemma_clone_tree(c1, e.1, f, g);
                lemma_clone_shape(c1, e.1, f);
                if let Some((c2, v1)) = deep_clone_spec(c1, e.1, f) {
                    let (c3, b) = boxed_arg(c2, v1);
                    if !(v1 is Ref) {
                        lemma_box_extends(c2, v1);
                        assert(box_spec(c2, v1) == (c2.push(v1), ValueV::Ref(Some(c2.len() as usize))));
                    }
                    lemma_extends_trans(cells, c0, c1);
                    lemma_extends_trans(cells, c1, c2);
                    lemma_extends_trans(cells, c2, c3);
                    lemma_extends_trans(c0, c1, c2);
                    lemma_extends_trans(c0, c2, c3);
                    lemma_extends_trans(c1, c2, c3);
                    let dc = dict_insert(c3, dc0, k1, b);
                    assert(clone_pairs(cells, d, n, f) == Some((c3, dc)));
                    if c3.len() <= usize::MAX && keys_apart(cells, d) && pair_trees(cells, d, n, g) is Some {
                        lemma_pair_trees_facts(cells, d, n, g);
                        lemma_pair_trees_facts(cells, d, n - 1, g);
                        let ps = pair_trees(cells, d, n, g)->Some_0;
                        assert(pair_trees(cells, d, n - 1, g) is Some);
                        assert(resolve(cells, e.0) is Some);
                        lemma_resolve_extend(cells, c0, e.0);
                        lemma_resolve_extend(c1, c3, k1);
                        assert forall|j: int| 0 <= j < dc0.len() implies !key_eq(c3, (#[trigger] dc0[j]).0, k1) by {
                            lemma_resolve_extend(c0, c3, dc0[j].0);
                            let dj = d[j];
                            lemma_key_eq_class(c3, dc0[j].0, k1, cells, d[j].0, e.0);
                        }
                        lemma_dict_find_none(c3, dc0, k1, 0);
                        assert(dc == dc0.push((k1, b)));
                        assert forall|k: int|
                            #![trigger dc[k]]
                            0 <= k < n implies {
                            &&& dc[k].1 is Ref
                            &&& tree(c3, dc[k].0, 3 * g + 1) == tree(cells, d[k].0, g)
                            &&& tree(c3, dc[k].1, 3 * g + 1) == tree(cells, d[k].1, g)
                            &&& resolve(c3, dc[k].0) is Some
                            &&& key_class(resolve(c3, dc[k].0)->Some_0) == key_class(resolve(cells, d[k].0)->Some_0)
                        } by {
                            let pk = ps[k];
                            if k < n - 1 {
                                assert(dc[k] == dc0[k]);
                                let dk = dc0[k];
                                lemma_tree_grow(c0, c3, dk.0, 3 * g + 1, 3 * g + 1);
                                lemma_tree_grow(c0, c3, dk.1, 3 * g + 1, 3 * g + 1);
                                lemma_resolve_extend(c0, c3, dk.0);
                            } else {
                                assert(dc[k] == (k1, b));
                                lemma_tree_grow(cells, c0, e.0, g, g);
                                lemma_tree_grow(c1, c3, k1, 3 * g, 3 * g + 1);
                                lemma_tree_grow(cells, c1, e.1, g, g);
                                if v1 is Ref {
                                    lemma_tree_grow(c2, c3, v1, 3 * g, 3 * g + 1);
                                } else {
                                    lemma_tree_grow(c2, c3, v1, 3 * g, 3 * g);
                                    assert(c3[c2.len() as int] == v1);
                                    assert(tree(c3, b, 3 * g + 1) == tree(c3, v1, 3 * g));
                                }
                            }
                        }
                    }
                }
            }
        }
    }
}

/// A deep copy reads as the same tree as the value copied, with at most three
/// times the fuel.
pub proof fn lemma_clone_tree(cells: Seq<ValueV>, v: ValueV, f: nat, g: nat)
    ensures
        deep_clone_spec(cells, v, f) matches Some((c, x)) ==> (c.len() <= usize::MAX && tree(cells, v, g) is Some
            ==> tree(c, x, 3 * g) == tree(cells, v, g)),
    decreases f, 0nat,
{
    if f > 0 && g > 0 {
        lemma_deep_fresh(cells, v, f, cells.len() as int);
        match v {
            ValueV::Ref(Some(i)) => {
                if i < cells.len() {
                    lemma_clone_tree(cells, cells[i as int], (f - 1) as nat, (g - 1) as nat);
                    lemma_deep_fresh(cells, cells[i as int], (f - 1) as nat, cells.len() as int);
                    if let Some((c, x1)) = deep_clone_spec(cells, cells[i as int], (f - 1) as nat) {
                        let c2 = c.push(x1);
                        if c2.len() <= usize::MAX && tree(cells, v, g) is Some {
                            assert(extends(c, c2));
                            assert(c2[c.len() as int] == x1);
                            assert(deep_clone_spec(cells, v, f) == Some((c2, ValueV::Ref(Some(c.len() as usize)))));
                            assert(tree(cells, v, g) == tree(cells, cells[i as int], (g - 1) as nat));
                            assert(tree(c, x1, (3 * (g - 1)) as nat) == tree(cells, cells[i as int], (g - 1) as nat));
                            lemma_tree_grow(c, c2, x1, (3 * (g - 1)) as nat, (3 * g - 1) as nat);
                            assert(tree(c2, ValueV::Ref(Some(c.len() as usize)), 3 * g) == tree(c2, x1, (3 * g - 1) as nat));
                        }
                    }
                }
            },
            ValueV::List(l) => {
                let f1 = (f - 1) as nat;
                let g1 = (g - 1) as nat;
                lemma_clone_items_tree(cells, l, l.len() as int, f1, g1);
                if let Some((c, items)) = clone_items(cells, l, l.len() as int, f1) {
                    lemma_box_items_extends(c, items);
                    let (c1, items2) = box_items_spec(c, items);
                    let c2 = c1.push(ValueV::List(items2));
                    assert(box_spec(c, ValueV::List(items)) == (c2, ValueV::Ref(Some(c1.len() as usize))));
                    if c2.len() <= usize::MAX && tree(cells, v, g) is Some {
                        assert(c.len() <= c1.len());
                        assert(trees(cells, l, l.len() as int, g1) is Some);
                        let ts = trees(cells, l, l.len() as int, g1)->Some_0;
                        assert(tree(cells, v, g) == Some(Tree::List(ts)));
                        lemma_trees_facts(cells, l, l.len() as int, g1);
                        assert forall|k: int| 0 <= k < items.len() implies tree(c, #[trigger] items[k], 3 * g1) == Some(ts[k]) by {
                            assert(tree(cells, l[k], g1) == Some(ts[k]));
                        }
                        if g1 >= 1 {
                            lemma_box_items_tree(c, items, ts, 3 * g1);
                            assert(extends(c1, c2));
                            assert forall|k: int| 0 <= k < items2.len() implies #[trigger] tree(c2, items2[k], (3 * g - 2) as nat) is Some by {
                                lemma_tree_grow(c1, c2, items2[k], (3 * g1 + 1) as nat, (3 * g - 2) as nat);
                            }
                            lemma_trees_facts(c2, items2, items2.len() as int, (3 * g - 2) as nat);
                            let ts2 = trees(c2, items2, items2.len() as int, (3 * g - 2) as nat)->Some_0;
                            assert forall|k: int| 0 <= k < ts2.len() implies ts2[k] == ts[k] by {
                                lemma_tree_grow(c1, c2, items2[k], (3 * g1 + 1) as nat, (3 * g - 2) as nat);
                            }
                            assert(ts2 =~= ts);
                            assert(c2[c1.len() as int] == ValueV::List(items2));
                            assert(tree(c2, ValueV::List(items2), (3 * g - 1) as nat) == Some(Tree::List(ts2)));
                            assert(tree(c2, ValueV::Ref(Some(c1.len() as usize)), 3 * g) == Some(Tree::List(ts)));
                            assert(deep_clone_spec(cells, v, f) == Some((c2, ValueV::Ref(Some(c1.len() as usize)))));
                        } else {
                            assert(l.len() == 0);
                            assert(items.len() == 0);
                            assert(items2.len() == 0);
                            assert(c1 == c);
                            assert(ts =~= Seq::<Tree>::empty());
                            assert(c2[c1.len() as int] == ValueV::List(items2));
                            assert(trees(c2, items2, 0, (3 * g - 2) as nat) == Some(Seq::<Tree>::empty()));
                            assert(tree(c2, ValueV::List(items2), (3 * g - 1) as nat) == Some(Tree::List(ts)));
                            assert(tree(c2, ValueV::Ref(Some(c1.len() as usize)), 3 * g) == Some(Tree::List(ts)));
                            assert(deep_clone_spec(cells, v, f) == Some((c2, ValueV::Ref(Some(c1.len() as usize)))));
                        }
                    }
                }
            },
            ValueV::Dict(d) => {
                let f1 = (f - 1) as nat;
                let g1 = (g - 1) as nat;
                lemma_clone_pairs_tree(cells, d, d.len() as int, f1, g1);
                if let Some((c, dc)) = clone_pairs(cells, d, d.len() as int, f1) {
                    let c2 = c.push(ValueV::Dict(dc));
                    lemma_box_extends(c, ValueV::Dict(dc));
                    if box_spec(c, ValueV::Dict(dc)).0.len() <= usize::MAX && tree(cells, v, g) is Some {
                        assert(pair_trees(cells, d, d.len() as int, g1) is Some);
                        let ps = pair_trees(cells, d, d.len() as int, g1)->Some_0;
                        assert(tree(cells, v, g) == Some(Tree::Dict(ps)));
                        lemma_box_pairs_refs(c, dc);
                        assert(box_spec(c, ValueV::Dict(dc)) == (c2, ValueV::Ref(Some(c.len() as usize))));
                        assert(extends(c, c2));
                        lemma_pair_trees_facts(cells, d, d.len() as int, g1);
                        let h = (3 * g - 2) as nat;
                        assert forall|k: int|
                            #![trigger dc[k]]
                            0 <= k < dc.len() implies tree(c2, dc[k].0, h) == Some(ps[k].0) && tree(c2, dc[k].1, h)
                            == Some(ps[k].1) by {
                            let pk = ps[k];
                            let dk = dc[k];
                            lemma_tree_grow(c, c2, dk.0, h, h);
                            lemma_tree_grow(c, c2, dk.1, h, h);
                        }
                        lemma_pair_trees_facts(c2, dc, dc.len() as int, h);
                        let ps2 = pair_trees(c2, dc, dc.len() as int, h)->Some_0;
                        assert forall|k: int| 0 <= k < ps2.len() implies ps2[k] == ps[k] by {
                            let pk = ps[k];
                            let dk = dc[k];
                            let qk = ps2[k];
                        }
                        assert(ps2 =~= ps);
                        assert forall|i: int| 0 <= i < dc.len() implies #[trigger] resolve(c2, dc[i].0) is Some by {
                            let di = dc[i];
                            let oi = d[i];
                            lemma_resolve_extend(c, c2, di.0);
                        }
                        assert forall|i: int, j: int| #![trigger dc[i], dc[j]] 0 <= i < j < dc.len() implies !key_eq(
                            c2,
                            dc[i].0,
                            dc[j].0,
                        ) by {
                            let di = dc[i];
                            let dj = dc[j];
                            let oi = d[i];
                            let oj = d[j];
                            lemma_resolve_extend(c, c2, di.0);
                            lemma_resolve_extend(c, c2, dj.0);
                            lemma_key_eq_class(c2, di.0, dj.0, cells, oi.0, oj.0);
                        }
                        assert(keys_apart(c2, dc));
                        assert(c2[c.len() as int] == ValueV::Dict(dc));
                        assert(tree(c2, ValueV::Dict(dc), (3 * g - 1) as nat) == Some(Tree::Dict(ps)));
                        assert(tree(c2, ValueV::Ref(Some(c.len() as usize)), 3 * g) == Some(Tree::Dict(ps)));
                        assert(deep_clone_spec(cells, v, f) == Some((c2, ValueV::Ref(Some(c.len() as usize)))));
                    }
                }
            },
            _ => {
                if let Some((c, x)) = deep_clone_spec(cells, v, f) {
                    if tree(cells, v, g) is Some {
                        lemma_tree_grow(cells, c, v, g, 3 * g);
                    }
                }
            },
        }
    }
}

} // verus!
