//! Properties that relate several operations of the machine.

use vstd::prelude::*;

use crate::code::{Callable, Instruction, ENTRY_POINT};
use crate::module::builder::{
    intern, lemma_index_of_name_found, lower_fn, lower_module, relocate, lower_pass, move_args, selected, var_names, with_dependency, Hir,
    LoweredV,
};
use crate::module::meta::names;
use crate::var::Variable;
use crate::module::slots::{lemma_slot_find_facts, slot_find, slot_get, slot_insert};
use crate::stdlib::string::{bytes_number, chr_bytes, nonzero};
use crate::module::builder::{hir_find, hirs_with, lemma_hir_find};
use crate::stdlib::sort::{char_pos, pair_pos, sort_chars, sort_pairs, sort_values, value_pos};
use crate::lir::LirV;
use crate::opt::standard::{
    lemma_scan_fewer_steps, lemma_scan_more_steps, rewrite, scan_budget, scan_from, transform_spec,
};
use crate::opt::steps::lemma_scan_ends_within_budget;
use crate::value::conv::{type_code, ValueType};
use crate::value::data::{
    append_spec, boxed_arg, dict_find, dict_find_from, dict_insert, get_spec, hashable, key_eq,
    lemma_box_extends, lemma_dict_find_frame, set_spec, update_ok,
};
use crate::value::heap::{
    deref_cell, lemma_deref_cell_end, lemma_deref_cell_extend, lemma_deref_cell_update_end,
    lemma_deref_cell_visits, lemma_resolve_extend, shares_cell, visits,
};
use crate::value::iter::{collect_spec, has_next_spec, next_spec, ranged_spec, reverse_ok, reverse_spec, IterKindV, IterV};
use crate::value::ValueV;
use crate::stdlib::data::{ascii_lowercase, method_of};
use crate::util::ascii_lower;
use crate::value::deep::{atom_from, closed, deep_clone_spec, lemma_deep_fresh};
use crate::value::tree::{lemma_clone_tree, tree};
use crate::value::op::{lex_order, Order};
use crate::value::eq::EQ_DEPTH;
use crate::value::heap::extends;
use crate::value::heap::resolve;
use crate::stdlib::sort::before;
use crate::vm::context::ContextV;
use crate::vm::machine::{named_find_from, named_insert};
use crate::vm::semantics::{drop_spec, dup_spec, popped, pushed, StepV};
use crate::vm::semantics::{create_slice_spec, slice_items};
use crate::value::data::{box_spec, delete_spec};
use crate::value::eq::{list_eq, value_eq};
use crate::lir::{Operator, Operator2};

verus! {

/// A value pushed and popped again leaves the state as it was.
pub proof fn law_push_pop(c: ContextV, v: ValueV)
    ensures
        pushed(c, v).vstack.last() == v,
        popped(pushed(c, v)) == c,
{
    assert(popped(pushed(c, v)).vstack =~= c.vstack);
}

/// `Dup` followed by `Drop` leaves the state as it was.
pub proof fn law_dup_drop(c: ContextV)
    requires
        c.vstack.len() > 0,
    ensures
        dup_spec(c).1 == Ok::<StepV, crate::error::ErrorV>(StepV::Next),
        drop_spec(dup_spec(c).0) == (c, Ok::<StepV, crate::error::ErrorV>(StepV::Next)),
{
    law_push_pop(c, c.vstack.last());
}

/// Type codes name types one to one.
pub proof fn law_type_code_injective(a: ValueType, b: ValueType)
    ensures
        type_code(a) == type_code(b) ==> a == b,
        type_code(a) <= 6,
{
}

/// An iterator that has a next item yields it: `next` succeeds after
/// `has_next` answered true.
pub proof fn law_has_next_then_next(cells: Seq<ValueV>, it: IterV)
    requires
        has_next_spec(cells, it).1,
    ensures
        next_spec(has_next_spec(cells, it).0, it).2 is Ok,
{
    if let IterKindV::Over(v) = it.ty {
        let idx = it.current as usize;
        crate::value::data::lemma_get_by_index_facts(cells, v, idx);
        let c1 = has_next_spec(cells, it).0;
        crate::value::data::lemma_get_by_index_facts(c1, v, idx);
    }
}

/// Appending to a list puts the (wrapped) value at its end and keeps the
/// other items.
pub proof fn law_append_list(cells: Seq<ValueV>, l: Seq<ValueV>, val: ValueV)
    ensures
        ({
            let (c, t, r) = append_spec(cells, ValueV::List(l), val);
            &&& r is Ok
            &&& t matches ValueV::List(l2) && l2.len() == l.len() + 1 && l2.take(l.len() as int) == l
                && l2.last() == crate::value::data::boxed_arg(cells, val).1
        }),
{
    let (c, t, r) = append_spec(cells, ValueV::List(l), val);
    if let ValueV::List(l2) = t {
        assert(l2.take(l.len() as int) =~= l);
    }
}

/// Position of the first entry named `k` is where [named_insert] stores.
pub proof fn lemma_named_find(s: Seq<(Seq<char>, Callable)>, k: Seq<char>, i: int)
    requires
        0 <= i,
    ensures
        match named_find_from(s, k, i) {
            Some(j) => i <= j < s.len() && s[j].0 == k && forall|m: int| i <= m < j ==> s[m].0 != k,
            None => forall|m: int| i <= m < s.len() ==> s[m].0 != k,
        },
    decreases s.len() - i,
{
    if i < s.len() && s[i].0 != k {
        lemma_named_find(s, k, i + 1);
    }
}

/// A function added under a name is what the name then resolves to; other
/// names resolve as before.
pub proof fn law_add_function_lookup(s: Seq<(Seq<char>, Callable)>, k: Seq<char>, co: Callable, other: Seq<char>)
    ensures
        ({
            let t = named_insert(s, k, co);
            &&& named_find_from(t, k, 0) matches Some(j) && t[j].1 == co
            &&& other != k ==> named_find_from(t, other, 0) == named_find_from(s, other, 0)
        }),
{
    let t = named_insert(s, k, co);
    lemma_named_find(s, k, 0);
    lemma_named_find(t, k, 0);
    lemma_named_find(s, other, 0);
    lemma_named_find(t, other, 0);
    match named_find_from(s, k, 0) {
        Some(i) => {
            assert(t[i].0 == k);
        },
        None => {
            assert(t[s.len() as int].0 == k);
        },
    }
    if other != k {
        match (named_find_from(t, other, 0), named_find_from(s, other, 0)) {
            (Some(a), Some(b)) => {
                if a < b {
                    assert(s[a].0 == t[a].0);
                } else if b < a {
                    assert(s[b].0 == t[b].0);
                }
            },
            (Some(a), None) => {
                if a < s.len() {
                    assert(s[a].0 == t[a].0);
                }
            },
            (None, Some(b)) => {
                assert(s[b].0 == t[b].0);
            },
            (None, None) => {},
        }
    }
}

/// The transformed code admits no further rewrite.
pub proof fn lemma_transform_final(code: Seq<LirV>)
    ensures
        rewrite(transform_spec(code)) is None,
    decreases code.len(),
{
    lemma_rewrite_shortens(code);
    match rewrite(code) {
        Some(c2) => if c2.len() < code.len() {
            lemma_transform_final(c2);
        },
        None => {},
    }
}

/// Rewrites always shorten the code.
pub proof fn lemma_rewrite_shortens(code: Seq<LirV>)
    ensures
        rewrite(code) matches Some(c2) ==> c2.len() < code.len(),
{
}

/// Transforming twice gives what transforming once gives.
pub proof fn law_transform_idempotent(code: Seq<LirV>)
    ensures
        transform_spec(transform_spec(code)) == transform_spec(code),
{
    lemma_transform_final(code);
    lemma_rewrite_shortens(code);
    let t = transform_spec(code);
    lemma_rewrite_shortens(t);
}


/// Dictionary search finds the first entry with an equal key.
pub proof fn lemma_dict_find_facts(cells: Seq<ValueV>, d: Seq<(ValueV, ValueV)>, key: ValueV, i: int)
    requires
        0 <= i,
    ensures
        match dict_find_from(cells, d, key, i) {
            Some(j) => i <= j < d.len() && key_eq(cells, d[j].0, key) && forall|m: int|
                i <= m < j ==> !key_eq(cells, #[trigger] d[m].0, key),
            None => forall|m: int| i <= m < d.len() ==> !key_eq(cells, #[trigger] d[m].0, key),
        },
    decreases d.len() - i,
{
    if i < d.len() && !key_eq(cells, d[i].0, key) {
        lemma_dict_find_facts(cells, d, key, i + 1);
    }
}

/// Search after inserting: the key is found with the inserted value.
pub proof fn lemma_find_after_insert(cells: Seq<ValueV>, d: Seq<(ValueV, ValueV)>, key: ValueV, val: ValueV)
    requires
        hashable(cells, key),
    ensures
        ({
            let d2 = dict_insert(cells, d, key, val);
            dict_find(cells, d2, key) matches Some(j) && 0 <= j < d2.len() && d2[j].1 == val
        }),
{
    let d2 = dict_insert(cells, d, key, val);
    assert(key_eq(cells, key, key));
    lemma_dict_find_facts(cells, d, key, 0);
    lemma_dict_find_facts(cells, d2, key, 0);
    match dict_find(cells, d, key) {
        Some(i) => {
            assert(key_eq(cells, d2[i].0, key));
            if let Some(j) = dict_find(cells, d2, key) {
                if j < i {
                    assert(d2[j].0 == d[j].0);
                }
            }
        },
        None => {
            assert(d2[d.len() as int].0 == key);
            if let Some(j) = dict_find(cells, d2, key) {
                if j < d.len() {
                    assert(d2[j].0 == d[j].0);
                }
            }
        },
    }
}

/// Reading a key of a dictionary after storing under it gives what was
/// stored: the value itself if it is a reference, otherwise the reference to
/// the new cell that holds it.
pub proof fn law_get_after_set_dict(cells: Seq<ValueV>, d: Seq<(ValueV, ValueV)>, key: ValueV, val: ValueV)
    requires
        hashable(cells, key),
    ensures
        ({
            let (c, t, r) = set_spec(cells, ValueV::Dict(d), key, val);
            &&& r is Ok
            &&& get_spec(c, t, key) == Ok::<ValueV, crate::error::ErrorV>(boxed_arg(cells, val).1)
        }),
{
    let (c1, bval) = boxed_arg(cells, val);
    if !(val is Ref) {
        lemma_box_extends(cells, val);
    }
    lemma_resolve_extend(cells, c1, key);
    lemma_find_after_insert(c1, d, key, bval);
}

/// Reading a position of a list after storing at it gives what was stored.
pub proof fn law_get_after_set_list(cells: Seq<ValueV>, l: Seq<ValueV>, n: i64, val: ValueV)
    requires
        0 <= n <= l.len(),
        n <= usize::MAX,
    ensures
        ({
            let (c, t, r) = set_spec(cells, ValueV::List(l), ValueV::Int(n), val);
            &&& r is Ok
            &&& get_spec(c, t, ValueV::Int(n)) == Ok::<ValueV, crate::error::ErrorV>(boxed_arg(cells, val).1)
        }),
{
    assert((n as usize) as int == n);
}

/// Through a reference: reading a key after storing under it gives what was
/// stored, where neither the key nor a stored key reads the dictionary's
/// cell.
pub proof fn law_get_after_set_ref(cells: Seq<ValueV>, r: Option<usize>, key: ValueV, val: ValueV)
    requires
        deref_cell(cells, r) is Some,
        cells[deref_cell(cells, r)->0] is Dict,
        hashable(cells, key),
        update_ok(boxed_arg(cells, val).0, ValueV::Ref(r), key, true),
    ensures
        ({
            let (c, t, res) = set_spec(cells, ValueV::Ref(r), key, val);
            &&& res is Ok
            &&& get_spec(c, t, key) == Ok::<ValueV, crate::error::ErrorV>(boxed_arg(cells, val).1)
        }),
{
    let (c1, bval) = boxed_arg(cells, val);
    if !(val is Ref) {
        lemma_box_extends(cells, val);
    }
    lemma_deref_cell_extend(cells, c1, r);
    lemma_resolve_extend(cells, c1, key);
    let i = deref_cell(c1, r)->0;
    lemma_deref_cell_visits(c1, r);
    lemma_deref_cell_end(c1, r);
    lemma_deref_cell_end(cells, r);
    assert(c1[i] == cells[i]);
    if let ValueV::Dict(d) = c1[i] {
        let d2 = dict_insert(c1, d, key, bval);
        let c2 = c1.update(i, ValueV::Dict(d2));
        lemma_deref_cell_update_end(c1, r, ValueV::Dict(d2));
        lemma_find_after_insert(c1, d, key, bval);
        assert(!visits(c1, key, i)) by {
            if visits(c1, key, i) {
                assert(visits(c1, ValueV::Ref(r), i) && visits(c1, key, i));
            }
        }
        lemma_dict_find_facts(c1, d, key, 0);
        assert forall|j: int| 0 <= j < d2.len() implies !visits(c1, #[trigger] d2[j].0, i) by {
            if j < d.len() {
                match dict_find(c1, d, key) {
                    Some(p) => {
                        assert(d2 == d.update(p, (d[p].0, bval)));
                    },
                    None => {
                        assert(d2 == d.push((key, bval)));
                    },
                }
                assert(d2[j].0 == d[j].0);
                if visits(c1, d[j].0, i) {
                    assert(visits(c1, ValueV::Ref(r), i) && visits(c1, d[j].0, i));
                    assert(shares_cell(c1, ValueV::Ref(r), d[j].0));
                }
            } else {
                match dict_find(c1, d, key) {
                    Some(p) => {
                        assert(d2 == d.update(p, (d[p].0, bval)));
                    },
                    None => {
                        assert(d2 == d.push((key, bval)));
                    },
                }
                assert(d2[j].0 == key);
            }
        }
        lemma_dict_find_frame(c1, d2, key, i, ValueV::Dict(d2), 0);
        assert(deref_cell(c2, r) == Some(i));
        assert(c2[i] == ValueV::Dict(d2));
        assert(dict_find(c2, d2, key) == dict_find(c1, d2, key));
        assert(set_spec(cells, ValueV::Ref(r), key, val) == (c2, ValueV::Ref(r), Ok::<(), crate::error::ErrorV>(())));
    }
}


/// Integers from `from` counting up, `n` of them, as values.
pub open spec fn counting_up(from: int, n: nat) -> Seq<ValueV> {
    Seq::new(n, |i: int| ValueV::Int((from + i) as i64))
}

/// Integers from `from` counting down, `n` of them, as values.
pub open spec fn counting_down(from: int, n: nat) -> Seq<ValueV> {
    Seq::new(n, |i: int| ValueV::Int((from - i) as i64))
}

/// An upward number iterator yields the numbers from its position up to its
/// limit, the limit excluded.
pub proof fn lemma_collect_up(cells: Seq<ValueV>, c: i64, to: i64)
    ensures
        collect_spec(cells, IterV { current: c, reversed: false, ty: IterKindV::Limit(to) }).1 == counting_up(
            c as int,
            if c < to { (to - c) as nat } else { 0 },
        ),
    decreases to - c,
{
    let it = IterV { current: c, reversed: false, ty: IterKindV::Limit(to) };
    if c < to {
        let it2 = IterV { current: (c + 1) as i64, reversed: false, ty: IterKindV::Limit(to) };
        assert(next_spec(cells, it) == (cells, it2, Ok::<ValueV, crate::error::ErrorV>(ValueV::Int(c))));
        lemma_collect_up(cells, (c + 1) as i64, to);
        assert(collect_spec(cells, it).1 == seq![ValueV::Int(c)] + collect_spec(cells, it2).1);
        assert(seq![ValueV::Int(c)] + counting_up(c + 1, (to - c - 1) as nat) =~= counting_up(c as int, (to - c) as nat));
    } else {
        assert(counting_up(c as int, 0) =~= Seq::<ValueV>::empty());
    }
}

/// A downward number iterator yields the numbers from its position down to
/// its limit, the limit included.
pub proof fn lemma_collect_down(cells: Seq<ValueV>, c: i64, to: i64)
    requires
        to > i64::MIN,
    ensures
        collect_spec(cells, IterV { current: c, reversed: true, ty: IterKindV::Limit(to) }).1 == counting_down(
            c as int,
            if c >= to { (c - to + 1) as nat } else { 0 },
        ),
    decreases c - to + 1,
{
    let it = IterV { current: c, reversed: true, ty: IterKindV::Limit(to) };
    if c >= to {
        let it2 = IterV { current: (c - 1) as i64, reversed: true, ty: IterKindV::Limit(to) };
        assert(next_spec(cells, it) == (cells, it2, Ok::<ValueV, crate::error::ErrorV>(ValueV::Int(c))));
        lemma_collect_down(cells, (c - 1) as i64, to);
        assert(collect_spec(cells, it).1 == seq![ValueV::Int(c)] + collect_spec(cells, it2).1);
        assert(seq![ValueV::Int(c)] + counting_down(c - 1, (c - to) as nat) =~= counting_down(c as int, (c - to + 1) as nat));
    } else {
        assert(counting_down(c as int, 0) =~= Seq::<ValueV>::empty());
    }
}

/// A ranged iterator yields `from` up to `to`, `from` included and `to`
/// excluded; where `to` lies below `from`, it counts down from `from` to just
/// above `to`.
pub proof fn law_ranged_collect(cells: Seq<ValueV>, from: i64, to: i64)
    ensures
        from <= to ==> collect_spec(cells, ranged_spec(from, to)).1 == counting_up(from as int, (to - from) as nat),
        to < from ==> collect_spec(cells, ranged_spec(from, to)).1 == counting_down(from as int, (from - to) as nat),
{
    if from <= to {
        lemma_collect_up(cells, from, to);
    } else {
        lemma_collect_down(cells, from, (to + 1) as i64);
    }
}

/// Reversing a number iterator twice gives it back.
pub proof fn law_reverse_twice(cells: Seq<ValueV>, it: IterV)
    requires
        it.ty is Limit,
        reverse_ok(cells, it),
        reverse_ok(cells, reverse_spec(cells, it)),
    ensures
        reverse_spec(cells, reverse_spec(cells, it)) == it,
{
}


/// Recording a dependency twice records it once.
pub proof fn law_add_dependency_idempotent(uses: Seq<String>, name: String)
    ensures
        with_dependency(with_dependency(uses, name), name) == with_dependency(uses, name),
        names(with_dependency(uses, name)).contains(name@),
{
    let u1 = with_dependency(uses, name);
    if !names(uses).contains(name@) {
        assert(names(u1)[uses.len() as int] == name@);
    }
}

/// Whether `a` is the start of `b`.
pub open spec fn is_prefix<T>(a: Seq<T>, b: Seq<T>) -> bool {
    a.len() <= b.len() && b.take(a.len() as int) == a
}

/// Interning keeps the table as its start and finds the name at the
/// position it gives.
pub proof fn lemma_intern(ids: Seq<Seq<char>>, name: Seq<char>)
    ensures
        is_prefix(ids, intern(ids, name).0),
        0 <= intern(ids, name).1 < intern(ids, name).0.len(),
        intern(ids, name).0[intern(ids, name).1] == name,
{
    lemma_index_of_name_found(ids, name);
    let (ids1, i) = intern(ids, name);
    assert(ids1.take(ids.len() as int) =~= ids);
}

/// Moving parameters into locals keeps the identifier table as its start.
pub proof fn lemma_move_args(ids: Seq<Seq<char>>, code: Seq<Instruction>, args: Seq<Seq<char>>)
    ensures
        move_args(ids, code, args) matches Some((ids2, _)) ==> is_prefix(ids, ids2),
    decreases args.len(),
{
    assert(ids.take(ids.len() as int) =~= ids);
    if args.len() > 0 {
        let (ids1, k) = intern(ids, args.last());
        lemma_intern(ids, args.last());
        if k <= u16::MAX {
            lemma_move_args(ids1, code.push(Instruction::LMove(k as u16)), args.drop_last());
            if let Some((ids2, _)) = move_args(ids, code, args) {
                assert(move_args(ids, code, args) == move_args(ids1, code.push(Instruction::LMove(k as u16)), args.drop_last()));
                assert forall|j: int| 0 <= j < ids.len() implies ids2[j] == ids[j] by {
                    assert(ids2.take(ids1.len() as int)[j] == ids1[j]);
                    assert(ids1.take(ids.len() as int)[j] == ids[j]);
                }
                assert(ids2.take(ids.len() as int) =~= ids);
            }
        }
    }
}

/// Lowering a function records its entry last, at the current end of the
/// code, under its name, and keeps the tables as their start.
pub proof fn lemma_lower_fn(st: LoweredV, name: Seq<char>, args: Seq<Seq<char>>, body: Seq<Instruction>)
    ensures
        lower_fn(st, name, args, body) matches Some(l) ==> {
            &&& l.entries == st.entries.push(l.entries.last())
            &&& is_prefix(st.idents, l.idents)
            &&& (st.idents.len() < usize::MAX && st.code.len() <= usize::MAX) ==> {
                &&& l.entries.last().1 == st.code.len()
                &&& 0 <= l.entries.last().0 < l.idents.len()
                &&& l.idents[l.entries.last().0 as int] == name
            }
        },
{
    let (ids1, iidx) = intern(st.idents, name);
    lemma_intern(st.idents, name);
    lemma_move_args(ids1, st.code, args);
    if let Some(l) = lower_fn(st, name, args, body) {
        assert(lower_fn(st, name, args, body) == (match move_args(ids1, st.code, args) {
            None => None,
            Some((ids2, code2)) => if forall|i: int| 0 <= i < body.len() ==> (#[trigger] relocate(body[i], code2.len() as int)) is Some {
                Some(LoweredV {
                    idents: ids2,
                    entries: st.entries.push((iidx as usize, st.code.len() as usize)),
                    code: code2 + body.map_values(|x: Instruction| relocate(x, code2.len() as int)->Some_0),
                })
            } else {
                None
            },
        })) by {
            reveal(lower_fn);
        }
        let (ids2, code2) = move_args(ids1, st.code, args)->Some_0;
        assert(l.idents == ids2);
        assert(ids2.take(ids1.len() as int) == ids1);
        assert(ids2[iidx] == ids2.take(ids1.len() as int)[iidx]);
        assert(ids1.len() <= st.idents.len() + 1);
        assert forall|j: int| 0 <= j < st.idents.len() implies ids2[j] == st.idents[j] by {
            assert(ids2.take(ids1.len() as int)[j] == ids1[j]);
            assert(ids1.take(st.idents.len() as int)[j] == st.idents[j]);
        }
        assert(ids2.take(st.idents.len() as int) =~= st.idents);
    }
}

/// A pass keeps the entries and identifiers it started with as their start.
pub proof fn lemma_lower_pass_prefix(st: LoweredV, fs: Seq<(Variable, Hir)>, sel: Option<bool>, n: int)
    requires
        n <= fs.len(),
    ensures
        lower_pass(st, fs, sel, n) matches Some(l) ==> is_prefix(st.entries, l.entries) && is_prefix(
            st.idents,
            l.idents,
        ),
    decreases n,
{
    assert(st.entries.take(st.entries.len() as int) =~= st.entries);
    assert(st.idents.take(st.idents.len() as int) =~= st.idents);
    if n > 0 {
        lemma_lower_pass_prefix(st, fs, sel, n - 1);
        if let Some(s1) = lower_pass(st, fs, sel, n - 1) {
            if selected(fs[n - 1].0@, sel) {
                lemma_lower_fn(s1, fs[n - 1].0@, var_names(fs[n - 1].1.args@), fs[n - 1].1.code@);
                if let Some(l) = lower_pass(st, fs, sel, n) {
                    assert(l.entries.take(st.entries.len() as int) =~= s1.entries.take(st.entries.len() as int));
                    assert forall|j: int| 0 <= j < st.idents.len() implies l.idents[j] == st.idents[j] by {
                        assert(l.idents.take(s1.idents.len() as int)[j] == s1.idents[j]);
                        assert(s1.idents.take(st.idents.len() as int)[j] == st.idents[j]);
                    }
                    assert(l.idents.take(st.idents.len() as int) =~= st.idents);
                }
            }
        }
    }
}

/// The pass over main functions, from an empty layout, records the first
/// main function at offset 0.
pub proof fn lemma_main_pass(st: LoweredV, fs: Seq<(Variable, Hir)>, m: int, n: int)
    requires
        st.entries.len() == 0,
        st.code.len() == 0,
        st.idents.len() < usize::MAX,
        0 <= m < n <= fs.len(),
        fs[m].0@ == ENTRY_POINT@,
        forall|j: int| 0 <= j < m ==> fs[j].0@ != ENTRY_POINT@,
    ensures
        lower_pass(st, fs, Some(true), n) matches Some(l) ==> {
            &&& l.entries.len() > 0
            &&& l.entries[0].1 == 0
            &&& 0 <= l.entries[0].0 < l.idents.len()
            &&& l.idents[l.entries[0].0 as int] == ENTRY_POINT@
        },
    decreases n,
{
    if n == m + 1 {
        lemma_untouched(st, fs, m);
        lemma_lower_fn(st, fs[m].0@, var_names(fs[m].1.args@), fs[m].1.code@);
    } else {
        lemma_main_pass(st, fs, m, n - 1);
        if let Some(s1) = lower_pass(st, fs, Some(true), n - 1) {
            if selected(fs[n - 1].0@, Some(true)) {
                lemma_lower_fn(s1, fs[n - 1].0@, var_names(fs[n - 1].1.args@), fs[n - 1].1.code@);
                if let Some(l) = lower_pass(st, fs, Some(true), n) {
                    assert(l.entries[0] == s1.entries[0]);
                    assert(l.idents.take(s1.idents.len() as int)[s1.entries[0].0 as int] == l.idents[s1.entries[0].0 as int]);
                }
            }
        }
    }
}

/// Before the first main function, the pass over main functions changes
/// nothing.
pub proof fn lemma_untouched(st: LoweredV, fs: Seq<(Variable, Hir)>, m: int)
    requires
        0 <= m <= fs.len(),
        forall|j: int| 0 <= j < m ==> fs[j].0@ != ENTRY_POINT@,
    ensures
        lower_pass(st, fs, Some(true), m) == Some(st),
    decreases m,
{
    if m > 0 {
        lemma_untouched(st, fs, m - 1);
    }
}

/// Building with the main function first puts the first main function at
/// offset 0, where a program starts.
pub proof fn law_main_first(idents: Seq<Seq<char>>, fs: Seq<(Variable, Hir)>, m: int)
    requires
        0 <= m < fs.len(),
        idents.len() < usize::MAX,
        fs[m].0@ == ENTRY_POINT@,
    ensures
        lower_module(idents, fs, true) matches Some(l) ==> {
            &&& l.entries.len() > 0
            &&& l.entries[0].1 == 0
            &&& 0 <= l.entries[0].0 < l.idents.len()
            &&& l.idents[l.entries[0].0 as int] == ENTRY_POINT@
        },
{
    let first = choose|k: int| 0 <= k < fs.len() && fs[k].0@ == ENTRY_POINT@ && forall|j: int|
        0 <= j < k ==> fs[j].0@ != ENTRY_POINT@;
    assert(exists|k: int| 0 <= k < fs.len() && fs[k].0@ == ENTRY_POINT@ && forall|j: int|
        0 <= j < k ==> fs[j].0@ != ENTRY_POINT@) by {
        lemma_first_main(fs, m);
    }
    let st = LoweredV { idents, entries: Seq::empty(), code: Seq::empty() };
    lemma_main_pass(st, fs, first, fs.len() as int);
    if let Some(s1) = lower_pass(st, fs, Some(true), fs.len() as int) {
        lemma_lower_pass_prefix(s1, fs, Some(false), fs.len() as int);
        if let Some(l) = lower_pass(s1, fs, Some(false), fs.len() as int) {
            assert(l.entries[0] == l.entries.take(s1.entries.len() as int)[0]);
            assert(l.idents[s1.entries[0].0 as int] == l.idents.take(s1.idents.len() as int)[s1.entries[0].0 as int]);
        }
    }
}

/// Some main function comes first among the main functions.
proof fn lemma_first_main(fs: Seq<(Variable, Hir)>, m: int)
    requires
        0 <= m < fs.len(),
        fs[m].0@ == ENTRY_POINT@,
    ensures
        exists|k: int| 0 <= k < fs.len() && fs[k].0@ == ENTRY_POINT@ && forall|j: int|
            0 <= j < k ==> fs[j].0@ != ENTRY_POINT@,
    decreases m,
{
    if exists|j: int| 0 <= j < m && fs[j].0@ == ENTRY_POINT@ {
        let j = choose|j: int| 0 <= j < m && fs[j].0@ == ENTRY_POINT@;
        lemma_first_main(fs, j);
    } else {
        assert(0 <= m < fs.len() && fs[m].0@ == ENTRY_POINT@ && forall|j: int| 0 <= j < m ==> fs[j].0@ != ENTRY_POINT@);
    }
}

/// Where a character goes: every character before the position is not
/// greater, the one at the position is greater.
proof fn lemma_char_pos(t: Seq<char>, c: char, i: int)
    requires
        0 <= i <= t.len(),
    ensures
        i <= char_pos(t, c, i) <= t.len(),
        forall|k: int| i <= k < char_pos(t, c, i) ==> !(c < #[trigger] t[k]),
        char_pos(t, c, i) < t.len() ==> c < t[char_pos(t, c, i)],
    decreases t.len() - i,
{
    if i < t.len() && !(c < t[i]) {
        lemma_char_pos(t, c, i + 1);
    }
}

/// Sorting a string puts its characters in ascending order.
pub proof fn law_sort_chars_ordered(s: Seq<char>)
    ensures
        forall|i: int, j: int| 0 <= i < j < sort_chars(s).len() ==> sort_chars(s)[i] <= sort_chars(s)[j],
    decreases s.len(),
{
    if s.len() > 0 {
        let t = sort_chars(s.drop_last());
        let c = s.last();
        law_sort_chars_ordered(s.drop_last());
        law_sort_chars_keeps(s.drop_last());
        lemma_char_pos(t, c, 0);
        let p = char_pos(t, c, 0);
        let u = t.insert(p, c);
        assert(u == sort_chars(s));
        assert forall|i: int, j: int| 0 <= i < j < u.len() implies u[i] <= u[j] by {
            if j < p {
                assert(u[i] == t[i] && u[j] == t[j]);
            } else if j == p {
                assert(u[i] == t[i]);
            } else if i < p {
                assert(u[i] == t[i] && u[j] == t[j - 1]);
                assert(c < t[p]);
                assert(t[p] <= t[j - 1]);
            } else if i == p {
                assert(u[j] == t[j - 1]);
                assert(t[p] <= t[j - 1]);
            } else {
                assert(u[i] == t[i - 1] && u[j] == t[j - 1]);
            }
        }
    }
}

/// Sorting a string keeps its characters: the same characters, each as
/// often.
pub proof fn law_sort_chars_keeps(s: Seq<char>)
    ensures
        sort_chars(s).to_multiset() == s.to_multiset(),
        sort_chars(s).len() == s.len(),
    decreases s.len(),
{
    broadcast use vstd::seq_lib::group_to_multiset_ensures;

    if s.len() > 0 {
        let t = sort_chars(s.drop_last());
        law_sort_chars_keeps(s.drop_last());
        lemma_char_pos(t, s.last(), 0);
        assert(s.drop_last().push(s.last()) == s);
    }
}

/// Where a value goes lies within the sorted part.
proof fn lemma_value_pos(cells: Seq<ValueV>, t: Seq<ValueV>, x: ValueV, i: int)
    requires
        0 <= i <= t.len(),
    ensures
        i <= value_pos(cells, t, x, i) <= t.len(),
    decreases t.len() - i,
{
    if i < t.len() {
        lemma_value_pos(cells, t, x, i + 1);
    }
}

/// Sorting a list keeps its values: the same values, each as often.
pub proof fn law_sort_values_keeps(cells: Seq<ValueV>, s: Seq<ValueV>)
    ensures
        sort_values(cells, s).to_multiset() == s.to_multiset(),
    decreases s.len(),
{
    broadcast use vstd::seq_lib::group_to_multiset_ensures;

    if s.len() > 0 {
        let t = sort_values(cells, s.drop_last());
        law_sort_values_keeps(cells, s.drop_last());
        lemma_value_pos(cells, t, s.last(), 0);
        assert(s.drop_last().push(s.last()) == s);
    }
}

/// Where an entry goes lies within the sorted part.
proof fn lemma_pair_pos(cells: Seq<ValueV>, t: Seq<(ValueV, ValueV)>, x: (ValueV, ValueV), i: int)
    requires
        0 <= i <= t.len(),
    ensures
        i <= pair_pos(cells, t, x, i) <= t.len(),
    decreases t.len() - i,
{
    if i < t.len() {
        lemma_pair_pos(cells, t, x, i + 1);
    }
}

/// Sorting a dictionary keeps its entries: the same entries, each as often.
pub proof fn law_sort_pairs_keeps(cells: Seq<ValueV>, s: Seq<(ValueV, ValueV)>)
    ensures
        sort_pairs(cells, s).to_multiset() == s.to_multiset(),
    decreases s.len(),
{
    broadcast use vstd::seq_lib::group_to_multiset_ensures;

    if s.len() > 0 {
        let t = sort_pairs(cells, s.drop_last());
        law_sort_pairs_keeps(cells, s.drop_last());
        lemma_pair_pos(cells, t, s.last(), 0);
        assert(s.drop_last().push(s.last()) == s);
    }
}

/// The integer a value stands for, once references are followed.
pub open spec fn int_of(cells: Seq<ValueV>, v: ValueV) -> int {
    match resolve(cells, v) {
        Some(ValueV::Int(n)) => n as int,
        _ => 0,
    }
}

/// Whether a value stands for an integer.
pub open spec fn is_int_value(cells: Seq<ValueV>, v: ValueV) -> bool {
    resolve(cells, v) matches Some(ValueV::Int(_))
}

/// Where an integer goes: the ones before it are not greater, the one at
/// the position is greater.
proof fn lemma_value_pos_ints(cells: Seq<ValueV>, t: Seq<ValueV>, x: ValueV, i: int)
    requires
        0 <= i <= t.len(),
        is_int_value(cells, x),
        forall|k: int| 0 <= k < t.len() ==> is_int_value(cells, #[trigger] t[k]),
    ensures
        i <= value_pos(cells, t, x, i) <= t.len(),
        forall|k: int| i <= k < value_pos(cells, t, x, i) ==> int_of(cells, #[trigger] t[k]) <= int_of(cells, x),
        value_pos(cells, t, x, i) < t.len() ==> int_of(cells, x) < int_of(cells, t[value_pos(cells, t, x, i)]),
    decreases t.len() - i,
{
    if i < t.len() {
        assert(is_int_value(cells, t[i]));
        if !before(cells, x, t[i]) {
            lemma_value_pos_ints(cells, t, x, i + 1);
        }
    }
}

/// Sorting a list of integers puts them in ascending order.
pub proof fn law_sort_ints_ordered(cells: Seq<ValueV>, s: Seq<ValueV>)
    requires
        forall|k: int| 0 <= k < s.len() ==> is_int_value(cells, #[trigger] s[k]),
    ensures
        forall|k: int| 0 <= k < sort_values(cells, s).len() ==> is_int_value(cells, #[trigger] sort_values(cells, s)[k]),
        forall|i: int, j: int|
            0 <= i < j < sort_values(cells, s).len() ==> int_of(cells, sort_values(cells, s)[i]) <= int_of(
                cells,
                sort_values(cells, s)[j],
            ),
    decreases s.len(),
{
    if s.len() > 0 {
        let t = sort_values(cells, s.drop_last());
        let x = s.last();
        assert(is_int_value(cells, x));
        assert forall|k: int| 0 <= k < s.drop_last().len() implies is_int_value(cells, #[trigger] s.drop_last()[k]) by {
            assert(s.drop_last()[k] == s[k]);
        }
        law_sort_ints_ordered(cells, s.drop_last());
        lemma_value_pos_ints(cells, t, x, 0);
        let p = value_pos(cells, t, x, 0);
        let u = t.insert(p, x);
        assert(u == sort_values(cells, s));
        assert forall|k: int| 0 <= k < u.len() implies is_int_value(cells, #[trigger] u[k]) by {
            if k < p {
                assert(u[k] == t[k]);
            } else if k > p {
                assert(u[k] == t[k - 1]);
            }
        }
        assert forall|i: int, j: int| 0 <= i < j < u.len() implies int_of(cells, u[i]) <= int_of(cells, u[j]) by {
            if j < p {
                assert(u[i] == t[i] && u[j] == t[j]);
            } else if j == p {
                assert(u[i] == t[i]);
            } else if i < p {
                assert(u[i] == t[i] && u[j] == t[j - 1]);
                assert(int_of(cells, t[p]) <= int_of(cells, t[j - 1]));
            } else if i == p {
                assert(u[j] == t[j - 1]);
                assert(int_of(cells, t[p]) <= int_of(cells, t[j - 1]));
            } else {
                assert(u[i] == t[i - 1] && u[j] == t[j - 1]);
            }
        }
    }
}

/// Swapping the two sides of a comparison of strings swaps less and greater.
proof fn lemma_lex_flip(a: Seq<char>, b: Seq<char>)
    ensures
        (lex_order(a, b) == Order::Less) == (lex_order(b, a) == Order::Greater),
    decreases a.len(),
{
    if a.len() > 0 && b.len() > 0 && a[0] == b[0] {
        lemma_lex_flip(a.drop_first(), b.drop_first());
    }
}

/// A string is equal to itself in the lexicographic order.
proof fn lemma_lex_refl(a: Seq<char>)
    ensures
        lex_order(a, a) == Order::Equal,
    decreases a.len(),
{
    if a.len() > 0 {
        lemma_lex_refl(a.drop_first());
    }
}

/// The lexicographic order of strings is transitive.
proof fn lemma_lex_trans(a: Seq<char>, b: Seq<char>, c: Seq<char>)
    requires
        lex_order(a, b) != Order::Greater,
        lex_order(b, c) != Order::Greater,
    ensures
        lex_order(a, c) != Order::Greater,
    decreases a.len(),
{
    if a.len() > 0 && b.len() > 0 && c.len() > 0 && a[0] == b[0] && b[0] == c[0] {
        lemma_lex_trans(a.drop_first(), b.drop_first(), c.drop_first());
    }
}

/// The string a value stands for, once references are followed.
pub open spec fn str_of(cells: Seq<ValueV>, v: ValueV) -> Seq<char> {
    match resolve(cells, v) {
        Some(ValueV::Str(x)) => x,
        _ => Seq::empty(),
    }
}

/// Whether a value stands for a string.
pub open spec fn is_str_value(cells: Seq<ValueV>, v: ValueV) -> bool {
    resolve(cells, v) matches Some(ValueV::Str(_))
}

/// Where a string goes: the ones before it do not come after it, the one at
/// the position comes after it.
proof fn lemma_value_pos_strs(cells: Seq<ValueV>, t: Seq<ValueV>, x: ValueV, i: int)
    requires
        0 <= i <= t.len(),
        is_str_value(cells, x),
        forall|k: int| 0 <= k < t.len() ==> is_str_value(cells, #[trigger] t[k]),
    ensures
        i <= value_pos(cells, t, x, i) <= t.len(),
        forall|k: int|
            i <= k < value_pos(cells, t, x, i) ==> lex_order(str_of(cells, #[trigger] t[k]), str_of(cells, x))
                != Order::Greater,
        value_pos(cells, t, x, i) < t.len() ==> lex_order(str_of(cells, x), str_of(cells, t[value_pos(cells, t, x, i)]))
            == Order::Less,
    decreases t.len() - i,
{
    if i < t.len() {
        assert(is_str_value(cells, t[i]));
        lemma_lex_flip(str_of(cells, x), str_of(cells, t[i]));
        if !before(cells, x, t[i]) {
            lemma_value_pos_strs(cells, t, x, i + 1);
        }
    }
}

/// Sorting a list of strings puts them in lexicographic order.
pub proof fn law_sort_strs_ordered(cells: Seq<ValueV>, s: Seq<ValueV>)
    requires
        forall|k: int| 0 <= k < s.len() ==> is_str_value(cells, #[trigger] s[k]),
    ensures
        forall|k: int| 0 <= k < sort_values(cells, s).len() ==> is_str_value(cells, #[trigger] sort_values(cells, s)[k]),
        forall|i: int, j: int|
            0 <= i < j < sort_values(cells, s).len() ==> lex_order(
                str_of(cells, sort_values(cells, s)[i]),
                str_of(cells, sort_values(cells, s)[j]),
            ) != Order::Greater,
    decreases s.len(),
{
    if s.len() > 0 {
        let t = sort_values(cells, s.drop_last());
        let x = s.last();
        assert(is_str_value(cells, x));
        assert forall|k: int| 0 <= k < s.drop_last().len() implies is_str_value(cells, #[trigger] s.drop_last()[k]) by {
            assert(s.drop_last()[k] == s[k]);
        }
        law_sort_strs_ordered(cells, s.drop_last());
        lemma_value_pos_strs(cells, t, x, 0);
        let p = value_pos(cells, t, x, 0);
        let u = t.insert(p, x);
        assert(u == sort_values(cells, s));
        assert forall|k: int| 0 <= k < u.len() implies is_str_value(cells, #[trigger] u[k]) by {
            if k < p {
                assert(u[k] == t[k]);
            } else if k > p {
                assert(u[k] == t[k - 1]);
            }
        }
        assert forall|i: int, j: int| 0 <= i < j < u.len() implies lex_order(str_of(cells, u[i]), str_of(cells, u[j]))
            != Order::Greater by {
            if j < p {
                assert(u[i] == t[i] && u[j] == t[j]);
            } else if j == p {
                assert(u[i] == t[i]);
            } else if i < p {
                assert(u[i] == t[i] && u[j] == t[j - 1]);
            } else if i == p {
                assert(u[j] == t[j - 1]);
                let a = str_of(cells, x);
                let b = str_of(cells, t[p]);
                let c = str_of(cells, t[j - 1]);
                assert(lex_order(a, b) == Order::Less);
                if j - 1 == p {
                    lemma_lex_refl(b);
                }
                assert(lex_order(b, c) != Order::Greater);
                lemma_lex_trans(a, b, c);
            } else {
                assert(u[i] == t[i - 1] && u[j] == t[j - 1]);
            }
        }
    }
}

/// Where an entry keyed by a string goes: the keys before it do not come
/// after its key, the key at the position comes after it.
proof fn lemma_pair_pos_strs(cells: Seq<ValueV>, t: Seq<(ValueV, ValueV)>, x: (ValueV, ValueV), i: int)
    requires
        0 <= i <= t.len(),
        is_str_value(cells, x.0),
        forall|k: int| 0 <= k < t.len() ==> is_str_value(cells, (#[trigger] t[k]).0),
    ensures
        i <= pair_pos(cells, t, x, i) <= t.len(),
        forall|k: int|
            i <= k < pair_pos(cells, t, x, i) ==> lex_order(str_of(cells, (#[trigger] t[k]).0), str_of(cells, x.0))
                != Order::Greater,
        pair_pos(cells, t, x, i) < t.len() ==> lex_order(
            str_of(cells, x.0),
            str_of(cells, t[pair_pos(cells, t, x, i)].0),
        ) == Order::Less,
    decreases t.len() - i,
{
    if i < t.len() {
        assert(is_str_value(cells, t[i].0));
        lemma_lex_flip(str_of(cells, x.0), str_of(cells, t[i].0));
        if !before(cells, x.0, t[i].0) {
            lemma_pair_pos_strs(cells, t, x, i + 1);
        }
    }
}

/// Sorting a dictionary whose keys are strings puts its entries in the
/// lexicographic order of their keys.
pub proof fn law_sort_str_keys_ordered(cells: Seq<ValueV>, s: Seq<(ValueV, ValueV)>)
    requires
        forall|k: int| 0 <= k < s.len() ==> is_str_value(cells, (#[trigger] s[k]).0),
    ensures
        forall|k: int| 0 <= k < sort_pairs(cells, s).len() ==> is_str_value(cells, (#[trigger] sort_pairs(cells, s)[k]).0),
        forall|i: int, j: int|
            0 <= i < j < sort_pairs(cells, s).len() ==> lex_order(
                str_of(cells, sort_pairs(cells, s)[i].0),
                str_of(cells, sort_pairs(cells, s)[j].0),
            ) != Order::Greater,
    decreases s.len(),
{
    if s.len() > 0 {
        let t = sort_pairs(cells, s.drop_last());
        let x = s.last();
        assert(is_str_value(cells, x.0));
        assert forall|k: int| 0 <= k < s.drop_last().len() implies is_str_value(cells, (#[trigger] s.drop_last()[k]).0) by {
            assert(s.drop_last()[k] == s[k]);
        }
        law_sort_str_keys_ordered(cells, s.drop_last());
        lemma_pair_pos_strs(cells, t, x, 0);
        let p = pair_pos(cells, t, x, 0);
        let u = t.insert(p, x);
        assert(u == sort_pairs(cells, s));
        assert forall|k: int| 0 <= k < u.len() implies is_str_value(cells, (#[trigger] u[k]).0) by {
            if k < p {
                assert(u[k] == t[k]);
            } else if k > p {
                assert(u[k] == t[k - 1]);
            }
        }
        assert forall|i: int, j: int| 0 <= i < j < u.len() implies lex_order(
            str_of(cells, u[i].0),
            str_of(cells, u[j].0),
        ) != Order::Greater by {
            if j < p {
                assert(u[i] == t[i] && u[j] == t[j]);
            } else if j == p {
                assert(u[i] == t[i]);
            } else if i < p {
                assert(u[i] == t[i] && u[j] == t[j - 1]);
            } else if i == p {
                assert(u[j] == t[j - 1]);
                let a = str_of(cells, x.0);
                let b = str_of(cells, t[p].0);
                let c = str_of(cells, t[j - 1].0);
                assert(lex_order(a, b) == Order::Less);
                if j - 1 == p {
                    lemma_lex_refl(b);
                }
                assert(lex_order(b, c) != Order::Greater);
                lemma_lex_trans(a, b, c);
            } else {
                assert(u[i] == t[i - 1] && u[j] == t[j - 1]);
            }
        }
    }
}

/// A scan of the code that ends, however many steps it is given, ends
/// within the budget of [scan_budget] as well, with the same marks: what
/// `postprocess` keeps is what a scan never cut short keeps (for codes of
/// fewer than 2^30 elements).
pub proof fn law_scan_within_budget(vp: Seq<bool>, code: Seq<LirV>, fuel: nat)
    requires
        vp.len() >= code.len(),
        code.len() < 0x4000_0000,
        scan_from(vp, code, 0, false, fuel).1 > 0,
    ensures
        scan_from(vp, code, 0, false, scan_budget(code.len())).1 > 0,
        scan_from(vp, code, 0, false, scan_budget(code.len())).0 == scan_from(vp, code, 0, false, fuel).0,
{
    let b = scan_budget(code.len());
    lemma_scan_ends_within_budget(vp, code, fuel);
    if fuel <= b {
        lemma_scan_more_steps(vp, code, 0, false, fuel, b);
    } else {
        lemma_scan_fewer_steps(vp, code, 0, false, fuel, b);
    }
}

/// Where an entry keyed by an integer goes: the keys before it are not
/// greater, the key at the position is greater.
proof fn lemma_pair_pos_ints(cells: Seq<ValueV>, t: Seq<(ValueV, ValueV)>, x: (ValueV, ValueV), i: int)
    requires
        0 <= i <= t.len(),
        is_int_value(cells, x.0),
        forall|k: int| 0 <= k < t.len() ==> is_int_value(cells, (#[trigger] t[k]).0),
    ensures
        i <= pair_pos(cells, t, x, i) <= t.len(),
        forall|k: int| i <= k < pair_pos(cells, t, x, i) ==> int_of(cells, (#[trigger] t[k]).0) <= int_of(cells, x.0),
        pair_pos(cells, t, x, i) < t.len() ==> int_of(cells, x.0) < int_of(cells, t[pair_pos(cells, t, x, i)].0),
    decreases t.len() - i,
{
    if i < t.len() {
        assert(is_int_value(cells, t[i].0));
        if !before(cells, x.0, t[i].0) {
            lemma_pair_pos_ints(cells, t, x, i + 1);
        }
    }
}

/// Sorting a dictionary whose keys are integers puts its entries in
/// ascending order of their keys.
pub proof fn law_sort_int_keys_ordered(cells: Seq<ValueV>, s: Seq<(ValueV, ValueV)>)
    requires
        forall|k: int| 0 <= k < s.len() ==> is_int_value(cells, (#[trigger] s[k]).0),
    ensures
        forall|k: int| 0 <= k < sort_pairs(cells, s).len() ==> is_int_value(cells, (#[trigger] sort_pairs(cells, s)[k]).0),
        forall|i: int, j: int|
            0 <= i < j < sort_pairs(cells, s).len() ==> int_of(cells, sort_pairs(cells, s)[i].0) <= int_of(
                cells,
                sort_pairs(cells, s)[j].0,
            ),
    decreases s.len(),
{
    if s.len() > 0 {
        let t = sort_pairs(cells, s.drop_last());
        let x = s.last();
        assert(is_int_value(cells, x.0));
        assert forall|k: int| 0 <= k < s.drop_last().len() implies is_int_value(cells, (#[trigger] s.drop_last()[k]).0) by {
            assert(s.drop_last()[k] == s[k]);
        }
        law_sort_int_keys_ordered(cells, s.drop_last());
        lemma_pair_pos_ints(cells, t, x, 0);
        let p = pair_pos(cells, t, x, 0);
        let u = t.insert(p, x);
        assert(u == sort_pairs(cells, s));
        assert forall|k: int| 0 <= k < u.len() implies is_int_value(cells, (#[trigger] u[k]).0) by {
            if k < p {
                assert(u[k] == t[k]);
            } else if k > p {
                assert(u[k] == t[k - 1]);
            }
        }
        assert forall|i: int, j: int| 0 <= i < j < u.len() implies int_of(cells, u[i].0) <= int_of(cells, u[j].0) by {
            if j < p {
                assert(u[i] == t[i] && u[j] == t[j]);
            } else if j == p {
                assert(u[i] == t[i]);
            } else if i < p {
                assert(u[i] == t[i] && u[j] == t[j - 1]);
            } else if i == p {
                assert(u[j] == t[j - 1]);
                assert(int_of(cells, t[p].0) <= int_of(cells, t[j - 1].0));
            } else {
                assert(u[i] == t[i - 1] && u[j] == t[j - 1]);
            }
        }
    }
}

/// A deep copy changes no existing cell, and from the copy only cells added
/// by the copy can be reached (for as many cells as a machine can hold): a
/// change made through the copy never reaches the value copied.
pub proof fn law_deep_clone_independent(cells: Seq<ValueV>, v: ValueV)
    ensures
        deep_clone_spec(cells, v, EQ_DEPTH as nat) matches Some((c, x)) ==> {
            &&& extends(cells, c)
            &&& c.len() <= usize::MAX ==> atom_from(x, cells.len() as int) && closed(c, cells.len() as int)
        },
{
    lemma_deep_fresh(cells, v, EQ_DEPTH as nat, cells.len() as int);
}

/// A deep copy equals the value copied: with every reference followed,
/// the copy reads as the same tree of nil, booleans, numbers, strings, lists,
/// dictionaries, iterators and handles as the value copied does (on heaps a
/// machine can hold, for values that read as a tree: every reference names a
/// cell, and every dictionary's keys can be followed and hold no two equal
/// keys). Each reference the copy adds is one more step to follow, so up to
/// three times the steps are allowed.
pub proof fn law_deep_clone_same_value(cells: Seq<ValueV>, v: ValueV, steps: nat)
    ensures
        deep_clone_spec(cells, v, EQ_DEPTH as nat) matches Some((c, x)) ==> (c.len() <= usize::MAX && tree(
            cells,
            v,
            steps,
        ) is Some ==> tree(c, x, 3 * steps) == tree(cells, v, steps)),
{
    lemma_clone_tree(cells, v, EQ_DEPTH as nat, steps);
}

/// The name of a request method is read without regard to ASCII case.
pub proof fn law_method_ignores_case(name: Seq<char>)
    ensures
        method_of(ascii_lowercase(name)) == method_of(name),
{
    assert forall|i: int| 0 <= i < name.len() implies ascii_lower(ascii_lower(#[trigger] name[i])) == ascii_lower(name[i]) by {
        let c = name[i];
        if 'A' <= c && c <= 'Z' {
            assert((c as u32) + 32 >= 'a' as u32);
        }
    }
    assert(ascii_lowercase(ascii_lowercase(name)) =~= ascii_lowercase(name));
}

/// Storing a function under a name and then another under the same name is
/// the same as storing only the second; after the first, the name finds the
/// function stored. So `add` and `add_with_args` replace what a name held,
/// and a second call of `entry` finds the function the first one made and
/// changes nothing else.
pub proof fn law_store_twice(hirs: Seq<(Variable, Hir)>, name: Variable, other: Variable, first: Hir, second: Hir)
    requires
        other@ == name@,
    ensures
        hir_find(hirs_with(hirs, name, first), name@) matches Some(j) && hirs_with(hirs, name, first)[j].1
            == first,
        hirs_with(hirs_with(hirs, name, first), other, second) == hirs_with(hirs, name, second),
{
    let h1 = hirs_with(hirs, name, first);
    lemma_hir_find(hirs, name@);
    lemma_hir_find(h1, name@);
    match hir_find(hirs, name@) {
        Some(i) => {
            assert(h1[i].0@ == name@);
            assert forall|j: int| 0 <= j < i implies h1[j].0@ != name@ by {
                assert(h1[j] == hirs[j]);
            }
            if hir_find(h1, name@) != Some(i) {
                let k = hir_find(h1, name@)->Some_0;
                if k < i {
                    assert(h1[k] == hirs[k]);
                }
            }
            assert(hirs_with(h1, other, second) =~= hirs_with(hirs, name, second));
        },
        None => {
            let n = hirs.len() as int;
            assert(h1[n].0@ == name@);
            assert forall|j: int| 0 <= j < n implies h1[j].0@ != name@ by {
                assert(h1[j] == hirs[j]);
            }
            if hir_find(h1, name@) != Some(n) {
                let k = hir_find(h1, name@)->Some_0;
                if k < n {
                    assert(h1[k] == hirs[k]);
                }
            }
            assert(hirs_with(h1, other, second) =~= hirs_with(hirs, name, second));
        },
    }
}

proof fn lemma_unpack(a: u8, b: u8, c: u8, d: u8)
    by (bit_vector)
    ensures
        ({
            let n = ((((((((0i64 << 8) | (a as i64)) << 8) | (b as i64)) << 8) | (c as i64)) << 8) | (d as i64));
            &&& ((n >> 24) & 0xff) as u8 == a
            &&& ((n >> 16) & 0xff) as u8 == b
            &&& ((n >> 8) & 0xff) as u8 == c
            &&& (n & 0xff) as u8 == d
        }),
        ({
            let n = ((((((0i64 << 8) | (a as i64)) << 8) | (b as i64)) << 8) | (c as i64));
            &&& ((n >> 24) & 0xff) as u8 == 0
            &&& ((n >> 16) & 0xff) as u8 == a
            &&& ((n >> 8) & 0xff) as u8 == b
            &&& (n & 0xff) as u8 == c
        }),
        ({
            let n = ((((0i64 << 8) | (a as i64)) << 8) | (b as i64));
            &&& ((n >> 24) & 0xff) as u8 == 0
            &&& ((n >> 16) & 0xff) as u8 == 0
            &&& ((n >> 8) & 0xff) as u8 == a
            &&& (n & 0xff) as u8 == b
        }),
        ({
            let n = ((0i64 << 8) | (a as i64));
            &&& ((n >> 24) & 0xff) as u8 == 0
            &&& ((n >> 16) & 0xff) as u8 == 0
            &&& ((n >> 8) & 0xff) as u8 == 0
            &&& (n & 0xff) as u8 == a
        }),
{
}

proof fn lemma_utf8_bytes_nonzero(s: u32)
    by (bit_vector)
    requires
        1 <= s <= 0x10FFFF,
    ensures
        s <= 0x7F ==> ((s & 0x7F) as u8) != 0,
        (0xC0u8 | ((s >> 6) & 0x1F) as u8) != 0,
        (0xE0u8 | ((s >> 12) & 0x0F) as u8) != 0,
        (0xF0u8 | ((s >> 18) & 0x7) as u8) != 0,
        (0x80u8 | (s & 0x3F) as u8) != 0,
        (0x80u8 | ((s >> 6) & 0x3F) as u8) != 0,
        (0x80u8 | ((s >> 12) & 0x3F) as u8) != 0,
{
}

/// `chr` gives back the character `ord` read: the bytes of a character
/// other than `\0`, read as a number, unpack to the same bytes, which are
/// UTF-8 and encode that character alone.
#[verifier::spinoff_prover]
#[verifier::rlimit(40)]
pub proof fn law_chr_ord(c: Seq<char>)
    requires
        c.len() == 1,
        c[0] != '\0',
    ensures
        chr_bytes(bytes_number(vstd::utf8::encode_utf8(c))) == vstd::utf8::encode_utf8(c),
        vstd::utf8::valid_utf8(chr_bytes(bytes_number(vstd::utf8::encode_utf8(c)))),
        forall|t: Seq<char>|
            vstd::utf8::encode_utf8(t) == chr_bytes(bytes_number(vstd::utf8::encode_utf8(c))) ==> t == c,
{
    broadcast use vstd::utf8::encode_utf8_valid_utf8, vstd::utf8::encode_utf8_decode_utf8;

    vstd::utf8::char_is_scalar(c[0]);
    let sc = c[0] as u32;
    vstd::utf8::char_u32_cast(c[0], sc);
    if sc == 0 {
        assert((0u32 as char) == '\0');
        assert(false);
    }
    lemma_utf8_bytes_nonzero(sc);
    let b = vstd::utf8::encode_utf8(c);
    assert(c.drop_first() =~= Seq::<char>::empty());
    assert(vstd::utf8::encode_utf8(c.drop_first()) =~= Seq::<u8>::empty());
    assert(b =~= vstd::utf8::encode_scalar(sc));
    let z = Seq::<u8>::empty();
    assert(nonzero(0) =~= z);
    assert(bytes_number(z) == 0);
    if vstd::utf8::has_width_1_encoding(sc) {
        let x = vstd::utf8::leading_byte_width_1(sc);
        assert(b =~= seq![x]);
        assert(b.drop_last() =~= z);
        let n = bytes_number(b);
        assert(n == ((0i64 << 8) | (x as i64)));
        lemma_unpack(x, 0, 0, 0);
        assert(nonzero(x) =~= seq![x]);
        assert(chr_bytes(n) =~= b);
    } else if vstd::utf8::has_width_2_encoding(sc) {
        let x = vstd::utf8::leading_byte_width_2(sc);
        let y = vstd::utf8::last_continuation_byte(sc);
        assert(b =~= seq![x, y]);
        assert(b.drop_last() =~= seq![x]);
        assert(seq![x].drop_last() =~= z);
        let n = bytes_number(b);
        assert(bytes_number(seq![x]) == ((0i64 << 8) | (x as i64)));
        assert(n == ((((0i64 << 8) | (x as i64)) << 8) | (y as i64)));
        lemma_unpack(x, y, 0, 0);
        assert(nonzero(x) =~= seq![x] && nonzero(y) =~= seq![y]);
        assert(chr_bytes(n) =~= b);
    } else if vstd::utf8::has_width_3_encoding(sc) {
        let x = vstd::utf8::leading_byte_width_3(sc);
        let y = vstd::utf8::second_last_continuation_byte(sc);
        let w = vstd::utf8::last_continuation_byte(sc);
        assert(b =~= seq![x, y, w]);
        assert(b.drop_last() =~= seq![x, y]);
        assert(seq![x, y].drop_last() =~= seq![x]);
        assert(seq![x].drop_last() =~= z);
        let n = bytes_number(b);
        assert(bytes_number(seq![x]) == ((0i64 << 8) | (x as i64)));
        assert(bytes_number(seq![x, y]) == ((((0i64 << 8) | (x as i64)) << 8) | (y as i64)));
        assert(n == ((((((0i64 << 8) | (x as i64)) << 8) | (y as i64)) << 8) | (w as i64)));
        lemma_unpack(x, y, w, 0);
        assert(nonzero(x) =~= seq![x] && nonzero(y) =~= seq![y] && nonzero(w) =~= seq![w]);
        assert(chr_bytes(n) =~= b);
    } else {
        let x = vstd::utf8::leading_byte_width_4(sc);
        let y = vstd::utf8::third_last_continuation_byte(sc);
        let w = vstd::utf8::second_last_continuation_byte(sc);
        let v = vstd::utf8::last_continuation_byte(sc);
        assert(b =~= seq![x, y, w, v]);
        assert(b.drop_last() =~= seq![x, y, w]);
        assert(seq![x, y, w].drop_last() =~= seq![x, y]);
        assert(seq![x, y].drop_last() =~= seq![x]);
        assert(seq![x].drop_last() =~= z);
        let n = bytes_number(b);
        assert(bytes_number(seq![x]) == ((0i64 << 8) | (x as i64)));
        assert(bytes_number(seq![x, y]) == ((((0i64 << 8) | (x as i64)) << 8) | (y as i64)));
        assert(bytes_number(seq![x, y, w]) == ((((((0i64 << 8) | (x as i64)) << 8) | (y as i64)) << 8) | (w as i64)));
        assert(n == ((((((((0i64 << 8) | (x as i64)) << 8) | (y as i64)) << 8) | (w as i64)) << 8) | (v as i64)));
        lemma_unpack(x, y, w, v);
        assert(nonzero(x) =~= seq![x] && nonzero(y) =~= seq![y] && nonzero(w) =~= seq![w] && nonzero(v) =~= seq![v]);
        assert(chr_bytes(n) =~= b);
    }
    assert forall|t: Seq<char>| vstd::utf8::encode_utf8(t) == chr_bytes(bytes_number(b)) implies t == c by {
        assert(vstd::utf8::decode_utf8(vstd::utf8::encode_utf8(t)) == t);
        assert(vstd::utf8::decode_utf8(vstd::utf8::encode_utf8(c)) == c);
    }
}

/// Storing under a name replaces an existing slot of that name in its place
/// or appends a new one: the slots grow by one exactly when the name was
/// missing, and the name then finds the callable stored.
pub proof fn law_slot_insert_count(s: Seq<(Variable, Callable)>, k: Variable, v: Callable)
    ensures
        slot_insert(s, k, v).len() == s.len() + (if slot_find(s, k@) is None { 1int } else { 0int }),
        slot_get(slot_insert(s, k, v), k@) == Some(v),
        forall|o: Seq<char>| o != k@ ==> slot_get(slot_insert(s, k, v), o) == slot_get(s, o),
{
    lemma_slot_find_facts(s, k@);
    crate::module::slots::law_slot_get_insert(s, k, v);
    assert forall|o: Seq<char>| o != k@ implies slot_get(slot_insert(s, k, v), o) == slot_get(s, o) by {
        crate::module::slots::law_slot_get_insert_other(s, k, v, o);
    }
}

/// Storing twice under the same name is storing once with the second
/// callable.
pub proof fn law_slot_insert_twice(s: Seq<(Variable, Callable)>, k: Variable, k2: Variable, v1: Callable, v2: Callable)
    requires
        k2@ == k@,
    ensures
        slot_insert(slot_insert(s, k, v1), k2, v2) == slot_insert(s, k, v2),
{
    let t = slot_insert(s, k, v1);
    lemma_slot_find_facts(s, k@);
    lemma_slot_find_facts(t, k@);
    match slot_find(s, k@) {
        Some(i) => {
            assert(t[i].0@ == k@);
            if slot_find(t, k@) != Some(i) {
                let j = slot_find(t, k@)->Some_0;
                if j < i {
                    assert(t[j] == s[j]);
                }
            }
            assert(slot_insert(t, k2, v2) =~= slot_insert(s, k, v2));
        },
        None => {
            let n = s.len() as int;
            assert(t[n].0@ == k@);
            if slot_find(t, k@) != Some(n) {
                let j = slot_find(t, k@)->Some_0;
                if j < n {
                    assert(t[j] == s[j]);
                }
            }
            assert(slot_insert(t, k2, v2) =~= slot_insert(s, k, v2));
        },
    }
}

/// What a function body shows: its parameter names and its code.
pub open spec fn hir_view(h: Hir) -> (Seq<Seq<char>>, Seq<Instruction>) {
    (var_names(h.args@), h.code@)
}

/// The functions by name, as their bodies show them.
pub open spec fn hirs_view(hirs: Seq<(Variable, Hir)>) -> Seq<(Seq<char>, (Seq<Seq<char>>, Seq<Instruction>))> {
    hirs.map_values(|p: (Variable, Hir)| (p.0@, hir_view(p.1)))
}

/// `add(name)` is `add_with_args(name, [])`: both hand out a body without
/// parameters and without code, and store it under the name the same way,
/// so the functions look the same after either.
pub proof fn law_add_is_add_without_args(hirs: Seq<(Variable, Hir)>, name: Variable, a: Hir, b: Hir)
    requires
        a.args@.len() == 0,
        a.code@.len() == 0,
        b.args@ == Seq::<Variable>::empty(),
        b.code@.len() == 0,
    ensures
        hir_view(a) == hir_view(b),
        hirs_view(hirs_with(hirs, name, a)) == hirs_view(hirs_with(hirs, name, b)),
{
    assert(var_names(a.args@) =~= var_names(b.args@));
    assert(a.code@ =~= b.code@);
    lemma_hir_find(hirs, name@);
    let ha = hirs_with(hirs, name, a);
    let hb = hirs_with(hirs, name, b);
    assert(ha.len() == hb.len());
    assert forall|j: int| 0 <= j < ha.len() implies hirs_view(ha)[j] == hirs_view(hb)[j] by {
        assert(ha[j].0 == hb[j].0);
        if ha[j].1 != hb[j].1 {
            assert(ha[j].1 == a && hb[j].1 == b);
        }
    }
    assert(hirs_view(ha) =~= hirs_view(hb));
}


/// The items of a list, or of a reference to one, between two positions
/// within it are the list's items there, in order.
proof fn lemma_slice_items_list(cells: Seq<ValueV>, target: ValueV, l: Seq<ValueV>, f: i64, t: i64)
    requires
        target is List || target is Ref,
        resolve(cells, target) == Some(ValueV::List(l)),
        0 <= f <= t <= l.len(),
        l.len() <= usize::MAX,
    ensures
        slice_items(cells, target, f, t) == Ok::<Seq<ValueV>, crate::error::ErrorV>(l.subrange(f as int, t as int)),
    decreases t - f,
{
    if f < t {
        lemma_slice_items_list(cells, target, l, (f + 1) as i64, t);
        assert(get_spec(cells, target, ValueV::Int(f)) == Ok::<ValueV, crate::error::ErrorV>(l[f as int]));
        assert(seq![l[f as int]] + l.subrange(f + 1, t as int) =~= l.subrange(f as int, t as int));
    } else {
        assert(l.subrange(f as int, t as int) =~= Seq::<ValueV>::empty());
    }
}

/// Slicing a list, or a reference to one, gives a new list of its items
/// from the start bound up to the end bound, in order, in a new cell: a
/// `Nil` start stands for the first position and a `Nil` end for the length,
/// so `l[:e]` holds the first `e` items and `l[s:]` all from position `s` on.
pub proof fn law_slice_list(cells: Seq<ValueV>, target: ValueV, l: Seq<ValueV>, start: ValueV, end: ValueV)
    requires
        target is List || target is Ref,
        resolve(cells, target) == Some(ValueV::List(l)),
        l.len() <= usize::MAX,
        l.len() <= i64::MAX,
        start is Nil || start is Int,
        end is Nil || end is Int,
        ({
            let lo: int = if start is Nil { 0 } else { start->Int_0 as int };
            let hi: int = if end is Nil { l.len() as int } else { end->Int_0 as int };
            0 <= lo <= hi <= l.len()
        }),
    ensures
        ({
            let lo: int = if start is Nil { 0 } else { start->Int_0 as int };
            let hi: int = if end is Nil { l.len() as int } else { end->Int_0 as int };
            let (c2, r) = box_spec(cells, ValueV::List(l.subrange(lo, hi)));
            create_slice_spec(cells, target, start, end) == (c2, Ok::<ValueV, crate::error::ErrorV>(r))
        }),
{
    let lo: int = if start is Nil { 0 } else { start->Int_0 as int };
    let hi: int = if end is Nil { l.len() as int } else { end->Int_0 as int };
    assert(((l.len() as usize) as i64) as int == l.len());
    lemma_slice_items_list(cells, target, l, lo as i64, hi as i64);
}

/// Whether the comparing operator `op` holds between the integers `a` and
/// `b`.
pub open spec fn int_order_holds(op: Operator2, a: i64, b: i64) -> bool {
    match op {
        Operator2::LessThan => a < b,
        Operator2::LessEqual => a <= b,
        Operator2::GreaterThan => a > b,
        Operator2::GreaterEqual => a >= b,
        Operator2::Equal => a == b,
        _ => a != b,
    }
}

/// Folding a comparison of two integer constants leaves the one constant
/// that says whether the comparison holds for them.
pub proof fn law_fold_int_comparison(op: Operator2, a: i64, b: i64)
    requires
        op is LessThan || op is LessEqual || op is GreaterThan || op is GreaterEqual || op is Equal || op is NotEqual,
    ensures
        transform_spec(
            seq![
                LirV::PushConstant { value: ValueV::Int(a) },
                LirV::PushConstant { value: ValueV::Int(b) },
                LirV::Operation(Operator::Operator2(op)),
            ],
        ) == seq![LirV::PushConstant { value: ValueV::Bool(int_order_holds(op, a, b)) }],
{
    let code = seq![
        LirV::PushConstant { value: ValueV::Int(a) },
        LirV::PushConstant { value: ValueV::Int(b) },
        LirV::Operation(Operator::Operator2(op)),
    ];
    let folded = seq![LirV::PushConstant { value: ValueV::Bool(int_order_holds(op, a, b)) }];
    assert(code.take(0).push(folded[0]) =~= folded);
    assert(rewrite(code) == Some(folded));
    assert(rewrite(folded) is None);
    assert(transform_spec(folded) == folded);
}

/// Items of two equally long lists compare equal from position `i` on
/// exactly when each pair of items there does.
proof fn lemma_list_eq_items(cells: Seq<ValueV>, x: Seq<ValueV>, y: Seq<ValueV>, i: int, fuel: nat)
    requires
        x.len() == y.len(),
        0 <= i <= x.len(),
    ensures
        (list_eq(cells, x, y, i, fuel) == Some(true)) == (forall|k: int|
            i <= k < x.len() ==> value_eq(cells, #[trigger] x[k], y[k], fuel) == Some(true)),
        (forall|k: int| i <= k < x.len() ==> value_eq(cells, #[trigger] x[k], y[k], fuel) is Some) ==> list_eq(
            cells,
            x,
            y,
            i,
            fuel,
        ) is Some,
    decreases x.len() - i,
{
    if i < x.len() {
        lemma_list_eq_items(cells, x, y, i + 1, fuel);
    }
}

/// Two lists are equal exactly when they are equally long and the items at
/// every position are equal; where every pair of items can be compared, so
/// can the lists.
pub proof fn law_list_equality(cells: Seq<ValueV>, x: Seq<ValueV>, y: Seq<ValueV>, fuel: nat)
    ensures
        (value_eq(cells, ValueV::List(x), ValueV::List(y), fuel + 1) == Some(true)) == (x.len() == y.len() && forall|
            k: int,
        | 0 <= k < x.len() ==> value_eq(cells, #[trigger] x[k], y[k], fuel) == Some(true)),
        x.len() != y.len() ==> value_eq(cells, ValueV::List(x), ValueV::List(y), fuel + 1) == Some(false),
        (x.len() == y.len() && forall|k: int| 0 <= k < x.len() ==> value_eq(cells, #[trigger] x[k], y[k], fuel) is Some)
            ==> value_eq(cells, ValueV::List(x), ValueV::List(y), fuel + 1) is Some,
{
    if x.len() == y.len() {
        lemma_list_eq_items(cells, x, y, 0, fuel);
    }
}

/// Deleting position `n` of a list keeps the items before and after it, in
/// order; deleting through a reference changes only the list's cell.
pub proof fn law_delete_list(cells: Seq<ValueV>, l: Seq<ValueV>, n: i64, r: Option<usize>)
    requires
        0 <= n < l.len(),
        l.len() <= usize::MAX,
    ensures
        delete_spec(cells, ValueV::List(l), ValueV::Int(n)) == (
            cells,
            ValueV::List(l.take(n as int) + l.skip(n + 1)),
            Ok::<(), crate::error::ErrorV>(()),
        ),
        (deref_cell(cells, r) matches Some(i) && cells[i] == ValueV::List(l)) ==> delete_spec(
            cells,
            ValueV::Ref(r),
            ValueV::Int(n),
        ) == (
            cells.update(deref_cell(cells, r)->Some_0, ValueV::List(l.take(n as int) + l.skip(n + 1))),
            ValueV::Ref(r),
            Ok::<(), crate::error::ErrorV>(()),
        ),
{
    assert(l.remove(n as int) =~= l.take(n as int) + l.skip(n + 1));
}

/// Running an iterator over a list that stands at position `j` and runs
/// backwards yields the items from `j` down to the first.
proof fn lemma_collect_list_down(cells: Seq<ValueV>, v: ValueV, l: Seq<ValueV>, j: i64)
    requires
        v is List || v is Ref,
        resolve(cells, v) == Some(ValueV::List(l)),
        -1 <= j < l.len(),
        l.len() < i64::MAX,
        l.len() <= usize::MAX,
    ensures
        collect_spec(cells, IterV { current: j, reversed: true, ty: IterKindV::Over(v) }) == (
            cells,
            l.take(j + 1).reverse(),
        ),
    decreases j + 1,
{
    let it = IterV { current: j, reversed: true, ty: IterKindV::Over(v) };
    if j < 0 {
        assert(l.take(j + 1).reverse() =~= Seq::<ValueV>::empty());
        assert(has_next_spec(cells, it) == (cells, false));
    } else {
        lemma_collect_list_down(cells, v, l, (j - 1) as i64);
        assert(has_next_spec(cells, it) == (cells, true));
        assert(next_spec(cells, it) == (
            cells,
            IterV { current: (j - 1) as i64, reversed: true, ty: IterKindV::Over(v) },
            Ok::<ValueV, crate::error::ErrorV>(l[j as int]),
        ));
        assert(seq![l[j as int]] + l.take(j as int).reverse() =~= l.take(j + 1).reverse());
    }
}

/// Running an iterator over a list that stands at position `j` and runs
/// forwards yields the items from `j` to the last.
proof fn lemma_collect_list_up(cells: Seq<ValueV>, v: ValueV, l: Seq<ValueV>, j: i64)
    requires
        v is List || v is Ref,
        resolve(cells, v) == Some(ValueV::List(l)),
        0 <= j <= l.len(),
        l.len() < i64::MAX,
        l.len() <= usize::MAX,
    ensures
        collect_spec(cells, IterV { current: j, reversed: false, ty: IterKindV::Over(v) }) == (
            cells,
            l.skip(j as int),
        ),
    decreases l.len() - j,
{
    let it = IterV { current: j, reversed: false, ty: IterKindV::Over(v) };
    if j >= l.len() {
        assert(l.skip(j as int) =~= Seq::<ValueV>::empty());
        assert(has_next_spec(cells, it) == (cells, false));
    } else {
        lemma_collect_list_up(cells, v, l, (j + 1) as i64);
        assert(has_next_spec(cells, it) == (cells, true));
        assert(next_spec(cells, it) == (
            cells,
            IterV { current: (j + 1) as i64, reversed: false, ty: IterKindV::Over(v) },
            Ok::<ValueV, crate::error::ErrorV>(l[j as int]),
        ));
        assert(seq![l[j as int]] + l.skip(j + 1) =~= l.skip(j as int));
    }
}

/// An iterator over a list, or a reference to one, yields its items in
/// order, and reversed it yields all of them in reverse order.
pub proof fn law_list_iteration(cells: Seq<ValueV>, v: ValueV, l: Seq<ValueV>)
    requires
        v is List || v is Ref,
        resolve(cells, v) == Some(ValueV::List(l)),
        l.len() < i64::MAX,
        l.len() <= usize::MAX,
    ensures
        collect_spec(cells, IterV { current: 0, reversed: false, ty: IterKindV::Over(v) }).1 == l,
        reverse_ok(cells, IterV { current: 0, reversed: false, ty: IterKindV::Over(v) }),
        collect_spec(
            cells,
            reverse_spec(cells, IterV { current: 0, reversed: false, ty: IterKindV::Over(v) }),
        ).1 == l.reverse(),
{
    lemma_collect_list_up(cells, v, l, 0);
    assert(l.skip(0) =~= l);
    let it = IterV { current: 0, reversed: false, ty: IterKindV::Over(v) };
    let r = reverse_spec(cells, it);
    assert(((l.len() as usize) as i64) as int == l.len());
    assert(r == IterV { current: (l.len() - 1) as i64, reversed: true, ty: IterKindV::Over(v) });
    lemma_collect_list_down(cells, v, l, (l.len() - 1) as i64);
    assert(l.take(l.len() as int) =~= l);
}


/// The exact result of adding, subtracting or multiplying two integers.
pub open spec fn int_arith_result(op: Operator2, a: i64, b: i64) -> int {
    match op {
        Operator2::Add => a + b,
        Operator2::Sub => a - b,
        _ => a * b,
    }
}

/// Folding an addition, subtraction or multiplication of two integer
/// constants whose exact result fits in 64 bits leaves that result as the
/// one constant.
pub proof fn law_fold_int_arith(op: Operator2, a: i64, b: i64)
    requires
        op is Add || op is Sub || op is Mul,
        i64::MIN <= int_arith_result(op, a, b) <= i64::MAX,
    ensures
        transform_spec(
            seq![
                LirV::PushConstant { value: ValueV::Int(a) },
                LirV::PushConstant { value: ValueV::Int(b) },
                LirV::Operation(Operator::Operator2(op)),
            ],
        ) == seq![LirV::PushConstant { value: ValueV::Int(int_arith_result(op, a, b) as i64) }],
{
    let code = seq![
        LirV::PushConstant { value: ValueV::Int(a) },
        LirV::PushConstant { value: ValueV::Int(b) },
        LirV::Operation(Operator::Operator2(op)),
    ];
    let folded = seq![LirV::PushConstant { value: ValueV::Int(int_arith_result(op, a, b) as i64) }];
    assert(code.take(0).push(folded[0]) =~= folded);
    assert(rewrite(code) == Some(folded));
    assert(rewrite(folded) is None);
    assert(transform_spec(folded) == folded);
}

} // verus!
