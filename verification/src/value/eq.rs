//! Equality of values.

use vstd::prelude::*;

use super::data::dict_find;
use super::heap::{deref_cell, Heap};
use super::{view_pairs, view_values, Value, ValueV};

verus! {

broadcast use super::group_value_views;

/// Bits of the exponent of a 64 bit float.
pub open spec fn exponent_bits() -> u64 {
    0x7ff0_0000_0000_0000u64
}

/// Bits of the fraction of a 64 bit float.
pub open spec fn fraction_bits() -> u64 {
    0x000f_ffff_ffff_ffffu64
}

/// Whether the bit pattern is a NaN.
pub open spec fn float_is_nan(b: u64) -> bool {
    (b & exponent_bits()) == exponent_bits() && (b & fraction_bits()) != 0
}

/// IEEE-754 equality of two 64 bit floats given by their bit patterns: NaN
/// equals nothing, the two zeros are equal, other floats are equal when
/// their bits are.
pub open spec fn float_eq(a: u64, b: u64) -> bool {
    &&& !float_is_nan(a)
    &&& !float_is_nan(b)
    &&& (a == b || ((a & 0x7fff_ffff_ffff_ffffu64) == 0 && (b & 0x7fff_ffff_ffff_ffffu64) == 0))
}

/// Equality of two values, following references. Lists are equal item by
/// item; dictionaries are equal when they have the same number of entries
/// and every entry of the first is found under its key in the second with
/// an equal value; handles are equal when their objects have the same type.
/// `fuel` bounds how deep the comparison may nest; `None` when it runs out.
pub open spec fn value_eq(cells: Seq<ValueV>, a: ValueV, b: ValueV, fuel: nat) -> Option<bool>
    decreases fuel, 0int, 0int,
{
    if fuel == 0 {
        None
    } else {
        match (a, b) {
            (ValueV::Ref(r), _) => match deref_cell(cells, r) {
                Some(i) => value_eq(cells, cells[i], b, (fuel - 1) as nat),
                None => Some(false),
            },
            (_, ValueV::Ref(r)) => match deref_cell(cells, r) {
                Some(i) => value_eq(cells, cells[i], a, (fuel - 1) as nat),
                None => Some(false),
            },
            (ValueV::Nil, ValueV::Nil) => Some(true),
            (ValueV::Bool(x), ValueV::Bool(y)) => Some(x == y),
            (ValueV::Int(x), ValueV::Int(y)) => Some(x == y),
            (ValueV::Float(x), ValueV::Float(y)) => Some(float_eq(x, y)),
            (ValueV::Str(x), ValueV::Str(y)) => Some(x == y),
            (ValueV::List(x), ValueV::List(y)) => if x.len() != y.len() {
                Some(false)
            } else {
                list_eq(cells, x, y, 0, (fuel - 1) as nat)
            },
            (ValueV::Dict(x), ValueV::Dict(y)) => if x.len() != y.len() {
                Some(false)
            } else {
                dict_eq(cells, x, y, 0, (fuel - 1) as nat)
            },
            (ValueV::Any(h), ValueV::Any(g)) => Some(h.kind == g.kind),
            _ => Some(false),
        }
    }
}

/// Equality of the items of two lists of equal length from position `i` on.
pub open spec fn list_eq(cells: Seq<ValueV>, x: Seq<ValueV>, y: Seq<ValueV>, i: int, fuel: nat) -> Option<bool>
    decreases fuel, 1int, x.len() - i,
{
    if i < 0 || i >= x.len() || i >= y.len() {
        Some(true)
    } else {
        match value_eq(cells, x[i], y[i], fuel) {
            Some(true) => list_eq(cells, x, y, i + 1, fuel),
            other => other,
        }
    }
}

/// Whether every entry of `x` from position `i` on is found in `y` with an
/// equal value.
pub open spec fn dict_eq(
    cells: Seq<ValueV>,
    x: Seq<(ValueV, ValueV)>,
    y: Seq<(ValueV, ValueV)>,
    i: int,
    fuel: nat,
) -> Option<bool>
    decreases fuel, 1int, x.len() - i,
{
    if i < 0 || i >= x.len() {
        Some(true)
    } else {
        match dict_find(cells, y, x[i].0) {
            None => Some(false),
            Some(j) => if 0 <= j < y.len() {
                match value_eq(cells, x[i].1, y[j].1, fuel) {
                    Some(true) => dict_eq(cells, x, y, i + 1, fuel),
                    other => other,
                }
            } else {
                Some(false)
            },
        }
    }
}

/// How deep a comparison made by the machine may nest.
pub const EQ_DEPTH: u64 = 10000;

/// Exec counterpart of [float_eq].
pub fn float_equal(a: u64, b: u64) -> (r: bool)
    ensures
        r == float_eq(a, b),
{
    let nan_a = (a & 0x7ff0_0000_0000_0000u64) == 0x7ff0_0000_0000_0000u64 && (a & 0x000f_ffff_ffff_ffffu64) != 0;
    let nan_b = (b & 0x7ff0_0000_0000_0000u64) == 0x7ff0_0000_0000_0000u64 && (b & 0x000f_ffff_ffff_ffffu64) != 0;
    !nan_a && !nan_b && (a == b || ((a & 0x7fff_ffff_ffff_ffffu64) == 0 && (b & 0x7fff_ffff_ffff_ffffu64) == 0))
}

impl Value {
    /// Compare two values for equality, nesting at most `fuel` levels deep.
    pub fn equals(&self, heap: &Heap, other: &Value, fuel: u64) -> (r: Option<bool>)
        ensures
            r == value_eq(heap.cells_v(), self@, other@, fuel as nat),
        decreases fuel,
    {
        if fuel == 0 {
            return None;
        }
        match (self, other) {
            (Value::Ref(r), _) => match heap.deref_index(r) {
                Some(i) => heap.cells[i].equals(heap, other, fuel - 1),
                None => Some(false),
            },
            (_, Value::Ref(r)) => match heap.deref_index(r) {
                Some(i) => heap.cells[i].equals(heap, self, fuel - 1),
                None => Some(false),
            },
            (Value::Nil, Value::Nil) => Some(true),
            (Value::Bool(x), Value::Bool(y)) => Some(*x == *y),
            (Value::Int(x), Value::Int(y)) => Some(*x == *y),
            (Value::Float(x), Value::Float(y)) => Some(float_equal(*x, *y)),
            (Value::Str(x), Value::Str(y)) => Some(*x == *y),
            (Value::List(x), Value::List(y)) => {
                assert(self@ == ValueV::List(view_values(x@)));
                assert(other@ == ValueV::List(view_values(y@)));
                if x.len() != y.len() {
                    return Some(false);
                }
                let ghost xv = view_values(x@);
                let ghost yv = view_values(y@);
                let mut i: usize = 0;
                while i < x.len()
                    invariant
                        i <= x@.len(),
                        x@.len() == y@.len(),
                        fuel > 0,
                        xv == view_values(x@),
                        yv == view_values(y@),
                        value_eq(heap.cells_v(), self@, other@, fuel as nat) == list_eq(
                            heap.cells_v(),
                            xv,
                            yv,
                            0,
                            (fuel - 1) as nat,
                        ),
                        list_eq(heap.cells_v(), xv, yv, 0, (fuel - 1) as nat) == list_eq(
                            heap.cells_v(),
                            xv,
                            yv,
                            i as int,
                            (fuel - 1) as nat,
                        ),
                    decreases x@.len() - i,
                {
                    assert(xv[i as int] == x@[i as int]@ && yv[i as int] == y@[i as int]@);
                    match x[i].equals(heap, &y[i], fuel - 1) {
                        Some(true) => {},
                        other => {
                            return other;
                        },
                    }
                    i += 1;
                }
                Some(true)
            },
            (Value::Dict(x), Value::Dict(y)) => {
                assert(self@ == ValueV::Dict(view_pairs(x@)));
                assert(other@ == ValueV::Dict(view_pairs(y@)));
                if x.len() != y.len() {
                    return Some(false);
                }
                let ghost xv = view_pairs(x@);
                let ghost yv = view_pairs(y@);
                let mut i: usize = 0;
                while i < x.len()
                    invariant
                        i <= x@.len(),
                        x@.len() == y@.len(),
                        fuel > 0,
                        xv == view_pairs(x@),
                        yv == view_pairs(y@),
                        value_eq(heap.cells_v(), self@, other@, fuel as nat) == dict_eq(
                            heap.cells_v(),
                            xv,
                            yv,
                            0,
                            (fuel - 1) as nat,
                        ),
                        dict_eq(heap.cells_v(), xv, yv, 0, (fuel - 1) as nat) == dict_eq(
                            heap.cells_v(),
                            xv,
                            yv,
                            i as int,
                            (fuel - 1) as nat,
                        ),
                    decreases x@.len() - i,
                {
                    assert(xv[i as int].0 == x@[i as int].0@ && xv[i as int].1 == x@[i as int].1@);
                    match heap.dict_find(y, &x[i].0) {
                        None => {
                            return Some(false);
                        },
                        Some(j) => match {
                            assert(yv[j as int].1 == y@[j as int].1@);
                            x[i].1.equals(heap, &y[j].1, fuel - 1)
                        } {
                            Some(true) => {},
                            other => {
                                return other;
                            },
                        },
                    }
                    i += 1;
                }
                Some(true)
            },
            (Value::Any(h), Value::Any(g)) => Some(h.kind == g.kind),
            _ => Some(false),
        }
    }
}

} // verus!
