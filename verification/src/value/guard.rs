//! Checks whether an operation on values can run without a panic.

use vstd::prelude::*;

use super::conv::{as_int_v, is_float_v};
use super::data::{get_ok, hashable, lookup_ok, update_ok, boxed_arg};
use super::heap::{chain_visits, deref_cell, resolve, shares_cell, visits, Heap};
use super::op::{arith_ok, compare_ok, fits_i64, float_operands, int_pow, pow_ok, Arith};
use super::{view_pairs, view_values, Value, ValueV};

verus! {

broadcast use super::group_value_views;

impl Heap {
    /// The value `v` stands for: itself, or the content of the cell its
    /// reference chain ends at.
    pub fn resolve_value<'a>(&'a self, v: &'a Value) -> (r: Option<&'a Value>)
        ensures
            match r {
                Some(x) => resolve(self.cells_v(), v@) == Some(x@),
                None => resolve(self.cells_v(), v@) is None,
            },
    {
        match v {
            Value::Ref(r) => match self.deref_index(r) {
                Some(i) => Some(&self.cells[i]),
                None => None,
            },
            _ => Some(v),
        }
    }

    /// Whether `v` stands for a float.
    pub fn is_float(&self, v: &Value) -> (r: bool)
        ensures
            r == is_float_v(self.cells_v(), v@),
    {
        match self.resolve_value(v) {
            Some(Value::Float(_)) => true,
            _ => false,
        }
    }

    /// Whether `v` can be hashed as a dictionary key.
    pub fn hashable(&self, v: &Value) -> (r: bool)
        ensures
            r == hashable(self.cells_v(), v@),
    {
        match self.resolve_value(v) {
            Some(Value::Bool(_)) | Some(Value::Int(_)) | Some(Value::Str(_)) => true,
            _ => false,
        }
    }

    /// Whether the reference chains of `a` and `b` share a cell.
    pub fn shares(&self, a: &Value, b: &Value) -> (r: bool)
        ensures
            r == shares_cell(self.cells_v(), a@, b@),
    {
        let ra = match a {
            Value::Ref(r) => r,
            _ => {
                return false;
            },
        };
        let rb = match b {
            Value::Ref(r) => r,
            _ => {
                assert forall|k: int| !visits(self.cells_v(), b@, k) by {}
                return false;
            },
        };
        let ghost cells = self.cells_v();
        let mut cur: usize = match ra.0 {
            Some(i) => i,
            None => {
                return false;
            },
        };
        proof {
            if shares_cell(cells, a@, b@) {
                let k = choose|k: int| visits(cells, a@, k) && visits(cells, b@, k);
                assert(chain_visits(cells, Some(cur), k) && chain_visits(cells, rb@, k));
            } else {
                assert forall|k: int| !(chain_visits(cells, Some(cur), k) && #[trigger] chain_visits(cells, rb@, k)) by {
                    if chain_visits(cells, Some(cur), k) && chain_visits(cells, rb@, k) {
                        assert(visits(cells, a@, k) && visits(cells, b@, k));
                    }
                }
            }
        }
        loop
            invariant
                cells == self.cells_v(),
                a@ == ValueV::Ref(ra@),
                b@ == ValueV::Ref(rb@),
                shares_cell(cells, a@, b@) == exists|k: int|
                    chain_visits(cells, Some(cur), k) && #[trigger] chain_visits(cells, rb@, k),
            decreases cur,
        {
            if self.chain_passes(rb, cur) {
                assert(chain_visits(cells, Some(cur), cur as int));
                return true;
            }
            if cur >= self.cells.len() {
                assert forall|k: int| chain_visits(cells, Some(cur), k) implies k == cur by {}
                return false;
            }
            assert(cells[cur as int] == self.cells@[cur as int]@);
            match &self.cells[cur] {
                Value::Ref(super::Reference(Some(j))) => {
                    if *j < cur {
                        assert forall|k: int| chain_visits(cells, Some(cur), k) == (k == cur || chain_visits(cells, Some(*j), k)) by {}
                        cur = *j;
                    } else {
                        assert forall|k: int| chain_visits(cells, Some(cur), k) implies k == cur by {}
                        return false;
                    }
                },
                _ => {
                    assert forall|k: int| chain_visits(cells, Some(cur), k) implies k == cur by {}
                    return false;
                },
            }
        }
    }

    /// Whether looking `key` up in `target` runs without a panic.
    pub fn get_allowed(&self, target: &Value, key: &Value) -> (r: bool)
        ensures
            r == get_ok(self.cells_v(), target@, key@),
    {
        match self.resolve_value(target) {
            Some(Value::Dict(d)) => {
                assert(resolve(self.cells_v(), target@) == Some(ValueV::Dict(view_pairs(d@))));
                d.len() == 0 || self.hashable(key)
            },
            Some(Value::Str(_)) | Some(Value::List(_)) => !self.is_float(key),
            _ => true,
        }
    }

    /// Whether storing under `key` in `target` runs without a panic; with
    /// `appending` a list may grow by one.
    pub fn update_allowed(&self, target: &Value, key: &Value, appending: bool) -> (r: bool)
        ensures
            r == update_ok(self.cells_v(), target@, key@, appending),
    {
        let is_ref = target.is_ref();
        match self.resolve_value(target) {
            Some(Value::Dict(d)) => {
                let ghost dv = view_pairs(d@);
                assert(resolve(self.cells_v(), target@) == Some(ValueV::Dict(dv)));
                if (appending || d.len() > 0) && !self.hashable(key) {
                    return false;
                }
                if is_ref {
                    if self.shares(target, key) {
                        return false;
                    }
                    let mut j: usize = 0;
                    while j < d.len()
                        invariant
                            j <= d@.len(),
                            dv == view_pairs(d@),
                            resolve(self.cells_v(), target@) == Some(ValueV::Dict(dv)),
                            target@ is Ref,
                            forall|m: int| 0 <= m < j ==> !shares_cell(self.cells_v(), target@, #[trigger] dv[m].0),
                        decreases d@.len() - j,
                    {
                        assert(dv[j as int].0 == d@[j as int].0@);
                        if self.shares(target, &d[j].0) {
                            assert(shares_cell(self.cells_v(), target@, dv[j as int].0));
                            return false;
                        }
                        j += 1;
                    }
                }
                true
            },
            Some(Value::List(l)) => {
                assert(resolve(self.cells_v(), target@) == Some(ValueV::List(view_values(l@))));
                if self.is_float(key) {
                    return false;
                }
                if is_ref && self.shares(target, key) {
                    return false;
                }
                match key.as_integer_inner(self) {
                    Ok(n) => if appending {
                        (n as usize) <= l.len()
                    } else {
                        (n as usize) < l.len()
                    },
                    Err(_) => true,
                }
            },
            _ => true,
        }
    }

    /// Whether two values can be ordered without a panic and without floats.
    pub fn compare_allowed(&self, a: &Value, b: &Value) -> (r: bool)
        ensures
            r == compare_ok(self.cells_v(), a@, b@),
    {
        let x = self.resolve_value(a);
        let y = self.resolve_value(b);
        if a.is_ref() && x.is_none() {
            return false;
        }
        if b.is_ref() && y.is_none() {
            return false;
        }
        match (x, y) {
            (Some(x), Some(y)) => !float_pair(x, y),
            _ => true,
        }
    }
}

/// Whether an operation on `a` and `b` would compute with floats.
pub fn float_pair(a: &Value, b: &Value) -> (r: bool)
    ensures
        r == float_operands(a@, b@),
{
    match (a, b) {
        (Value::Float(_), Value::Float(_)) | (Value::Float(_), Value::Int(_)) | (Value::Int(_), Value::Float(_)) => true,
        _ => false,
    }
}

/// Whether the binary operator runs without a panic and without floats.
pub fn arith_allowed(op: &Arith, a: &Value, b: &Value) -> (r: bool)
    ensures
        r == arith_ok(*op, a@, b@),
{
    match (op, a, b) {
        (Arith::Add, Value::Int(x), Value::Int(y)) => x.checked_add(*y).is_some(),
        (Arith::Sub, Value::Int(x), Value::Int(y)) => x.checked_sub(*y).is_some(),
        (Arith::Mul, Value::Int(x), Value::Int(y)) => x.checked_mul(*y).is_some(),
        (Arith::Div, Value::Int(x), Value::Int(y)) | (Arith::Rem, Value::Int(x), Value::Int(y)) => {
            *y != 0 && !(*x == i64::MIN && *y == -1)
        },
        (Arith::Shl, Value::Int(_), Value::Int(y)) | (Arith::Shr, Value::Int(_), Value::Int(y)) => {
            0 <= *y && *y < 64
        },
        (Arith::Add, _, _) | (Arith::Sub, _, _) | (Arith::Mul, _, _) | (Arith::Div, _, _) | (Arith::Rem, _, _) => {
            !float_pair(a, b)
        },
        _ => true,
    }
}

} // verus!
