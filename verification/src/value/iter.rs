//! Iterators over numbers and over the items of values.

use vstd::prelude::*;

use crate::error::{ErrorV, Lovm2Error, Lovm2Result};

use super::data::{get_by_index_spec, item_count, len_spec, lemma_get_by_index_facts};
use super::heap::{extends, resolve, Heap};
use super::{view_values, Value, ValueV};

verus! {

broadcast use super::group_value_views;

/// What an iterator runs over.
pub enum IterType {
    /// Numbers up to a limit.
    Limit(i64),
    /// Numbers without end.
    Open,
    /// Positions of a string, dictionary or list.
    Over(Value),
}

/// Runtime iterator. Without `reversed` a limit is exclusive and numbers
/// count up; with `reversed` a limit is inclusive and numbers count down.
pub struct Iter {
    pub current: i64,
    pub reversed: bool,
    pub ty: IterType,
}

pub type LV2Iter = Iter;

/// Mathematical view of [IterType].
pub enum IterKindV {
    Limit(i64),
    Open,
    Over(ValueV),
}

/// Mathematical view of [Iter].
pub struct IterV {
    pub current: i64,
    pub reversed: bool,
    pub ty: IterKindV,
}

impl View for Iter {
    type V = IterV;

    open spec fn view(&self) -> IterV {
        IterV {
            current: self.current,
            reversed: self.reversed,
            ty: match self.ty {
                IterType::Limit(l) => IterKindV::Limit(l),
                IterType::Open => IterKindV::Open,
                IterType::Over(v) => IterKindV::Over(v@),
            },
        }
    }
}

/// Error of an iterator that has no items left.
pub open spec fn exhausted() -> ErrorV {
    ErrorV { ty: None, msg: "iterator exhausted"@ }
}

/// Whether a number iterator has numbers left.
pub open spec fn limit_has_next(it: IterV) -> bool {
    match it.ty {
        IterKindV::Limit(l) => if !it.reversed {
            it.current < l
        } else {
            it.current >= l
        },
        _ => false,
    }
}

/// Cells and answer of `has_next`. Asking an iterator over a value takes the
/// item, which may put cells on the heap; a position below zero or beyond
/// `usize` has no item.
pub open spec fn has_next_spec(cells: Seq<ValueV>, it: IterV) -> (Seq<ValueV>, bool) {
    match it.ty {
        IterKindV::Limit(_) => (cells, limit_has_next(it)),
        IterKindV::Open => (cells, true),
        IterKindV::Over(v) => if it.current < 0 || it.current > usize::MAX {
            (cells, false)
        } else {
            let (c, r) = get_by_index_spec(cells, v, it.current as usize);
            (c, r is Ok)
        },
    }
}

/// The iterator moved one step in its direction.
pub open spec fn advanced(it: IterV) -> IterV {
    IterV {
        current: if it.reversed {
            (it.current - 1) as i64
        } else {
            (it.current + 1) as i64
        },
        reversed: it.reversed,
        ty: it.ty,
    }
}

/// Whether one step does not leave the range of `i64`.
pub open spec fn advance_ok(it: IterV) -> bool {
    if it.reversed {
        it.current > i64::MIN
    } else {
        it.current < i64::MAX
    }
}

/// Cells, iterator and item of `next`.
pub open spec fn next_spec(cells: Seq<ValueV>, it: IterV) -> (Seq<ValueV>, IterV, Result<ValueV, ErrorV>) {
    match it.ty {
        IterKindV::Limit(_) => if limit_has_next(it) {
            (cells, advanced(it), Ok(ValueV::Int(it.current)))
        } else {
            (cells, it, Err(exhausted()))
        },
        IterKindV::Open => (cells, advanced(it), Ok(ValueV::Int(it.current))),
        IterKindV::Over(v) => {
            let (c, r) = get_by_index_spec(cells, v, it.current as usize);
            match r {
                Ok(x) => (c, advanced(it), Ok(x)),
                Err(e) => (c, it, Err(e)),
            }
        },
    }
}

/// Whether `next` runs without a panic: a step taken stays in range.
pub open spec fn next_ok(cells: Seq<ValueV>, it: IterV) -> bool {
    (next_spec(cells, it).2 is Ok) ==> advance_ok(it)
}

/// The iterator running the other way (`reverse`).
pub open spec fn reverse_spec(cells: Seq<ValueV>, it: IterV) -> IterV {
    match it.ty {
        IterKindV::Limit(l) => if !it.reversed {
            IterV { current: (l - 1) as i64, reversed: true, ty: IterKindV::Limit(it.current) }
        } else {
            IterV { current: l, reversed: false, ty: IterKindV::Limit((it.current + 1) as i64) }
        },
        IterKindV::Open => IterV { current: it.current, reversed: !it.reversed, ty: it.ty },
        IterKindV::Over(v) => {
            let n = (len_spec(cells, v)->Ok_0) as i64;
            IterV {
                current: if it.current == 0 {
                    (n - 1) as i64
                } else {
                    0
                },
                reversed: !it.reversed,
                ty: it.ty,
            }
        },
    }
}

/// Whether `reverse` runs without a panic: bounds stay in range, and an
/// iterator over a value has a length and stands at one of its ends.
pub open spec fn reverse_ok(cells: Seq<ValueV>, it: IterV) -> bool {
    match it.ty {
        IterKindV::Limit(l) => if !it.reversed {
            l > i64::MIN
        } else {
            it.current < i64::MAX
        },
        IterKindV::Open => true,
        IterKindV::Over(v) => match len_spec(cells, v) {
            Ok(n) => {
                &&& (n as i64) > i64::MIN
                &&& (it.current == 0 || it.current == (n as i64) - 1)
            },
            Err(_) => false,
        },
    }
}

/// Number iterator from `from` inclusive to `to` exclusive; where `to` lies
/// below `from` it counts down from `from` to `to + 1` inclusive.
pub open spec fn ranged_spec(from: i64, to: i64) -> IterV {
    if to < from {
        IterV { current: from, reversed: true, ty: IterKindV::Limit((to + 1) as i64) }
    } else {
        IterV { current: from, reversed: false, ty: IterKindV::Limit(to) }
    }
}

/// Number of items an iterator still yields.
pub open spec fn remaining(cells: Seq<ValueV>, it: IterV) -> nat {
    match it.ty {
        IterKindV::Limit(l) => if !it.reversed {
            if it.current < l {
                (l - it.current) as nat
            } else {
                0
            }
        } else {
            if it.current >= l {
                (it.current - l + 1) as nat
            } else {
                0
            }
        },
        IterKindV::Open => 0,
        IterKindV::Over(v) => {
            let n = item_count(cells, v);
            if 0 <= it.current < n {
                if !it.reversed {
                    (n - it.current) as nat
                } else {
                    (it.current + 1) as nat
                }
            } else {
                0
            }
        },
    }
}

/// Cells and items when an iterator is run until it has no items left.
pub open spec fn collect_spec(cells: Seq<ValueV>, it: IterV) -> (Seq<ValueV>, Seq<ValueV>)
    decreases remaining(cells, it),
{
    let (c1, b) = has_next_spec(cells, it);
    if !b || remaining(cells, it) == 0 || !advance_ok(it) {
        (c1, Seq::empty())
    } else {
        let (c2, it2, r) = next_spec(c1, it);
        match r {
            Ok(x) => {
                proof {
                    lemma_step_remaining(cells, it);
                }
                let (c3, rest) = collect_spec(c2, it2);
                (c3, seq![x] + rest)
            },
            Err(_) => (c2, Seq::empty()),
        }
    }
}

/// Whether collecting runs to an end without a panic: the iterator is not
/// endless, counting down does not leave the range of `i64`, and an iterator
/// over a value starts within its items or just past one end.
pub open spec fn collect_ok(cells: Seq<ValueV>, it: IterV) -> bool {
    match it.ty {
        IterKindV::Limit(l) => it.reversed ==> (l > i64::MIN || it.current < l),
        IterKindV::Open => false,
        IterKindV::Over(v) => {
            &&& item_count(cells, v) < i64::MAX
            &&& if !it.reversed {
                0 <= it.current <= item_count(cells, v)
            } else {
                -1 <= it.current < item_count(cells, v)
            }
        },
    }
}

pub proof fn lemma_step_remaining(cells: Seq<ValueV>, it: IterV)
    requires
        has_next_spec(cells, it).1,
        remaining(cells, it) > 0,
        advance_ok(it),
        next_spec(has_next_spec(cells, it).0, it).2 is Ok,
    ensures
        remaining(next_spec(has_next_spec(cells, it).0, it).0, next_spec(has_next_spec(cells, it).0, it).1)
            < remaining(cells, it),
{
    if let IterKindV::Over(v) = it.ty {
        let idx = it.current as usize;
        lemma_get_by_index_facts(cells, v, idx);
        let c1 = has_next_spec(cells, it).0;
        lemma_get_by_index_facts(c1, v, idx);
        assert(item_count(cells, v) > 0);
    }
}

pub proof fn lemma_collect_ok_step(cells: Seq<ValueV>, it: IterV)
    requires
        collect_ok(cells, it),
        has_next_spec(cells, it).1,
    ensures
        remaining(cells, it) > 0,
        advance_ok(it),
        next_spec(has_next_spec(cells, it).0, it).2 is Ok,
        collect_ok(next_spec(has_next_spec(cells, it).0, it).0, next_spec(has_next_spec(cells, it).0, it).1),
{
    if let IterKindV::Over(v) = it.ty {
        let idx = it.current as usize;
        lemma_get_by_index_facts(cells, v, idx);
        let c1 = has_next_spec(cells, it).0;
        lemma_get_by_index_facts(c1, v, idx);
        let c2 = next_spec(c1, it).0;
        assert(it.current as usize == it.current);
    }
}

impl Iter {
    /// Number iterator from `from` inclusive to `to` exclusive. Where `to`
    /// lies below `from`, it counts down from `from` to just above `to`.
    pub fn ranged(from: i64, to: i64) -> (r: Iter)
        ensures
            r@ == ranged_spec(from, to),
    {
        if to < from {
            Iter { current: from, reversed: true, ty: IterType::Limit(to + 1) }
        } else {
            Iter { current: from, reversed: false, ty: IterType::Limit(to) }
        }
    }

    /// Endless number iterator starting at `from`.
    pub fn ranged_from(from: i64) -> (r: Iter)
        ensures
            r@ == (IterV { current: from, reversed: false, ty: IterKindV::Open }),
    {
        Iter { current: from, reversed: false, ty: IterType::Open }
    }

    /// Number iterator from 0 inclusive to `to` exclusive.
    pub fn ranged_to(to: i64) -> (r: Iter)
        ensures
            r@ == (IterV { current: 0, reversed: false, ty: IterKindV::Limit(to) }),
    {
        Iter { current: 0, reversed: false, ty: IterType::Limit(to) }
    }

    /// Iterator over the positions of `value`, starting at the first.
    pub fn over(value: Value) -> (r: Iter)
        ensures
            r@ == (IterV { current: 0, reversed: false, ty: IterKindV::Over(value@) }),
    {
        Iter { current: 0, reversed: false, ty: IterType::Over(value) }
    }

    /// Copy of the iterator.
    pub fn duplicate(&self) -> (r: Iter)
        ensures
            r@ == self@,
    {
        Iter {
            current: self.current,
            reversed: self.reversed,
            ty: match &self.ty {
                IterType::Limit(l) => IterType::Limit(*l),
                IterType::Open => IterType::Open,
                IterType::Over(v) => IterType::Over(v.duplicate()),
            },
        }
    }

    /// Returns true if `next` yields an item.
    pub fn has_next(&self, heap: &mut Heap) -> (r: bool)
        ensures
            (final(heap).cells_v(), r) == has_next_spec(old(heap).cells_v(), self@),
    {
        match &self.ty {
            IterType::Limit(limit) => if !self.reversed {
                self.current < *limit
            } else {
                self.current >= *limit
            },
            IterType::Open => true,
            IterType::Over(val) => {
                self.current >= 0 && self.current as u64 <= usize::MAX as u64
                    && val.get_by_index(heap, self.current as usize).is_ok()
            },
        }
    }

    /// Advance the iterator and get the next item. An exhausted iterator
    /// returns an error and stays where it is.
    pub fn next(&mut self, heap: &mut Heap) -> (r: Lovm2Result<Value>)
        requires
            next_ok(old(heap).cells_v(), old(self)@),
        ensures
            ({
                let (c, it, res) = next_spec(old(heap).cells_v(), old(self)@);
                &&& final(heap).cells_v() == c
                &&& final(self)@ == it
                &&& match (r, res) {
                    (Ok(a), Ok(b)) => a@ == b,
                    (Err(a), Err(b)) => a@ == b,
                    _ => false,
                }
            }),
    {
        let idx = self.current;
        let val = match &self.ty {
            IterType::Limit(limit) => {
                let more = if !self.reversed {
                    idx < *limit
                } else {
                    idx >= *limit
                };
                if more {
                    Value::Int(idx)
                } else {
                    return Err(Lovm2Error::from_msg("iterator exhausted"));
                }
            },
            IterType::Open => Value::Int(idx),
            IterType::Over(v) => match v.get_by_index(heap, idx as usize) {
                Ok(x) => x,
                Err(e) => { return Err(e); },
            },
        };
        if !self.reversed {
            self.current = self.current + 1;
        } else {
            self.current = self.current - 1;
        }
        Ok(val)
    }

    /// The iterator running the other way: an exclusive upward range
    /// becomes an inclusive downward one and back; an iterator over a value
    /// moves to its other end.
    pub fn reverse(self, heap: &Heap) -> (r: Iter)
        requires
            reverse_ok(heap.cells_v(), self@),
        ensures
            r@ == reverse_spec(heap.cells_v(), self@),
    {
        let reversed = !self.reversed;
        match self.ty {
            IterType::Limit(limit) => if !self.reversed {
                Iter { current: limit - 1, ty: IterType::Limit(self.current), reversed }
            } else {
                Iter { current: limit, ty: IterType::Limit(self.current + 1), reversed }
            },
            IterType::Open => Iter { current: self.current, ty: IterType::Open, reversed },
            IterType::Over(val) => {
                let len = match val.len(heap) {
                    Ok(n) => n as i64,
                    Err(_) => {
                        assert(false);
                        0
                    },
                };
                let current = if self.current == 0 {
                    len - 1
                } else {
                    0
                };
                Iter { current, ty: IterType::Over(val), reversed }
            },
        }
    }

    /// Run the iterator until it has no items left and return the items.
    pub fn collect(self, heap: &mut Heap) -> (r: Vec<Value>)
        requires
            collect_ok(old(heap).cells_v(), self@),
        ensures
            (final(heap).cells_v(), view_values(r@)) == collect_spec(old(heap).cells_v(), self@),
    {
        let mut it = self;
        let mut result: Vec<Value> = Vec::new();
        let ghost c0 = heap.cells_v();
        let ghost it0 = it@;
        loop
            invariant
                c0 == old(heap).cells_v(),
                it0 == self@,
                collect_ok(heap.cells_v(), it@),
                collect_spec(c0, it0) == ({
                    let (c, rest) = collect_spec(heap.cells_v(), it@);
                    (c, view_values(result@) + rest)
                }),
            decreases remaining(heap.cells_v(), it@),
        {
            let ghost cb = heap.cells_v();
            let ghost itb = it@;
            let more = it.has_next(heap);
            if !more {
                assert(collect_spec(cb, itb) == (heap.cells_v(), Seq::<ValueV>::empty()));
                assert(view_values(result@) + Seq::<ValueV>::empty() =~= view_values(result@));
                return result;
            }
            proof {
                lemma_collect_ok_step(cb, itb);
                lemma_step_remaining(cb, itb);
            }
            let x = match it.next(heap) {
                Ok(x) => x,
                Err(_) => {
                    assert(false);
                    return result;
                },
            };
            let ghost before = view_values(result@);
            result.push(x);
            proof {
                assert(view_values(result@) =~= before.push(x@));
                let rest = collect_spec(heap.cells_v(), it@).1;
                assert(before + (seq![x@] + rest) =~= view_values(result@) + rest);
            }
        }
    }
}

impl Value {
    /// Create an iterator over the value. Iterators are copied from the
    /// iterator table; a value without a length cannot be iterated.
    pub fn iter(&self, heap: &Heap, iters: &Vec<Iter>) -> (r: Lovm2Result<Iter>)
        ensures
            match self@ {
                ValueV::Iter(i) => if i < iters@.len() {
                    r matches Ok(it) && it@ == iters@[i as int]@
                } else {
                    r is Err
                },
                _ => match len_spec(heap.cells_v(), self@) {
                    Ok(_) => r matches Ok(it) && it@ == (IterV {
                        current: 0,
                        reversed: false,
                        ty: IterKindV::Over(self@),
                    }),
                    Err(e) => r matches Err(x) && x@ == e,
                },
            },
    {
        match self {
            Value::Iter(i) => {
                if *i < iters.len() {
                    Ok(iters[*i].duplicate())
                } else {
                    Err(super::conv::error_not_supported())
                }
            },
            _ => match self.len(heap) {
                Ok(_) => Ok(Iter::over(self.duplicate())),
                Err(e) => Err(e),
            },
        }
    }
}

} // verus!
