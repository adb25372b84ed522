//! Cells that hold values shared through references.

use vstd::prelude::*;

use super::{view_value, Reference, Value, ValueV};

verus! {

broadcast use super::group_value_views;

/// Index of the cell where the reference chain that starts at `r` ends: the
/// first cell on the chain whose content is not itself a reference. `None`
/// where the chain hits an empty reference or a cell that does not exist.
///
/// A cell whose content is a reference always names an older cell; a chain
/// that would go up is treated as broken.
pub open spec fn deref_cell(cells: Seq<ValueV>, r: Option<usize>) -> Option<int>
    decreases
            match r {
                Some(i) => i as int + 1,
                None => 0,
            },
{
    match r {
        None => None,
        Some(i) => if i < cells.len() {
            match cells[i as int] {
                ValueV::Ref(Some(j)) => if j < i {
                    deref_cell(cells, Some(j))
                } else {
                    None
                },
                ValueV::Ref(None) => None,
                _ => Some(i as int),
            }
        } else {
            None
        },
    }
}

/// The value that `v` stands for: `v` itself if it is not a reference,
/// otherwise the content of the cell where its chain ends.
pub open spec fn resolve(cells: Seq<ValueV>, v: ValueV) -> Option<ValueV> {
    match v {
        ValueV::Ref(r) => match deref_cell(cells, r) {
            Some(i) => Some(cells[i]),
            None => None,
        },
        _ => Some(v),
    }
}

/// Whether the reference chain that starts at `r` passes the cell `k`.
pub open spec fn chain_visits(cells: Seq<ValueV>, r: Option<usize>, k: int) -> bool
    decreases
            match r {
                Some(i) => i as int + 1,
                None => 0,
            },
{
    match r {
        None => false,
        Some(i) => i == k || (i < cells.len() && match cells[i as int] {
            ValueV::Ref(Some(j)) => j < i && chain_visits(cells, Some(j), k),
            _ => false,
        }),
    }
}

/// Whether reading `v` through its reference chain touches the cell `k`.
pub open spec fn visits(cells: Seq<ValueV>, v: ValueV, k: int) -> bool {
    match v {
        ValueV::Ref(r) => chain_visits(cells, r, k),
        _ => false,
    }
}

/// Following a chain is not affected by a cell the chain does not pass.
pub proof fn lemma_deref_cell_frame(cells: Seq<ValueV>, r: Option<usize>, k: int, x: ValueV)
    requires
        !chain_visits(cells, r, k),
        0 <= k < cells.len(),
    ensures
        deref_cell(cells.update(k, x), r) == deref_cell(cells, r),
    decreases
            match r {
                Some(i) => i as int + 1,
                None => 0,
            },
{
    match r {
        None => {},
        Some(i) => {
            if i < cells.len() {
                match cells[i as int] {
                    ValueV::Ref(Some(j)) => {
                        if j < i {
                            lemma_deref_cell_frame(cells, Some(j), k, x);
                        }
                    },
                    _ => {},
                }
            }
        },
    }
}

/// Appending cells does not change where an existing chain ends.
pub proof fn lemma_deref_cell_push(cells: Seq<ValueV>, r: Option<usize>, x: ValueV)
    requires
        deref_cell(cells, r) is Some,
    ensures
        deref_cell(cells.push(x), r) == deref_cell(cells, r),
    decreases
            match r {
                Some(i) => i as int + 1,
                None => 0,
            },
{
    match r {
        None => {},
        Some(i) => {
            assert(cells.push(x)[i as int] == cells[i as int]);
            match cells[i as int] {
                ValueV::Ref(Some(j)) => {
                    lemma_deref_cell_push(cells, Some(j), x);
                },
                _ => {},
            }
        },
    }
}

/// The chain ends in a cell whose content is not a reference.
pub proof fn lemma_deref_cell_end(cells: Seq<ValueV>, r: Option<usize>)
    requires
        deref_cell(cells, r) is Some,
    ensures
        0 <= deref_cell(cells, r)->0 < cells.len(),
        !(cells[deref_cell(cells, r)->0] is Ref),
    decreases
            match r {
                Some(i) => i as int + 1,
                None => 0,
            },
{
    match r {
        None => {},
        Some(i) => {
            match cells[i as int] {
                ValueV::Ref(Some(j)) => {
                    lemma_deref_cell_end(cells, Some(j));
                },
                _ => {},
            }
        },
    }
}

/// Storage for the values that references point to.
pub struct Heap {
    pub cells: Vec<Value>,
}

impl Heap {
    /// The contents of the cells.
    pub open spec fn cells_v(&self) -> Seq<ValueV> {
        super::view_values(self.cells@)
    }

    /// An empty heap.
    pub fn new() -> (h: Heap)
        ensures
            h.cells_v() == Seq::<ValueV>::empty(),
    {
        Heap { cells: Vec::new() }
    }

    /// Put `v` into a new cell and return a reference to it.
    pub fn allocate(&mut self, v: Value) -> (r: Reference)
        ensures
            final(self).cells_v() == old(self).cells_v().push(v@),
            r@ == Some(old(self).cells_v().len() as usize),
    {
        let n = self.cells.len();
        self.cells.push(v);
        assert(super::view_values(self.cells@) =~= super::view_values(old(self).cells@).push(v@));
        Reference(Some(n))
    }

    /// Index of the cell where the chain starting at `r` ends.
    pub fn deref_index(&self, r: &Reference) -> (res: Option<usize>)
        ensures
            match res {
                Some(i) => {
                    &&& deref_cell(self.cells_v(), r@) == Some(i as int)
                    &&& i < self.cells@.len()
                    &&& self.cells_v()[i as int] == self.cells@[i as int]@
                    &&& !(self.cells_v()[i as int] is Ref)
                },
                None => deref_cell(self.cells_v(), r@) is None,
            },
    {
        let mut cur: usize = match r.0 {
            Some(i) => i,
            None => { return None; },
        };
        loop
            invariant
                deref_cell(self.cells_v(), Some(cur)) == deref_cell(self.cells_v(), r@),
            decreases cur,
        {
            assert(self.cells_v().len() == self.cells@.len());
            if cur >= self.cells.len() {
                return None;
            }
            assert(self.cells_v()[cur as int] == view_value(self.cells@[cur as int]));
            match &self.cells[cur] {
                Value::Ref(Reference(Some(j))) => {
                    if *j < cur {
                        cur = *j;
                    } else {
                        return None;
                    }
                },
                Value::Ref(Reference(None)) => {
                    return None;
                },
                _ => {
                    proof {
                        lemma_deref_cell_end(self.cells_v(), r@);
                    }
                    return Some(cur);
                },
            }
        }
    }

    /// Whether the chain starting at `r` passes the cell `k`.
    pub fn chain_passes(&self, r: &Reference, k: usize) -> (res: bool)
        ensures
            res == chain_visits(self.cells_v(), r@, k as int),
    {
        let mut cur: usize = match r.0 {
            Some(i) => i,
            None => { return false; },
        };
        loop
            invariant
                chain_visits(self.cells_v(), Some(cur), k as int) == chain_visits(self.cells_v(), r@, k as int),
            decreases cur,
        {
            if cur == k {
                return true;
            }
            assert(self.cells_v().len() == self.cells@.len());
            if cur >= self.cells.len() {
                return false;
            }
            assert(self.cells_v()[cur as int] == view_value(self.cells@[cur as int]));
            match &self.cells[cur] {
                Value::Ref(Reference(Some(j))) => {
                    if *j < cur {
                        cur = *j;
                    } else {
                        return false;
                    }
                },
                _ => {
                    return false;
                },
            }
        }
    }
}

} // verus!

verus! {

/// The chain ends in a cell that it passes.
pub proof fn lemma_deref_cell_visits(cells: Seq<ValueV>, r: Option<usize>)
    requires
        deref_cell(cells, r) is Some,
    ensures
        chain_visits(cells, r, deref_cell(cells, r)->0),
    decreases
            match r {
                Some(i) => i as int + 1,
                None => 0,
            },
{
    match r {
        None => {},
        Some(i) => {
            match cells[i as int] {
                ValueV::Ref(Some(j)) => {
                    lemma_deref_cell_visits(cells, Some(j));
                },
                _ => {},
            }
        },
    }
}

/// Reading a value is not affected by a cell its chain does not pass.
pub proof fn lemma_resolve_frame(cells: Seq<ValueV>, v: ValueV, k: int, x: ValueV)
    requires
        !visits(cells, v, k),
        0 <= k < cells.len(),
    ensures
        resolve(cells.update(k, x), v) == resolve(cells, v),
{
    if let ValueV::Ref(r) = v {
        lemma_deref_cell_frame(cells, r, k, x);
        if deref_cell(cells, r) is Some {
            lemma_deref_cell_visits(cells, r);
            lemma_deref_cell_end(cells, r);
            let j = deref_cell(cells, r)->0;
            assert(j != k);
            assert(cells.update(k, x)[j] == cells[j]);
        }
    }
}


/// Replacing the content of the cell a chain ends at by a value that is not
/// a reference leaves the chain ending there.
pub proof fn lemma_deref_cell_update_end(cells: Seq<ValueV>, r: Option<usize>, x: ValueV)
    requires
        deref_cell(cells, r) is Some,
        !(x is Ref),
    ensures
        deref_cell(cells.update(deref_cell(cells, r)->0, x), r) == deref_cell(cells, r),
    decreases
            match r {
                Some(i) => i as int + 1,
                None => 0,
            },
{
    let e = deref_cell(cells, r)->0;
    if let Some(i) = r {
        if let ValueV::Ref(Some(j)) = cells[i as int] {
            lemma_deref_cell_update_end(cells, Some(j), x);
            lemma_deref_cell_end(cells, Some(j));
            assert(e != i);
        }
    }
}

/// Whether the reference chains of `a` and `b` share a cell.
pub open spec fn shares_cell(cells: Seq<ValueV>, a: ValueV, b: ValueV) -> bool {
    exists|k: int| visits(cells, a, k) && visits(cells, b, k)
}

} // verus!

verus! {

/// Whether `c2` holds the cells of `c1` and possibly more after them.
pub open spec fn extends(c1: Seq<ValueV>, c2: Seq<ValueV>) -> bool {
    c1.len() <= c2.len() && forall|i: int| 0 <= i < c1.len() ==> #[trigger] c2[i] == c1[i]
}

/// Appending cells does not change where an existing chain ends.
pub proof fn lemma_deref_cell_extend(c1: Seq<ValueV>, c2: Seq<ValueV>, r: Option<usize>)
    requires
        deref_cell(c1, r) is Some,
        extends(c1, c2),
    ensures
        deref_cell(c2, r) == deref_cell(c1, r),
    decreases
            match r {
                Some(i) => i as int + 1,
                None => 0,
            },
{
    match r {
        None => {},
        Some(i) => {
            match c1[i as int] {
                ValueV::Ref(Some(j)) => {
                    lemma_deref_cell_extend(c1, c2, Some(j));
                },
                _ => {},
            }
        },
    }
}

/// Appending cells does not change what a value stands for, where it
/// stands for something.
pub proof fn lemma_resolve_extend(c1: Seq<ValueV>, c2: Seq<ValueV>, v: ValueV)
    requires
        resolve(c1, v) is Some,
        extends(c1, c2),
    ensures
        resolve(c2, v) == resolve(c1, v),
{
    if let ValueV::Ref(r) = v {
        lemma_deref_cell_extend(c1, c2, r);
        lemma_deref_cell_end(c1, r);
        let j = deref_cell(c1, r)->0;
    }
}

} // verus!
