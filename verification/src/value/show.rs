//! Text of values as they are printed.

use vstd::prelude::*;
use vstd::string::StringExecFns;

use super::eq::EQ_DEPTH;
use super::heap::Heap;
use super::{view_pairs, view_values, Value, ValueV};
use crate::text::{i64_to_string, int_text};

verus! {

broadcast use super::group_value_views;

/// Text of the first `n` items, separated by commas; `None` where an item
/// has no text here.
pub open spec fn items_text(cells: Seq<ValueV>, l: Seq<ValueV>, n: int, fuel: nat) -> Option<Seq<char>>
    decreases fuel, n,
{
    if n <= 0 {
        Some(Seq::empty())
    } else if n == 1 {
        value_text(cells, l[0], fuel)
    } else {
        match (items_text(cells, l, n - 1, fuel), value_text(cells, l[n - 1], fuel)) {
            (Some(a), Some(b)) => Some(a + ", "@ + b),
            _ => None,
        }
    }
}

/// Text of the first `n` entries as `key: value`, separated by commas.
pub open spec fn entries_text(cells: Seq<ValueV>, d: Seq<(ValueV, ValueV)>, n: int, fuel: nat) -> Option<Seq<char>>
    decreases fuel, n,
{
    if n <= 0 {
        Some(Seq::empty())
    } else {
        let e = match (value_text(cells, d[n - 1].0, fuel), value_text(cells, d[n - 1].1, fuel)) {
            (Some(k), Some(v)) => Some(k + ": "@ + v),
            _ => None,
        };
        if n == 1 {
            e
        } else {
            match (entries_text(cells, d, n - 1, fuel), e) {
                (Some(a), Some(b)) => Some(a + ", "@ + b),
                _ => None,
            }
        }
    }
}

/// Text of a value as it is printed: `Nil`, `true`/`false`, decimal
/// integers, strings as they are, lists in brackets and dictionaries in
/// braces with comma separated items, a reference as what it points to or
/// `None`, `iterator` and `Handle`. `None` where a float takes part, whose
/// text the host writes, or where the value nests deeper than `fuel`.
pub open spec fn value_text(cells: Seq<ValueV>, v: ValueV, fuel: nat) -> Option<Seq<char>>
    decreases fuel, 0nat,
{
    if fuel == 0 {
        None
    } else {
        let f = (fuel - 1) as nat;
        match v {
            ValueV::Nil => Some("Nil"@),
            ValueV::Bool(b) => Some(
                if b {
                    "true"@
                } else {
                    "false"@
                },
            ),
            ValueV::Int(n) => Some(int_text(n as int)),
            ValueV::Float(_) => None,
            ValueV::Str(s) => Some(s),
            ValueV::Dict(d) => match entries_text(cells, d, d.len() as int, f) {
                Some(t) => Some("{"@ + t + "}"@),
                None => None,
            },
            ValueV::List(l) => match items_text(cells, l, l.len() as int, f) {
                Some(t) => Some("["@ + t + "]"@),
                None => None,
            },
            ValueV::Ref(r) => match r {
                Some(i) => if i < cells.len() {
                    value_text(cells, cells[i as int], f)
                } else {
                    Some("None"@)
                },
                None => Some("None"@),
            },
            ValueV::Iter(_) => Some("iterator"@),
            ValueV::Any(_) => Some("Handle"@),
        }
    }
}

fn text_fuel(heap: &Heap, v: &Value, fuel: u64) -> (r: Option<String>)
    ensures
        match value_text(heap.cells_v(), v@, fuel as nat) {
            Some(t) => r matches Some(s) && s@ == t,
            None => r is None,
        },
    decreases fuel,
{
    if fuel == 0 {
        return None;
    }
    let f = fuel - 1;
    match v {
        Value::Nil => Some(String::from_str("Nil")),
        Value::Bool(b) => Some(String::from_str(if *b { "true" } else { "false" })),
        Value::Int(n) => Some(i64_to_string(*n)),
        Value::Float(_) => None,
        Value::Str(s) => Some(s.clone()),
        Value::Dict(d) => {
            let ghost dv = view_pairs(d@);
            let mut out = String::from_str("{");
            let mut i: usize = 0;
            while i < d.len()
                invariant
                    i <= d@.len(),
                    dv == view_pairs(d@),
                    fuel > 0,
                    f == fuel - 1,
                    v@ == ValueV::Dict(dv),
                    entries_text(heap.cells_v(), dv, i as int, f as nat) matches Some(t) && out@ == "{"@ + t,
                decreases d@.len() - i,
            {
                assert(dv[i as int] == (d@[i as int].0@, d@[i as int].1@));
                let k = match text_fuel(heap, &d[i].0, f) {
                    Some(k) => k,
                    None => {
                        proof {
                            lemma_entries_stop(heap.cells_v(), dv, i + 1, d@.len() as int, f as nat);
                        }
                        return None;
                    },
                };
                let val = match text_fuel(heap, &d[i].1, f) {
                    Some(x) => x,
                    None => {
                        proof {
                            lemma_entries_stop(heap.cells_v(), dv, i + 1, d@.len() as int, f as nat);
                        }
                        return None;
                    },
                };
                let ghost prev = out@;
                if i > 0 {
                    out.append(", ");
                }
                out.append(k.as_str());
                out.append(": ");
                out.append(val.as_str());
                proof {
                    let e = k@ + ": "@ + val@;
                    if i == 0 {
                        assert(out@ =~= "{"@ + e);
                    } else {
                        let t = entries_text(heap.cells_v(), dv, i as int, f as nat)->Some_0;
                        assert(prev == "{"@ + t);
                        assert(out@ =~= "{"@ + (t + ", "@ + e));
                    }
                }
                i += 1;
            }
            let ghost prev = out@;
            out.append("}");
            assert(out@ =~= "{"@ + entries_text(heap.cells_v(), dv, dv.len() as int, f as nat)->Some_0 + "}"@);
            Some(out)
        },
        Value::List(l) => {
            let ghost lv = view_values(l@);
            let mut out = String::from_str("[");
            let mut i: usize = 0;
            while i < l.len()
                invariant
                    i <= l@.len(),
                    lv == view_values(l@),
                    fuel > 0,
                    f == fuel - 1,
                    v@ == ValueV::List(lv),
                    items_text(heap.cells_v(), lv, i as int, f as nat) matches Some(t) && out@ == "["@ + t,
                decreases l@.len() - i,
            {
                assert(lv[i as int] == l@[i as int]@);
                let x = match text_fuel(heap, &l[i], f) {
                    Some(x) => x,
                    None => {
                        proof {
                            lemma_items_stop(heap.cells_v(), lv, i + 1, l@.len() as int, f as nat);
                        }
                        return None;
                    },
                };
                let ghost prev = out@;
                if i > 0 {
                    out.append(", ");
                }
                out.append(x.as_str());
                proof {
                    if i == 0 {
                        assert(out@ =~= "["@ + x@);
                    } else {
                        let t = items_text(heap.cells_v(), lv, i as int, f as nat)->Some_0;
                        assert(prev == "["@ + t);
                        assert(out@ =~= "["@ + (t + ", "@ + x@));
                    }
                }
                i += 1;
            }
            let ghost prev = out@;
            out.append("]");
            assert(out@ =~= "["@ + items_text(heap.cells_v(), lv, lv.len() as int, f as nat)->Some_0 + "]"@);
            Some(out)
        },
        Value::Ref(r) => match r.0 {
            Some(i) => if i < heap.cells.len() {
                text_fuel(heap, &heap.cells[i], f)
            } else {
                Some(String::from_str("None"))
            },
            None => Some(String::from_str("None")),
        },
        Value::Iter(_) => Some(String::from_str("iterator")),
        Value::Any(_) => Some(String::from_str("Handle")),
    }
}

proof fn lemma_items_stop(cells: Seq<ValueV>, l: Seq<ValueV>, n: int, m: int, fuel: nat)
    requires
        1 <= n <= m,
        items_text(cells, l, n, fuel) is None,
    ensures
        items_text(cells, l, m, fuel) is None,
    decreases m - n,
{
    if n < m {
        lemma_items_stop(cells, l, n, m - 1, fuel);
    }
}

proof fn lemma_entries_stop(cells: Seq<ValueV>, d: Seq<(ValueV, ValueV)>, n: int, m: int, fuel: nat)
    requires
        1 <= n <= m,
        entries_text(cells, d, n, fuel) is None,
    ensures
        entries_text(cells, d, m, fuel) is None,
    decreases m - n,
{
    if n < m {
        lemma_entries_stop(cells, d, n, m - 1, fuel);
    }
}

impl Value {
    /// The text of the value as it is printed; see [value_text]. `None`
    /// where a float takes part or the value nests deeper than the equality
    /// depth.
    pub fn to_text(&self, heap: &Heap) -> (r: Option<String>)
        ensures
            match value_text(heap.cells_v(), self@, EQ_DEPTH as nat) {
                Some(t) => r matches Some(s) && s@ == t,
                None => r is None,
            },
    {
        text_fuel(heap, self, EQ_DEPTH)
    }
}

} // verus!
