//! Callable functions of a module, by name.

use vstd::prelude::*;

use crate::code::Callable;
use crate::var::Variable;

verus! {

/// Position of the first slot named `k`.
pub open spec fn slot_find_from(s: Seq<(Variable, Callable)>, k: Seq<char>, i: int) -> Option<int>
    decreases s.len() - i,
{
    if i < 0 || i >= s.len() {
        None
    } else if s[i].0@ == k {
        Some(i)
    } else {
        slot_find_from(s, k, i + 1)
    }
}

/// Position of the slot named `k`.
pub open spec fn slot_find(s: Seq<(Variable, Callable)>, k: Seq<char>) -> Option<int> {
    slot_find_from(s, k, 0)
}

/// The callable stored under `k`.
pub open spec fn slot_get(s: Seq<(Variable, Callable)>, k: Seq<char>) -> Option<Callable> {
    match slot_find(s, k) {
        Some(i) => Some(s[i].1),
        None => None,
    }
}

/// Slots after storing `v` under `k`: an existing slot keeps its place and
/// gets the new callable, a new name goes last.
pub open spec fn slot_insert(s: Seq<(Variable, Callable)>, k: Variable, v: Callable) -> Seq<(Variable, Callable)> {
    match slot_find(s, k@) {
        Some(i) => s.update(i, (s[i].0, v)),
        None => s.push((k, v)),
    }
}

/// Whether no name occurs twice.
pub open spec fn slots_unique(s: Seq<(Variable, Callable)>) -> bool {
    forall|i: int, j: int| 0 <= i < j < s.len() ==> s[i].0@ != s[j].0@
}

pub proof fn lemma_slot_find_from_facts(s: Seq<(Variable, Callable)>, k: Seq<char>, i: int)
    requires
        0 <= i,
    ensures
        match slot_find_from(s, k, i) {
            Some(j) => i <= j < s.len() && s[j].0@ == k && forall|m: int| i <= m < j ==> s[m].0@ != k,
            None => forall|m: int| i <= m < s.len() ==> s[m].0@ != k,
        },
    decreases s.len() - i,
{
    if i < s.len() && s[i].0@ != k {
        lemma_slot_find_from_facts(s, k, i + 1);
    }
}

pub proof fn lemma_slot_find_facts(s: Seq<(Variable, Callable)>, k: Seq<char>)
    ensures
        match slot_find(s, k) {
            Some(j) => 0 <= j < s.len() && s[j].0@ == k && forall|m: int| 0 <= m < j ==> s[m].0@ != k,
            None => forall|m: int| 0 <= m < s.len() ==> s[m].0@ != k,
        },
{
    lemma_slot_find_from_facts(s, k, 0);
}

/// After a callable is stored under a name, looking the name up gives
/// that callable.
pub proof fn law_slot_get_insert(s: Seq<(Variable, Callable)>, k: Variable, v: Callable)
    ensures
        slot_get(slot_insert(s, k, v), k@) == Some(v),
{
    lemma_slot_find_facts(s, k@);
    let t = slot_insert(s, k, v);
    lemma_slot_find_facts(t, k@);
    match slot_find(s, k@) {
        Some(i) => {
            assert(t[i].0@ == k@);
        },
        None => {
            assert(t[s.len() as int].0@ == k@);
        },
    }
}

/// Storing under one name leaves the lookup of every other name as it
/// was.
pub proof fn law_slot_get_insert_other(s: Seq<(Variable, Callable)>, k: Variable, v: Callable, other: Seq<char>)
    requires
        other != k@,
    ensures
        slot_get(slot_insert(s, k, v), other) == slot_get(s, other),
{
    lemma_slot_find_facts(s, k@);
    lemma_slot_find_facts(s, other);
    let t = slot_insert(s, k, v);
    lemma_slot_find_facts(t, other);
    match (slot_find(t, other), slot_find(s, other)) {
        (Some(a), Some(b)) => {
            if a < b {
                assert(s[a].0@ == t[a].0@);
            } else if b < a {
                assert(s[b].0@ == t[b].0@);
            }
        },
        (Some(a), None) => {
            if a < s.len() {
                assert(s[a].0@ == t[a].0@);
            }
        },
        (None, Some(b)) => {
            assert(s[b].0@ == t[b].0@);
        },
        (None, None) => {},
    }
}

/// Storing keeps names unique.
pub proof fn law_slot_insert_unique(s: Seq<(Variable, Callable)>, k: Variable, v: Callable)
    requires
        slots_unique(s),
    ensures
        slots_unique(slot_insert(s, k, v)),
{
    lemma_slot_find_facts(s, k@);
    let t = slot_insert(s, k, v);
    assert forall|i: int, j: int| 0 <= i < j < t.len() implies t[i].0@ != t[j].0@ by {
        if j < s.len() {
            assert(t[i].0@ == s[i].0@ && t[j].0@ == s[j].0@);
        } else {
            assert(t[i].0@ == s[i].0@);
        }
    }
}

/// Own type for the callable functions of a module.
pub struct Slots(pub Vec<(Variable, Callable)>);

impl View for Slots {
    type V = Seq<(Variable, Callable)>;

    open spec fn view(&self) -> Seq<(Variable, Callable)> {
        self.0@
    }
}

impl Slots {
    /// No slots.
    pub fn new() -> (r: Slots)
        ensures
            r@.len() == 0,
    {
        Slots(Vec::new())
    }

    /// Slots holding the given entries.
    pub fn from(slots: Vec<(Variable, Callable)>) -> (r: Slots)
        ensures
            r@ == slots@,
    {
        Slots(slots)
    }

    /// The entries, in the order they were stored.
    pub fn iter(&self) -> (r: &[(Variable, Callable)])
        ensures
            r@ == self@,
    {
        self.0.as_slice()
    }

    /// The entries for changing them in place.
    pub fn iter_mut(&mut self) -> (r: &mut Vec<(Variable, Callable)>)
        ensures
            *r == old(self).0,
            final(self).0 == *final(r),
    {
        &mut self.0
    }

    /// Position of the slot named `var`.
    pub fn find(&self, var: &Variable) -> (r: Option<usize>)
        ensures
            match r {
                Some(i) => slot_find(self@, var@) == Some(i as int),
                None => slot_find(self@, var@) is None,
            },
    {
        let mut i: usize = 0;
        while i < self.0.len()
            invariant
                i <= self@.len(),
                slot_find_from(self@, var@, i as int) == slot_find(self@, var@),
            decreases self@.len() - i,
        {
            if self.0[i].0 == *var {
                return Some(i);
            }
            i += 1;
        }
        None
    }

    /// The callable stored under `var`.
    pub fn get(&self, var: &Variable) -> (r: Option<&Callable>)
        ensures
            match r {
                Some(c) => slot_get(self@, var@) == Some(*c),
                None => slot_get(self@, var@) is None,
            },
    {
        match self.find(var) {
            Some(i) => {
                proof {
                    lemma_slot_find_facts(self@, var@);
                }
                Some(&self.0[i].1)
            },
            None => None,
        }
    }

    /// Store `val` under `var`, replacing what was stored there.
    pub fn insert(&mut self, var: Variable, val: Callable)
        ensures
            final(self)@ == slot_insert(old(self)@, var, val),
    {
        match self.find(&var) {
            Some(i) => {
                proof {
                    lemma_slot_find_facts(self@, var@);
                }
                let ghost before = self@;
                let (name, _previous) = self.0.remove(i);
                self.0.insert(i, (name, val));
                assert(self@ =~= before.update(i as int, (before[i as int].0, val)));
            },
            None => {
                self.0.push((var, val));
            },
        }
    }
}

} // verus!
