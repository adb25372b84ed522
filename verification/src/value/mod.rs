//! Runtime values of the virtual machine.
//!
//! Values that are shared and mutated through references live in the cells
//! of a [Heap]; a [Reference] names such a cell by its index.

use vstd::prelude::*;

pub mod conv;
pub mod deep;
pub mod data;
pub mod eq;
pub mod guard;
pub mod heap;
pub mod iter;
pub mod op;
pub mod show;
pub mod tree;

pub use self::conv::{type_code, ValueType};
pub use self::heap::Heap;

verus! {

/// Runtime representation of values.
///
/// A `Float` carries the IEEE-754 bit pattern of a 64 bit float; arithmetic
/// on floats is left to the host. `Iter` names an iterator kept beside the
/// [Heap]; `Any` holds a [Handle] to an object of the host.
#[derive(Debug)]
pub enum Value {
    Nil,
    Bool(bool),
    Int(i64),
    Float(u64),
    Str(String),
    Dict(Vec<(Value, Value)>),
    List(Vec<Value>),
    Ref(Reference),
    Iter(usize),
    Any(Handle),
}

pub type LV2Value = Value;

/// Handle to an object kept by the host: the slot it lives in and the
/// identity of its type. Two handles compare equal when their objects are of
/// the same type.
#[derive(Clone, Copy, Debug, PartialEq, Eq, Structural)]
pub struct Handle {
    pub slot: usize,
    pub kind: u64,
}

pub type LV2Handle = Handle;

/// Reference to a heap cell. An empty reference points nowhere.
#[derive(Debug)]
pub struct Reference(pub Option<usize>);

pub type LV2Reference = Reference;

pub type ValueRef = Reference;

pub type LV2ValueRef = Reference;

/// Mathematical view of [Value].
pub enum ValueV {
    Nil,
    Bool(bool),
    Int(i64),
    Float(u64),
    Str(Seq<char>),
    Dict(Seq<(ValueV, ValueV)>),
    List(Seq<ValueV>),
    Ref(Option<usize>),
    Iter(usize),
    Any(Handle),
}

pub open spec fn view_value(v: Value) -> ValueV
    decreases v,
{
    match v {
        Value::Nil => ValueV::Nil,
        Value::Bool(b) => ValueV::Bool(b),
        Value::Int(n) => ValueV::Int(n),
        Value::Float(f) => ValueV::Float(f),
        Value::Str(s) => ValueV::Str(s@),
        Value::Dict(d) => ValueV::Dict(view_pairs(d@)),
        Value::List(l) => ValueV::List(view_values(l@)),
        Value::Ref(r) => ValueV::Ref(r.0),
        Value::Iter(i) => ValueV::Iter(i),
        Value::Any(i) => ValueV::Any(i),
    }
}

pub open spec fn view_values(s: Seq<Value>) -> Seq<ValueV>
    decreases s,
{
    if s.len() == 0 {
        Seq::empty()
    } else {
        view_values(s.drop_last()).push(view_value(s.last()))
    }
}

pub open spec fn view_pairs(s: Seq<(Value, Value)>) -> Seq<(ValueV, ValueV)>
    decreases s,
{
    if s.len() == 0 {
        Seq::empty()
    } else {
        view_pairs(s.drop_last()).push((view_value(s.last().0), view_value(s.last().1)))
    }
}

impl View for Value {
    type V = ValueV;

    open spec fn view(&self) -> ValueV {
        view_value(*self)
    }
}

impl View for Reference {
    type V = Option<usize>;

    open spec fn view(&self) -> Option<usize> {
        self.0
    }
}

pub proof fn lemma_view_values(s: Seq<Value>)
    ensures
        view_values(s).len() == s.len(),
        forall|i: int| 0 <= i < s.len() ==> #[trigger] view_values(s)[i] == view_value(s[i]),
    decreases s.len(),
{
    if s.len() > 0 {
        lemma_view_values(s.drop_last());
    }
}

pub proof fn lemma_view_pairs(s: Seq<(Value, Value)>)
    ensures
        view_pairs(s).len() == s.len(),
        forall|i: int|
            0 <= i < s.len() ==> #[trigger] view_pairs(s)[i] == (
            view_value(s[i].0),
            view_value(s[i].1),
        ),
    decreases s.len(),
{
    if s.len() > 0 {
        lemma_view_pairs(s.drop_last());
    }
}

pub broadcast proof fn lemma_view_values_len(s: Seq<Value>)
    ensures
        #[trigger] view_values(s).len() == s.len(),
{
    lemma_view_values(s);
}

pub broadcast proof fn lemma_view_values_index(s: Seq<Value>, i: int)
    requires
        0 <= i < s.len(),
    ensures
        #[trigger] view_values(s)[i] == view_value(s[i]),
{
    lemma_view_values(s);
}

pub broadcast proof fn lemma_view_pairs_len(s: Seq<(Value, Value)>)
    ensures
        #[trigger] view_pairs(s).len() == s.len(),
{
    lemma_view_pairs(s);
}

pub broadcast proof fn lemma_view_pairs_index(s: Seq<(Value, Value)>, i: int)
    requires
        0 <= i < s.len(),
    ensures
        #[trigger] view_pairs(s)[i] == (view_value(s[i].0), view_value(s[i].1)),
{
    lemma_view_pairs(s);
}

pub broadcast group group_value_views {
    lemma_view_values_len,
    lemma_view_values_index,
    lemma_view_pairs_len,
    lemma_view_pairs_index,
}

impl Reference {
    /// Copy of the reference; both name the same cell.
    pub fn duplicate(&self) -> (r: Reference)
        ensures
            r@ == self@,
    {
        Reference(self.0)
    }

    /// Returns true if the reference is bound to a value.
    pub fn is_empty(&self) -> (r: bool)
        ensures
            r == (self@ is Some),
    {
        self.0.is_some()
    }

    /// Returns true if the reference is not bound to a cell.
    pub fn is_nil(&self) -> (r: bool)
        ensures
            r == (self@ is None),
    {
        self.0.is_none()
    }
}

impl Value {
    /// Copy of the value. References are copied, not the cells they name.
    pub fn duplicate(&self) -> (r: Value)
        ensures
            r@ == self@,
        decreases self,
    {
        broadcast use group_value_views;

        match self {
            Value::Nil => Value::Nil,
            Value::Bool(b) => Value::Bool(*b),
            Value::Int(n) => Value::Int(*n),
            Value::Float(f) => Value::Float(*f),
            Value::Str(s) => Value::Str(s.clone()),
            Value::Dict(d) => {
                let mut out: Vec<(Value, Value)> = Vec::new();
                let mut i: usize = 0;
                while i < d.len()
                    invariant
                        i <= d@.len(),
                        out@.len() == i,
                        *self == Value::Dict(*d),
                        forall|j: int|
                            0 <= j < i ==> view_value(#[trigger] out@[j].0) == view_value(d@[j].0)
                                && view_value(out@[j].1) == view_value(d@[j].1),
                    decreases d@.len() - i,
                {
                    proof {
                        assert(decreases_to!(*self => (*self)->Dict_0));
                        assert(decreases_to!(*d => d@));
                        assert(decreases_to!(d@ => d@[i as int]));
                        assert(decreases_to!(d@[i as int] => d@[i as int].0));
                        assert(decreases_to!(*self => d@[i as int].0));
                        assert(decreases_to!(*self => d@[i as int].1));
                    }
                    let k = d[i].0.duplicate();
                    let v = d[i].1.duplicate();
                    out.push((k, v));
                    i += 1;
                }
                assert(view_pairs(out@) =~= view_pairs(d@));
                Value::Dict(out)
            },
            Value::List(l) => {
                let mut out: Vec<Value> = Vec::new();
                let mut i: usize = 0;
                while i < l.len()
                    invariant
                        i <= l@.len(),
                        out@.len() == i,
                        *self == Value::List(*l),
                        forall|j: int| 0 <= j < i ==> view_value(#[trigger] out@[j]) == view_value(l@[j]),
                    decreases l@.len() - i,
                {
                    proof {
                        assert(decreases_to!(*self => (*self)->List_0));
                        assert(decreases_to!(*l => l@));
                        assert(decreases_to!(l@ => l@[i as int]));
                    }
                    let v = l[i].duplicate();
                    out.push(v);
                    i += 1;
                }
                assert(view_values(out@) =~= view_values(l@));
                Value::List(out)
            },
            Value::Ref(r) => Value::Ref(r.duplicate()),
            Value::Iter(i) => Value::Iter(*i),
            Value::Any(h) => Value::Any(*h),
        }
    }

    /// Returns true if the value is a reference.
    pub fn is_ref(&self) -> (r: bool)
        ensures
            r == (self@ is Ref),
    {
        match self {
            Value::Ref(_) => true,
            _ => false,
        }
    }
}

} // verus!
