//! Conversion of values.

use vstd::prelude::*;
use vstd::string::StringExecFns;

use crate::error::{err_v, ErrorKind, ErrorV, Lovm2Error, Lovm2ErrorTy, Lovm2Result};
use crate::text::{i64_to_string, int_text, parse_i64, parse_i64_spec};

use super::heap::{deref_cell, lemma_deref_cell_end, resolve, Heap};
use super::{view_value, Value, ValueV};

verus! {

broadcast use super::group_value_views;

/// Type of a value as integer.
pub enum ValueType {
    Nil,
    Bool,
    Int,
    Float,
    Str,
    Dict,
    List,
}

/// The integer that stands for a type.
pub open spec fn type_code(t: ValueType) -> u16 {
    match t {
        ValueType::Nil => 0,
        ValueType::Bool => 1,
        ValueType::Int => 2,
        ValueType::Float => 3,
        ValueType::Str => 4,
        ValueType::Dict => 5,
        ValueType::List => 6,
    }
}

/// Error of an operation that a value does not support.
pub open spec fn not_supported() -> ErrorV {
    err_v(ErrorKind::OperationNotSupported, Seq::empty())
}

/// Error of the named operation that a value does not support.
pub open spec fn op_not_supported(op: Seq<char>) -> ErrorV {
    err_v(ErrorKind::OperationNotSupported, op)
}

/// Error of a reference that cannot be borrowed.
pub open spec fn borrow_failed() -> ErrorV {
    ErrorV { ty: None, msg: "value is already borrowed"@ }
}

/// Error of a reference that cannot be followed to a value.
pub open spec fn empty_deref() -> ErrorV {
    ErrorV { ty: None, msg: "dereference on empty"@ }
}

/// Error of a text that is no decimal integer.
pub open spec fn not_an_integer() -> ErrorV {
    ErrorV { ty: None, msg: "not an integer"@ }
}

pub fn error_not_supported() -> (r: Lovm2Error)
    ensures
        r@ == not_supported(),
{
    Lovm2Error::from_ty(Lovm2ErrorTy::OperationNotSupported)
}

pub fn error_op_not_supported(op: &str) -> (r: Lovm2Error)
    ensures
        r@ == op_not_supported(op@),
{
    Lovm2Error::with_msg(Lovm2ErrorTy::OperationNotSupported, op)
}

pub fn error_borrow_failed() -> (r: Lovm2Error)
    ensures
        r@ == borrow_failed(),
{
    Lovm2Error::from_msg("value is already borrowed")
}

pub fn error_empty_deref() -> (r: Lovm2Error)
    ensures
        r@ == empty_deref(),
{
    Lovm2Error::from_msg("dereference on empty")
}

/// Whether `v` stands for a float once its references are followed.
pub open spec fn is_float_v(cells: Seq<ValueV>, v: ValueV) -> bool {
    resolve(cells, v) matches Some(ValueV::Float(_))
}

/// Integer conversion of a value that is not a reference.
pub open spec fn as_int_plain(v: ValueV) -> Result<i64, ErrorV> {
    match v {
        ValueV::Bool(b) => Ok(if b { 1i64 } else { 0i64 }),
        ValueV::Int(n) => Ok(n),
        ValueV::Str(s) => match parse_i64_spec(s) {
            Some(n) => Ok(n),
            None => Err(not_an_integer()),
        },
        _ => Err(not_supported()),
    }
}

/// Integer conversion of a value (`as_integer_inner`).
pub open spec fn as_int_v(cells: Seq<ValueV>, v: ValueV) -> Result<i64, ErrorV> {
    match v {
        ValueV::Ref(r) => match deref_cell(cells, r) {
            Some(i) => as_int_plain(cells[i]),
            None => Err(borrow_failed()),
        },
        _ => as_int_plain(v),
    }
}

/// Truth value of a value that is not a reference.
pub open spec fn as_bool_plain(v: ValueV) -> Result<bool, ErrorV> {
    match v {
        ValueV::Nil => Ok(false),
        ValueV::Float(_) => Ok(false),
        ValueV::Bool(b) => Ok(b),
        ValueV::Int(n) => Ok(n != 0),
        ValueV::Str(s) => Ok(s.len() != 0),
        ValueV::Dict(d) => Ok(d.len() != 0),
        ValueV::List(l) => Ok(l.len() != 0),
        _ => Err(not_supported()),
    }
}

/// Truth value of a value (`as_bool_inner`). A reference that cannot be
/// followed is false.
pub open spec fn as_bool_v(cells: Seq<ValueV>, v: ValueV) -> Result<bool, ErrorV> {
    match v {
        ValueV::Ref(r) => match deref_cell(cells, r) {
            Some(i) => as_bool_plain(cells[i]),
            None => Ok(false),
        },
        _ => as_bool_plain(v),
    }
}

/// Type tag of a value that is not a reference.
pub open spec fn type_of_plain(v: ValueV) -> ValueType {
    match v {
        ValueV::Nil => ValueType::Nil,
        ValueV::Bool(_) => ValueType::Bool,
        ValueV::Int(_) => ValueType::Int,
        ValueV::Float(_) => ValueType::Float,
        ValueV::Str(_) => ValueType::Str,
        ValueV::Dict(_) => ValueType::Dict,
        _ => ValueType::List,
    }
}

/// Whether the type of `v` can be asked for: iterators and host objects have
/// no type tag.
pub open spec fn has_type_tag(cells: Seq<ValueV>, v: ValueV) -> bool {
    match resolve(cells, v) {
        Some(x) => !(x is Iter) && !(x is Any),
        None => true,
    }
}

/// Type tag of a value (`type_id`).
pub open spec fn type_of_v(cells: Seq<ValueV>, v: ValueV) -> Result<ValueType, ErrorV> {
    match v {
        ValueV::Ref(r) => match deref_cell(cells, r) {
            Some(i) => Ok(type_of_plain(cells[i])),
            None => Err(empty_deref()),
        },
        _ => Ok(type_of_plain(v)),
    }
}

impl ValueType {
    /// The type that the integer `tid` stands for.
    pub fn from_raw(tid: u16) -> (r: Lovm2Result<ValueType>)
        ensures
            tid <= 6 ==> (r matches Ok(t) && type_code(t) == tid),
            tid > 6 ==> (r matches Err(e) && e@ == (ErrorV { ty: None, msg: "not a valid type"@ })),
    {
        match tid {
            0 => Ok(ValueType::Nil),
            1 => Ok(ValueType::Bool),
            2 => Ok(ValueType::Int),
            3 => Ok(ValueType::Float),
            4 => Ok(ValueType::Str),
            5 => Ok(ValueType::Dict),
            6 => Ok(ValueType::List),
            _ => Err(Lovm2Error::from_msg("not a valid type")),
        }
    }

    /// The integer that stands for the type.
    pub fn raw(&self) -> (r: u16)
        ensures
            r == type_code(*self),
    {
        match self {
            ValueType::Nil => 0,
            ValueType::Bool => 1,
            ValueType::Int => 2,
            ValueType::Float => 3,
            ValueType::Str => 4,
            ValueType::Dict => 5,
            ValueType::List => 6,
        }
    }

    /// Copy of the type tag.
    pub fn duplicate(&self) -> (r: ValueType)
        ensures
            r == *self,
    {
        match self {
            ValueType::Nil => ValueType::Nil,
            ValueType::Bool => ValueType::Bool,
            ValueType::Int => ValueType::Int,
            ValueType::Float => ValueType::Float,
            ValueType::Str => ValueType::Str,
            ValueType::Dict => ValueType::Dict,
            ValueType::List => ValueType::List,
        }
    }
}

impl Value {
    fn as_int_plain_exec(&self) -> (r: Lovm2Result<i64>)
        ensures
            match (r, as_int_plain(self@)) {
                (Ok(a), Ok(b)) => a == b,
                (Err(a), Err(b)) => a@ == b,
                _ => false,
            },
    {
        match self {
            Value::Bool(b) => Ok(if *b { 1 } else { 0 }),
            Value::Int(n) => Ok(*n),
            Value::Str(s) => match parse_i64(s.as_str()) {
                Some(n) => Ok(n),
                None => Err(Lovm2Error::from_msg("not an integer")),
            },
            _ => Err(error_not_supported()),
        }
    }

    /// Try turning a value into an `i64`. A string is read as a decimal
    /// number; a reference is followed to the value it stands for.
    pub fn as_integer_inner(&self, heap: &Heap) -> (r: Lovm2Result<i64>)
        requires
            !is_float_v(heap.cells_v(), self@),
        ensures
            match (r, as_int_v(heap.cells_v(), self@)) {
                (Ok(a), Ok(b)) => a == b,
                (Err(a), Err(b)) => a@ == b,
                _ => false,
            },
    {
        match self {
            Value::Ref(r) => match heap.deref_index(r) {
                Some(i) => {
                    assert(heap.cells_v()[i as int] == heap.cells@[i as int]@);
                    heap.cells[i].as_int_plain_exec()
                },
                None => Err(error_borrow_failed()),
            },
            _ => self.as_int_plain_exec(),
        }
    }

    /// Try turning a value into `Int`.
    pub fn as_integer(&self, heap: &Heap) -> (r: Lovm2Result<Value>)
        requires
            !is_float_v(heap.cells_v(), self@),
        ensures
            match (r, as_int_v(heap.cells_v(), self@)) {
                (Ok(a), Ok(b)) => a@ == ValueV::Int(b),
                (Err(a), Err(b)) => a@ == b,
                _ => false,
            },
    {
        match self.as_integer_inner(heap) {
            Ok(n) => Ok(Value::Int(n)),
            Err(e) => Err(e),
        }
    }

    fn as_bool_plain_exec(&self) -> (r: Lovm2Result<bool>)
        ensures
            match (r, as_bool_plain(self@)) {
                (Ok(a), Ok(b)) => a == b,
                (Err(a), Err(b)) => a@ == b,
                _ => false,
            },
    {
        match self {
            Value::Nil => Ok(false),
            Value::Float(_) => Ok(false),
            Value::Bool(b) => Ok(*b),
            Value::Int(n) => Ok(*n != 0),
            Value::Str(s) => Ok(s.as_str().unicode_len() != 0),
            Value::Dict(d) => Ok(d.len() != 0),
            Value::List(l) => Ok(l.len() != 0),
            _ => Err(error_not_supported()),
        }
    }

    /// Try turning a value into a `bool`: numbers are true when not zero,
    /// strings and collections when not empty, `Nil` and floats are false.
    pub fn as_bool_inner(&self, heap: &Heap) -> (r: Lovm2Result<bool>)
        ensures
            match (r, as_bool_v(heap.cells_v(), self@)) {
                (Ok(a), Ok(b)) => a == b,
                (Err(a), Err(b)) => a@ == b,
                _ => false,
            },
    {
        match self {
            Value::Ref(r) => match heap.deref_index(r) {
                Some(i) => {
                    assert(heap.cells_v()[i as int] == heap.cells@[i as int]@);
                    heap.cells[i].as_bool_plain_exec()
                },
                None => Ok(false),
            },
            _ => self.as_bool_plain_exec(),
        }
    }

    /// Try turning a value into `Bool`.
    pub fn as_bool(&self, heap: &Heap) -> (r: Lovm2Result<Value>)
        ensures
            match (r, as_bool_v(heap.cells_v(), self@)) {
                (Ok(a), Ok(b)) => a@ == ValueV::Bool(b),
                (Err(a), Err(b)) => a@ == b,
                _ => false,
            },
    {
        match self.as_bool_inner(heap) {
            Ok(b) => Ok(Value::Bool(b)),
            Err(e) => Err(e),
        }
    }

    fn type_of_plain_exec(&self) -> (r: ValueType)
        requires
            !(self@ is Iter),
            !(self@ is Any),
        ensures
            r == type_of_plain(self@),
    {
        match self {
            Value::Nil => ValueType::Nil,
            Value::Bool(_) => ValueType::Bool,
            Value::Int(_) => ValueType::Int,
            Value::Float(_) => ValueType::Float,
            Value::Str(_) => ValueType::Str,
            Value::Dict(_) => ValueType::Dict,
            _ => ValueType::List,
        }
    }

    /// Return the [ValueType] of this value, following references.
    pub fn type_id(&self, heap: &Heap) -> (r: Lovm2Result<ValueType>)
        requires
            has_type_tag(heap.cells_v(), self@),
        ensures
            match (r, type_of_v(heap.cells_v(), self@)) {
                (Ok(a), Ok(b)) => a == b,
                (Err(a), Err(b)) => a@ == b,
                _ => false,
            },
    {
        match self {
            Value::Ref(r) => match heap.deref_index(r) {
                Some(i) => {
                    proof {
                        lemma_deref_cell_end(heap.cells_v(), r@);
                    }
                    assert(heap.cells_v()[i as int] == heap.cells@[i as int]@);
                    Ok(heap.cells[i].type_of_plain_exec())
                },
                None => Err(error_empty_deref()),
            },
            _ => Ok(self.type_of_plain_exec()),
        }
    }
}

} // verus!
