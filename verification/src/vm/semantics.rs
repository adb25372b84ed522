//! What one bytecode instruction does to the state of the machine.

use vstd::prelude::*;

use crate::code::{Callable, CodeObject, Instruction};
use crate::error::{ErrorKind, ErrorV};
use crate::module::slots::slot_get;
use crate::value::conv::{as_bool_v, as_int_v, is_float_v, not_supported};
use crate::value::data::{box_spec, get_ok, get_spec, len_spec, set_spec, update_ok};
use crate::value::eq::{value_eq, EQ_DEPTH};
use crate::value::heap::resolve;
use crate::value::iter::{
    has_next_spec, next_ok, next_spec, ranged_spec, reverse_ok, reverse_spec, IterKindV, IterV,
};
use crate::value::op::{arith_ok, arith_spec, compare_ok, compare_spec, float_operands, not_spec, pow_ok, pow_spec, Arith, Order};
use crate::value::ValueV;

use super::context::{frames_empty, lookup_failed, stack_empty, var_get, var_set, ContextV, FrameV};

verus! {

/// Why the machine stops where the running program would panic.
#[derive(Clone, Copy, PartialEq, Eq, Structural)]
pub enum Fault {
    /// An operand names no entry of the code object's tables.
    IndexOutOfRange,
    /// A reference that had to be followed points nowhere.
    EmptyDeref,
    /// A local call names no function of the code object.
    NoEntry,
    /// Integer arithmetic overflows or divides by zero.
    Overflow,
    /// A comparison nests deeper than the machine allows.
    TooDeep,
    /// A collection update would hash an unhashable key, index past the end
    /// of a list or borrow a cell that is already borrowed.
    InvalidUpdate,
    /// A dictionary lookup would hash an unhashable key.
    NotHashable,
    /// A range without bounds was requested.
    Unimplemented,
    /// An iterator over a value was reversed away from its ends.
    IteratorMoved,
}

/// Mathematical view of a step's outcome.
pub enum StepV {
    Next,
    Jump(usize),
    Return,
    Call { argn: u8, callable: Callable },
    LocalCall { argn: u8, offset: usize },
    Interrupt(u16),
    Import { name: Seq<char>, namespaced: bool },
    Host,
    Abort(Fault),
}

/// State and outcome of a step.
pub type Outcome = (ContextV, Result<StepV, ErrorV>);

pub open spec fn with_stack(c: ContextV, s: Seq<ValueV>) -> ContextV {
    ContextV { vstack: s, ..c }
}

pub open spec fn pushed(c: ContextV, v: ValueV) -> ContextV {
    with_stack(c, c.vstack.push(v))
}

pub open spec fn popped(c: ContextV) -> ContextV {
    with_stack(c, c.vstack.drop_last())
}

pub open spec fn go_on(c: ContextV) -> Outcome {
    (c, Ok(StepV::Next))
}

pub open spec fn fail(c: ContextV, e: ErrorV) -> Outcome {
    (c, Err(e))
}

pub open spec fn halt(c: ContextV, f: Fault) -> Outcome {
    (c, Ok(StepV::Abort(f)))
}

pub open spec fn to_host(c: ContextV) -> Outcome {
    (c, Ok(StepV::Host))
}

/// Error of a value that should have been an iterator.
pub open spec fn not_an_iterator() -> ErrorV {
    ErrorV { ty: None, msg: "expected an iterator"@ }
}

/// Error of a `Set` whose target is not a reference.
pub open spec fn bad_set_target() -> ErrorV {
    ErrorV { ty: None, msg: "cannot use value as set target"@ }
}

/// Error of a type code that names no type.
pub open spec fn invalid_type() -> ErrorV {
    ErrorV { ty: None, msg: "not a valid type"@ }
}

/// Error of the given kind without message.
pub open spec fn kind_error(k: ErrorKind) -> ErrorV {
    ErrorV { ty: Some(k), msg: Seq::empty() }
}

/// The content of the cell a reference names directly.
pub open spec fn deref_once(cells: Seq<ValueV>, v: ValueV) -> Option<ValueV> {
    match v {
        ValueV::Ref(Some(i)) => if i < cells.len() {
            Some(cells[i as int])
        } else {
            None
        },
        _ => None,
    }
}

/// The value a chain of references ends at; a chain stops at an empty
/// reference, which is then the result.
pub open spec fn deref_total(cells: Seq<ValueV>, v: ValueV) -> ValueV
    decreases
            match v {
                ValueV::Ref(Some(i)) => i as int + 1,
                _ => 0,
            },
{
    match v {
        ValueV::Ref(Some(i)) => if i < cells.len() {
            match cells[i as int] {
                ValueV::Ref(Some(j)) => if j < i {
                    deref_total(cells, cells[i as int])
                } else {
                    cells[i as int]
                },
                other => other,
            }
        } else {
            v
        },
        _ => v,
    }
}

/// Offset of the first entry of the code that names identifier `g`.
pub open spec fn entry_find(entries: Seq<(usize, usize)>, g: int, i: int) -> Option<usize>
    decreases entries.len() - i,
{
    if i < 0 || i >= entries.len() {
        None
    } else if entries[i].0 == g {
        Some(entries[i].1)
    } else {
        entry_find(entries, g, i + 1)
    }
}

pub open spec fn lpush_spec(c: ContextV, name: Seq<char>) -> Outcome {
    if c.frames.len() == 0 {
        fail(c, frames_empty())
    } else {
        match var_get(c.frames.last().locals, name) {
            Some(v) => go_on(pushed(c, v)),
            None => fail(c, lookup_failed(name)),
        }
    }
}

pub open spec fn gpush_spec(c: ContextV, name: Seq<char>) -> Outcome {
    match var_get(c.globals, name) {
        Some(v) => go_on(pushed(c, v)),
        None => fail(c, lookup_failed(name)),
    }
}

pub open spec fn lmove_spec(c: ContextV, name: Seq<char>) -> Outcome {
    if c.vstack.len() == 0 {
        fail(c, stack_empty())
    } else {
        let c1 = popped(c);
        let v = c.vstack.last();
        if c1.frames.len() == 0 {
            fail(c1, frames_empty())
        } else {
            let f = c1.frames.last();
            go_on(
                ContextV {
                    frames: c1.frames.update(
                        c1.frames.len() - 1,
                        FrameV { argn: f.argn, locals: var_set(f.locals, name, v) },
                    ),
                    ..c1
                },
            )
        }
    }
}

pub open spec fn gmove_spec(c: ContextV, name: Seq<char>) -> Outcome {
    if c.vstack.len() == 0 {
        fail(c, stack_empty())
    } else {
        let c1 = popped(c);
        go_on(ContextV { globals: var_set(c1.globals, name, c.vstack.last()), ..c1 })
    }
}

pub open spec fn drop_spec(c: ContextV) -> Outcome {
    if c.vstack.len() == 0 {
        fail(c, stack_empty())
    } else {
        go_on(popped(c))
    }
}

pub open spec fn dup_spec(c: ContextV) -> Outcome {
    if c.vstack.len() == 0 {
        fail(c, stack_empty())
    } else {
        go_on(pushed(c, c.vstack.last()))
    }
}

/// Whether the operator computes with floats when given floats.
pub open spec fn numeric_op(op: Arith) -> bool {
    op is Add || op is Sub || op is Mul || op is Div || op is Rem
}

/// A binary operator: the top value is the second operand, the one below
/// it the first; the result replaces the first.
pub open spec fn binary_spec(c: ContextV, op: Arith) -> Outcome {
    let s = c.vstack;
    if s.len() == 0 {
        fail(c, stack_empty())
    } else if s.len() == 1 {
        fail(popped(c), stack_empty())
    } else {
        let a = s[s.len() - 2];
        let b = s[s.len() - 1];
        if numeric_op(op) && float_operands(a, b) {
            to_host(c)
        } else if !arith_ok(op, a, b) {
            halt(c, Fault::Overflow)
        } else {
            match arith_spec(op, a, b) {
                Ok(v) => go_on(with_stack(c, s.drop_last().update(s.len() - 2, v))),
                Err(e) => fail(popped(c), e),
            }
        }
    }
}

/// Whether raising to a power needs float arithmetic.
pub open spec fn pow_host(cells: Seq<ValueV>, base: ValueV, exp: ValueV) -> bool {
    is_float_v(cells, exp) || (base is Float && as_int_v(cells, exp) is Ok)
}

pub open spec fn pow_vm_spec(c: ContextV) -> Outcome {
    let s = c.vstack;
    if s.len() == 0 {
        fail(c, stack_empty())
    } else if s.len() == 1 {
        fail(popped(c), stack_empty())
    } else {
        let a = s[s.len() - 2];
        let b = s[s.len() - 1];
        if pow_host(c.cells, a, b) {
            to_host(c)
        } else if !pow_ok(c.cells, a, b) {
            halt(c, Fault::Overflow)
        } else {
            match pow_spec(c.cells, a, b) {
                Ok(v) => go_on(with_stack(c, s.drop_last().update(s.len() - 2, v))),
                Err(e) => fail(popped(c), e),
            }
        }
    }
}

pub open spec fn not_vm_spec(c: ContextV) -> Outcome {
    if c.vstack.len() == 0 {
        fail(c, stack_empty())
    } else {
        let c1 = popped(c);
        match not_spec(c.vstack.last()) {
            Ok(v) => go_on(pushed(c1, v)),
            Err(e) => fail(c1, e),
        }
    }
}

/// `Eq` (or `Ne` with `negate`): pops two values and pushes whether they
/// are equal.
pub open spec fn eq_vm_spec(c: ContextV, negate: bool) -> Outcome {
    let s = c.vstack;
    if s.len() == 0 {
        fail(c, stack_empty())
    } else if s.len() == 1 {
        fail(popped(c), stack_empty())
    } else {
        let c2 = popped(popped(c));
        match value_eq(c.cells, s[s.len() - 2], s[s.len() - 1], EQ_DEPTH as nat) {
            None => halt(c2, Fault::TooDeep),
            Some(b) => go_on(pushed(c2, ValueV::Bool(b != negate))),
        }
    }
}

/// Whether an order satisfies the comparison instruction.
pub open spec fn order_holds(inx: Instruction, o: Option<Order>) -> bool {
    match inx {
        Instruction::Lt => o == Some(Order::Less),
        Instruction::Le => o == Some(Order::Less) || o == Some(Order::Equal),
        Instruction::Gt => o == Some(Order::Greater),
        _ => o == Some(Order::Greater) || o == Some(Order::Equal),
    }
}

/// Whether one of two values is a reference that points nowhere.
pub open spec fn broken_ref(cells: Seq<ValueV>, a: ValueV) -> bool {
    a is Ref && resolve(cells, a) is None
}

pub open spec fn order_vm_spec(c: ContextV, inx: Instruction) -> Outcome {
    let s = c.vstack;
    if s.len() == 0 {
        fail(c, stack_empty())
    } else if s.len() == 1 {
        fail(popped(c), stack_empty())
    } else {
        let a = s[s.len() - 2];
        let b = s[s.len() - 1];
        if !compare_ok(c.cells, a, b) {
            if broken_ref(c.cells, a) || broken_ref(c.cells, b) {
                halt(c, Fault::EmptyDeref)
            } else {
                to_host(c)
            }
        } else {
            go_on(pushed(popped(popped(c)), ValueV::Bool(order_holds(inx, compare_spec(c.cells, a, b)))))
        }
    }
}

pub open spec fn jump_if_spec(c: ContextV, target: u16, when: bool) -> Outcome {
    if c.vstack.len() == 0 {
        fail(c, stack_empty())
    } else {
        let c1 = popped(c);
        match as_bool_v(c.cells, c.vstack.last()) {
            Ok(b) => (c1, Ok(if b == when { StepV::Jump(target as usize) } else { StepV::Next })),
            Err(e) => fail(c1, e),
        }
    }
}

pub open spec fn cast_spec(c: ContextV, tid: u16) -> Outcome {
    let s = c.vstack;
    if s.len() == 0 {
        fail(c, stack_empty())
    } else {
        let v = s.last();
        if tid == 1 {
            match as_bool_v(c.cells, v) {
                Ok(b) => go_on(with_stack(c, s.update(s.len() - 1, ValueV::Bool(b)))),
                Err(e) => fail(c, e),
            }
        } else if tid == 2 {
            if is_float_v(c.cells, v) {
                to_host(c)
            } else {
                match as_int_v(c.cells, v) {
                    Ok(n) => go_on(with_stack(c, s.update(s.len() - 1, ValueV::Int(n)))),
                    Err(e) => fail(c, e),
                }
            }
        } else if tid == 3 || tid == 4 {
            to_host(c)
        } else if tid <= 6 {
            fail(c, not_supported())
        } else {
            fail(c, invalid_type())
        }
    }
}

pub open spec fn import_spec(c: ContextV, namespaced: bool) -> Outcome {
    if c.vstack.len() == 0 {
        fail(c, stack_empty())
    } else {
        match resolve(c.cells, c.vstack.last()) {
            Some(ValueV::Str(name)) => (popped(c), Ok(StepV::Import { name, namespaced })),
            _ => to_host(c),
        }
    }
}

pub open spec fn box_vm_spec(c: ContextV) -> Outcome {
    if c.vstack.len() == 0 {
        fail(c, stack_empty())
    } else {
        let c1 = popped(c);
        let (cells2, b) = box_spec(c1.cells, c.vstack.last());
        go_on(pushed(ContextV { cells: cells2, ..c1 }, b))
    }
}

/// Outcome of a lookup that would panic: a dictionary hashes the key, a
/// string or list would convert a float key.
pub open spec fn lookup_blocked(c: ContextV, obj: ValueV) -> Outcome {
    if resolve(c.cells, obj) matches Some(ValueV::Dict(_)) {
        halt(c, Fault::NotHashable)
    } else {
        to_host(c)
    }
}

pub open spec fn get_vm_spec(c: ContextV) -> Outcome {
    let s = c.vstack;
    if s.len() == 0 {
        fail(c, stack_empty())
    } else if s.len() == 1 {
        fail(popped(c), stack_empty())
    } else {
        let obj = s[s.len() - 2];
        let key = s[s.len() - 1];
        if !get_ok(c.cells, obj, key) {
            lookup_blocked(c, obj)
        } else {
            let c2 = popped(popped(c));
            match get_spec(c.cells, obj, key) {
                Err(e) => fail(c2, e),
                Ok(v) => match deref_once(c.cells, v) {
                    Some(x) => go_on(pushed(c2, x)),
                    None => halt(c2, Fault::EmptyDeref),
                },
            }
        }
    }
}

/// `RGet`: like `Get` without following the result, but a missing key is
/// first stored with a new cell holding `Nil`.
pub open spec fn rget_vm_spec(c: ContextV) -> Outcome {
    let s = c.vstack;
    if s.len() == 0 {
        fail(c, stack_empty())
    } else if s.len() == 1 {
        fail(popped(c), stack_empty())
    } else {
        let obj = s[s.len() - 2];
        let key = s[s.len() - 1];
        if !get_ok(c.cells, obj, key) {
            lookup_blocked(c, obj)
        } else {
            let c2 = popped(popped(c));
            match get_spec(c.cells, obj, key) {
                Ok(v) => go_on(pushed(c2, v)),
                Err(e) => if e.ty != Some(ErrorKind::KeyNotFound) {
                    fail(c2, e)
                } else {
                    let (cells1, nil_ref) = box_spec(c.cells, ValueV::Nil);
                    let c3 = ContextV { cells: cells1, ..c2 };
                    if !update_ok(cells1, obj, key, true) {
                        halt(c3, Fault::InvalidUpdate)
                    } else {
                        let (cells2, obj2, res) = set_spec(cells1, obj, key, nil_ref);
                        let c4 = ContextV { cells: cells2, ..c2 };
                        match res {
                            Err(e2) => fail(c4, e2),
                            Ok(_) => if !get_ok(cells2, obj2, key) {
                                halt(c4, Fault::NotHashable)
                            } else {
                                match get_spec(cells2, obj2, key) {
                                    Ok(v2) => go_on(pushed(c4, v2)),
                                    Err(e3) => fail(c4, e3),
                                }
                            },
                        }
                    }
                },
            }
        }
    }
}

/// `Set`: the value on top, followed through its references, is written
/// into the cell that the reference below it names.
pub open spec fn set_vm_spec(c: ContextV) -> Outcome {
    let s = c.vstack;
    if s.len() == 0 {
        fail(c, stack_empty())
    } else if s.len() == 1 {
        fail(popped(c), stack_empty())
    } else {
        let val = s[s.len() - 1];
        let target = s[s.len() - 2];
        let c2 = popped(popped(c));
        match target {
            ValueV::Ref(Some(i)) => if i < c.cells.len() {
                go_on(ContextV { cells: c.cells.update(i as int, deref_total(c.cells, val)), ..c2 })
            } else {
                halt(c2, Fault::IndexOutOfRange)
            },
            _ => fail(c2, bad_set_target()),
        }
    }
}

/// Items of `target` at the integer keys `from` up to `to` exclusive; the
/// first failing lookup ends the slice with its error.
pub open spec fn slice_items(cells: Seq<ValueV>, target: ValueV, from: i64, to: i64) -> Result<Seq<ValueV>, ErrorV>
    decreases to - from,
{
    if from >= to {
        Ok(Seq::empty())
    } else {
        match get_spec(cells, target, ValueV::Int(from)) {
            Err(e) => Err(e),
            Ok(v) => match slice_items(cells, target, (from + 1) as i64, to) {
                Ok(rest) => Ok(seq![v] + rest),
                Err(e) => Err(e),
            },
        }
    }
}

/// Cells and result of slicing `target` between two integer bounds.
pub open spec fn slice_between(cells: Seq<ValueV>, target: ValueV, f: i64, t: i64) -> (Seq<ValueV>, Result<ValueV, ErrorV>) {
    match slice_items(cells, target, f, t) {
        Err(e) => (cells, Err(e)),
        Ok(items) => {
            let (c2, r) = box_spec(cells, ValueV::List(items));
            (c2, Ok(r))
        },
    }
}

/// Cells and result of slicing `target` from `start` to `end`; `Nil` bounds
/// stand for the start and the length. The slice is a new list in a new
/// cell.
pub open spec fn create_slice_spec(cells: Seq<ValueV>, target: ValueV, start: ValueV, end: ValueV) -> (
    Seq<ValueV>,
    Result<ValueV, ErrorV>,
) {
    let from = if start is Nil {
        Ok(0i64)
    } else {
        as_int_v(cells, start)
    };
    match from {
        Err(e) => (cells, Err(e)),
        Ok(f) => {
            let to = if end is Nil {
                match len_spec(cells, target) {
                    Ok(n) => Ok(n as i64),
                    Err(e) => Err(e),
                }
            } else {
                as_int_v(cells, end)
            };
            match to {
                Err(e) => (cells, Err(e)),
                Ok(t) => slice_between(cells, target, f, t),
            }
        },
    }
}

/// Whether a bound of a slice or range is a float.
pub open spec fn float_bound(cells: Seq<ValueV>, v: ValueV) -> bool {
    !(v is Nil) && is_float_v(cells, v)
}

pub open spec fn slice_vm_spec(c: ContextV) -> Outcome {
    let s = c.vstack;
    if s.len() == 0 {
        fail(c, stack_empty())
    } else if s.len() == 1 {
        fail(popped(c), stack_empty())
    } else if s.len() == 2 {
        fail(popped(popped(c)), stack_empty())
    } else {
        let end = s[s.len() - 1];
        let start = s[s.len() - 2];
        let target = s[s.len() - 3];
        if float_bound(c.cells, start) || float_bound(c.cells, end) {
            to_host(c)
        } else {
            let c3 = popped(popped(popped(c)));
            let (cells2, r) = create_slice_spec(c.cells, target, start, end);
            match r {
                Ok(v) => go_on(pushed(ContextV { cells: cells2, ..c3 }, v)),
                Err(e) => fail(ContextV { cells: cells2, ..c3 }, e),
            }
        }
    }
}

/// Put a new iterator into the table and a value naming it on the stack.
pub open spec fn push_iter(c: ContextV, it: IterV) -> Outcome {
    go_on(pushed(ContextV { iters: c.iters.push(it), ..c }, ValueV::Iter(c.iters.len() as usize)))
}

pub open spec fn iter_create_spec(c: ContextV) -> Outcome {
    if c.vstack.len() == 0 {
        fail(c, stack_empty())
    } else {
        let v = c.vstack.last();
        if v is Iter {
            go_on(c)
        } else {
            let c1 = popped(c);
            match len_spec(c.cells, v) {
                Ok(_) => push_iter(c1, IterV { current: 0, reversed: false, ty: IterKindV::Over(v) }),
                Err(e) => fail(c1, e),
            }
        }
    }
}

pub open spec fn iter_ranged_spec(c: ContextV) -> Outcome {
    let s = c.vstack;
    if s.len() == 0 {
        fail(c, stack_empty())
    } else if s.len() == 1 {
        fail(popped(c), stack_empty())
    } else {
        let to = s[s.len() - 1];
        let from = s[s.len() - 2];
        if float_bound(c.cells, from) || float_bound(c.cells, to) {
            to_host(c)
        } else {
            let c2 = popped(popped(c));
            if from is Nil && to is Nil {
                halt(c2, Fault::Unimplemented)
            } else if from is Nil {
                match as_int_v(c.cells, to) {
                    Ok(t) => push_iter(c2, IterV { current: 0, reversed: false, ty: IterKindV::Limit(t) }),
                    Err(e) => fail(c2, e),
                }
            } else if to is Nil {
                match as_int_v(c.cells, from) {
                    Ok(f) => push_iter(c2, IterV { current: f, reversed: false, ty: IterKindV::Open }),
                    Err(e) => fail(c2, e),
                }
            } else {
                match as_int_v(c.cells, from) {
                    Err(e) => fail(c2, e),
                    Ok(f) => match as_int_v(c.cells, to) {
                        Ok(t) => push_iter(c2, ranged_spec(f, t)),
                        Err(e) => fail(c2, e),
                    },
                }
            }
        }
    }
}

pub open spec fn iter_has_next_spec(c: ContextV) -> Outcome {
    if c.vstack.len() == 0 {
        fail(c, stack_empty())
    } else {
        let c1 = popped(c);
        match c.vstack.last() {
            ValueV::Iter(i) => if i < c.iters.len() {
                let (cells2, b) = has_next_spec(c.cells, c.iters[i as int]);
                go_on(pushed(ContextV { cells: cells2, ..c1 }, ValueV::Bool(b)))
            } else {
                halt(c1, Fault::IndexOutOfRange)
            },
            _ => fail(c1, not_an_iterator()),
        }
    }
}

pub open spec fn iter_next_spec(c: ContextV) -> Outcome {
    if c.vstack.len() == 0 {
        fail(c, stack_empty())
    } else {
        let c1 = popped(c);
        match c.vstack.last() {
            ValueV::Iter(i) => if i >= c.iters.len() {
                halt(c1, Fault::IndexOutOfRange)
            } else if !next_ok(c.cells, c.iters[i as int]) {
                halt(c1, Fault::Overflow)
            } else {
                let (cells2, it2, res) = next_spec(c.cells, c.iters[i as int]);
                let c2 = ContextV { cells: cells2, iters: c.iters.update(i as int, it2), ..c1 };
                match res {
                    Ok(x) => go_on(pushed(c2, x)),
                    Err(e) => fail(c2, e),
                }
            },
            _ => fail(c1, not_an_iterator()),
        }
    }
}

pub open spec fn iter_reverse_spec(c: ContextV) -> Outcome {
    if c.vstack.len() == 0 {
        fail(c, stack_empty())
    } else {
        let c1 = popped(c);
        match c.vstack.last() {
            ValueV::Iter(i) => if i >= c.iters.len() {
                halt(c1, Fault::IndexOutOfRange)
            } else if !reverse_ok(c.cells, c.iters[i as int]) {
                halt(c1, Fault::IteratorMoved)
            } else {
                push_iter(c1, reverse_spec(c.cells, c.iters[i as int]))
            },
            _ => fail(c1, not_an_iterator()),
        }
    }
}

/// Outcome of the instruction at `ip` of `co` on the state `c`, with the
/// callable functions `scope`. Past the end of the code the function
/// returns.
pub open spec fn step_spec(c: ContextV, scope: Seq<(crate::var::Variable, Callable)>, co: CodeObject, ip: int) -> Outcome {
    if ip < 0 || ip >= co.code@.len() {
        (c, Ok(StepV::Return))
    } else {
        let ids = co.idents@;
        match co.code@[ip] {
            Instruction::LPush(l) => if l < ids.len() {
                lpush_spec(c, ids[l as int]@)
            } else {
                halt(c, Fault::IndexOutOfRange)
            },
            Instruction::GPush(g) => if g < ids.len() {
                gpush_spec(c, ids[g as int]@)
            } else {
                halt(c, Fault::IndexOutOfRange)
            },
            Instruction::CPush(k) => if k < co.consts@.len() {
                go_on(pushed(c, co.consts@[k as int]@))
            } else {
                halt(c, Fault::IndexOutOfRange)
            },
            Instruction::LMove(l) => if l < ids.len() {
                lmove_spec(c, ids[l as int]@)
            } else {
                halt(c, Fault::IndexOutOfRange)
            },
            Instruction::GMove(g) => if g < ids.len() {
                gmove_spec(c, ids[g as int]@)
            } else {
                halt(c, Fault::IndexOutOfRange)
            },
            Instruction::Drop => drop_spec(c),
            Instruction::Dup => dup_spec(c),
            Instruction::Get => get_vm_spec(c),
            Instruction::RGet => rget_vm_spec(c),
            Instruction::Store => set_vm_spec(c),
            Instruction::Add => binary_spec(c, Arith::Add),
            Instruction::Sub => binary_spec(c, Arith::Sub),
            Instruction::Mul => binary_spec(c, Arith::Mul),
            Instruction::Div => binary_spec(c, Arith::Div),
            Instruction::Rem => binary_spec(c, Arith::Rem),
            Instruction::Shl => binary_spec(c, Arith::Shl),
            Instruction::Shr => binary_spec(c, Arith::Shr),
            Instruction::And => binary_spec(c, Arith::And),
            Instruction::Or => binary_spec(c, Arith::Or),
            Instruction::XOr => binary_spec(c, Arith::XOr),
            Instruction::Pow => pow_vm_spec(c),
            Instruction::Not => not_vm_spec(c),
            Instruction::Eq => eq_vm_spec(c, false),
            Instruction::Ne => eq_vm_spec(c, true),
            Instruction::Ge => order_vm_spec(c, Instruction::Ge),
            Instruction::Gt => order_vm_spec(c, Instruction::Gt),
            Instruction::Le => order_vm_spec(c, Instruction::Le),
            Instruction::Lt => order_vm_spec(c, Instruction::Lt),
            Instruction::Jmp(t) => (c, Ok(StepV::Jump(t as usize))),
            Instruction::Jt(t) => jump_if_spec(c, t, true),
            Instruction::Jf(t) => jump_if_spec(c, t, false),
            Instruction::Call(argn, g) => if g < ids.len() {
                match slot_get(scope, ids[g as int]@) {
                    Some(callable) => (c, Ok(StepV::Call { argn, callable })),
                    None => fail(c, lookup_failed(ids[g as int]@)),
                }
            } else {
                halt(c, Fault::IndexOutOfRange)
            },
            Instruction::LCall(argn, g) => match entry_find(co.entries@, g as int, 0) {
                Some(offset) => (c, Ok(StepV::LocalCall { argn, offset })),
                None => halt(c, Fault::NoEntry),
            },
            Instruction::Ret => (c, Ok(StepV::Return)),
            Instruction::Interrupt(n) => (c, Ok(StepV::Interrupt(n))),
            Instruction::Cast(tid) => cast_spec(c, tid),
            Instruction::Import => import_spec(c, false),
            Instruction::NImport => import_spec(c, true),
            Instruction::Box => box_vm_spec(c),
            Instruction::Slice => slice_vm_spec(c),
            Instruction::IterCreate => iter_create_spec(c),
            Instruction::IterCreateRanged => iter_ranged_spec(c),
            Instruction::IterHasNext => iter_has_next_spec(c),
            Instruction::IterNext => iter_next_spec(c),
            Instruction::IterReverse => iter_reverse_spec(c),
        }
    }
}

} // verus!
