//! Execution of single bytecode instructions.

use vstd::prelude::*;
use vstd::string::StringExecFns;

use crate::code::{Callable, CodeObject, Instruction};
use crate::error::{ErrorV, Lovm2Error, Lovm2ErrorTy, Lovm2Result};
use crate::value::conv::{error_not_supported, is_float_v, as_int_v};
use crate::value::data::{item_count, len_spec, lemma_get_by_index_facts, get_by_index_spec};
use crate::value::eq::EQ_DEPTH;
use crate::value::guard::{arith_allowed, float_pair};
use crate::value::heap::{resolve, Heap};
use crate::value::iter::{next_ok, next_spec, reverse_ok, advance_ok, limit_has_next, Iter, IterType, IterV, IterKindV};
use crate::value::op::{checked_int_pow, pow_ok, fits_i64, int_pow, Arith, Order};
use crate::value::{view_values, Reference, Value, ValueV};
use crate::var::Variable;

use super::context::{frames_v, iters_v, pairs_v, set_var, values_v, Context, ContextV};
use super::semantics::{
    binary_spec, box_vm_spec, popped, broken_ref, cast_spec, deref_total, dup_spec, eq_vm_spec, get_vm_spec,
    gmove_spec, gpush_spec, import_spec, jump_if_spec, lmove_spec, lookup_blocked, lpush_spec,
    not_vm_spec, order_holds, create_slice_spec, slice_between, float_bound, slice_items, slice_vm_spec, push_iter,
    iter_create_spec, iter_ranged_spec, iter_has_next_spec, iter_next_spec, iter_reverse_spec,
    not_an_iterator, step_spec, entry_find, drop_spec, order_vm_spec, pow_host, pow_vm_spec, rget_vm_spec, set_vm_spec, Fault,
    StepV,
};

verus! {

broadcast use crate::value::group_value_views;

/// What the machine does after an instruction.
pub enum Step {
    /// Continue with the next instruction.
    Next,
    /// Continue at the given offset.
    Jump(usize),
    /// Leave the current function.
    Return,
    /// Call a function with a new frame for the given number of arguments.
    Call { argn: u8, callable: Callable },
    /// Call the function of the same code at the given offset.
    LocalCall { argn: u8, offset: usize },
    /// Run the host's interrupt handler with the given number.
    Interrupt(u16),
    /// Load the named module; with `namespaced` its functions keep the
    /// module's name as prefix only.
    Import { name: String, namespaced: bool },
    /// The instruction computes with floats or prints a value: the host runs
    /// it on the unchanged state.
    Host,
    /// The running program would panic here.
    Abort(Fault),
}

impl View for Step {
    type V = StepV;

    open spec fn view(&self) -> StepV {
        match self {
            Step::Next => StepV::Next,
            Step::Jump(t) => StepV::Jump(*t),
            Step::Return => StepV::Return,
            Step::Call { argn, callable } => StepV::Call { argn: *argn, callable: *callable },
            Step::LocalCall { argn, offset } => StepV::LocalCall { argn: *argn, offset: *offset },
            Step::Interrupt(n) => StepV::Interrupt(*n),
            Step::Import { name, namespaced } => StepV::Import { name: name@, namespaced: *namespaced },
            Step::Host => StepV::Host,
            Step::Abort(f) => StepV::Abort(*f),
        }
    }
}

/// View of a step's result.
pub open spec fn outcome(r: Lovm2Result<Step>) -> Result<StepV, ErrorV> {
    match r {
        Ok(s) => Ok(s@),
        Err(e) => Err(e@),
    }
}

/// Whether the callable functions, modules and entry point are unchanged.
pub open spec fn env_kept(a: Context, b: Context) -> bool {
    a.scope == b.scope && a.modules == b.modules && a.entry == b.entry
}

/// Number of items of a string, dictionary or list behind `v`.
fn item_count_exec(heap: &Heap, v: &Value) -> (r: usize)
    ensures
        r == item_count(heap.cells_v(), v@),
{
    match heap.resolve_value(v) {
        Some(x) => match x {
            Value::Str(s) => {
                assert(x@ == ValueV::Str(s@));
                s.as_str().unicode_len()
            },
            Value::Dict(d) => {
                assert(x@ == ValueV::Dict(crate::value::view_pairs(d@)));
                d.len()
            },
            Value::List(l) => {
                assert(x@ == ValueV::List(view_values(l@)));
                l.len()
            },
            _ => 0,
        },
        None => 0,
    }
}

/// Whether `next` on the iterator runs without a panic.
fn next_allowed(it: &Iter, heap: &Heap) -> (r: bool)
    ensures
        r == next_ok(heap.cells_v(), it@),
{
    let advance = if it.reversed {
        it.current > i64::MIN
    } else {
        it.current < i64::MAX
    };
    let yields = match &it.ty {
        IterType::Limit(l) => if !it.reversed {
            it.current < *l
        } else {
            it.current >= *l
        },
        IterType::Open => true,
        IterType::Over(v) => {
            proof {
                lemma_get_by_index_facts(heap.cells_v(), v@, it.current as usize);
            }
            (it.current as usize) < item_count_exec(heap, v)
        },
    };
    !yields || advance
}

/// Whether `reverse` on the iterator runs without a panic.
fn reverse_allowed(it: &Iter, heap: &Heap) -> (r: bool)
    ensures
        r == reverse_ok(heap.cells_v(), it@),
{
    match &it.ty {
        IterType::Limit(l) => if !it.reversed {
            *l > i64::MIN
        } else {
            it.current < i64::MAX
        },
        IterType::Open => true,
        IterType::Over(v) => match v.len(heap) {
            Ok(n) => {
                let m = n as i64;
                m > i64::MIN && (it.current == 0 || it.current == m - 1)
            },
            Err(_) => false,
        },
    }
}

/// Whether raising `base` to `exp` needs float arithmetic.
fn pow_needs_host(heap: &Heap, base: &Value, exp: &Value) -> (r: bool)
    ensures
        r == pow_host(heap.cells_v(), base@, exp@),
{
    if heap.is_float(exp) {
        return true;
    }
    match base {
        Value::Float(_) => exp.as_integer_inner(heap).is_ok(),
        _ => false,
    }
}

/// Whether raising `base` to `exp` runs without a panic and without floats.
pub fn pow_allowed(heap: &Heap, base: &Value, exp: &Value) -> (r: bool)
    ensures
        r == pow_ok(heap.cells_v(), base@, exp@),
{
    if heap.is_float(exp) {
        return false;
    }
    match exp.as_integer_inner(heap) {
        Ok(e) => match base {
            Value::Int(x) => checked_int_pow(*x, e as u32).is_some(),
            Value::Float(_) => false,
            _ => true,
        },
        Err(_) => true,
    }
}

/// The value a chain of references ends at (see [deref_total]).
fn deref_total_exec(heap: &Heap, v: Value) -> (r: Value)
    ensures
        r@ == deref_total(heap.cells_v(), v@),
{
    let ghost cells = heap.cells_v();
    let mut cur = v;
    loop
        invariant
            cells == heap.cells_v(),
            deref_total(cells, cur@) == deref_total(cells, v@),
        decreases
                match cur@ {
                    ValueV::Ref(Some(i)) => i as int + 1,
                    _ => 0,
                },
    {
        let i = match &cur {
            Value::Ref(Reference(Some(i))) => *i,
            _ => {
                return cur;
            },
        };
        if i >= heap.cells.len() {
            return cur;
        }
        assert(cells[i as int] == heap.cells@[i as int]@);
        let next = heap.cells[i].duplicate();
        match &next {
            Value::Ref(Reference(Some(j))) => {
                if *j < i {
                    cur = next;
                } else {
                    return next;
                }
            },
            _ => {
                return next;
            },
        }
    }
}

/// Offset of the first entry of `co` for identifier `g`.
fn find_entry(co: &CodeObject, g: usize) -> (r: Option<usize>)
    ensures
        r == entry_find(co.entries@, g as int, 0),
{
    let mut i: usize = 0;
    while i < co.entries.len()
        invariant
            i <= co.entries@.len(),
            entry_find(co.entries@, g as int, i as int) == entry_find(co.entries@, g as int, 0),
        decreases co.entries@.len() - i,
    {
        if co.entries[i].0 == g {
            return Some(co.entries[i].1);
        }
        i += 1;
    }
    None
}

/// Whether `v` is a reference that points nowhere.
fn broken(heap: &Heap, v: &Value) -> (r: bool)
    ensures
        r == broken_ref(heap.cells_v(), v@),
{
    v.is_ref() && heap.resolve_value(v).is_none()
}

/// Whether the order satisfies the comparison instruction.
fn holds(inx: Instruction, o: Option<Order>) -> (r: bool)
    ensures
        r == order_holds(inx, o),
{
    match inx {
        Instruction::Lt => matches!(o, Some(Order::Less)),
        Instruction::Le => matches!(o, Some(Order::Less) | Some(Order::Equal)),
        Instruction::Gt => matches!(o, Some(Order::Greater)),
        _ => matches!(o, Some(Order::Greater) | Some(Order::Equal)),
    }
}

impl Context {
    fn err_stack() -> (r: Lovm2Error)
        ensures
            r@ == crate::vm::context::stack_empty(),
    {
        Lovm2Error::from_ty(Lovm2ErrorTy::ValueStackEmpty)
    }

    /// Remove the top value of a stack known not to be empty.
    fn pop_known(&mut self) -> (r: Value)
        requires
            old(self).vstack@.len() > 0,
        ensures
            r@ == old(self)@.vstack.last(),
            final(self)@ == popped(old(self)@),
            final(self).vstack@ == old(self).vstack@.drop_last(),
            env_kept(*old(self), *final(self)),
    {
        let n = self.vstack.len();
        let v = self.vstack.remove(n - 1);
        assert(self@.vstack =~= old(self)@.vstack.drop_last());
        v
    }

    fn lpush(&mut self, name: &Variable) -> (r: Lovm2Result<Step>)
        ensures
            (final(self)@, outcome(r)) == lpush_spec(old(self)@, name@),
            env_kept(*old(self), *final(self)),
    {
        let n = self.lstack.len();
        if n == 0 {
            return Err(Lovm2Error::from_ty(Lovm2ErrorTy::FrameStackEmpty));
        }
        assert(self@.frames.last() == self.lstack@[n - 1]@);
        let v = match self.lstack[n - 1].value_of(name.as_ref()) {
            Ok(v) => v.duplicate(),
            Err(e) => {
                return Err(e);
            },
        };
        self.push_value(v);
        Ok(Step::Next)
    }

    fn gpush(&mut self, name: &Variable) -> (r: Lovm2Result<Step>)
        ensures
            (final(self)@, outcome(r)) == gpush_spec(old(self)@, name@),
            env_kept(*old(self), *final(self)),
    {
        let v = match self.value_of(name.as_ref()) {
            Ok(v) => v.duplicate(),
            Err(e) => {
                return Err(e);
            },
        };
        self.push_value(v);
        Ok(Step::Next)
    }

    fn lmove(&mut self, name: &Variable) -> (r: Lovm2Result<Step>)
        ensures
            (final(self)@, outcome(r)) == lmove_spec(old(self)@, name@),
            env_kept(*old(self), *final(self)),
    {
        let v = match self.pop_value() {
            Ok(v) => v,
            Err(e) => {
                return Err(e);
            },
        };
        let ghost c1 = self@;
        let n = self.lstack.len();
        if n == 0 {
            return Err(Lovm2Error::from_ty(Lovm2ErrorTy::FrameStackEmpty));
        }
        let mut f = self.lstack.remove(n - 1);
        assert(f@ == c1.frames.last());
        f.set_local(name.as_ref(), v);
        self.lstack.push(f);
        assert(frames_v(self.lstack@) =~= c1.frames.update(c1.frames.len() - 1, f@));
        Ok(Step::Next)
    }

    fn gmove(&mut self, name: &Variable) -> (r: Lovm2Result<Step>)
        ensures
            (final(self)@, outcome(r)) == gmove_spec(old(self)@, name@),
            env_kept(*old(self), *final(self)),
    {
        let v = match self.pop_value() {
            Ok(v) => v,
            Err(e) => {
                return Err(e);
            },
        };
        set_var(&mut self.globals, name.0.clone(), v);
        Ok(Step::Next)
    }

    fn dup(&mut self) -> (r: Lovm2Result<Step>)
        ensures
            (final(self)@, outcome(r)) == dup_spec(old(self)@),
            env_kept(*old(self), *final(self)),
    {
        let n = self.vstack.len();
        if n == 0 {
            return Err(Context::err_stack());
        }
        assert(self@.vstack.last() == self.vstack@[n - 1]@);
        let v = self.vstack[n - 1].duplicate();
        self.push_value(v);
        Ok(Step::Next)
    }

    fn binary(&mut self, op: Arith) -> (r: Lovm2Result<Step>)
        ensures
            (final(self)@, outcome(r)) == binary_spec(old(self)@, op),
            env_kept(*old(self), *final(self)),
    {
        let n = self.vstack.len();
        if n < 2 {
            let _ = self.pop_value();
            return Err(Context::err_stack());
        }
        assert(self@.vstack[n - 2] == self.vstack@[n - 2]@ && self@.vstack[n - 1] == self.vstack@[n - 1]@);
        let numeric = match op {
            Arith::Add | Arith::Sub | Arith::Mul | Arith::Div | Arith::Rem => true,
            _ => false,
        };
        if numeric && float_pair(&self.vstack[n - 2], &self.vstack[n - 1]) {
            return Ok(Step::Host);
        }
        if !arith_allowed(&op, &self.vstack[n - 2], &self.vstack[n - 1]) {
            return Ok(Step::Abort(Fault::Overflow));
        }
        let ghost c = self@;
        let b = self.pop_known();
        let a = self.pop_known();
        let keep = a.duplicate();
        match Value::arith(op, a, b) {
            Ok(v) => {
                self.push_value(v);
                assert(self@.vstack =~= c.vstack.drop_last().update(c.vstack.len() - 2, v@));
                Ok(Step::Next)
            },
            Err(e) => {
                self.push_value(keep);
                assert(self@.vstack =~= c.vstack.drop_last());
                Err(e)
            },
        }
    }

    fn pow(&mut self) -> (r: Lovm2Result<Step>)
        ensures
            (final(self)@, outcome(r)) == pow_vm_spec(old(self)@),
            env_kept(*old(self), *final(self)),
    {
        let n = self.vstack.len();
        if n < 2 {
            let _ = self.pop_value();
            return Err(Context::err_stack());
        }
        assert(self@.vstack[n - 2] == self.vstack@[n - 2]@ && self@.vstack[n - 1] == self.vstack@[n - 1]@);
        if pow_needs_host(&self.heap, &self.vstack[n - 2], &self.vstack[n - 1]) {
            return Ok(Step::Host);
        }
        if !pow_allowed(&self.heap, &self.vstack[n - 2], &self.vstack[n - 1]) {
            return Ok(Step::Abort(Fault::Overflow));
        }
        let ghost c = self@;
        let b = self.pop_known();
        let a = self.pop_known();
        match a.pow(&self.heap, b) {
            Ok(v) => {
                self.push_value(v);
                assert(self@.vstack =~= c.vstack.drop_last().update(c.vstack.len() - 2, v@));
                Ok(Step::Next)
            },
            Err(e) => {
                self.push_value(a);
                assert(self@.vstack =~= c.vstack.drop_last());
                Err(e)
            },
        }
    }

    fn not(&mut self) -> (r: Lovm2Result<Step>)
        ensures
            (final(self)@, outcome(r)) == not_vm_spec(old(self)@),
            env_kept(*old(self), *final(self)),
    {
        let v = match self.pop_value() {
            Ok(v) => v,
            Err(e) => {
                return Err(e);
            },
        };
        match Value::negate(v) {
            Ok(x) => {
                self.push_value(x);
                Ok(Step::Next)
            },
            Err(e) => Err(e),
        }
    }

    fn equality(&mut self, negate: bool) -> (r: Lovm2Result<Step>)
        ensures
            (final(self)@, outcome(r)) == eq_vm_spec(old(self)@, negate),
            env_kept(*old(self), *final(self)),
    {
        let n = self.vstack.len();
        if n < 2 {
            let _ = self.pop_value();
            return Err(Context::err_stack());
        }
        let ghost c = self@;
        let b = self.pop_known();
        let a = self.pop_known();
        assert(a@ == c.vstack[c.vstack.len() - 2]);
        match a.equals(&self.heap, &b, EQ_DEPTH) {
            None => Ok(Step::Abort(Fault::TooDeep)),
            Some(e) => {
                self.push_value(Value::Bool(e != negate));
                Ok(Step::Next)
            },
        }
    }

    fn order(&mut self, inx: Instruction) -> (r: Lovm2Result<Step>)
        ensures
            (final(self)@, outcome(r)) == order_vm_spec(old(self)@, inx),
            env_kept(*old(self), *final(self)),
    {
        let n = self.vstack.len();
        if n < 2 {
            let _ = self.pop_value();
            return Err(Context::err_stack());
        }
        assert(self@.vstack[n - 2] == self.vstack@[n - 2]@ && self@.vstack[n - 1] == self.vstack@[n - 1]@);
        if !self.heap.compare_allowed(&self.vstack[n - 2], &self.vstack[n - 1]) {
            if broken(&self.heap, &self.vstack[n - 2]) || broken(&self.heap, &self.vstack[n - 1]) {
                return Ok(Step::Abort(Fault::EmptyDeref));
            }
            return Ok(Step::Host);
        }
        let b = self.pop_known();
        let a = self.pop_known();
        let o = a.compare(&self.heap, &b);
        self.push_value(Value::Bool(holds(inx, o)));
        Ok(Step::Next)
    }

    fn jump_if(&mut self, target: u16, when: bool) -> (r: Lovm2Result<Step>)
        ensures
            (final(self)@, outcome(r)) == jump_if_spec(old(self)@, target, when),
            env_kept(*old(self), *final(self)),
    {
        let v = match self.pop_value() {
            Ok(v) => v,
            Err(e) => {
                return Err(e);
            },
        };
        match v.as_bool_inner(&self.heap) {
            Ok(b) => if b == when {
                Ok(Step::Jump(target as usize))
            } else {
                Ok(Step::Next)
            },
            Err(e) => Err(e),
        }
    }

    fn cast(&mut self, tid: u16) -> (r: Lovm2Result<Step>)
        ensures
            (final(self)@, outcome(r)) == cast_spec(old(self)@, tid),
            env_kept(*old(self), *final(self)),
    {
        let n = self.vstack.len();
        if n == 0 {
            return Err(Context::err_stack());
        }
        assert(self@.vstack[n - 1] == self.vstack@[n - 1]@);
        let ghost c = self@;
        if tid == 1 {
            match self.vstack[n - 1].as_bool(&self.heap) {
                Ok(v) => {
                    self.vstack.set(n - 1, v);
                    assert(self@.vstack =~= c.vstack.update(n - 1, v@));
                    Ok(Step::Next)
                },
                Err(e) => Err(e),
            }
        } else if tid == 2 {
            if self.heap.is_float(&self.vstack[n - 1]) {
                return Ok(Step::Host);
            }
            match self.vstack[n - 1].as_integer(&self.heap) {
                Ok(v) => {
                    self.vstack.set(n - 1, v);
                    assert(self@.vstack =~= c.vstack.update(n - 1, v@));
                    Ok(Step::Next)
                },
                Err(e) => Err(e),
            }
        } else if tid == 3 || tid == 4 {
            Ok(Step::Host)
        } else if tid <= 6 {
            Err(error_not_supported())
        } else {
            Err(Lovm2Error::from_msg("not a valid type"))
        }
    }

    fn import(&mut self, namespaced: bool) -> (r: Lovm2Result<Step>)
        ensures
            (final(self)@, outcome(r)) == import_spec(old(self)@, namespaced),
            env_kept(*old(self), *final(self)),
    {
        let n = self.vstack.len();
        if n == 0 {
            return Err(Context::err_stack());
        }
        assert(self@.vstack[n - 1] == self.vstack@[n - 1]@);
        let name = match self.heap.resolve_value(&self.vstack[n - 1]) {
            Some(Value::Str(s)) => s.clone(),
            _ => {
                return Ok(Step::Host);
            },
        };
        let _ = self.pop_value();
        Ok(Step::Import { name, namespaced })
    }

    fn boxing(&mut self) -> (r: Lovm2Result<Step>)
        ensures
            (final(self)@, outcome(r)) == box_vm_spec(old(self)@),
            env_kept(*old(self), *final(self)),
    {
        let v = match self.pop_value() {
            Ok(v) => v,
            Err(e) => {
                return Err(e);
            },
        };
        let b = self.heap.box_value(v);
        self.push_value(b);
        Ok(Step::Next)
    }

    /// Outcome of a lookup that would panic.
    fn blocked(&self, obj: &Value) -> (r: Lovm2Result<Step>)
        ensures
            (self@, outcome(r)) == lookup_blocked(self@, obj@),
    {
        match self.heap.resolve_value(obj) {
            Some(Value::Dict(_)) => Ok(Step::Abort(Fault::NotHashable)),
            _ => Ok(Step::Host),
        }
    }

    fn get(&mut self) -> (r: Lovm2Result<Step>)
        ensures
            (final(self)@, outcome(r)) == get_vm_spec(old(self)@),
            env_kept(*old(self), *final(self)),
    {
        let n = self.vstack.len();
        if n < 2 {
            let _ = self.pop_value();
            return Err(Context::err_stack());
        }
        assert(self@.vstack[n - 2] == self.vstack@[n - 2]@ && self@.vstack[n - 1] == self.vstack@[n - 1]@);
        if !self.heap.get_allowed(&self.vstack[n - 2], &self.vstack[n - 1]) {
            return self.blocked(&self.vstack[n - 2]);
        }
        let key = self.pop_known();
        let obj = self.pop_known();
        match obj.get(&self.heap, &key) {
            Err(e) => Err(e),
            Ok(v) => {
                let i = match &v {
                    Value::Ref(Reference(Some(i))) => *i,
                    _ => {
                        return Ok(Step::Abort(Fault::EmptyDeref));
                    },
                };
                if i >= self.heap.cells.len() {
                    return Ok(Step::Abort(Fault::EmptyDeref));
                }
                assert(self.heap.cells_v()[i as int] == self.heap.cells@[i as int]@);
                let x = self.heap.cells[i].duplicate();
                self.push_value(x);
                Ok(Step::Next)
            },
        }
    }

    fn rget(&mut self) -> (r: Lovm2Result<Step>)
        ensures
            (final(self)@, outcome(r)) == rget_vm_spec(old(self)@),
            env_kept(*old(self), *final(self)),
    {
        let n = self.vstack.len();
        if n < 2 {
            let _ = self.pop_value();
            return Err(Context::err_stack());
        }
        assert(self@.vstack[n - 2] == self.vstack@[n - 2]@ && self@.vstack[n - 1] == self.vstack@[n - 1]@);
        if !self.heap.get_allowed(&self.vstack[n - 2], &self.vstack[n - 1]) {
            return self.blocked(&self.vstack[n - 2]);
        }
        let key = self.pop_known();
        let mut obj = self.pop_known();
        match obj.get(&self.heap, &key) {
            Ok(v) => {
                self.push_value(v);
                Ok(Step::Next)
            },
            Err(e) => {
                if !e.is_key_not_found() {
                    return Err(e);
                }
                let nil_ref = self.heap.box_value(Value::Nil);
                if !self.heap.update_allowed(&obj, &key, true) {
                    return Ok(Step::Abort(Fault::InvalidUpdate));
                }
                match obj.set(&mut self.heap, &key, nil_ref) {
                    Err(e2) => Err(e2),
                    Ok(_) => {
                        if !self.heap.get_allowed(&obj, &key) {
                            return Ok(Step::Abort(Fault::NotHashable));
                        }
                        match obj.get(&self.heap, &key) {
                            Ok(v2) => {
                                self.push_value(v2);
                                Ok(Step::Next)
                            },
                            Err(e3) => Err(e3),
                        }
                    },
                }
            },
        }
    }

    fn store(&mut self) -> (r: Lovm2Result<Step>)
        ensures
            (final(self)@, outcome(r)) == set_vm_spec(old(self)@),
            env_kept(*old(self), *final(self)),
    {
        let n = self.vstack.len();
        if n < 2 {
            let _ = self.pop_value();
            return Err(Context::err_stack());
        }
        let ghost c = self@;
        let val = self.pop_known();
        let target = self.pop_known();
        let v2 = deref_total_exec(&self.heap, val);
        match target {
            Value::Ref(Reference(Some(i))) => {
                if i < self.heap.cells.len() {
                    self.heap.cells.set(i, v2);
                    assert(self.heap.cells_v() =~= c.cells.update(i as int, v2@));
                    Ok(Step::Next)
                } else {
                    Ok(Step::Abort(Fault::IndexOutOfRange))
                }
            },
            _ => Err(Lovm2Error::from_msg("cannot use value as set target")),
        }
    }

    /// Slice of `target` from `start` to `end` (see [create_slice_spec]).
    fn create_slice(&mut self, target: &Value, start: &Value, end: &Value) -> (r: Lovm2Result<Value>)
        requires
            !float_bound(old(self)@.cells, start@),
            !float_bound(old(self)@.cells, end@),
        ensures
            ({
                let (cells2, res) = create_slice_spec(old(self)@.cells, target@, start@, end@);
                &&& final(self)@ == (ContextV { cells: cells2, ..old(self)@ })
                &&& match (r, res) {
                    (Ok(a), Ok(b)) => a@ == b,
                    (Err(a), Err(b)) => a@ == b,
                    _ => false,
                }
            }),
            env_kept(*old(self), *final(self)),
    {
        let ghost cells = self@.cells;
        let from: i64 = match start {
            Value::Nil => 0,
            _ => match start.as_integer_inner(&self.heap) {
                Ok(n) => n,
                Err(e) => {
                    return Err(e);
                },
            },
        };
        let to: i64 = match end {
            Value::Nil => match target.len(&self.heap) {
                Ok(n) => n as i64,
                Err(e) => {
                    return Err(e);
                },
            },
            _ => match end.as_integer_inner(&self.heap) {
                Ok(n) => n,
                Err(e) => {
                    return Err(e);
                },
            },
        };
        let mut items: Vec<Value> = Vec::new();
        let mut idx: i64 = from;
        while idx < to
            invariant
                cells == self@.cells,
                self@ == old(self)@,
                env_kept(*old(self), *self),
                create_slice_spec(cells, target@, start@, end@) == slice_between(cells, target@, from, to),
                from <= idx,
                idx <= to || from >= to,
                slice_items(cells, target@, from, to) == match slice_items(cells, target@, idx, to) {
                    Ok(rest) => Ok(view_values(items@) + rest),
                    Err(e) => Err(e),
                },
            decreases to - idx,
        {
            match target.get(&self.heap, &Value::Int(idx)) {
                Ok(v) => {
                    let ghost before = view_values(items@);
                    items.push(v);
                    proof {
                        assert(view_values(items@) =~= before.push(v@));
                        match slice_items(cells, target@, (idx + 1) as i64, to) {
                            Ok(rest) => {
                                assert(before + (seq![v@] + rest) =~= view_values(items@) + rest);
                            },
                            Err(_) => {},
                        }
                    }
                },
                Err(e) => {
                    return Err(e);
                },
            }
            idx += 1;
        }
        assert(view_values(items@) + Seq::<ValueV>::empty() =~= view_values(items@));
        Ok(self.heap.box_value(Value::List(items)))
    }

    fn slice(&mut self) -> (r: Lovm2Result<Step>)
        ensures
            (final(self)@, outcome(r)) == slice_vm_spec(old(self)@),
            env_kept(*old(self), *final(self)),
    {
        let n = self.vstack.len();
        if n < 3 {
            let _ = self.pop_value();
            let _ = self.pop_value();
            return Err(Context::err_stack());
        }
        assert(self@.vstack[n - 2] == self.vstack@[n - 2]@ && self@.vstack[n - 1] == self.vstack@[n - 1]@);
        let start_float = match &self.vstack[n - 2] {
            Value::Nil => false,
            v => self.heap.is_float(v),
        };
        let end_float = match &self.vstack[n - 1] {
            Value::Nil => false,
            v => self.heap.is_float(v),
        };
        if start_float || end_float {
            return Ok(Step::Host);
        }
        let end = self.pop_known();
        let start = self.pop_known();
        let target = self.pop_known();
        match self.create_slice(&target, &start, &end) {
            Ok(v) => {
                self.push_value(v);
                Ok(Step::Next)
            },
            Err(e) => Err(e),
        }
    }

    /// Put a new iterator into the table and a value naming it on the stack.
    fn push_iter(&mut self, it: Iter) -> (r: Lovm2Result<Step>)
        ensures
            (final(self)@, outcome(r)) == push_iter(old(self)@, it@),
            env_kept(*old(self), *final(self)),
    {
        let idx = self.iters.len();
        self.iters.push(it);
        assert(iters_v(self.iters@) =~= iters_v(old(self).iters@).push(it@));
        self.push_value(Value::Iter(idx));
        Ok(Step::Next)
    }

    fn iter_create(&mut self) -> (r: Lovm2Result<Step>)
        ensures
            (final(self)@, outcome(r)) == iter_create_spec(old(self)@),
            env_kept(*old(self), *final(self)),
    {
        let n = self.vstack.len();
        if n == 0 {
            return Err(Context::err_stack());
        }
        assert(self@.vstack[n - 1] == self.vstack@[n - 1]@);
        if let Value::Iter(_) = &self.vstack[n - 1] {
            return Ok(Step::Next);
        }
        let v = self.pop_known();
        match v.iter(&self.heap, &self.iters) {
            Ok(it) => self.push_iter(it),
            Err(e) => Err(e),
        }
    }

    fn iter_ranged(&mut self) -> (r: Lovm2Result<Step>)
        ensures
            (final(self)@, outcome(r)) == iter_ranged_spec(old(self)@),
            env_kept(*old(self), *final(self)),
    {
        let n = self.vstack.len();
        if n < 2 {
            let _ = self.pop_value();
            return Err(Context::err_stack());
        }
        assert(self@.vstack[n - 2] == self.vstack@[n - 2]@ && self@.vstack[n - 1] == self.vstack@[n - 1]@);
        let from_float = match &self.vstack[n - 2] {
            Value::Nil => false,
            v => self.heap.is_float(v),
        };
        let to_float = match &self.vstack[n - 1] {
            Value::Nil => false,
            v => self.heap.is_float(v),
        };
        if from_float || to_float {
            return Ok(Step::Host);
        }
        let to = self.pop_known();
        let from = self.pop_known();
        match (&from, &to) {
            (Value::Nil, Value::Nil) => Ok(Step::Abort(Fault::Unimplemented)),
            (Value::Nil, _) => match to.as_integer_inner(&self.heap) {
                Ok(t) => self.push_iter(Iter::ranged_to(t)),
                Err(e) => Err(e),
            },
            (_, Value::Nil) => match from.as_integer_inner(&self.heap) {
                Ok(f) => self.push_iter(Iter::ranged_from(f)),
                Err(e) => Err(e),
            },
            _ => {
                let f = match from.as_integer_inner(&self.heap) {
                    Ok(f) => f,
                    Err(e) => {
                        return Err(e);
                    },
                };
                match to.as_integer_inner(&self.heap) {
                    Ok(t) => self.push_iter(Iter::ranged(f, t)),
                    Err(e) => Err(e),
                }
            },
        }
    }

    /// Pop the value naming an iterator and return its position in the table.
    fn pop_iter(&mut self) -> (r: Result<Option<usize>, Lovm2Error>)
        ensures
            env_kept(*old(self), *final(self)),
            old(self)@.vstack.len() == 0 ==> (r matches Err(e) && e@ == crate::vm::context::stack_empty() && final(self)@ == old(self)@),
            old(self)@.vstack.len() > 0 ==> {
                &&& final(self)@ == popped(old(self)@)
                &&& match old(self)@.vstack.last() {
                    ValueV::Iter(i) => if i < old(self)@.iters.len() {
                        r == Ok::<Option<usize>, Lovm2Error>(Some(i))
                    } else {
                        r == Ok::<Option<usize>, Lovm2Error>(None)
                    },
                    _ => r matches Err(e) && e@ == not_an_iterator(),
                }
            },
    {
        let v = match self.pop_value() {
            Ok(v) => v,
            Err(e) => {
                return Err(e);
            },
        };
        match v {
            Value::Iter(i) => if i < self.iters.len() {
                Ok(Some(i))
            } else {
                Ok(None)
            },
            _ => Err(Lovm2Error::from_msg("expected an iterator")),
        }
    }

    fn iter_has_next(&mut self) -> (r: Lovm2Result<Step>)
        ensures
            (final(self)@, outcome(r)) == iter_has_next_spec(old(self)@),
            env_kept(*old(self), *final(self)),
    {
        let i = match self.pop_iter() {
            Ok(Some(i)) => i,
            Ok(None) => {
                return Ok(Step::Abort(Fault::IndexOutOfRange));
            },
            Err(e) => {
                return Err(e);
            },
        };
        assert(self@.iters[i as int] == self.iters@[i as int]@);
        let b = self.iters[i].has_next(&mut self.heap);
        self.push_value(Value::Bool(b));
        Ok(Step::Next)
    }

    fn iter_next(&mut self) -> (r: Lovm2Result<Step>)
        ensures
            (final(self)@, outcome(r)) == iter_next_spec(old(self)@),
            env_kept(*old(self), *final(self)),
    {
        let i = match self.pop_iter() {
            Ok(Some(i)) => i,
            Ok(None) => {
                return Ok(Step::Abort(Fault::IndexOutOfRange));
            },
            Err(e) => {
                return Err(e);
            },
        };
        assert(self@.iters[i as int] == self.iters@[i as int]@);
        if !next_allowed(&self.iters[i], &self.heap) {
            return Ok(Step::Abort(Fault::Overflow));
        }
        let ghost c1 = self@;
        let mut it = self.iters[i].duplicate();
        let res = it.next(&mut self.heap);
        self.iters.set(i, it);
        assert(iters_v(self.iters@) =~= c1.iters.update(i as int, it@));
        match res {
            Ok(x) => {
                self.push_value(x);
                Ok(Step::Next)
            },
            Err(e) => Err(e),
        }
    }

    fn iter_reverse(&mut self) -> (r: Lovm2Result<Step>)
        ensures
            (final(self)@, outcome(r)) == iter_reverse_spec(old(self)@),
            env_kept(*old(self), *final(self)),
    {
        let i = match self.pop_iter() {
            Ok(Some(i)) => i,
            Ok(None) => {
                return Ok(Step::Abort(Fault::IndexOutOfRange));
            },
            Err(e) => {
                return Err(e);
            },
        };
        assert(self@.iters[i as int] == self.iters@[i as int]@);
        if !reverse_allowed(&self.iters[i], &self.heap) {
            return Ok(Step::Abort(Fault::IteratorMoved));
        }
        let it = self.iters[i].duplicate().reverse(&self.heap);
        self.push_iter(it)
    }

    /// Run the instruction at `ip` of `co`. Work that needs the host (calls,
    /// interrupts, imports, floats) is handed back as the [Step].
    pub fn step(&mut self, co: &CodeObject, ip: usize) -> (r: Lovm2Result<Step>)
        ensures
            (final(self)@, outcome(r)) == step_spec(old(self)@, old(self).scope@, *co, ip as int),
            env_kept(*old(self), *final(self)),
    {
        if ip >= co.code.len() {
            return Ok(Step::Return);
        }
        let nids = co.idents.len();
        match co.code[ip] {
            Instruction::LPush(l) => if (l as usize) < nids {
                self.lpush(&co.idents[l as usize])
            } else {
                Ok(Step::Abort(Fault::IndexOutOfRange))
            },
            Instruction::GPush(g) => if (g as usize) < nids {
                self.gpush(&co.idents[g as usize])
            } else {
                Ok(Step::Abort(Fault::IndexOutOfRange))
            },
            Instruction::CPush(k) => if (k as usize) < co.consts.len() {
                let v = co.consts[k as usize].duplicate();
                self.push_value(v);
                Ok(Step::Next)
            } else {
                Ok(Step::Abort(Fault::IndexOutOfRange))
            },
            Instruction::LMove(l) => if (l as usize) < nids {
                self.lmove(&co.idents[l as usize])
            } else {
                Ok(Step::Abort(Fault::IndexOutOfRange))
            },
            Instruction::GMove(g) => if (g as usize) < nids {
                self.gmove(&co.idents[g as usize])
            } else {
                Ok(Step::Abort(Fault::IndexOutOfRange))
            },
            Instruction::Drop => match self.pop_value() {
                Ok(_) => Ok(Step::Next),
                Err(e) => Err(e),
            },
            Instruction::Dup => self.dup(),
            Instruction::Get => self.get(),
            Instruction::RGet => self.rget(),
            Instruction::Store => self.store(),
            Instruction::Add => self.binary(Arith::Add),
            Instruction::Sub => self.binary(Arith::Sub),
            Instruction::Mul => self.binary(Arith::Mul),
            Instruction::Div => self.binary(Arith::Div),
            Instruction::Rem => self.binary(Arith::Rem),
            Instruction::Shl => self.binary(Arith::Shl),
            Instruction::Shr => self.binary(Arith::Shr),
            Instruction::And => self.binary(Arith::And),
            Instruction::Or => self.binary(Arith::Or),
            Instruction::XOr => self.binary(Arith::XOr),
            Instruction::Pow => self.pow(),
            Instruction::Not => self.not(),
            Instruction::Eq => self.equality(false),
            Instruction::Ne => self.equality(true),
            Instruction::Ge => self.order(Instruction::Ge),
            Instruction::Gt => self.order(Instruction::Gt),
            Instruction::Le => self.order(Instruction::Le),
            Instruction::Lt => self.order(Instruction::Lt),
            Instruction::Jmp(t) => Ok(Step::Jump(t as usize)),
            Instruction::Jt(t) => self.jump_if(t, true),
            Instruction::Jf(t) => self.jump_if(t, false),
            Instruction::Call(argn, g) => if (g as usize) < nids {
                match self.lookup_code_object(&co.idents[g as usize]) {
                    Ok(callable) => Ok(Step::Call { argn, callable }),
                    Err(e) => Err(e),
                }
            } else {
                Ok(Step::Abort(Fault::IndexOutOfRange))
            },
            Instruction::LCall(argn, g) => match find_entry(co, g as usize) {
                Some(offset) => Ok(Step::LocalCall { argn, offset }),
                None => Ok(Step::Abort(Fault::NoEntry)),
            },
            Instruction::Ret => Ok(Step::Return),
            Instruction::Interrupt(n) => Ok(Step::Interrupt(n)),
            Instruction::Cast(tid) => self.cast(tid),
            Instruction::Import => self.import(false),
            Instruction::NImport => self.import(true),
            Instruction::Box => self.boxing(),
            Instruction::Slice => self.slice(),
            Instruction::IterCreate => self.iter_create(),
            Instruction::IterCreateRanged => self.iter_ranged(),
            Instruction::IterHasNext => self.iter_has_next(),
            Instruction::IterNext => self.iter_next(),
            Instruction::IterReverse => self.iter_reverse(),
        }
    }
}

} // verus!
