//! The standard optimizer: folding of constants and conditions, and removal
//! of code that cannot run.

use vstd::prelude::*;

use crate::code::Instruction;
use crate::lir::{lir_v, LirElement, LirV, Operator, Operator1, Operator2};
use crate::value::conv::as_bool_v;
use crate::value::eq::{value_eq, EQ_DEPTH};
use crate::value::guard::arith_allowed;
use crate::value::heap::Heap;
use crate::value::op::{arith_ok, arith_spec, compare_ok, compare_spec, pow_ok, pow_spec, Arith};
use crate::value::{Value, ValueV};
use crate::vm::exec::pow_allowed;
use crate::vm::semantics::order_holds;

use super::Optimizer;

verus! {

broadcast use crate::value::group_value_views;

/// Operator of the values for an arithmetic operator of the code.
pub open spec fn arith_of(op: Operator2) -> Option<Arith> {
    match op {
        Operator2::Add => Some(Arith::Add),
        Operator2::Sub => Some(Arith::Sub),
        Operator2::Mul => Some(Arith::Mul),
        Operator2::Div => Some(Arith::Div),
        Operator2::Rem => Some(Arith::Rem),
        Operator2::And => Some(Arith::And),
        Operator2::Or => Some(Arith::Or),
        _ => None,
    }
}

/// Comparison instruction for a comparing operator of the code.
pub open spec fn order_of(op: Operator2) -> Instruction {
    match op {
        Operator2::GreaterThan => Instruction::Gt,
        Operator2::LessEqual => Instruction::Le,
        Operator2::LessThan => Instruction::Lt,
        _ => Instruction::Ge,
    }
}

/// Value of `l op r` computed ahead of time, or `None` where it is not
/// folded: the operands do not support the operator, the result would need
/// floats or overflow, or a comparison nests too deep.
pub open spec fn fold_const(op: Operator2, l: ValueV, r: ValueV) -> Option<ValueV> {
    let none = Seq::<ValueV>::empty();
    match arith_of(op) {
        Some(a) => if arith_ok(a, l, r) {
            match arith_spec(a, l, r) {
                Ok(v) => Some(v),
                Err(_) => None,
            }
        } else {
            None
        },
        None => match op {
            Operator2::Pow => if pow_ok(none, l, r) {
                match pow_spec(none, l, r) {
                    Ok(v) => Some(v),
                    Err(_) => None,
                }
            } else {
                None
            },
            Operator2::Equal => match value_eq(none, l, r, EQ_DEPTH as nat) {
                Some(b) => Some(ValueV::Bool(b)),
                None => None,
            },
            Operator2::NotEqual => match value_eq(none, l, r, EQ_DEPTH as nat) {
                Some(b) => Some(ValueV::Bool(!b)),
                None => None,
            },
            _ => if compare_ok(none, l, r) {
                Some(ValueV::Bool(order_holds(order_of(op), compare_spec(none, l, r))))
            } else {
                None
            },
        },
    }
}

/// One rewrite at the end of the code, or `None` where none applies:
/// `Not` before a conditional jump flips the condition; a constant before a
/// conditional jump makes it unconditional or removes it; two constants
/// before a binary operator are folded into one.
pub open spec fn rewrite(code: Seq<LirV>) -> Option<Seq<LirV>> {
    let n = code.len();
    if n < 2 {
        None
    } else {
        match code[n - 1] {
            LirV::Jump { condition: Some(c), label } => match code[n - 2] {
                LirV::Operation(Operator::Operator1(Operator1::Not)) => Some(
                    code.take(n - 2).push(LirV::Jump { condition: Some(!c), label }),
                ),
                LirV::PushConstant { value } => match as_bool_v(Seq::empty(), value) {
                    Ok(b) => if b == c {
                        Some(code.take(n - 2).push(LirV::Jump { condition: None, label }))
                    } else {
                        Some(code.take(n - 2))
                    },
                    Err(_) => None,
                },
                _ => None,
            },
            LirV::Operation(Operator::Operator2(op)) => if n < 3 {
                None
            } else {
                match (code[n - 3], code[n - 2]) {
                    (LirV::PushConstant { value: l }, LirV::PushConstant { value: r }) => match fold_const(op, l, r) {
                        Some(v) => Some(code.take(n - 3).push(LirV::PushConstant { value: v })),
                        None => None,
                    },
                    _ => None,
                }
            },
            _ => None,
        }
    }
}

/// The code after rewriting its end as long as a rewrite applies.
pub open spec fn transform_spec(code: Seq<LirV>) -> Seq<LirV>
    decreases code.len(),
{
    match rewrite(code) {
        Some(c2) => if c2.len() < code.len() {
            transform_spec(c2)
        } else {
            code
        },
        None => code,
    }
}

/// How many elements from the end the rewrites look at after `e`.
pub open spec fn scan_back(e: LirV) -> usize {
    match e {
        LirV::Jump { .. } => 2,
        LirV::Operation(Operator::Operator2(_)) => 3,
        _ => 0,
    }
}

/// Exec counterpart of [fold_const].
fn fold_exec(op: Operator2, l: &Value, r: &Value) -> (res: Option<Value>)
    ensures
        match (res, fold_const(op, l@, r@)) {
            (Some(a), Some(b)) => a@ == b,
            (None, None) => true,
            _ => false,
        },
{
    let heap = Heap::new();
    let a = match op {
        Operator2::Add => Some(Arith::Add),
        Operator2::Sub => Some(Arith::Sub),
        Operator2::Mul => Some(Arith::Mul),
        Operator2::Div => Some(Arith::Div),
        Operator2::Rem => Some(Arith::Rem),
        Operator2::And => Some(Arith::And),
        Operator2::Or => Some(Arith::Or),
        _ => None,
    };
    match a {
        Some(a) => {
            if !arith_allowed(&a, l, r) {
                return None;
            }
            match Value::arith(a, l.duplicate(), r.duplicate()) {
                Ok(v) => Some(v),
                Err(_) => None,
            }
        },
        None => match op {
            Operator2::Pow => {
                if !pow_allowed(&heap, l, r) {
                    return None;
                }
                match l.pow(&heap, r.duplicate()) {
                    Ok(v) => Some(v),
                    Err(_) => None,
                }
            },
            Operator2::Equal => match l.equals(&heap, r, EQ_DEPTH) {
                Some(b) => Some(Value::Bool(b)),
                None => None,
            },
            Operator2::NotEqual => match l.equals(&heap, r, EQ_DEPTH) {
                Some(b) => Some(Value::Bool(!b)),
                None => None,
            },
            _ => {
                if !heap.compare_allowed(l, r) {
                    return None;
                }
                let o = l.compare(&heap, r);
                let inx = match op {
                    Operator2::GreaterThan => Instruction::Gt,
                    Operator2::LessEqual => Instruction::Le,
                    Operator2::LessThan => Instruction::Lt,
                    _ => Instruction::Ge,
                };
                let holds = match inx {
                    Instruction::Lt => matches!(o, Some(crate::value::op::Order::Less)),
                    Instruction::Le => matches!(o, Some(crate::value::op::Order::Less) | Some(crate::value::op::Order::Equal)),
                    Instruction::Gt => matches!(o, Some(crate::value::op::Order::Greater)),
                    _ => matches!(o, Some(crate::value::op::Order::Greater) | Some(crate::value::op::Order::Equal)),
                };
                Some(Value::Bool(holds))
            },
        },
    }
}

/// Apply one rewrite at the end of the code; false where none applies.
fn rewrite_step(code: &mut Vec<LirElement>) -> (done: bool)
    ensures
        match rewrite(lir_v(old(code)@)) {
            Some(c2) => done && lir_v(final(code)@) == c2,
            None => !done && final(code)@ == old(code)@,
        },
{
    let ghost cv = lir_v(code@);
    let n = code.len();
    if n < 2 {
        return false;
    }
    assert(cv[n - 1] == code@[n - 1]@ && cv[n - 2] == code@[n - 2]@);
    let last_jump = match &code[n - 1] {
        LirElement::Jump { condition: Some(c), label } => Some((*c, *label)),
        _ => None,
    };
    if let Some((c, label)) = last_jump {
        let not_before = match &code[n - 2] {
            LirElement::Operation(Operator::Operator1(Operator1::Not)) => true,
            _ => false,
        };
        if not_before {
            code.pop();
            code.pop();
            code.push(LirElement::Jump { condition: Some(!c), label });
            assert(lir_v(code@) =~= cv.take(n - 2).push(LirV::Jump { condition: Some(!c), label }));
            return true;
        }
        let truth = match &code[n - 2] {
            LirElement::PushConstant { value } => match value.as_bool_inner(&Heap::new()) {
                Ok(b) => Some(b),
                Err(_) => {
                    return false;
                },
            },
            _ => {
                return false;
            },
        };
        let b = truth.unwrap();
        code.pop();
        code.pop();
        if b == c {
            code.push(LirElement::Jump { condition: None, label });
            assert(lir_v(code@) =~= cv.take(n - 2).push(LirV::Jump { condition: None, label }));
        } else {
            assert(lir_v(code@) =~= cv.take(n - 2));
        }
        return true;
    }
    let op = match &code[n - 1] {
        LirElement::Operation(Operator::Operator2(op)) => *op,
        _ => {
            return false;
        },
    };
    if n < 3 {
        return false;
    }
    assert(cv[n - 3] == code@[n - 3]@);
    let folded = match (&code[n - 3], &code[n - 2]) {
        (LirElement::PushConstant { value: l }, LirElement::PushConstant { value: r }) => fold_exec(op, l, r),
        _ => {
            return false;
        },
    };
    match folded {
        Some(v) => {
            code.pop();
            code.pop();
            code.pop();
            let ghost vv = v@;
            code.push(LirElement::PushConstant { value: v });
            assert(lir_v(code@) =~= cv.take(n - 3).push(LirV::PushConstant { value: vv }));
            true
        },
        None => false,
    }
}


/// Position of the first label `l` in the code.
pub open spec fn label_offset(code: Seq<LirV>, l: u64, i: int) -> Option<int>
    decreases code.len() - i,
{
    if i < 0 || i >= code.len() {
        None
    } else if code[i] == LirV::Label(l) {
        Some(i)
    } else {
        label_offset(code, l, i + 1)
    }
}

/// Offsets marked reachable, and the steps left, after scanning from `off`:
/// from a function's entry on, offsets are marked until a return; a
/// conditional jump is followed from its label as well, an unconditional
/// jump is followed instead of going on. Scanning stops at a marked offset,
/// at the end of the code, at a jump to a missing label, or when no steps
/// are left.
pub open spec fn scan_from(vp: Seq<bool>, code: Seq<LirV>, off: int, scanning: bool, fuel: nat) -> (Seq<bool>, nat)
    decreases fuel,
{
    if fuel == 0 || off < 0 || off >= code.len() || off >= vp.len() || vp[off] {
        (vp, fuel)
    } else {
        let sc = scanning || code[off] is Entry;
        let vp2 = if sc { vp.update(off, true) } else { vp };
        let f = (fuel - 1) as nat;
        match code[off] {
            LirV::Jump { condition, label } => match label_offset(code, label, 0) {
                None => (vp2, 0),
                Some(t) => if condition is Some {
                    let (vp3, f3) = scan_from(vp2, code, t, true, f);
                    scan_from(vp3, code, off + 1, sc, if f3 < f { f3 } else { f })
                } else {
                    scan_from(vp2, code, t, sc, f)
                },
            },
            LirV::Ret => scan_from(vp2, code, off + 1, false, f),
            _ => scan_from(vp2, code, off + 1, sc, f),
        }
    }
}

/// A scan never has more steps left than it was given.
pub proof fn lemma_scan_left(vp: Seq<bool>, code: Seq<LirV>, off: int, scanning: bool, fuel: nat)
    ensures
        scan_from(vp, code, off, scanning, fuel).1 <= fuel,
    decreases fuel,
{
    if !(fuel == 0 || off < 0 || off >= code.len() || off >= vp.len() || vp[off]) {
        let sc = scanning || code[off] is Entry;
        let vp2 = if sc { vp.update(off, true) } else { vp };
        let f = (fuel - 1) as nat;
        match code[off] {
            LirV::Jump { condition, label } => match label_offset(code, label, 0) {
                None => {},
                Some(t) => if condition is Some {
                    lemma_scan_left(vp2, code, t, true, f);
                    let (vp3, f3) = scan_from(vp2, code, t, true, f);
                    lemma_scan_left(vp3, code, off + 1, sc, f3);
                } else {
                    lemma_scan_left(vp2, code, t, sc, f);
                },
            },
            LirV::Ret => lemma_scan_left(vp2, code, off + 1, false, f),
            _ => lemma_scan_left(vp2, code, off + 1, sc, f),
        }
    }
}

/// A scan that ends with steps left ends the same way when given more
/// steps: it marks the same offsets, and the extra steps are left over. So
/// whenever the steps given suffice, the marks are those of a scan that is
/// never cut short.
pub proof fn lemma_scan_more_steps(vp: Seq<bool>, code: Seq<LirV>, off: int, scanning: bool, fuel: nat, more: nat)
    requires
        fuel <= more,
        scan_from(vp, code, off, scanning, fuel).1 > 0,
    ensures
        scan_from(vp, code, off, scanning, more) == (
            scan_from(vp, code, off, scanning, fuel).0,
            (scan_from(vp, code, off, scanning, fuel).1 + (more - fuel)) as nat,
        ),
    decreases fuel,
{
    if !(fuel == 0 || off < 0 || off >= code.len() || off >= vp.len() || vp[off]) {
        let sc = scanning || code[off] is Entry;
        let vp2 = if sc { vp.update(off, true) } else { vp };
        let f = (fuel - 1) as nat;
        let g = (more - 1) as nat;
        match code[off] {
            LirV::Jump { condition, label } => match label_offset(code, label, 0) {
                None => {},
                Some(t) => if condition is Some {
                    lemma_scan_left(vp2, code, t, true, f);
                    let (vp3, f3) = scan_from(vp2, code, t, true, f);
                    lemma_scan_left(vp3, code, off + 1, sc, f3);
                    assert(f3 > 0);
                    lemma_scan_more_steps(vp2, code, t, true, f, g);
                    let f4 = (f3 + (g - f)) as nat;
                    assert(scan_from(vp2, code, t, true, g) == (vp3, f4));
                    lemma_scan_more_steps(vp3, code, off + 1, sc, f3, f4);
                } else {
                    lemma_scan_more_steps(vp2, code, t, sc, f, g);
                },
            },
            LirV::Ret => lemma_scan_more_steps(vp2, code, off + 1, false, f, g),
            _ => lemma_scan_more_steps(vp2, code, off + 1, sc, f, g),
        }
    }
}

/// A scan that ends with steps left ends the same way when given fewer
/// steps, as long as they are more than it uses.
pub proof fn lemma_scan_fewer_steps(vp: Seq<bool>, code: Seq<LirV>, off: int, scanning: bool, fuel: nat, less: nat)
    requires
        less <= fuel,
        scan_from(vp, code, off, scanning, fuel).1 > 0,
        fuel - scan_from(vp, code, off, scanning, fuel).1 < less,
    ensures
        scan_from(vp, code, off, scanning, less) == (
            scan_from(vp, code, off, scanning, fuel).0,
            (scan_from(vp, code, off, scanning, fuel).1 - (fuel - less)) as nat,
        ),
    decreases fuel,
{
    if !(fuel == 0 || off < 0 || off >= code.len() || off >= vp.len() || vp[off]) {
        let sc = scanning || code[off] is Entry;
        let vp2 = if sc { vp.update(off, true) } else { vp };
        let f = (fuel - 1) as nat;
        let g = (less - 1) as nat;
        lemma_scan_left(vp, code, off, scanning, fuel);
        match code[off] {
            LirV::Jump { condition, label } => match label_offset(code, label, 0) {
                None => {},
                Some(t) => if condition is Some {
                    lemma_scan_left(vp2, code, t, true, f);
                    let (vp3, f3) = scan_from(vp2, code, t, true, f);
                    lemma_scan_left(vp3, code, off + 1, sc, f3);
                    assert(f3 > 0);
                    lemma_scan_fewer_steps(vp2, code, t, true, f, g);
                    let f4 = (f3 - (f - g)) as nat;
                    assert(scan_from(vp2, code, t, true, g) == (vp3, f4));
                    lemma_scan_fewer_steps(vp3, code, off + 1, sc, f3, f4);
                } else {
                    lemma_scan_fewer_steps(vp2, code, t, sc, f, g);
                },
            },
            LirV::Ret => lemma_scan_fewer_steps(vp2, code, off + 1, false, f, g),
            _ => lemma_scan_fewer_steps(vp2, code, off + 1, sc, f, g),
        }
    }
}

/// The elements of `code` from `i` on whose offsets are marked.
pub open spec fn keep_from(code: Seq<LirV>, vp: Seq<bool>, i: int) -> Seq<LirV>
    decreases code.len() - i,
{
    if i < 0 || i >= code.len() {
        Seq::empty()
    } else {
        (if i < vp.len() && vp[i] {
            seq![code[i]]
        } else {
            Seq::empty()
        }) + keep_from(code, vp, i + 1)
    }
}

/// Steps the scan of a code of length `n` may take: more than a scan that
/// ends can use (see the module `steps`).
pub open spec fn scan_budget(n: nat) -> nat {
    if n < 0x4000_0000 {
        (4 * (n + 1) * (n + 1)) as nat
    } else {
        u64::MAX as nat
    }
}

/// The marks padded with `false` up to length `n`.
pub open spec fn padded(vp: Seq<bool>, n: nat) -> Seq<bool> {
    if vp.len() >= n {
        vp
    } else {
        vp + Seq::new((n - vp.len()) as nat, |i: int| false)
    }
}

/// Position of the first label `l` in the code.
fn find_label(code: &Vec<LirElement>, l: u64) -> (r: Option<usize>)
    ensures
        match r {
            Some(i) => label_offset(lir_v(code@), l, 0) == Some(i as int),
            None => label_offset(lir_v(code@), l, 0) is None,
        },
{
    let ghost cv = lir_v(code@);
    let mut i: usize = 0;
    while i < code.len()
        invariant
            i <= code@.len(),
            cv == lir_v(code@),
            label_offset(cv, l, i as int) == label_offset(cv, l, 0),
        decreases code@.len() - i,
    {
        assert(cv[i as int] == code@[i as int]@);
        if let LirElement::Label(x) = &code[i] {
            if *x == l {
                return Some(i);
            }
        }
        i += 1;
    }
    None
}

/// Mark the offsets reachable from `off0` (see [scan_from]) and return the
/// steps left.
fn scan_valid_path(vp: &mut Vec<bool>, code: &Vec<LirElement>, off0: usize, scanning0: bool, fuel0: u64) -> (r: u64)
    ensures
        (final(vp)@, r as nat) == scan_from(old(vp)@, lir_v(code@), off0 as int, scanning0, fuel0 as nat),
    decreases fuel0,
{
    let ghost cv = lir_v(code@);
    let ghost goal = scan_from(vp@, cv, off0 as int, scanning0, fuel0 as nat);
    let mut off = off0;
    let mut scanning = scanning0;
    let mut fuel = fuel0;
    loop
        invariant
            cv == lir_v(code@),
            fuel <= fuel0,
            goal == scan_from(old(vp)@, cv, off0 as int, scanning0, fuel0 as nat),
            scan_from(vp@, cv, off as int, scanning, fuel as nat) == goal,
        decreases fuel,
    {
        if fuel == 0 || off >= code.len() || off >= vp.len() {
            return fuel;
        }
        if vp[off] {
            return fuel;
        }
        assert(cv[off as int] == code@[off as int]@);
        let is_entry = match &code[off] {
            LirElement::Entry { .. } => true,
            _ => false,
        };
        let sc = scanning || is_entry;
        if sc {
            vp.set(off, true);
        }
        let f = fuel - 1;
        match &code[off] {
            LirElement::Jump { condition, label } => {
                match find_label(code, *label) {
                    None => {
                        return 0;
                    },
                    Some(t) => {
                        if condition.is_some() {
                            let f3 = scan_valid_path(vp, code, t, true, f);
                            off = off + 1;
                            scanning = sc;
                            fuel = if f3 < f {
                                f3
                            } else {
                                f
                            };
                        } else {
                            off = t;
                            scanning = sc;
                            fuel = f;
                        }
                    },
                }
            },
            LirElement::Ret => {
                off = off + 1;
                scanning = false;
                fuel = f;
            },
            _ => {
                off = off + 1;
                scanning = sc;
                fuel = f;
            },
        }
    }
}

impl Optimizer for StandardOptimizer {
    /// Mark the code that can run (see [scan_from]), starting at offset 0
    /// and keeping the marks of earlier calls, then remove every element
    /// that is not marked.
    fn postprocess(&mut self, code: &mut Vec<LirElement>)
        ensures
            ({
                let cv = lir_v(old(code)@);
                let vp = scan_from(
                    padded(old(self).valid_path@, cv.len()),
                    cv,
                    0,
                    false,
                    scan_budget(cv.len()),
                ).0;
                &&& final(self).valid_path@ == vp
                &&& lir_v(final(code)@) == keep_from(cv, vp, 0)
            }),
    {
        let ghost cv = lir_v(code@);
        let n = code.len();
        let ghost v0 = self.valid_path@;
        while self.valid_path.len() < n
            invariant
                v0.len() <= self.valid_path@.len(),
                v0.len() >= n ==> self.valid_path@ == v0,
                v0.len() < n ==> self.valid_path@.len() <= n,
                n == cv.len(),
                self.valid_path@ == v0 + Seq::new((self.valid_path@.len() - v0.len()) as nat, |i: int| false),
            decreases n - self.valid_path@.len(),
        {
            let ghost before = self.valid_path@;
            self.valid_path.push(false);
            assert(self.valid_path@ =~= v0 + Seq::new((self.valid_path@.len() - v0.len()) as nat, |i: int| false));
        }
        assert(self.valid_path@ =~= padded(v0, cv.len()));
        let budget: u64 = if n < 0x4000_0000 {
            let m = (n as u64) + 1;
            assert(m * m <= 0x4000_0000u64 * 0x4000_0000u64) by (nonlinear_arith)
                requires
                    m <= 0x4000_0000u64,
            ;
            assert(4 * (m * m) == 4 * m * m) by (nonlinear_arith);
            4 * (m * m)
        } else {
            u64::MAX
        };
        assert(budget as nat == scan_budget(cv.len()));
        let _ = scan_valid_path(&mut self.valid_path, code, 0, false, budget);
        let ghost vp = self.valid_path@;
        let mut off = n;
        while off > 0
            invariant
                off <= n,
                n == cv.len(),
                vp == self.valid_path@,
                lir_v(code@) == cv.take(off as int) + keep_from(cv, vp, off as int),
            decreases off,
        {
            off -= 1;
            let keep = off < self.valid_path.len() && self.valid_path[off];
            let ghost before = lir_v(code@);
            assert(cv.take(off + 1) =~= cv.take(off as int).push(cv[off as int]));
            assert(code@.len() == before.len());
            if !keep {
                code.remove(off);
                assert(lir_v(code@) =~= before.remove(off as int));
                assert(lir_v(code@) =~= cv.take(off as int) + keep_from(cv, vp, off as int));
            } else {
                assert(lir_v(code@) =~= cv.take(off as int) + keep_from(cv, vp, off as int));
            }
        }
        assert(cv.take(0) + keep_from(cv, vp, 0) =~= keep_from(cv, vp, 0));
    }

    /// Rewrite the end of the code as long as a rewrite applies.
    fn transform(&mut self, code: &mut Vec<LirElement>)
        ensures
            lir_v(final(code)@) == transform_spec(lir_v(old(code)@)),
    {
        loop
            invariant
                transform_spec(lir_v(code@)) == transform_spec(lir_v(old(code)@)),
            decreases code@.len(),
        {
            let ghost before = lir_v(code@);
            if !rewrite_step(code) {
                assert(transform_spec(before) == before);
                return;
            }
            assert(lir_v(code@).len() < before.len());
        }
    }

    fn scan_back_for(&self, elem: &LirElement) -> (r: usize)
        ensures
            r == scan_back(elem@),
    {
        match elem {
            LirElement::Jump { .. } => 2,
            LirElement::Operation(Operator::Operator2(_)) => 3,
            _ => 0,
        }
    }
}

/// The standard optimizer.
pub struct StandardOptimizer {
    /// Marks of the offsets of the code found to be reachable.
    pub valid_path: Vec<bool>,
}

impl StandardOptimizer {
    /// An optimizer that has not scanned any code.
    pub fn new() -> (r: StandardOptimizer)
        ensures
            r.valid_path@.len() == 0,
    {
        StandardOptimizer { valid_path: Vec::new() }
    }
}

} // verus!
