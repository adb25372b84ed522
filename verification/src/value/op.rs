//! Primitive operations on values, e.g. addition and comparison.

use vstd::prelude::*;
use vstd::string::StringExecFns;

use crate::error::{ErrorV, Lovm2Result};

use super::conv::{as_int_v, error_not_supported, is_float_v, not_supported};
use super::heap::{resolve, Heap};
use super::{Value, ValueV};

verus! {

/// Whether an operation on `a` and `b` would compute with floats.
pub open spec fn float_operands(a: ValueV, b: ValueV) -> bool {
    (a is Float && (b is Float || b is Int)) || (a is Int && b is Float)
}

/// Whether `x` fits into an `i64`.
pub open spec fn fits_i64(x: int) -> bool {
    i64::MIN <= x <= i64::MAX
}

/// Integer division rounding towards zero.
pub open spec fn tdiv(a: int, b: int) -> int {
    let q = (if a < 0 {
        -a
    } else {
        a
    }) / (if b < 0 {
        -b
    } else {
        b
    });
    if (a < 0) == (b < 0) {
        q
    } else {
        -q
    }
}

/// Remainder of the division rounding towards zero; it has the sign of `a`.
pub open spec fn trem(a: int, b: int) -> int {
    a - b * tdiv(a, b)
}

/// `b` to the power of `e`.
pub open spec fn int_pow(b: int, e: nat) -> int
    decreases e,
{
    if e == 0 {
        1
    } else {
        b * int_pow(b, (e - 1) as nat)
    }
}

/// Binary operators on values.
#[derive(Clone, Copy)]
pub enum Arith {
    Add,
    Sub,
    Mul,
    Div,
    Rem,
    Shl,
    Shr,
    And,
    Or,
    XOr,
}

/// Result of a binary operator on two values; references are not followed.
pub open spec fn arith_spec(op: Arith, a: ValueV, b: ValueV) -> Result<ValueV, ErrorV> {
    match (op, a, b) {
        (Arith::Add, ValueV::Int(x), ValueV::Int(y)) => Ok(ValueV::Int((x + y) as i64)),
        (Arith::Add, ValueV::Str(x), ValueV::Str(y)) => Ok(ValueV::Str(x + y)),
        (Arith::Sub, ValueV::Int(x), ValueV::Int(y)) => Ok(ValueV::Int((x - y) as i64)),
        (Arith::Mul, ValueV::Int(x), ValueV::Int(y)) => Ok(ValueV::Int((x * y) as i64)),
        (Arith::Div, ValueV::Int(x), ValueV::Int(y)) => Ok(ValueV::Int(tdiv(x as int, y as int) as i64)),
        (Arith::Rem, ValueV::Int(x), ValueV::Int(y)) => Ok(ValueV::Int(trem(x as int, y as int) as i64)),
        (Arith::Shl, ValueV::Int(x), ValueV::Int(y)) => Ok(ValueV::Int(x << y)),
        (Arith::Shr, ValueV::Int(x), ValueV::Int(y)) => Ok(ValueV::Int(x >> y)),
        (Arith::And, ValueV::Bool(x), ValueV::Bool(y)) => Ok(ValueV::Bool(x && y)),
        (Arith::And, ValueV::Int(x), ValueV::Int(y)) => Ok(ValueV::Int(x & y)),
        (Arith::Or, ValueV::Bool(x), ValueV::Bool(y)) => Ok(ValueV::Bool(x || y)),
        (Arith::Or, ValueV::Int(x), ValueV::Int(y)) => Ok(ValueV::Int(x | y)),
        (Arith::XOr, ValueV::Bool(x), ValueV::Bool(y)) => Ok(ValueV::Bool(x != y)),
        (Arith::XOr, ValueV::Int(x), ValueV::Int(y)) => Ok(ValueV::Int(x ^ y)),
        _ => Err(not_supported()),
    }
}

/// Whether a binary operator runs without a panic and without float
/// arithmetic: integer results fit, divisors are not zero, shift amounts are
/// below 64.
pub open spec fn arith_ok(op: Arith, a: ValueV, b: ValueV) -> bool {
    match (op, a, b) {
        (Arith::Add, ValueV::Int(x), ValueV::Int(y)) => fits_i64(x + y),
        (Arith::Sub, ValueV::Int(x), ValueV::Int(y)) => fits_i64(x - y),
        (Arith::Mul, ValueV::Int(x), ValueV::Int(y)) => fits_i64(x * y),
        (Arith::Div, ValueV::Int(x), ValueV::Int(y)) => y != 0 && !(x == i64::MIN && y == -1),
        (Arith::Rem, ValueV::Int(x), ValueV::Int(y)) => y != 0 && !(x == i64::MIN && y == -1),
        (Arith::Shl, ValueV::Int(x), ValueV::Int(y)) => 0 <= y < 64,
        (Arith::Shr, ValueV::Int(x), ValueV::Int(y)) => 0 <= y < 64,
        (Arith::Add, _, _) | (Arith::Sub, _, _) | (Arith::Mul, _, _) | (Arith::Div, _, _)
        | (Arith::Rem, _, _) => !float_operands(a, b),
        _ => true,
    }
}

/// Result of negation: logical for booleans, bitwise for integers (the
/// bitwise complement of `x` is `-1 - x`).
pub open spec fn not_spec(a: ValueV) -> Result<ValueV, ErrorV> {
    match a {
        ValueV::Bool(x) => Ok(ValueV::Bool(!x)),
        ValueV::Int(x) => Ok(ValueV::Int((-1 - x) as i64)),
        _ => Err(not_supported()),
    }
}

/// Result of raising `base` to the power `exp`, the exponent taken as
/// integer and truncated to 32 bits.
pub open spec fn pow_spec(cells: Seq<ValueV>, base: ValueV, exp: ValueV) -> Result<ValueV, ErrorV> {
    match as_int_v(cells, exp) {
        Err(e) => Err(e),
        Ok(e) => match base {
            ValueV::Int(x) => Ok(ValueV::Int(int_pow(x as int, (e as u32) as nat) as i64)),
            _ => Err(not_supported()),
        },
    }
}

/// Whether raising to a power runs without a panic and without floats.
pub open spec fn pow_ok(cells: Seq<ValueV>, base: ValueV, exp: ValueV) -> bool {
    &&& !is_float_v(cells, exp)
    &&& as_int_v(cells, exp) matches Ok(e) ==> match base {
        ValueV::Int(x) => fits_i64(int_pow(x as int, (e as u32) as nat)),
        ValueV::Float(_) => false,
        _ => true,
    }
}

proof fn lemma_pow_abs_grows(b: int, k: nat, e: nat)
    requires
        b >= 2 || b <= -2,
        k <= e,
    ensures
        (if int_pow(b, k) < 0 {
            -int_pow(b, k)
        } else {
            int_pow(b, k)
        }) <= (if int_pow(b, e) < 0 {
            -int_pow(b, e)
        } else {
            int_pow(b, e)
        }),
        int_pow(b, e) != 0,
    decreases e,
{
    if e > 0 {
        let pe1 = int_pow(b, (e - 1) as nat);
        if k < e {
            lemma_pow_abs_grows(b, k, (e - 1) as nat);
        } else {
            lemma_pow_abs_grows(b, (e - 1) as nat, (e - 1) as nat);
        }
        assert(int_pow(b, e) == b * pe1);
        assert((if b * pe1 < 0 { -(b * pe1) } else { b * pe1 }) >= (if pe1 < 0 { -pe1 } else { pe1 }))
            by (nonlinear_arith)
            requires
                b >= 2 || b <= -2,
                pe1 != 0,
        ;
        assert(b * pe1 != 0) by (nonlinear_arith)
            requires
                b >= 2 || b <= -2,
                pe1 != 0,
        ;
    }
}

proof fn lemma_pow_small_base(b: int, e: nat)
    ensures
        b == 1 ==> int_pow(b, e) == 1,
        b == 0 ==> int_pow(b, e) == (if e == 0 {
            1int
        } else {
            0int
        }),
        b == -1 ==> int_pow(b, e) == (if e % 2 == 0 {
            1int
        } else {
            -1int
        }),
    decreases e,
{
    if e > 0 {
        lemma_pow_small_base(b, (e - 1) as nat);
    }
}

proof fn lemma_pow_exceeds(b: int, e: nat)
    requires
        b >= 2 || b <= -2,
        e >= 64,
    ensures
        !fits_i64(int_pow(b, e)),
    decreases e,
{
    lemma_pow_abs_grows(b, 64, e);
    lemma_pow_at_least(b, 64);
    lemma_pow2_64();
}

proof fn lemma_pow_at_least(b: int, e: nat)
    requires
        b >= 2 || b <= -2,
    ensures
        (if int_pow(b, e) < 0 {
            -int_pow(b, e)
        } else {
            int_pow(b, e)
        }) >= int_pow(2, e),
        int_pow(2, e) >= 1,
    decreases e,
{
    if e > 0 {
        lemma_pow_at_least(b, (e - 1) as nat);
        let p = int_pow(b, (e - 1) as nat);
        let q = int_pow(2, (e - 1) as nat);
        assert((if b * p < 0 { -(b * p) } else { b * p }) >= 2 * q) by (nonlinear_arith)
            requires
                b >= 2 || b <= -2,
                (if p < 0 { -p } else { p }) >= q,
                q >= 1,
        ;
    }
}

proof fn lemma_pow2_64()
    ensures
        int_pow(2, 64) == 18446744073709551616,
{
    reveal_with_fuel(int_pow, 65);
}

fn int_pow_exec(b: i64, e: u32) -> (r: i64)
    requires
        fits_i64(int_pow(b as int, e as nat)),
    ensures
        r == int_pow(b as int, e as nat),
{
    proof {
        lemma_pow_small_base(b as int, e as nat);
    }
    if b == 0 {
        return if e == 0 {
            1
        } else {
            0
        };
    }
    if b == 1 {
        return 1;
    }
    if b == -1 {
        return if e % 2 == 0 {
            1
        } else {
            -1
        };
    }
    if e >= 64 {
        proof {
            lemma_pow_exceeds(b as int, e as nat);
            lemma_pow2_64();
        }
        assert(false);
    }
    let mut acc: i64 = 1;
    let mut k: u32 = 0;
    while k < e
        invariant
            k <= e,
            b >= 2 || b <= -2,
            acc == int_pow(b as int, k as nat),
            fits_i64(int_pow(b as int, e as nat)),
        decreases e - k,
    {
        proof {
            lemma_pow_abs_grows(b as int, (k + 1) as nat, e as nat);
        }
        assert(int_pow(b as int, (k + 1) as nat) == b * int_pow(b as int, k as nat));
        if k + 1 < e {
            proof {
                lemma_pow_abs_grows(b as int, (k + 2) as nat, e as nat);
                let p1 = int_pow(b as int, (k + 1) as nat);
                let p2 = int_pow(b as int, (k + 2) as nat);
                assert(p2 == b * p1);
                assert((if p1 < 0 { -p1 } else { p1 }) * 2 <= (if p2 < 0 { -p2 } else { p2 })) by (nonlinear_arith)
                    requires
                        p2 == b * p1,
                        b >= 2 || b <= -2,
                ;
            }
        }
        assert(fits_i64(b * acc));
        assert(b * acc == acc * b) by (nonlinear_arith);
        acc = acc * b;
        k += 1;
    }
    acc
}

/// `b` raised to the power `e`, or `None` where the result does not fit.
pub fn checked_int_pow(b: i64, e: u32) -> (r: Option<i64>)
    ensures
        fits_i64(int_pow(b as int, e as nat)) ==> r == Some(int_pow(b as int, e as nat) as i64),
        !fits_i64(int_pow(b as int, e as nat)) ==> r is None,
{
    proof {
        lemma_pow_small_base(b as int, e as nat);
    }
    if b == 0 || b == 1 || b == -1 {
        return Some(int_pow_exec(b, e));
    }
    if e >= 64 {
        proof {
            lemma_pow_exceeds(b as int, e as nat);
        }
        return None;
    }
    let mut acc: i64 = 1;
    let mut k: u32 = 0;
    while k < e
        invariant
            k <= e,
            e < 64,
            b >= 2 || b <= -2,
            acc == int_pow(b as int, k as nat),
        decreases e - k,
    {
        assert(int_pow(b as int, (k + 1) as nat) == b * int_pow(b as int, k as nat));
        assert(b * acc == acc * b) by (nonlinear_arith);
        match acc.checked_mul(b) {
            Some(x) => {
                acc = x;
            },
            None => {
                proof {
                    let p1 = int_pow(b as int, (k + 1) as nat);
                    assert(!fits_i64(p1));
                    if k + 1 < e {
                        lemma_pow_abs_grows(b as int, (k + 2) as nat, e as nat);
                        let p2 = int_pow(b as int, (k + 2) as nat);
                        assert(p2 == b * p1);
                        assert((if p1 < 0 { -p1 } else { p1 }) * 2 <= (if p2 < 0 { -p2 } else { p2 })) by (nonlinear_arith)
                            requires
                                p2 == b * p1,
                                b >= 2 || b <= -2,
                        ;
                    }
                }
                return None;
            },
        }
        k += 1;
    }
    Some(acc)
}

fn tdiv_exec(a: i64, b: i64) -> (r: i64)
    requires
        b != 0,
        !(a == i64::MIN && b == -1),
    ensures
        r == tdiv(a as int, b as int),
{
    let ua: u64 = if a < 0 {
        if a == i64::MIN {
            9223372036854775808u64
        } else {
            (-a) as u64
        }
    } else {
        a as u64
    };
    let ub: u64 = if b < 0 {
        if b == i64::MIN {
            9223372036854775808u64
        } else {
            (-b) as u64
        }
    } else {
        b as u64
    };
    let q: u64 = ua / ub;
    assert(q <= ua) by (nonlinear_arith)
        requires
            ub >= 1,
            q == ua / ub,
    ;
    if (a < 0) == (b < 0) {
        assert(q < 9223372036854775808u64) by (nonlinear_arith)
            requires
                ub >= 1,
                q == ua / ub,
                ua <= 9223372036854775808u64,
                (ua == 9223372036854775808u64 ==> ub >= 2),
        ;
        q as i64
    } else {
        if q == 9223372036854775808u64 {
            i64::MIN
        } else {
            -(q as i64)
        }
    }
}

fn trem_exec(a: i64, b: i64) -> (r: i64)
    requires
        b != 0,
        !(a == i64::MIN && b == -1),
    ensures
        r == trem(a as int, b as int),
{
    let q = tdiv_exec(a, b);
    let ghost ai = a as int;
    let ghost bi = b as int;
    let ghost qi = q as int;
    assert(fits_i64(ai - bi * qi)) by (nonlinear_arith)
        requires
            qi == tdiv(ai, bi),
            bi != 0,
            fits_i64(ai),
            fits_i64(bi),
            fits_i64(qi),
    {
        let ua = if ai < 0 { -ai } else { ai };
        let ub = if bi < 0 { -bi } else { bi };
        let uq = ua / ub;
        assert(ua - ub * uq >= 0 && ua - ub * uq < ub);
    }
    let bq: i128 = (b as i128) * (q as i128);
    ((a as i128) - bq) as i64
}

impl Value {
    /// Apply a binary operator to two values.
    pub fn arith(op: Arith, a: Value, b: Value) -> (r: Lovm2Result<Value>)
        requires
            arith_ok(op, a@, b@),
        ensures
            match (r, arith_spec(op, a@, b@)) {
                (Ok(x), Ok(y)) => x@ == y,
                (Err(x), Err(y)) => x@ == y,
                _ => false,
            },
    {
        match (op, a, b) {
            (Arith::Add, Value::Int(x), Value::Int(y)) => Ok(Value::Int(x + y)),
            (Arith::Add, Value::Str(x), Value::Str(y)) => {
                let mut s = x;
                s.append(y.as_str());
                Ok(Value::Str(s))
            },
            (Arith::Sub, Value::Int(x), Value::Int(y)) => Ok(Value::Int(x - y)),
            (Arith::Mul, Value::Int(x), Value::Int(y)) => Ok(Value::Int(x * y)),
            (Arith::Div, Value::Int(x), Value::Int(y)) => Ok(Value::Int(tdiv_exec(x, y))),
            (Arith::Rem, Value::Int(x), Value::Int(y)) => Ok(Value::Int(trem_exec(x, y))),
            (Arith::Shl, Value::Int(x), Value::Int(y)) => Ok(Value::Int(x << y)),
            (Arith::Shr, Value::Int(x), Value::Int(y)) => Ok(Value::Int(x >> y)),
            (Arith::And, Value::Bool(x), Value::Bool(y)) => Ok(Value::Bool(x && y)),
            (Arith::And, Value::Int(x), Value::Int(y)) => Ok(Value::Int(x & y)),
            (Arith::Or, Value::Bool(x), Value::Bool(y)) => Ok(Value::Bool(x || y)),
            (Arith::Or, Value::Int(x), Value::Int(y)) => Ok(Value::Int(x | y)),
            (Arith::XOr, Value::Bool(x), Value::Bool(y)) => Ok(Value::Bool(x != y)),
            (Arith::XOr, Value::Int(x), Value::Int(y)) => Ok(Value::Int(x ^ y)),
            _ => Err(error_not_supported()),
        }
    }

    /// Negation: logical for booleans, bitwise for integers.
    pub fn negate(a: Value) -> (r: Lovm2Result<Value>)
        ensures
            match (r, not_spec(a@)) {
                (Ok(x), Ok(y)) => x@ == y,
                (Err(x), Err(y)) => x@ == y,
                _ => false,
            },
    {
        match a {
            Value::Bool(x) => {
                assert(a@ == ValueV::Bool(x));
                let r = Value::Bool(!x);
                assert(r@ == ValueV::Bool(!x));
                Ok(r)
            },
            Value::Int(x) => {
                assert(a@ == ValueV::Int(x));
                let y: i64 = -1 - x;
                Ok(Value::Int(y))
            },
            _ => Err(error_not_supported()),
        }
    }

    /// Raise the value to the power `exp`, which is converted to an integer.
    pub fn pow(&self, heap: &Heap, exp: Value) -> (r: Lovm2Result<Value>)
        requires
            pow_ok(heap.cells_v(), self@, exp@),
        ensures
            match (r, pow_spec(heap.cells_v(), self@, exp@)) {
                (Ok(x), Ok(y)) => x@ == y,
                (Err(x), Err(y)) => x@ == y,
                _ => false,
            },
    {
        let e = match exp.as_integer_inner(heap) {
            Ok(e) => e,
            Err(err) => { return Err(err); },
        };
        match self {
            Value::Int(base) => Ok(Value::Int(int_pow_exec(*base, e as u32))),
            _ => Err(error_not_supported()),
        }
    }
}

} // verus!

verus! {

/// Outcome of comparing two values.
pub enum Order {
    Less,
    Equal,
    Greater,
}

/// Lexicographic order of two character sequences.
pub open spec fn lex_order(a: Seq<char>, b: Seq<char>) -> Order
    decreases a.len(),
{
    if a.len() == 0 {
        if b.len() == 0 {
            Order::Equal
        } else {
            Order::Less
        }
    } else if b.len() == 0 {
        Order::Greater
    } else if a[0] < b[0] {
        Order::Less
    } else if a[0] > b[0] {
        Order::Greater
    } else {
        lex_order(a.drop_first(), b.drop_first())
    }
}

/// Order of two values that are not references: integers by value, strings
/// lexicographically; other pairs are not ordered.
pub open spec fn compare_plain(a: ValueV, b: ValueV) -> Option<Order> {
    match (a, b) {
        (ValueV::Int(x), ValueV::Int(y)) => Some(
            if x < y {
                Order::Less
            } else if x > y {
                Order::Greater
            } else {
                Order::Equal
            },
        ),
        (ValueV::Str(x), ValueV::Str(y)) => Some(lex_order(x, y)),
        _ => None,
    }
}

/// Order of two values; references are followed.
pub open spec fn compare_spec(cells: Seq<ValueV>, a: ValueV, b: ValueV) -> Option<Order> {
    match (resolve(cells, a), resolve(cells, b)) {
        (Some(x), Some(y)) => compare_plain(x, y),
        _ => None,
    }
}

/// Whether comparing runs without a panic and without float arithmetic:
/// references can be followed and no float meets a number.
pub open spec fn compare_ok(cells: Seq<ValueV>, a: ValueV, b: ValueV) -> bool {
    &&& (a is Ref ==> resolve(cells, a) is Some)
    &&& (b is Ref ==> resolve(cells, b) is Some)
    &&& match (resolve(cells, a), resolve(cells, b)) {
        (Some(x), Some(y)) => !float_operands(x, y),
        _ => true,
    }
}

fn lex_order_exec(a: &String, b: &String) -> (r: Order)
    ensures
        r == lex_order(a@, b@),
{
    let na = a.as_str().unicode_len();
    let nb = b.as_str().unicode_len();
    let mut i: usize = 0;
    assert(a@.skip(0) =~= a@);
    assert(b@.skip(0) =~= b@);
    while i < na && i < nb
        invariant
            na == a@.len(),
            nb == b@.len(),
            i <= na,
            i <= nb,
            lex_order(a@, b@) == lex_order(a@.skip(i as int), b@.skip(i as int)),
        decreases na - i,
    {
        let x = a.as_str().get_char(i);
        let y = b.as_str().get_char(i);
        assert(a@.skip(i as int)[0] == x);
        assert(b@.skip(i as int)[0] == y);
        if x < y {
            return Order::Less;
        }
        if x > y {
            return Order::Greater;
        }
        assert(a@.skip(i as int).drop_first() =~= a@.skip(i + 1));
        assert(b@.skip(i as int).drop_first() =~= b@.skip(i + 1));
        i += 1;
    }
    if i == na {
        if i == nb {
            Order::Equal
        } else {
            Order::Less
        }
    } else {
        Order::Greater
    }
}

impl Value {
    fn arith_inplace(&mut self, op: Arith, other: Value) -> (r: Lovm2Result<()>)
        requires
            arith_ok(op, old(self)@, other@),
        ensures
            match arith_spec(op, old(self)@, other@) {
                Ok(v) => r is Ok && final(self)@ == v,
                Err(e) => r matches Err(x) && x@ == e && final(self)@ == old(self)@,
            },
    {
        let cur = self.duplicate();
        match Value::arith(op, cur, other) {
            Ok(v) => {
                *self = v;
                Ok(())
            },
            Err(e) => Err(e),
        }
    }

    /// Add `other` to the value in place.
    pub fn add_inplace(&mut self, other: Value) -> (r: Lovm2Result<()>)
        requires
            arith_ok(Arith::Add, old(self)@, other@),
        ensures
            match arith_spec(Arith::Add, old(self)@, other@) {
                Ok(v) => r is Ok && final(self)@ == v,
                Err(e) => r matches Err(x) && x@ == e && final(self)@ == old(self)@,
            },
    {
        self.arith_inplace(Arith::Add, other)
    }

    /// Subtract `other` from the value in place.
    pub fn sub_inplace(&mut self, other: Value) -> (r: Lovm2Result<()>)
        requires
            arith_ok(Arith::Sub, old(self)@, other@),
        ensures
            match arith_spec(Arith::Sub, old(self)@, other@) {
                Ok(v) => r is Ok && final(self)@ == v,
                Err(e) => r matches Err(x) && x@ == e && final(self)@ == old(self)@,
            },
    {
        self.arith_inplace(Arith::Sub, other)
    }

    /// Multiply the value by `other` in place.
    pub fn mul_inplace(&mut self, other: Value) -> (r: Lovm2Result<()>)
        requires
            arith_ok(Arith::Mul, old(self)@, other@),
        ensures
            match arith_spec(Arith::Mul, old(self)@, other@) {
                Ok(v) => r is Ok && final(self)@ == v,
                Err(e) => r matches Err(x) && x@ == e && final(self)@ == old(self)@,
            },
    {
        self.arith_inplace(Arith::Mul, other)
    }

    /// Divide the value by `other` in place.
    pub fn div_inplace(&mut self, other: Value) -> (r: Lovm2Result<()>)
        requires
            arith_ok(Arith::Div, old(self)@, other@),
        ensures
            match arith_spec(Arith::Div, old(self)@, other@) {
                Ok(v) => r is Ok && final(self)@ == v,
                Err(e) => r matches Err(x) && x@ == e && final(self)@ == old(self)@,
            },
    {
        self.arith_inplace(Arith::Div, other)
    }

    /// Replace the value by its remainder after division by `other`.
    pub fn rem_inplace(&mut self, other: Value) -> (r: Lovm2Result<()>)
        requires
            arith_ok(Arith::Rem, old(self)@, other@),
        ensures
            match arith_spec(Arith::Rem, old(self)@, other@) {
                Ok(v) => r is Ok && final(self)@ == v,
                Err(e) => r matches Err(x) && x@ == e && final(self)@ == old(self)@,
            },
    {
        self.arith_inplace(Arith::Rem, other)
    }

    /// Logical or bitwise and with `other`, in place.
    pub fn and_inplace(&mut self, other: Value) -> (r: Lovm2Result<()>)
        ensures
            match arith_spec(Arith::And, old(self)@, other@) {
                Ok(v) => r is Ok && final(self)@ == v,
                Err(e) => r matches Err(x) && x@ == e && final(self)@ == old(self)@,
            },
    {
        self.arith_inplace(Arith::And, other)
    }

    /// Logical or bitwise or with `other`, in place.
    pub fn or_inplace(&mut self, other: Value) -> (r: Lovm2Result<()>)
        ensures
            match arith_spec(Arith::Or, old(self)@, other@) {
                Ok(v) => r is Ok && final(self)@ == v,
                Err(e) => r matches Err(x) && x@ == e && final(self)@ == old(self)@,
            },
    {
        self.arith_inplace(Arith::Or, other)
    }

    /// Logical or bitwise exclusive or with `other`, in place.
    pub fn xor_inplace(&mut self, other: Value) -> (r: Lovm2Result<()>)
        ensures
            match arith_spec(Arith::XOr, old(self)@, other@) {
                Ok(v) => r is Ok && final(self)@ == v,
                Err(e) => r matches Err(x) && x@ == e && final(self)@ == old(self)@,
            },
    {
        self.arith_inplace(Arith::XOr, other)
    }

    /// Negate the value in place.
    pub fn not_inplace(&mut self) -> (r: Lovm2Result<()>)
        ensures
            match not_spec(old(self)@) {
                Ok(v) => r is Ok && final(self)@ == v,
                Err(e) => r matches Err(x) && x@ == e && final(self)@ == old(self)@,
            },
    {
        let cur = self.duplicate();
        match Value::negate(cur) {
            Ok(v) => {
                *self = v;
                Ok(())
            },
            Err(e) => Err(e),
        }
    }

    /// Raise the value to the power `exp` in place.
    pub fn pow_inplace(&mut self, heap: &Heap, exp: Value) -> (r: Lovm2Result<()>)
        requires
            pow_ok(heap.cells_v(), old(self)@, exp@),
        ensures
            match pow_spec(heap.cells_v(), old(self)@, exp@) {
                Ok(v) => r is Ok && final(self)@ == v,
                Err(e) => r matches Err(x) && x@ == e && final(self)@ == old(self)@,
            },
    {
        match self.pow(heap, exp) {
            Ok(v) => {
                *self = v;
                Ok(())
            },
            Err(e) => Err(e),
        }
    }

    /// Order of two values: integers by value and strings lexicographically,
    /// after following references; `None` for other pairs.
    pub fn compare(&self, heap: &Heap, other: &Value) -> (r: Option<Order>)
        requires
            compare_ok(heap.cells_v(), self@, other@),
        ensures
            r == compare_spec(heap.cells_v(), self@, other@),
    {
        let x = match self {
            Value::Ref(r) => match heap.deref_index(r) {
                Some(i) => &heap.cells[i],
                None => { return None; },
            },
            _ => self,
        };
        let y = match other {
            Value::Ref(r) => match heap.deref_index(r) {
                Some(i) => &heap.cells[i],
                None => { return None; },
            },
            _ => other,
        };
        match (x, y) {
            (Value::Int(a), Value::Int(b)) => Some(
                if *a < *b {
                    Order::Less
                } else if *a > *b {
                    Order::Greater
                } else {
                    Order::Equal
                },
            ),
            (Value::Str(a), Value::Str(b)) => Some(lex_order_exec(a, b)),
            _ => None,
        }
    }

    /// Whether the value orders before `other`.
    pub fn lt(&self, heap: &Heap, other: &Value) -> (r: bool)
        requires
            compare_ok(heap.cells_v(), self@, other@),
        ensures
            r == (compare_spec(heap.cells_v(), self@, other@) == Some(Order::Less)),
    {
        matches!(self.compare(heap, other), Some(Order::Less))
    }

    /// Whether the value orders before or equal to `other`.
    pub fn le(&self, heap: &Heap, other: &Value) -> (r: bool)
        requires
            compare_ok(heap.cells_v(), self@, other@),
        ensures
            r == (compare_spec(heap.cells_v(), self@, other@) == Some(Order::Less)
                || compare_spec(heap.cells_v(), self@, other@) == Some(Order::Equal)),
    {
        matches!(self.compare(heap, other), Some(Order::Less) | Some(Order::Equal))
    }

    /// Whether the value orders after `other`.
    pub fn gt(&self, heap: &Heap, other: &Value) -> (r: bool)
        requires
            compare_ok(heap.cells_v(), self@, other@),
        ensures
            r == (compare_spec(heap.cells_v(), self@, other@) == Some(Order::Greater)),
    {
        matches!(self.compare(heap, other), Some(Order::Greater))
    }

    /// Whether the value orders after or equal to `other`.
    pub fn ge(&self, heap: &Heap, other: &Value) -> (r: bool)
        requires
            compare_ok(heap.cells_v(), self@, other@),
        ensures
            r == (compare_spec(heap.cells_v(), self@, other@) == Some(Order::Greater)
                || compare_spec(heap.cells_v(), self@, other@) == Some(Order::Equal)),
    {
        matches!(self.compare(heap, other), Some(Order::Greater) | Some(Order::Equal))
    }
}

} // verus!
