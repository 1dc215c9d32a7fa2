//! Bounds of arithmetic expressions over a memory: for an expression, a
//! lower and an upper value and whether evaluation may fail (an index out
//! of range, a division by zero, a negative exponent, an overflow).
//!
//! Evaluation ([`eval_aexpr`]) is in 32-bit arithmetic. The bounds are
//! sound ([`lemma_bounds_sound`]): a value that evaluation gives lies
//! between them, and where evaluation fails the failure flag is set. They
//! are tight where evaluation succeeds ([`lemma_bounds_exact`]): an
//! expression that evaluates to `v` is bounded by exactly `v`, unflagged. Sums,
//! differences and products are bounded by their extreme combinations,
//! negation mirrors the bounds, a quotient by a divisor whose range
//! excludes zero by the quotients of the ranges' corners (else by the size
//! of its dividend, flagged), and a power is exact where base and exponent
//! are known, else bounded by the powers of the ranges' corners where the
//! base is at least 1 and the exponent not negative.

use crate::ast::{AExpr, AOp, Target};
use crate::memory::{InterpreterMemory, MemoryView};
use vstd::arithmetic::power::pow;
use vstd::prelude::*;

verus! {

/// `v` clamped to the range of `i32`.
pub open spec fn clamp(v: int) -> i32 {
    if v > i32::MAX {
        i32::MAX
    } else if v < i32::MIN {
        i32::MIN
    } else {
        v as i32
    }
}

pub open spec fn min2(a: int, b: int) -> int {
    if a <= b {
        a
    } else {
        b
    }
}

pub open spec fn max2(a: int, b: int) -> int {
    if a >= b {
        a
    } else {
        b
    }
}

pub open spec fn min4(a: int, b: int, c: int, d: int) -> int {
    min2(min2(min2(a, b), c), d)
}

pub open spec fn max4(a: int, b: int, c: int, d: int) -> int {
    max2(max2(max2(a, b), c), d)
}

/// The size of `v`, without its sign.
pub open spec fn magnitude(v: int) -> int {
    if v < 0 {
        -v
    } else {
        v
    }
}

/// `v` fits an `i32`.
pub open spec fn in_i32(v: int) -> bool {
    i32::MIN <= v <= i32::MAX
}

/// The least value of `s`, or 0 for an empty sequence.
pub open spec fn seq_min(s: Seq<i32>) -> i32
    decreases s.len(),
{
    if s.len() == 0 {
        0
    } else if s.len() == 1 {
        s[0]
    } else {
        min2(seq_min(s.drop_last()) as int, s.last() as int) as i32
    }
}

/// The greatest value of `s`, or 0 for an empty sequence.
pub open spec fn seq_max(s: Seq<i32>) -> i32
    decreases s.len(),
{
    if s.len() == 0 {
        0
    } else if s.len() == 1 {
        s[0]
    } else {
        max2(seq_max(s.drop_last()) as int, s.last() as int) as i32
    }
}

/// Every item of `s` lies between its least and its greatest.
pub proof fn lemma_seq_min_max(s: Seq<i32>, i: int)
    requires
        0 <= i < s.len(),
    ensures
        seq_min(s) <= s[i] <= seq_max(s),
    decreases s.len(),
{
    if s.len() > 1 && i < s.len() - 1 {
        lemma_seq_min_max(s.drop_last(), i);
    }
}

/// `base` to the power `exp` where that fits an `i32`.
pub open spec fn checked_pow_spec(base: i32, exp: u32) -> Option<i32> {
    let p = pow(base as int, exp as nat);
    if i32::MIN <= p <= i32::MAX {
        Some(p as i32)
    } else {
        None
    }
}

/// The value of `x op y` in 32-bit arithmetic: `None` on overflow, on a
/// division by zero and on a negative exponent. Division truncates.
pub open spec fn apply_op(op: AOp, x: i32, y: i32) -> Option<i32> {
    match op {
        AOp::Plus => if in_i32(x + y) {
            Some((x + y) as i32)
        } else {
            None
        },
        AOp::Minus => if in_i32(x - y) {
            Some((x - y) as i32)
        } else {
            None
        },
        AOp::Times => if in_i32(x * y) {
            Some((x * y) as i32)
        } else {
            None
        },
        AOp::Divide => x.checked_div(y),
        AOp::Pow => if y < 0 {
            None
        } else {
            checked_pow_spec(x, y as u32)
        },
    }
}

/// The value of `a` over `mem` in 32-bit arithmetic; `None` where a name is
/// missing from memory, an index is out of range, or an operation fails
/// (see [`apply_op`]; negating `i32::MIN` overflows).
pub open spec fn eval_aexpr(a: AExpr, mem: MemoryView) -> Option<i32>
    decreases a,
{
    match a {
        AExpr::Number(n) => Some(n),
        AExpr::Reference(Target::Variable(v)) => mem.variable(v.0@),
        AExpr::Reference(Target::Array(arr, idx)) => match (mem.array(arr.0@), eval_aexpr(*idx, mem)) {
            (Some(c), Some(i)) => if 0 <= i < c.len() {
                Some(c[i as int])
            } else {
                None
            },
            _ => None,
        },
        AExpr::Binary(l, op, r) => match (eval_aexpr(*l, mem), eval_aexpr(*r, mem)) {
            (Some(x), Some(y)) => apply_op(op, x, y),
            _ => None,
        },
        AExpr::Minus(inner) => match eval_aexpr(*inner, mem) {
            Some(x) => if x == i32::MIN {
                None
            } else {
                Some((-x) as i32)
            },
            None => None,
        },
    }
}

/// Bounds `(lo, hi, ex)` describe an outcome of evaluation: a value lies
/// in `lo..=hi`, and a failure has `ex` set.
pub open spec fn describes(b: (i32, i32, bool), v: Option<i32>) -> bool {
    match v {
        Some(x) => b.0 <= x <= b.1,
        None => b.2,
    }
}

/// No bounds at all, with evaluation possibly failing.
pub open spec fn unbounded() -> (i32, i32, bool) {
    (i32::MIN, i32::MAX, true)
}

/// The quotient of `x` by `y`, truncated toward zero (for `y != 0`).
pub open spec fn tdiv(x: int, y: int) -> int {
    if x == 0 {
        0
    } else if x > 0 && y > 0 {
        x / y
    } else if x < 0 && y < 0 {
        (x * -1) / (y * -1)
    } else if x < 0 {
        ((x * -1) / y) * -1
    } else {
        (x / (y * -1)) * -1
    }
}

/// Both ranges are ordered, the divisor's excludes zero, and the
/// dividend's cannot make `i32::MIN / -1`: each quotient of values in the
/// ranges is defined.
pub open spec fn divisor_clear(l: (i32, i32, bool), r: (i32, i32, bool)) -> bool {
    &&& l.0 <= l.1 && r.0 <= r.1
    &&& (0 < r.0 || r.1 < 0)
    &&& !(l.0 == i32::MIN && r.0 <= -1 && -1 <= r.1)
}

/// The bounds of `l op r` from those of `l` and `r`.
pub open spec fn bounds_binary(l: (i32, i32, bool), op: AOp, r: (i32, i32, bool)) -> (
    i32,
    i32,
    bool,
) {
    let (lmin, lmax, lex) = l;
    let (rmin, rmax, rex) = r;
    let ex = lex || rex;
    match op {
        AOp::Plus => {
            let lo = lmin + rmin;
            let hi = lmax + rmax;
            (clamp(lo), clamp(hi), ex || lo < i32::MIN || hi > i32::MAX)
        },
        AOp::Minus => {
            let lo = lmin - rmax;
            let hi = lmax - rmin;
            (clamp(lo), clamp(hi), ex || lo < i32::MIN || hi > i32::MAX)
        },
        AOp::Times => {
            let lo = min4(lmin * rmin, lmin * rmax, lmax * rmin, lmax * rmax);
            let hi = max4(lmin * rmin, lmin * rmax, lmax * rmin, lmax * rmax);
            (clamp(lo), clamp(hi), ex || lo < i32::MIN || hi > i32::MAX)
        },
        AOp::Divide => if lmin == lmax && rmin == rmax {
            match lmin.checked_div(rmin) {
                Some(q) => (q, q, ex),
                None => unbounded(),
            }
        } else if divisor_clear(l, r) {
            let (q1, q2, q3, q4) = (
                tdiv(lmin as int, rmin as int),
                tdiv(lmin as int, rmax as int),
                tdiv(lmax as int, rmin as int),
                tdiv(lmax as int, rmax as int),
            );
            (clamp(min4(q1, q2, q3, q4)), clamp(max4(q1, q2, q3, q4)), ex)
        } else {
            let m = max2(magnitude(lmin as int), magnitude(lmax as int));
            (
                clamp(-m),
                clamp(m),
                ex || (rmin <= 0 && 0 <= rmax) || (lmin == i32::MIN && rmin <= -1 && -1 <= rmax),
            )
        },
        AOp::Pow => if lmin == lmax && rmin == rmax && rmin >= 0 {
            match checked_pow_spec(lmin, rmin as u32) {
                Some(p) => (p, p, ex),
                None => unbounded(),
            }
        } else if 1 <= lmin <= lmax && 0 <= rmin <= rmax {
            match (checked_pow_spec(lmin, rmin as u32), checked_pow_spec(lmax, rmax as u32)) {
                (Some(lo), Some(hi)) => (lo, hi, ex),
                (Some(lo), None) => (lo, i32::MAX, true),
                _ => unbounded(),
            }
        } else {
            unbounded()
        },
    }
}

/// The bounds of a negation from those of its operand.
pub open spec fn bounds_minus(b: (i32, i32, bool)) -> (i32, i32, bool) {
    let (lo, hi, ex) = b;
    (
        if hi == i32::MIN {
            i32::MAX
        } else {
            (-hi) as i32
        },
        if lo == i32::MIN {
            i32::MAX
        } else {
            (-lo) as i32
        },
        ex || lo == i32::MIN,
    )
}

/// The bounds of `a` over `mem`: its least and greatest value and whether
/// evaluating it may fail; `None` exactly where a name is missing from
/// memory. An array reference whose index is known gives that element,
/// any other gives the least and greatest element, flagged where the index
/// may lie outside the array.
pub open spec fn bounds(a: AExpr, mem: MemoryView) -> Option<(i32, i32, bool)>
    decreases a,
{
    match a {
        AExpr::Number(n) => Some((n, n, false)),
        AExpr::Reference(Target::Variable(v)) => match mem.variable(v.0@) {
            Some(x) => Some((x, x, false)),
            None => None,
        },
        AExpr::Reference(Target::Array(arr, idx)) => match mem.array(arr.0@) {
            None => None,
            Some(c) => match bounds(*idx, mem) {
                None => None,
                Some((lo, hi, ex)) => if lo < 0 || hi < 0 || hi >= c.len() {
                    Some((seq_min(c), seq_max(c), true))
                } else if lo == hi {
                    Some((c[lo as int], c[lo as int], ex))
                } else {
                    Some((seq_min(c), seq_max(c), ex))
                },
            },
        },
        AExpr::Binary(l, op, r) => match (bounds(*l, mem), bounds(*r, mem)) {
            (Some(lb), Some(rb)) => Some(bounds_binary(lb, op, rb)),
            _ => None,
        },
        AExpr::Minus(inner) => match bounds(*inner, mem) {
            Some(b) => Some(bounds_minus(b)),
            None => None,
        },
    }
}

/// A product lies between the products of the extremes of its factors.
proof fn lemma_mul_between(x: int, y: int, a: int, b: int, c: int, d: int)
    requires
        a <= x <= b,
        c <= y <= d,
    ensures
        min4(a * c, a * d, b * c, b * d) <= x * y <= max4(a * c, a * d, b * c, b * d),
{
    if y >= 0 {
        assert(a * y <= x * y <= b * y) by (nonlinear_arith)
            requires
                a <= x <= b,
                y >= 0,
        ;
    } else {
        assert(b * y <= x * y <= a * y) by (nonlinear_arith)
            requires
                a <= x <= b,
                y < 0,
        ;
    }
    if a >= 0 {
        assert(a * c <= a * y <= a * d) by (nonlinear_arith)
            requires
                c <= y <= d,
                a >= 0,
        ;
    } else {
        assert(a * d <= a * y <= a * c) by (nonlinear_arith)
            requires
                c <= y <= d,
                a < 0,
        ;
    }
    if b >= 0 {
        assert(b * c <= b * y <= b * d) by (nonlinear_arith)
            requires
                c <= y <= d,
                b >= 0,
        ;
    } else {
        assert(b * d <= b * y <= b * c) by (nonlinear_arith)
            requires
                c <= y <= d,
                b < 0,
        ;
    }
}

/// A truncated quotient is no larger in size than its dividend, and the
/// division fails only by zero or on `i32::MIN / -1`.
proof fn lemma_div_size(x: i32, y: i32)
    ensures
        x.checked_div(y) matches Some(q) ==> magnitude(q as int) <= magnitude(x as int),
        x.checked_div(y) is None ==> y == 0 || (x == i32::MIN && y == -1),
{
    if y != 0 && x != 0 {
        let xa = magnitude(x as int);
        let ya = magnitude(y as int);
        vstd::arithmetic::div_mod::lemma_div_nonincreasing(xa, ya);
        vstd::arithmetic::div_mod::lemma_div_pos_is_pos(xa, ya);
        if ya > 1 {
            vstd::arithmetic::div_mod::lemma_div_decreases(xa, ya);
        }
        assert(x > 0 && y > 0 ==> (x as int) / (y as int) == xa / ya);
        assert(x < 0 && y < 0 ==> (x as int * -1) / (y as int * -1) == xa / ya);
        assert(x < 0 && y > 0 ==> (x as int * -1) / (y as int) == xa / ya);
        assert(x > 0 && y < 0 ==> (x as int) / (y as int * -1) == xa / ya);
    }
}

/// `checked_div` of a nonzero divisor, other than `i32::MIN / -1`, is the
/// truncated quotient.
proof fn lemma_tdiv_checked(x: i32, y: i32)
    requires
        y != 0,
        !(x == i32::MIN && y == -1),
    ensures
        in_i32(tdiv(x as int, y as int)),
        x.checked_div(y) == Some(tdiv(x as int, y as int) as i32),
{
    lemma_div_size(x, y);
}

/// A truncated quotient grows with its dividend for a positive divisor and
/// shrinks with it for a negative one.
proof fn lemma_tdiv_mono_x(x1: int, x2: int, y: int)
    requires
        x1 <= x2,
        y != 0,
    ensures
        y > 0 ==> tdiv(x1, y) <= tdiv(x2, y),
        y < 0 ==> tdiv(x1, y) >= tdiv(x2, y),
{
    let z = if y > 0 {
        y
    } else {
        y * -1
    };
    if x1 > 0 {
        vstd::arithmetic::div_mod::lemma_div_is_ordered(x1, x2, z);
    } else if x2 < 0 {
        vstd::arithmetic::div_mod::lemma_div_is_ordered(x2 * -1, x1 * -1, z);
    } else {
        if x1 < 0 {
            vstd::arithmetic::div_mod::lemma_div_pos_is_pos(x1 * -1, z);
        }
        if x2 > 0 {
            vstd::arithmetic::div_mod::lemma_div_pos_is_pos(x2, z);
        }
    }
}

/// For a divisor between `c` and `d` of one sign, a truncated quotient lies
/// between the quotients by `c` and by `d`.
proof fn lemma_tdiv_between_y(x: int, y: int, c: int, d: int)
    requires
        c <= y <= d,
        0 < c || d < 0,
    ensures
        min2(tdiv(x, c), tdiv(x, d)) <= tdiv(x, y) <= max2(tdiv(x, c), tdiv(x, d)),
{
    if x != 0 {
        let m = if x > 0 {
            x
        } else {
            x * -1
        };
        if 0 < c {
            vstd::arithmetic::div_mod::lemma_div_is_ordered_by_denominator(m, c, y);
            vstd::arithmetic::div_mod::lemma_div_is_ordered_by_denominator(m, y, d);
        } else {
            vstd::arithmetic::div_mod::lemma_div_is_ordered_by_denominator(m, d * -1, y * -1);
            vstd::arithmetic::div_mod::lemma_div_is_ordered_by_denominator(m, y * -1, c * -1);
        }
    }
}

/// A truncated quotient of values in ranges whose divisor range excludes
/// zero lies between the quotients of the ranges' corners.
proof fn lemma_tdiv_corners(x: int, y: int, a: int, b: int, c: int, d: int)
    requires
        a <= x <= b,
        c <= y <= d,
        0 < c || d < 0,
    ensures
        min4(tdiv(a, c), tdiv(a, d), tdiv(b, c), tdiv(b, d)) <= tdiv(x, y) <= max4(
            tdiv(a, c),
            tdiv(a, d),
            tdiv(b, c),
            tdiv(b, d),
        ),
{
    lemma_tdiv_mono_x(a, x, y);
    lemma_tdiv_mono_x(x, b, y);
    lemma_tdiv_between_y(a, y, c, d);
    lemma_tdiv_between_y(b, y, c, d);
}

/// A power grows with a base that is not negative.
proof fn lemma_pow_base_mono(x: int, y: int, e: nat)
    requires
        0 <= x <= y,
    ensures
        0 <= pow(x, e) <= pow(y, e),
    decreases e,
{
    reveal(pow);
    if e > 0 {
        lemma_pow_base_mono(x, y, (e - 1) as nat);
        let p = pow(x, (e - 1) as nat);
        let q = pow(y, (e - 1) as nat);
        assert(0 <= x * p <= y * q) by (nonlinear_arith)
            requires
                0 <= x <= y,
                0 <= p <= q,
        ;
    }
}

/// A power of a base of at least 1 lies between the powers of the ranges'
/// low corner and high corner.
proof fn lemma_pow_between(x: int, e: nat, a: int, b: int, c: nat, d: nat)
    requires
        1 <= a <= x <= b,
        c <= e <= d,
    ensures
        pow(a, c) <= pow(x, e) <= pow(b, d),
{
    vstd::arithmetic::power::lemma_pow_increases(a as nat, c, e);
    lemma_pow_base_mono(a, x, e);
    lemma_pow_base_mono(x, b, e);
    vstd::arithmetic::power::lemma_pow_increases(b as nat, e, d);
}

/// The bounds of a binary operation describe its outcome where those of
/// its operands describe theirs.
#[verifier::rlimit(50)]
proof fn lemma_binary_sound(
    l: (i32, i32, bool),
    op: AOp,
    r: (i32, i32, bool),
    x: Option<i32>,
    y: Option<i32>,
)
    requires
        describes(l, x),
        describes(r, y),
    ensures
        describes(
            bounds_binary(l, op, r),
            match (x, y) {
                (Some(a), Some(b)) => apply_op(op, a, b),
                _ => None,
            },
        ),
{
    let (lmin, lmax, lex) = l;
    let (rmin, rmax, rex) = r;
    if let (Some(a), Some(b)) = (x, y) {
        match op {
            AOp::Times => {
                lemma_mul_between(a as int, b as int, lmin as int, lmax as int, rmin as int, rmax as int);
            },
            AOp::Pow => {
                if !(lmin == lmax && rmin == rmax && rmin >= 0) && 1 <= lmin <= lmax && 0 <= rmin
                    <= rmax && b >= 0 {
                    lemma_pow_between(a as int, b as nat, lmin as int, lmax as int, rmin as nat, rmax as nat);
                }
            },
            AOp::Divide => {
                lemma_div_size(a, b);
                if !(lmin == lmax && rmin == rmax) && divisor_clear(l, r) {
                    lemma_tdiv_checked(a, b);
                    lemma_tdiv_corners(a as int, b as int, lmin as int, lmax as int, rmin as int, rmax as int);
                }
            },
            _ => {},
        }
    }
}

/// The bounds of a negation describe its outcome where those of the operand
/// describe theirs.
proof fn lemma_minus_sound(b: (i32, i32, bool), x: Option<i32>)
    requires
        describes(b, x),
    ensures
        describes(
            bounds_minus(b),
            match x {
                Some(v) => if v == i32::MIN {
                    None
                } else {
                    Some((-v) as i32)
                },
                None => None,
            },
        ),
{
}

/// The bounds of an operation on two known values that evaluates to `v`
/// are exactly `v`, with no failure flagged.
proof fn lemma_binary_exact(op: AOp, x: i32, y: i32)
    requires
        apply_op(op, x, y) is Some,
    ensures
        bounds_binary((x, x, false), op, (y, y, false)) == ({
            let v = apply_op(op, x, y).unwrap();
            (v, v, false)
        }),
{
    match op {
        AOp::Plus => {},
        AOp::Minus => {},
        AOp::Times => {},
        AOp::Divide => {},
        AOp::Pow => {},
    }
}

/// The bounds are tight wherever evaluation succeeds: over a memory, an
/// expression that evaluates to `v` has the bounds `(v, v)` with no failure
/// flagged. So a quotient, a power or any other operation on known values
/// is bounded by exactly its value.
pub proof fn lemma_bounds_exact(a: AExpr, mem: MemoryView)
    ensures
        eval_aexpr(a, mem) matches Some(v) ==> bounds(a, mem) == Some((v, v, false)),
    decreases a,
{
    match a {
        AExpr::Number(_) => {},
        AExpr::Reference(Target::Variable(_)) => {},
        AExpr::Reference(Target::Array(arr, idx)) => {
            lemma_bounds_exact(*idx, mem);
        },
        AExpr::Binary(l, op, r) => {
            lemma_bounds_exact(*l, mem);
            lemma_bounds_exact(*r, mem);
            if let (Some(x), Some(y)) = (eval_aexpr(*l, mem), eval_aexpr(*r, mem)) {
                if apply_op(op, x, y) is Some {
                    lemma_binary_exact(op, x, y);
                }
            }
        },
        AExpr::Minus(inner) => {
            lemma_bounds_exact(*inner, mem);
        },
    }
}

/// The bounds are sound: a value that evaluation gives lies between them,
/// a failing evaluation has the failure flag set, and where the bounds
/// cannot be computed (a name is missing) evaluation fails too.
pub proof fn lemma_bounds_sound(a: AExpr, mem: MemoryView)
    ensures
        bounds(a, mem) matches Some(b) ==> describes(b, eval_aexpr(a, mem)),
        bounds(a, mem) is None ==> eval_aexpr(a, mem) is None,
    decreases a,
{
    match a {
        AExpr::Number(_) => {},
        AExpr::Reference(Target::Variable(_)) => {},
        AExpr::Reference(Target::Array(arr, idx)) => {
            lemma_bounds_sound(*idx, mem);
            if let (Some(c), Some(i)) = (mem.array(arr.0@), eval_aexpr(*idx, mem)) {
                if 0 <= i < c.len() {
                    lemma_seq_min_max(c, i as int);
                }
            }
        },
        AExpr::Binary(l, op, r) => {
            lemma_bounds_sound(*l, mem);
            lemma_bounds_sound(*r, mem);
            if let (Some(lb), Some(rb)) = (bounds(*l, mem), bounds(*r, mem)) {
                lemma_binary_sound(lb, op, rb, eval_aexpr(*l, mem), eval_aexpr(*r, mem));
            }
        },
        AExpr::Minus(inner) => {
            lemma_bounds_sound(*inner, mem);
            if let Some(b) = bounds(*inner, mem) {
                lemma_minus_sound(b, eval_aexpr(*inner, mem));
            }
        },
    }
}

} // verus!

verus! {

/// `i32::checked_pow`: `base` to the power `exp`, or `None` where that
/// overflows (as its documentation states).
#[verifier::external_body]
fn checked_pow(base: i32, exp: u32) -> (r: Option<i32>)
    ensures
        r == checked_pow_spec(base, exp),
{
    base.checked_pow(exp)
}

fn clamp_i64(v: i64) -> (r: i32)
    ensures
        r == clamp(v as int),
{
    if v > i32::MAX as i64 {
        i32::MAX
    } else if v < i32::MIN as i64 {
        i32::MIN
    } else {
        v as i32
    }
}

fn min_i64(a: i64, b: i64) -> (r: i64)
    ensures
        r == min2(a as int, b as int),
{
    if a <= b {
        a
    } else {
        b
    }
}

fn max_i64(a: i64, b: i64) -> (r: i64)
    ensures
        r == max2(a as int, b as int),
{
    if a >= b {
        a
    } else {
        b
    }
}

fn magnitude_i64(a: i32) -> (r: i64)
    ensures
        r == magnitude(a as int),
{
    if a < 0 {
        -(a as i64)
    } else {
        a as i64
    }
}

/// The least of `v`, or 0 when it is empty.
pub fn values_min(v: &Vec<i32>) -> (r: i32)
    ensures
        r == seq_min(v@),
{
    if v.len() == 0 {
        return 0;
    }
    let mut r = v[0];
    let mut i: usize = 1;
    assert(v@.take(1).drop_last() =~= v@.take(0));
    while i < v.len()
        invariant
            1 <= i <= v.len(),
            r == seq_min(v@.take(i as int)),
        decreases v.len() - i,
    {
        assert(v@.take(i + 1).drop_last() =~= v@.take(i as int));
        r = if r <= v[i] {
            r
        } else {
            v[i]
        };
        i = i + 1;
    }
    assert(v@.take(v.len() as int) =~= v@);
    r
}

/// The greatest of `v`, or 0 when it is empty.
pub fn values_max(v: &Vec<i32>) -> (r: i32)
    ensures
        r == seq_max(v@),
{
    if v.len() == 0 {
        return 0;
    }
    let mut r = v[0];
    let mut i: usize = 1;
    assert(v@.take(1).drop_last() =~= v@.take(0));
    while i < v.len()
        invariant
            1 <= i <= v.len(),
            r == seq_max(v@.take(i as int)),
        decreases v.len() - i,
    {
        assert(v@.take(i + 1).drop_last() =~= v@.take(i as int));
        r = if r >= v[i] {
            r
        } else {
            v[i]
        };
        i = i + 1;
    }
    assert(v@.take(v.len() as int) =~= v@);
    r
}

/// The bounds of `l op r` from those of `l` and `r` (see
/// [`bounds_binary`]).
pub fn binary_bounds(l: (i32, i32, bool), op: AOp, r: (i32, i32, bool)) -> (b: (i32, i32, bool))
    ensures
        b == bounds_binary(l, op, r),
{
    let (lmin, lmax, lex) = l;
    let (rmin, rmax, rex) = r;
    let ex = lex || rex;
    let (a, b, c, d) = (lmin as i64, lmax as i64, rmin as i64, rmax as i64);
    match op {
        AOp::Plus => {
            let lo = a + c;
            let hi = b + d;
            (clamp_i64(lo), clamp_i64(hi), ex || lo < i32::MIN as i64 || hi > i32::MAX as i64)
        },
        AOp::Minus => {
            let lo = a - d;
            let hi = b - c;
            (clamp_i64(lo), clamp_i64(hi), ex || lo < i32::MIN as i64 || hi > i32::MAX as i64)
        },
        AOp::Times => {
            assert(-0x8000_0000 * 0x8000_0000 <= a * c <= 0x8000_0000 * 0x8000_0000) by (nonlinear_arith)
                requires
                    -0x8000_0000 <= a <= 0x7fff_ffff,
                    -0x8000_0000 <= c <= 0x7fff_ffff,
            ;
            assert(-0x8000_0000 * 0x8000_0000 <= a * d <= 0x8000_0000 * 0x8000_0000) by (nonlinear_arith)
                requires
                    -0x8000_0000 <= a <= 0x7fff_ffff,
                    -0x8000_0000 <= d <= 0x7fff_ffff,
            ;
            assert(-0x8000_0000 * 0x8000_0000 <= b * c <= 0x8000_0000 * 0x8000_0000) by (nonlinear_arith)
                requires
                    -0x8000_0000 <= b <= 0x7fff_ffff,
                    -0x8000_0000 <= c <= 0x7fff_ffff,
            ;
            assert(-0x8000_0000 * 0x8000_0000 <= b * d <= 0x8000_0000 * 0x8000_0000) by (nonlinear_arith)
                requires
                    -0x8000_0000 <= b <= 0x7fff_ffff,
                    -0x8000_0000 <= d <= 0x7fff_ffff,
            ;
            let (p1, p2, p3, p4) = (a * c, a * d, b * c, b * d);
            let lo = min_i64(min_i64(min_i64(p1, p2), p3), p4);
            let hi = max_i64(max_i64(max_i64(p1, p2), p3), p4);
            (clamp_i64(lo), clamp_i64(hi), ex || lo < i32::MIN as i64 || hi > i32::MAX as i64)
        },
        AOp::Divide => {
            if lmin == lmax && rmin == rmax {
                match lmin.checked_div(rmin) {
                    Some(q) => (q, q, ex),
                    None => (i32::MIN, i32::MAX, true),
                }
            } else if lmin <= lmax && rmin <= rmax && (0 < rmin || rmax < 0) && !(lmin == i32::MIN
                && rmin <= -1 && -1 <= rmax) {
                proof {
                    lemma_tdiv_checked(lmin, rmin);
                    lemma_tdiv_checked(lmin, rmax);
                    lemma_tdiv_checked(lmax, rmin);
                    lemma_tdiv_checked(lmax, rmax);
                }
                let q1 = lmin.checked_div(rmin).unwrap() as i64;
                let q2 = lmin.checked_div(rmax).unwrap() as i64;
                let q3 = lmax.checked_div(rmin).unwrap() as i64;
                let q4 = lmax.checked_div(rmax).unwrap() as i64;
                let lo = min_i64(min_i64(min_i64(q1, q2), q3), q4);
                let hi = max_i64(max_i64(max_i64(q1, q2), q3), q4);
                (clamp_i64(lo), clamp_i64(hi), ex)
            } else {
                let m = max_i64(magnitude_i64(lmin), magnitude_i64(lmax));
                (
                    clamp_i64(-m),
                    clamp_i64(m),
                    ex || (rmin <= 0 && 0 <= rmax) || (lmin == i32::MIN && rmin <= -1 && -1
                        <= rmax),
                )
            }
        },
        AOp::Pow => {
            if lmin == lmax && rmin == rmax && rmin >= 0 {
                match checked_pow(lmin, rmin as u32) {
                    Some(p) => (p, p, ex),
                    None => (i32::MIN, i32::MAX, true),
                }
            } else if 1 <= lmin && lmin <= lmax && 0 <= rmin && rmin <= rmax {
                match (checked_pow(lmin, rmin as u32), checked_pow(lmax, rmax as u32)) {
                    (Some(lo), Some(hi)) => (lo, hi, ex),
                    (Some(lo), None) => (lo, i32::MAX, true),
                    _ => (i32::MIN, i32::MAX, true),
                }
            } else {
                (i32::MIN, i32::MAX, true)
            }
        },
    }
}

/// The bounds of a negation (see [`bounds_minus`]).
fn minus_bounds(b: (i32, i32, bool)) -> (r: (i32, i32, bool))
    ensures
        r == bounds_minus(b),
{
    let (lo, hi, ex) = b;
    (
        if hi == i32::MIN {
            i32::MAX
        } else {
            -hi
        },
        if lo == i32::MIN {
            i32::MAX
        } else {
            -lo
        },
        ex || lo == i32::MIN,
    )
}

/// The bounds of `a` over `mem` (see [`bounds`]).
pub fn bounds_in(a: AExpr, mem: &InterpreterMemory) -> (r: Option<(i32, i32, bool)>)
    ensures
        r == bounds(a, mem@),
    decreases a,
{
    match a {
        AExpr::Number(n) => Some((n, n, false)),
        AExpr::Reference(Target::Variable(v)) => match mem.get_variable(&v.0) {
            Some(x) => Some((x, x, false)),
            None => None,
        },
        AExpr::Reference(Target::Array(arr, idx)) => {
            let c = match mem.get_array(&arr.0) {
                Some(c) => c,
                None => return None,
            };
            match bounds_in(*idx, mem) {
                None => None,
                Some((lo, hi, ex)) => {
                    if lo < 0 || hi < 0 || (hi as usize) >= c.len() {
                        Some((values_min(c), values_max(c), true))
                    } else if lo == hi {
                        let v = c[lo as usize];
                        Some((v, v, ex))
                    } else {
                        Some((values_min(c), values_max(c), ex))
                    }
                },
            }
        },
        AExpr::Binary(l, op, r) => {
            let lb = bounds_in(*l, mem);
            let rb = bounds_in(*r, mem);
            match (lb, rb) {
                (Some(lb), Some(rb)) => Some(binary_bounds(lb, op, rb)),
                _ => None,
            }
        },
        AExpr::Minus(inner) => match bounds_in(*inner, mem) {
            Some(b) => Some(minus_bounds(b)),
            None => None,
        },
    }
}

} // verus!
