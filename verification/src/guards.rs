//! What guards evaluate to over a memory, and the laws of the guards that
//! the interpreter generator builds: a guard whose failing positions hold
//! comparisons refuted by the bounds of their sides never evaluates to
//! true, and one whose holding positions hold confirmed comparisons never
//! evaluates to false. The generator builds its comparisons so (see
//! [`lemma_stuck_rel_refuted`] and [`lemma_nondet_rel_confirmed`]), so its
//! failing guards never hold and its holding guards never fail over the
//! memory they are generated for. A failing evaluation (a division by
//! zero, an index out of range) neither holds nor fails.

use crate::ast::{AExpr, AOp, BExpr, LogicOp, RelOp};
use crate::bounds::{bounds, clamp, eval_aexpr, in_i32, lemma_bounds_sound};
use crate::interpreter_gen::{
    aexpr_is_closed, lemma_closed_bounds, lifted, nondet_rel_of, stuck_rel_of, NondetRelChoice,
    StuckRelChoice,
};
use crate::memory::MemoryView;
use vstd::prelude::*;

verus! {

/// The truth of `x op y`.
pub open spec fn rel_holds(op: RelOp, x: i32, y: i32) -> bool {
    match op {
        RelOp::Eq => x == y,
        RelOp::Ne => x != y,
        RelOp::Gt => x > y,
        RelOp::Ge => x >= y,
        RelOp::Lt => x < y,
        RelOp::Le => x <= y,
    }
}

/// The value of a guard over `mem`: a comparison compares the values of
/// its sides; `&` and `|` evaluate both operands, `&&` and `||` the right
/// one only where the left one does not decide. `None` where evaluation
/// fails (see [`eval_aexpr`]).
pub open spec fn eval_bexpr(b: BExpr, mem: MemoryView) -> Option<bool>
    decreases b,
{
    match b {
        BExpr::Bool(v) => Some(v),
        BExpr::Rel(l, op, r) => match (eval_aexpr(l, mem), eval_aexpr(r, mem)) {
            (Some(x), Some(y)) => Some(rel_holds(op, x, y)),
            _ => None,
        },
        BExpr::Not(inner) => match eval_bexpr(*inner, mem) {
            Some(v) => Some(!v),
            None => None,
        },
        BExpr::Logic(l, op, r) => match op {
            LogicOp::And => match (eval_bexpr(*l, mem), eval_bexpr(*r, mem)) {
                (Some(x), Some(y)) => Some(x && y),
                _ => None,
            },
            LogicOp::Or => match (eval_bexpr(*l, mem), eval_bexpr(*r, mem)) {
                (Some(x), Some(y)) => Some(x || y),
                _ => None,
            },
            LogicOp::Land => match eval_bexpr(*l, mem) {
                Some(false) => Some(false),
                Some(true) => eval_bexpr(*r, mem),
                None => None,
            },
            LogicOp::Lor => match eval_bexpr(*l, mem) {
                Some(true) => Some(true),
                Some(false) => eval_bexpr(*r, mem),
                None => None,
            },
        },
    }
}

/// Bounds of the sides that leave `op` no pair of values on which it
/// holds.
pub open spec fn bounds_refute(op: RelOp, l: (i32, i32, bool), r: (i32, i32, bool)) -> bool {
    match op {
        RelOp::Eq => l.1 < r.0 || r.1 < l.0,
        RelOp::Ne => l.0 == l.1 && r.0 == r.1 && l.0 == r.0,
        RelOp::Gt => l.1 <= r.0,
        RelOp::Ge => l.1 < r.0,
        RelOp::Lt => l.0 >= r.1,
        RelOp::Le => l.0 > r.1,
    }
}

/// Bounds of the sides that leave `op` no pair of values on which it
/// fails.
pub open spec fn bounds_confirm(op: RelOp, l: (i32, i32, bool), r: (i32, i32, bool)) -> bool {
    match op {
        RelOp::Eq => l.0 == l.1 && r.0 == r.1 && l.0 == r.0,
        RelOp::Ne => l.1 < r.0 || r.1 < l.0,
        RelOp::Gt => l.0 > r.1,
        RelOp::Ge => l.0 >= r.1,
        RelOp::Lt => l.1 < r.0,
        RelOp::Le => l.1 <= r.0,
    }
}

/// The comparison `l op r` cannot hold over `mem`: an expression unequal to
/// itself, or sides whose bounds refute it.
pub open spec fn rel_refuted(l: AExpr, op: RelOp, r: AExpr, mem: MemoryView) -> bool {
    ||| op == RelOp::Ne && l == r
    ||| bounds(l, mem) matches Some(lb) && bounds(r, mem) matches Some(rb) && bounds_refute(
        op,
        lb,
        rb,
    )
}

/// The comparison `l op r` cannot fail over `mem`: an expression equal to
/// itself, or sides whose bounds confirm it.
pub open spec fn rel_confirmed(l: AExpr, op: RelOp, r: AExpr, mem: MemoryView) -> bool {
    ||| op == RelOp::Eq && l == r
    ||| bounds(l, mem) matches Some(lb) && bounds(r, mem) matches Some(rb) && bounds_confirm(
        op,
        lb,
        rb,
    )
}

/// Every comparison in a failing position of `b` is refuted, following the
/// structure of [`stuck_form`](crate::interpreter_gen::stuck_form).
pub open spec fn stuck_refuted(b: BExpr, mem: MemoryView) -> bool
    decreases b,
{
    match b {
        BExpr::Bool(v) => !v,
        BExpr::Rel(l, op, r) => rel_refuted(l, op, r, mem),
        BExpr::Not(inner) => match *inner {
            BExpr::Bool(v) => v,
            BExpr::Not(x) => stuck_refuted(*x, mem),
            _ => false,
        },
        BExpr::Logic(l, op, r) => match op {
            LogicOp::And | LogicOp::Land => stuck_refuted(*l, mem) || stuck_refuted(*r, mem),
            LogicOp::Or | LogicOp::Lor => stuck_refuted(*l, mem) && stuck_refuted(*r, mem),
        },
    }
}

/// Every comparison in a holding position of `b` is confirmed, and every
/// negated failing guard in it refuted, following the structure of
/// [`nondet_form`](crate::interpreter_gen::nondet_form).
pub open spec fn nondet_confirmed(b: BExpr, mem: MemoryView) -> bool
    decreases b,
{
    match b {
        BExpr::Bool(v) => v,
        BExpr::Rel(l, op, r) => rel_confirmed(l, op, r, mem),
        BExpr::Not(inner) => stuck_refuted(*inner, mem),
        BExpr::Logic(l, op, r) => match op {
            LogicOp::Or | LogicOp::Lor => nondet_confirmed(*l, mem) || nondet_confirmed(*r, mem),
            _ => false,
        },
    }
}

/// A refuted comparison never holds over the memory.
pub proof fn lemma_refuted_never_holds(l: AExpr, op: RelOp, r: AExpr, mem: MemoryView)
    requires
        rel_refuted(l, op, r, mem),
    ensures
        eval_bexpr(BExpr::Rel(l, op, r), mem) != Some(true),
{
    lemma_bounds_sound(l, mem);
    lemma_bounds_sound(r, mem);
}

/// A confirmed comparison never fails over the memory.
pub proof fn lemma_confirmed_never_fails(l: AExpr, op: RelOp, r: AExpr, mem: MemoryView)
    requires
        rel_confirmed(l, op, r, mem),
    ensures
        eval_bexpr(BExpr::Rel(l, op, r), mem) != Some(false),
{
    lemma_bounds_sound(l, mem);
    lemma_bounds_sound(r, mem);
}

/// A guard whose failing positions are refuted never holds: it evaluates to
/// false or its evaluation fails.
pub proof fn lemma_stuck_never_holds(b: BExpr, mem: MemoryView)
    requires
        stuck_refuted(b, mem),
    ensures
        eval_bexpr(b, mem) != Some(true),
    decreases b,
{
    reveal_with_fuel(eval_bexpr, 3);
    match b {
        BExpr::Bool(_) => {},
        BExpr::Rel(l, op, r) => lemma_refuted_never_holds(l, op, r, mem),
        BExpr::Not(inner) => match *inner {
            BExpr::Bool(_) => {},
            BExpr::Not(x) => {
                lemma_stuck_never_holds(*x, mem);
            },
            _ => {},
        },
        BExpr::Logic(l, op, r) => {
            if stuck_refuted(*l, mem) {
                lemma_stuck_never_holds(*l, mem);
            }
            if stuck_refuted(*r, mem) {
                lemma_stuck_never_holds(*r, mem);
            }
        },
    }
}

/// A guard whose holding positions are confirmed never fails: it evaluates
/// to true or its evaluation fails.
pub proof fn lemma_nondet_never_fails(b: BExpr, mem: MemoryView)
    requires
        nondet_confirmed(b, mem),
    ensures
        eval_bexpr(b, mem) != Some(false),
    decreases b,
{
    match b {
        BExpr::Bool(_) => {},
        BExpr::Rel(l, op, r) => lemma_confirmed_never_fails(l, op, r, mem),
        BExpr::Not(inner) => lemma_stuck_never_holds(*inner, mem),
        BExpr::Logic(l, op, r) => {
            if nondet_confirmed(*l, mem) {
                lemma_nondet_never_fails(*l, mem);
            }
            if nondet_confirmed(*r, mem) {
                lemma_nondet_never_fails(*r, mem);
            }
        },
    }
}

/// The bounds of an expression without variables are a single value
/// wherever its evaluation cannot fail.
pub proof fn lemma_closed_exact(e: AExpr, mem: MemoryView)
    requires
        aexpr_is_closed(e),
    ensures
        bounds(e, mem) matches Some(b) && (!b.2 ==> b.0 == b.1),
    decreases e,
{
    lemma_closed_bounds(e, mem);
    match e {
        AExpr::Binary(l, _, r) => {
            lemma_closed_exact(*l, mem);
            lemma_closed_exact(*r, mem);
        },
        AExpr::Minus(inner) => lemma_closed_exact(*inner, mem),
        _ => {},
    }
}

/// A side raised to a least value (see [`lifted`]) has bounds whose lower
/// one is at least that value.
pub proof fn lemma_lifted_bounds(y: AExpr, mem: MemoryView, floor: int)
    requires
        bounds(y, mem) is Some,
    ensures
        lifted(y, bounds(y, mem).unwrap().0, floor) matches Some(y2) ==> bounds(y2, mem) matches Some(
            b2,
        ) && b2.0 >= floor,
{
    let yb = bounds(y, mem).unwrap();
    if yb.0 < floor && in_i32(floor) && in_i32(floor - yb.0) {
        let d = (floor - yb.0) as i32;
        let shift = AExpr::Number(d);
        assert(bounds(shift, mem) == Some((d, d, false)));
        assert(yb.0 + d == floor);
        assert(clamp(yb.0 + d) == floor);
        assert(bounds(AExpr::Binary(Box::new(y), AOp::Plus, Box::new(shift)), mem) matches Some(b2)
            && b2.0 == floor);
    }
}

/// A comparison built to fail (see [`stuck_rel_of`]) is refuted by the
/// bounds of its sides, so it never evaluates to true: it evaluates to
/// false or its evaluation fails.
pub proof fn lemma_stuck_rel_refuted(k: StuckRelChoice, a: AExpr, b: AExpr, mem: MemoryView)
    ensures
        stuck_rel_of(k, a, b, mem) matches Some(c) ==> stuck_refuted(c, mem) && eval_bexpr(c, mem)
            != Some(true),
{
    if let (Some(ab), Some(bb)) = (bounds(a, mem), bounds(b, mem)) {
        lemma_lifted_bounds(a, mem, bb.1 + 1);
        lemma_lifted_bounds(b, mem, ab.1 + 1);
        lemma_lifted_bounds(a, mem, bb.1 as int);
        lemma_lifted_bounds(b, mem, ab.1 as int);
        let c = stuck_rel_of(k, a, b, mem).unwrap();
        assert(stuck_refuted(c, mem));
        lemma_stuck_never_holds(c, mem);
    }
}

/// A comparison built to hold (see [`nondet_rel_of`]) from sides without
/// variables is confirmed by the bounds of its sides, so it never
/// evaluates to false: it evaluates to true or its evaluation fails.
pub proof fn lemma_nondet_rel_confirmed(k: NondetRelChoice, a: AExpr, b: AExpr, mem: MemoryView)
    requires
        aexpr_is_closed(a),
        aexpr_is_closed(b),
    ensures
        nondet_confirmed(nondet_rel_of(k, a, b, mem), mem),
        eval_bexpr(nondet_rel_of(k, a, b, mem), mem) != Some(false),
{
    lemma_closed_exact(a, mem);
    lemma_closed_exact(b, mem);
    let ab = bounds(a, mem).unwrap();
    let bb = bounds(b, mem).unwrap();
    lemma_lifted_bounds(a, mem, bb.1 + 1);
    lemma_lifted_bounds(b, mem, ab.1 + 1);
    lemma_lifted_bounds(a, mem, bb.1 as int);
    lemma_lifted_bounds(b, mem, ab.1 as int);
    if k == NondetRelChoice::EqualShifted {
        let (amin, _, aex) = ab;
        let (bmin, _, bex) = bb;
        if !bex && in_i32(amin - bmin) {
            let d = (amin - bmin) as i32;
            let shift = AExpr::Number(d);
            assert(bounds(b, mem) == Some((bmin, bmin, false)));
            assert(bounds(shift, mem) == Some((d, d, false)));
            assert(bmin + d == amin);
            assert(clamp(bmin + d) == amin);
            assert(bounds(AExpr::Binary(Box::new(b), AOp::Plus, Box::new(shift)), mem) == Some(
                (amin, amin, false),
            ));
        }
    }
    lemma_nondet_never_fails(nondet_rel_of(k, a, b, mem), mem);
}

} // verus!
