//! Concrete GCL syntax of generated programs.
//!
//! Arithmetic and logical operations are fully parenthesised, negations
//! are written `-(e)` and `!(b)`, commands are separated by ` ;` and a line
//! break, and the guards of an `if ... fi` or `do ... od` by a line break
//! and `[] `. Each comparison, arithmetic and logical operator is printed as
//! the GCL symbol that means it, numbers as decimal digits that read back
//! as their value, and truth values as the words that read back as them.

use crate::ast::{AExpr, AOp, BExpr, Command, Commands, Guard, LogicOp, RelOp, Target};
use crate::bounds::{apply_op, in_i32, tdiv};
use crate::guards::{eval_bexpr, rel_holds};
use crate::memory::MemoryView;
use vstd::arithmetic::power::pow;
use vstd::prelude::*;

verus! {

/// `String::push`: appends one character.
#[verifier::external_body]
fn push_char(s: &mut String, c: char)
    ensures
        final(s)@ == old(s)@.push(c),
{
    s.push(c)
}

pub open spec fn digit_char(d: int) -> char {
    if d == 0 {
        '0'
    } else if d == 1 {
        '1'
    } else if d == 2 {
        '2'
    } else if d == 3 {
        '3'
    } else if d == 4 {
        '4'
    } else if d == 5 {
        '5'
    } else if d == 6 {
        '6'
    } else if d == 7 {
        '7'
    } else if d == 8 {
        '8'
    } else {
        '9'
    }
}

/// The decimal digits of `n`.
pub open spec fn show_nat(n: nat) -> Seq<char>
    decreases n,
{
    if n < 10 {
        seq![digit_char(n as int)]
    } else {
        show_nat(n / 10) + seq![digit_char((n % 10) as int)]
    }
}

/// `n` in decimal, with a leading `-` when negative.
pub open spec fn show_int(n: int) -> Seq<char> {
    if n < 0 {
        seq!['-'] + show_nat((-n) as nat)
    } else {
        show_nat(n as nat)
    }
}

pub open spec fn show_aop(op: AOp) -> Seq<char> {
    match op {
        AOp::Plus => seq!['+'],
        AOp::Minus => seq!['-'],
        AOp::Times => seq!['*'],
        AOp::Divide => seq!['/'],
        AOp::Pow => seq!['^'],
    }
}

pub open spec fn show_relop(op: RelOp) -> Seq<char> {
    match op {
        RelOp::Eq => seq!['='],
        RelOp::Ne => seq!['!', '='],
        RelOp::Gt => seq!['>'],
        RelOp::Ge => seq!['>', '='],
        RelOp::Lt => seq!['<'],
        RelOp::Le => seq!['<', '='],
    }
}

pub open spec fn show_logicop(op: LogicOp) -> Seq<char> {
    match op {
        LogicOp::And => seq!['&'],
        LogicOp::Land => seq!['&', '&'],
        LogicOp::Or => seq!['|'],
        LogicOp::Lor => seq!['|', '|'],
    }
}

pub open spec fn show_target(t: Target) -> Seq<char>
    decreases t,
{
    match t {
        Target::Variable(v) => v.0@,
        Target::Array(a, idx) => a.0@ + seq!['['] + show_aexpr(*idx) + seq![']'],
    }
}

pub open spec fn show_aexpr(e: AExpr) -> Seq<char>
    decreases e,
{
    match e {
        AExpr::Number(n) => show_int(n as int),
        AExpr::Reference(t) => show_target(t),
        AExpr::Binary(l, op, r) => seq!['('] + show_aexpr(*l) + seq![' '] + show_aop(op) + seq![' ']
            + show_aexpr(*r) + seq![')'],
        AExpr::Minus(inner) => seq!['-', '('] + show_aexpr(*inner) + seq![')'],
    }
}

pub open spec fn show_bexpr(b: BExpr) -> Seq<char>
    decreases b,
{
    match b {
        BExpr::Bool(v) => if v {
            seq!['t', 'r', 'u', 'e']
        } else {
            seq!['f', 'a', 'l', 's', 'e']
        },
        BExpr::Rel(l, op, r) => show_aexpr(l) + seq![' '] + show_relop(op) + seq![' '] + show_aexpr(r),
        BExpr::Logic(l, op, r) => seq!['('] + show_bexpr(*l) + seq![' '] + show_logicop(op) + seq![' ']
            + show_bexpr(*r) + seq![')'],
        BExpr::Not(inner) => seq!['!', '('] + show_bexpr(*inner) + seq![')'],
    }
}

pub open spec fn command_separator() -> Seq<char> {
    seq![' ', ';', '\n']
}

pub open spec fn guard_separator() -> Seq<char> {
    seq!['\n', '[', ']', ' ']
}

pub open spec fn show_guard(g: Guard) -> Seq<char>
    decreases g,
{
    show_bexpr(g.0) + seq![' ', '-', '>', '\n'] + show_command_list(g.1.0@)
}

/// The guards joined by the guard separator.
pub open spec fn show_guard_list(gs: Seq<Guard>) -> Seq<char>
    decreases gs,
{
    if gs.len() == 0 {
        seq![]
    } else if gs.len() == 1 {
        show_guard(gs[0])
    } else {
        show_guard_list(gs.drop_last()) + guard_separator() + show_guard(gs.last())
    }
}

/// The commands joined by the command separator.
pub open spec fn show_command_list(cs: Seq<Command>) -> Seq<char>
    decreases cs,
{
    if cs.len() == 0 {
        seq![]
    } else if cs.len() == 1 {
        show_command(cs[0])
    } else {
        show_command_list(cs.drop_last()) + command_separator() + show_command(cs.last())
    }
}

pub open spec fn show_command(c: Command) -> Seq<char>
    decreases c,
{
    match c {
        Command::Assignment(t, e) => show_target(t) + seq![' ', ':', '=', ' '] + show_aexpr(e),
        Command::Skip => seq!['s', 'k', 'i', 'p'],
        Command::If(gs) => seq!['i', 'f', ' '] + show_guard_list(gs@) + seq![' ', 'f', 'i'],
        Command::Loop(gs) => seq!['d', 'o', ' '] + show_guard_list(gs@) + seq![' ', 'o', 'd'],
    }
}

/// The concrete syntax of a program.
pub open spec fn show_commands(c: Commands) -> Seq<char> {
    show_command_list(c.0@)
}

/// The text is the one character `c`.
pub open spec fn is_char(sym: Seq<char>, c: char) -> bool {
    sym.len() == 1 && sym[0] == c
}

/// The text is the two characters `c` and `d`.
pub open spec fn is_chars(sym: Seq<char>, c: char, d: char) -> bool {
    sym.len() == 2 && sym[0] == c && sym[1] == d
}

/// What a GCL comparison symbol means on two values: `=` equal, `!=`
/// unequal, and `>`, `>=`, `<` and `<=` in their usual sense; `None` for
/// any other text.
pub open spec fn relation_of_symbol(sym: Seq<char>, x: int, y: int) -> Option<bool> {
    if is_char(sym, '=') {
        Some(x == y)
    } else if is_chars(sym, '!', '=') {
        Some(x != y)
    } else if is_char(sym, '>') {
        Some(x > y)
    } else if is_chars(sym, '>', '=') {
        Some(x >= y)
    } else if is_char(sym, '<') {
        Some(x < y)
    } else if is_chars(sym, '<', '=') {
        Some(x <= y)
    } else {
        None
    }
}

/// What a GCL arithmetic symbol means on two values, in unbounded
/// integers: `+`, `-` and `*` as usual, `/` the quotient truncated toward
/// zero (undefined by zero), `^` the power (undefined for a negative
/// exponent); `None` where it is undefined or for any other text.
pub open spec fn arithmetic_of_symbol(sym: Seq<char>, x: int, y: int) -> Option<int> {
    if is_char(sym, '+') {
        Some(x + y)
    } else if is_char(sym, '-') {
        Some(x - y)
    } else if is_char(sym, '*') {
        Some(x * y)
    } else if is_char(sym, '/') {
        if y != 0 {
            Some(tdiv(x, y))
        } else {
            None
        }
    } else if is_char(sym, '^') {
        if y >= 0 {
            Some(pow(x, y as nat))
        } else {
            None
        }
    } else {
        None
    }
}

/// What a GCL logical symbol means on the outcomes of its operands (`None`
/// for a failing one): `&` and `|` need both, `&&` and `||` look at the
/// right one only where the left one does not decide; `None` for any other
/// text.
pub open spec fn logic_of_symbol(sym: Seq<char>, l: Option<bool>, r: Option<bool>) -> Option<
    Option<bool>,
> {
    if is_char(sym, '&') {
        Some(
            match (l, r) {
                (Some(a), Some(b)) => Some(a && b),
                _ => None,
            },
        )
    } else if is_char(sym, '|') {
        Some(
            match (l, r) {
                (Some(a), Some(b)) => Some(a || b),
                _ => None,
            },
        )
    } else if is_chars(sym, '&', '&') {
        Some(
            match l {
                Some(false) => Some(false),
                Some(true) => r,
                None => None,
            },
        )
    } else if is_chars(sym, '|', '|') {
        Some(
            match l {
                Some(true) => Some(true),
                Some(false) => r,
                None => None,
            },
        )
    } else {
        None
    }
}

/// Each comparison is printed as the GCL symbol that means it: the printed
/// symbol holds of two values exactly where the comparison does.
pub proof fn lemma_relop_printed(op: RelOp, x: i32, y: i32)
    ensures
        relation_of_symbol(show_relop(op), x as int, y as int) == Some(rel_holds(op, x, y)),
{
}

/// Each arithmetic operation is printed as the GCL symbol that means it:
/// its 32-bit outcome is the symbol's value where that fits an `i32`, and
/// fails where the symbol's value is undefined or does not fit.
pub proof fn lemma_aop_printed(op: AOp, x: i32, y: i32)
    ensures
        apply_op(op, x, y) == match arithmetic_of_symbol(show_aop(op), x as int, y as int) {
            Some(v) => if in_i32(v) {
                Some(v as i32)
            } else {
                None
            },
            None => None,
        },
{
}

/// Each logical operation is printed as the GCL symbol that means it: a
/// printed `l op r` evaluates as the symbol says on the outcomes of `l`
/// and `r`.
pub proof fn lemma_logicop_printed(l: BExpr, op: LogicOp, r: BExpr, mem: MemoryView)
    ensures
        logic_of_symbol(show_logicop(op), eval_bexpr(l, mem), eval_bexpr(r, mem)) == Some(
            eval_bexpr(BExpr::Logic(Box::new(l), op, Box::new(r)), mem),
        ),
{
}

/// The value of a text of decimal digits, read from the left.
pub open spec fn decimal_value(s: Seq<char>) -> int
    decreases s.len(),
{
    if s.len() == 0 {
        0
    } else {
        decimal_value(s.drop_last()) * 10 + (s.last() as int - '0' as int)
    }
}

/// The text holds one decimal digit or more and nothing else.
pub open spec fn is_decimal(s: Seq<char>) -> bool {
    s.len() > 0 && forall|i: int| 0 <= i < s.len() ==> '0' <= #[trigger] s[i] <= '9'
}

/// A natural number is printed as decimal digits, without a leading zero,
/// whose value is that number.
pub proof fn lemma_nat_printed(n: nat)
    ensures
        is_decimal(show_nat(n)),
        decimal_value(show_nat(n)) == n,
        n > 0 ==> show_nat(n)[0] != '0',
        show_nat(n).len() > 1 ==> n >= 10,
    decreases n,
{
    let s = show_nat(n);
    if n >= 10 {
        lemma_nat_printed(n / 10);
        let d = (n % 10) as int;
        let t = show_nat(n / 10);
        assert(s == t + seq![digit_char(d)]);
        assert(s.drop_last() =~= t);
        assert(s.last() == digit_char(d));
        assert(digit_char(d) as int - '0' as int == d);
        assert(decimal_value(s) == decimal_value(t) * 10 + d);
        assert(n == (n / 10) * 10 + d);
        assert forall|i: int| 0 <= i < s.len() implies '0' <= #[trigger] s[i] <= '9' by {
            if i < s.len() - 1 {
                assert(s[i] == t[i]);
            }
        }
        assert(s[0] == t[0]);
    } else {
        assert(s == seq![digit_char(n as int)]);
        assert(s.drop_last() =~= Seq::<char>::empty());
        assert(decimal_value(s.drop_last()) == 0);
        assert(s.last() == digit_char(n as int));
        assert(digit_char(n as int) as int - '0' as int == n);
        assert(decimal_value(s) == decimal_value(s.drop_last()) * 10 + (s.last() as int - '0' as int));
    }
}

/// An integer is printed as its decimal digits, after a `-` where it is
/// negative: the printed text reads back as the integer.
pub proof fn lemma_int_printed(n: int)
    ensures
        n < 0 ==> show_int(n)[0] == '-' && is_decimal(show_int(n).drop_first()) && -decimal_value(
            show_int(n).drop_first(),
        ) == n,
        n >= 0 ==> is_decimal(show_int(n)) && decimal_value(show_int(n)) == n,
{
    if n < 0 {
        lemma_nat_printed((-n) as nat);
        assert(show_int(n).drop_first() =~= show_nat((-n) as nat));
    } else {
        lemma_nat_printed(n as nat);
    }
}

} // verus!

verus! {

fn put(out: &mut String, s: &str)
    ensures
        final(out)@ == old(out)@ + s@,
{
    out.append(s);
}

fn put_digit(out: &mut String, d: u64)
    requires
        d < 10,
    ensures
        final(out)@ == old(out)@.push(digit_char(d as int)),
{
    let c = if d == 0 {
        '0'
    } else if d == 1 {
        '1'
    } else if d == 2 {
        '2'
    } else if d == 3 {
        '3'
    } else if d == 4 {
        '4'
    } else if d == 5 {
        '5'
    } else if d == 6 {
        '6'
    } else if d == 7 {
        '7'
    } else if d == 8 {
        '8'
    } else {
        '9'
    };
    push_char(out, c);
}

fn write_nat(out: &mut String, n: u64)
    ensures
        final(out)@ == old(out)@ + show_nat(n as nat),
    decreases n,
{
    if n >= 10 {
        write_nat(out, n / 10);
    }
    put_digit(out, n % 10);
    proof {
        if n < 10 {
            assert(old(out)@ + show_nat(n as nat) =~= old(out)@.push(digit_char(n as int)));
        }
    }
}

fn write_int(out: &mut String, n: i32)
    ensures
        final(out)@ == old(out)@ + show_int(n as int),
{
    if n < 0 {
        push_char(out, '-');
        let m: i64 = -(n as i64);
        write_nat(out, m as u64);
    } else {
        write_nat(out, n as u64);
    }
}

fn write_aop(out: &mut String, op: AOp)
    ensures
        final(out)@ == old(out)@ + show_aop(op),
{
    let c = match op {
        AOp::Plus => '+',
        AOp::Minus => '-',
        AOp::Times => '*',
        AOp::Divide => '/',
        AOp::Pow => '^',
    };
    push_char(out, c);
    assert(old(out)@.push(c) =~= old(out)@ + show_aop(op));
}

fn write_relop(out: &mut String, op: RelOp)
    ensures
        final(out)@ == old(out)@ + show_relop(op),
{
    let ghost start = out@;
    match op {
        RelOp::Eq => push_char(out, '='),
        RelOp::Ne => {
            push_char(out, '!');
            push_char(out, '=');
        },
        RelOp::Gt => push_char(out, '>'),
        RelOp::Ge => {
            push_char(out, '>');
            push_char(out, '=');
        },
        RelOp::Lt => push_char(out, '<'),
        RelOp::Le => {
            push_char(out, '<');
            push_char(out, '=');
        },
    }
    assert(out@ =~= start + show_relop(op));
}

fn write_logicop(out: &mut String, op: LogicOp)
    ensures
        final(out)@ == old(out)@ + show_logicop(op),
{
    let ghost start = out@;
    match op {
        LogicOp::And => push_char(out, '&'),
        LogicOp::Land => {
            push_char(out, '&');
            push_char(out, '&');
        },
        LogicOp::Or => push_char(out, '|'),
        LogicOp::Lor => {
            push_char(out, '|');
            push_char(out, '|');
        },
    }
    assert(out@ =~= start + show_logicop(op));
}

fn write_target(out: &mut String, t: &Target)
    ensures
        final(out)@ == old(out)@ + show_target(*t),
    decreases t,
{
    let ghost start = out@;
    match t {
        Target::Variable(v) => put(out, v.0.as_str()),
        Target::Array(a, idx) => {
            put(out, a.0.as_str());
            push_char(out, '[');
            write_aexpr(out, idx);
            push_char(out, ']');
        },
    }
    assert(out@ =~= start + show_target(*t));
}

fn write_aexpr(out: &mut String, e: &AExpr)
    ensures
        final(out)@ == old(out)@ + show_aexpr(*e),
    decreases e,
{
    let ghost start = out@;
    match e {
        AExpr::Number(n) => write_int(out, *n),
        AExpr::Reference(t) => write_target(out, t),
        AExpr::Binary(l, op, r) => {
            push_char(out, '(');
            write_aexpr(out, l);
            push_char(out, ' ');
            write_aop(out, *op);
            push_char(out, ' ');
            write_aexpr(out, r);
            push_char(out, ')');
        },
        AExpr::Minus(inner) => {
            push_char(out, '-');
            push_char(out, '(');
            write_aexpr(out, inner);
            push_char(out, ')');
        },
    }
    assert(out@ =~= start + show_aexpr(*e));
}

fn write_bexpr(out: &mut String, b: &BExpr)
    ensures
        final(out)@ == old(out)@ + show_bexpr(*b),
    decreases b,
{
    let ghost start = out@;
    match b {
        BExpr::Bool(v) => {
            if *v {
                put(out, "true");
                proof {
                    reveal_strlit("true");
                }
            } else {
                put(out, "false");
                proof {
                    reveal_strlit("false");
                }
            }
        },
        BExpr::Rel(l, op, r) => {
            write_aexpr(out, l);
            push_char(out, ' ');
            write_relop(out, *op);
            push_char(out, ' ');
            write_aexpr(out, r);
        },
        BExpr::Logic(l, op, r) => {
            push_char(out, '(');
            write_bexpr(out, l);
            push_char(out, ' ');
            write_logicop(out, *op);
            push_char(out, ' ');
            write_bexpr(out, r);
            push_char(out, ')');
        },
        BExpr::Not(inner) => {
            push_char(out, '!');
            push_char(out, '(');
            write_bexpr(out, inner);
            push_char(out, ')');
        },
    }
    assert(out@ =~= start + show_bexpr(*b));
}

} // verus!

verus! {

fn write_guard(out: &mut String, g: &Guard)
    ensures
        final(out)@ == old(out)@ + show_guard(*g),
    decreases g,
{
    let ghost start = out@;
    write_bexpr(out, &g.0);
    put(out, " ->\n");
    proof {
        reveal_strlit(" ->\n");
    }
    write_command_list(out, &g.1.0);
    assert(out@ =~= start + show_guard(*g));
}

fn write_guard_list(out: &mut String, gs: &Vec<Guard>)
    ensures
        final(out)@ == old(out)@ + show_guard_list(gs@),
    decreases gs,
{
    let ghost start = out@;
    let mut i: usize = 0;
    assert(gs@.take(0) =~= Seq::<Guard>::empty());
    while i < gs.len()
        invariant
            i <= gs.len(),
            out@ == start + show_guard_list(gs@.take(i as int)),
        decreases gs.len() - i,
    {
        let ghost before = out@;
        if i > 0 {
            put(out, "\n[] ");
            proof {
                reveal_strlit("\n[] ");
                assert(seq!['\n', '[', ']', ' '] =~= guard_separator());
            }
        }
        write_guard(out, &gs[i]);
        proof {
            let t = gs@.take(i + 1);
            assert(t.drop_last() =~= gs@.take(i as int));
            assert(t.last() == gs@[i as int]);
            if i == 0 {
                assert(t.len() == 1);
                assert(out@ =~= start + show_guard_list(t));
            } else {
                assert(out@ =~= start + show_guard_list(t));
            }
        }
        i = i + 1;
    }
    assert(gs@.take(gs.len() as int) =~= gs@);
}

fn write_command_list(out: &mut String, cs: &Vec<Command>)
    ensures
        final(out)@ == old(out)@ + show_command_list(cs@),
    decreases cs,
{
    let ghost start = out@;
    let mut i: usize = 0;
    assert(cs@.take(0) =~= Seq::<Command>::empty());
    while i < cs.len()
        invariant
            i <= cs.len(),
            out@ == start + show_command_list(cs@.take(i as int)),
        decreases cs.len() - i,
    {
        if i > 0 {
            put(out, " ;\n");
            proof {
                reveal_strlit(" ;\n");
                assert(seq![' ', ';', '\n'] =~= command_separator());
            }
        }
        write_command(out, &cs[i]);
        proof {
            let t = cs@.take(i + 1);
            assert(t.drop_last() =~= cs@.take(i as int));
            assert(t.last() == cs@[i as int]);
            if i == 0 {
                assert(t.len() == 1);
                assert(out@ =~= start + show_command_list(t));
            } else {
                assert(out@ =~= start + show_command_list(t));
            }
        }
        i = i + 1;
    }
    assert(cs@.take(cs.len() as int) =~= cs@);
}

fn write_command(out: &mut String, c: &Command)
    ensures
        final(out)@ == old(out)@ + show_command(*c),
    decreases c,
{
    let ghost start = out@;
    match c {
        Command::Assignment(t, e) => {
            write_target(out, t);
            put(out, " := ");
            proof {
                reveal_strlit(" := ");
            }
            write_aexpr(out, e);
        },
        Command::Skip => {
            put(out, "skip");
            proof {
                reveal_strlit("skip");
            }
        },
        Command::If(gs) => {
            put(out, "if ");
            proof {
                reveal_strlit("if ");
            }
            write_guard_list(out, gs);
            put(out, " fi");
            proof {
                reveal_strlit(" fi");
            }
        },
        Command::Loop(gs) => {
            put(out, "do ");
            proof {
                reveal_strlit("do ");
            }
            write_guard_list(out, gs);
            put(out, " od");
            proof {
                reveal_strlit(" od");
            }
        },
    }
    assert(out@ =~= start + show_command(*c));
}

impl Commands {
    /// The program in concrete GCL syntax (see [`show_commands`]).
    pub fn to_gcl_string(&self) -> (s: String)
        ensures
            s@ == show_commands(*self),
    {
        let mut out = String::new();
        write_command_list(&mut out, &self.0);
        assert(out@ =~= show_commands(*self));
        out
    }
}

/// Reads a GCL truth literal: `true` or `false`; `None` for any other
/// text.
pub open spec fn truth_of_word(w: Seq<char>) -> Option<bool> {
    if w.len() == 4 && w[0] == 't' && w[1] == 'r' && w[2] == 'u' && w[3] == 'e' {
        Some(true)
    } else if w.len() == 5 && w[0] == 'f' && w[1] == 'a' && w[2] == 'l' && w[3] == 's' && w[4]
        == 'e' {
        Some(false)
    } else {
        None
    }
}

/// A truth literal is printed as the word that reads back as it, and so
/// as what it evaluates to.
pub proof fn lemma_truth_printed(v: bool, mem: MemoryView)
    ensures
        truth_of_word(show_bexpr(BExpr::Bool(v))) == Some(v),
        truth_of_word(show_bexpr(BExpr::Bool(v))) == eval_bexpr(BExpr::Bool(v), mem),
{
}

} // verus!
