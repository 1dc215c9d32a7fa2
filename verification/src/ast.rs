//! The abstract syntax of GCL programs produced by the generators.

use vstd::prelude::*;

verus! {

/// Arithmetic operators.
#[derive(Clone, Copy, Debug, PartialEq, Eq, Structural)]
pub enum AOp {
    Plus,
    Minus,
    Times,
    Divide,
    Pow,
}

/// Relational operators.
#[derive(Clone, Copy, Debug, PartialEq, Eq, Structural)]
pub enum RelOp {
    Eq,
    Ne,
    Gt,
    Ge,
    Lt,
    Le,
}

/// Logical operators: `&` (And), `&&` (Land), `|` (Or), `||` (Lor).
#[derive(Clone, Copy, Debug, PartialEq, Eq, Structural)]
pub enum LogicOp {
    And,
    Land,
    Or,
    Lor,
}

/// A scalar variable name.
#[derive(Clone, Debug, PartialEq, Eq)]
pub struct Variable(pub String);

/// An array name.
#[derive(Clone, Debug, PartialEq, Eq)]
pub struct Array(pub String);

/// An assignable location: a variable or an indexed array cell.
#[derive(Debug)]
pub enum Target {
    Variable(Variable),
    Array(Array, Box<AExpr>),
}

/// Arithmetic expressions.
#[derive(Debug)]
pub enum AExpr {
    Number(i32),
    Reference(Target),
    Binary(Box<AExpr>, AOp, Box<AExpr>),
    Minus(Box<AExpr>),
}

/// Boolean expressions.
#[derive(Debug)]
pub enum BExpr {
    Bool(bool),
    Rel(AExpr, RelOp, AExpr),
    Logic(Box<BExpr>, LogicOp, Box<BExpr>),
    Not(Box<BExpr>),
}

/// Commands.
#[derive(Debug)]
pub enum Command {
    Assignment(Target, AExpr),
    Skip,
    If(Vec<Guard>),
    Loop(Vec<Guard>),
}

/// A guarded command `b -> C`.
#[derive(Debug)]
pub struct Guard(pub BExpr, pub Commands);

/// A sequence of commands `C1 ; ... ; Cn`.
#[derive(Debug)]
pub struct Commands(pub Vec<Command>);

/// The names of a list of strings.
pub open spec fn names_view(names: Seq<String>) -> Seq<Seq<char>> {
    names.map_values(|s: String| s@)
}

/// The constraints that a generated program is to respect.
pub struct Shape {
    pub loops: bool,
    pub division: bool,
    pub unary_minus: bool,
    pub arrays: bool,
    pub names: Seq<Seq<char>>,
    pub array_names: Seq<Seq<char>>,
}

pub open spec fn target_fits(t: Target, s: Shape) -> bool
    decreases t,
{
    match t {
        Target::Variable(v) => s.names.contains(v.0@),
        Target::Array(a, idx) => s.arrays && s.array_names.contains(a.0@) && aexpr_fits(*idx, s),
    }
}

pub open spec fn aexpr_fits(e: AExpr, s: Shape) -> bool
    decreases e,
{
    match e {
        AExpr::Number(_) => true,
        AExpr::Reference(t) => target_fits(t, s),
        AExpr::Binary(l, op, r) => (s.division || op != AOp::Divide) && aexpr_fits(*l, s)
            && aexpr_fits(*r, s),
        AExpr::Minus(inner) => s.unary_minus && aexpr_fits(*inner, s),
    }
}

pub open spec fn bexpr_fits(b: BExpr, s: Shape) -> bool
    decreases b,
{
    match b {
        BExpr::Bool(_) => true,
        BExpr::Rel(l, _, r) => aexpr_fits(l, s) && aexpr_fits(r, s),
        BExpr::Logic(l, _, r) => bexpr_fits(*l, s) && bexpr_fits(*r, s),
        BExpr::Not(inner) => bexpr_fits(*inner, s),
    }
}

pub open spec fn guard_fits(g: Guard, s: Shape) -> bool
    decreases g,
{
    bexpr_fits(g.0, s) && commands_fits(g.1, s)
}

pub open spec fn commands_fits(c: Commands, s: Shape) -> bool
    decreases c,
{
    forall|i: int| 0 <= i < c.0.len() ==> command_fits(#[trigger] c.0@[i], s)
}

pub open spec fn command_fits(c: Command, s: Shape) -> bool
    decreases c,
{
    match c {
        Command::Assignment(t, e) => target_fits(t, s) && aexpr_fits(e, s),
        Command::Skip => true,
        Command::If(gs) => forall|i: int| 0 <= i < gs.len() ==> guard_fits(#[trigger] gs@[i], s),
        Command::Loop(gs) => s.loops && forall|i: int| 0 <= i < gs.len() ==> guard_fits(#[trigger] gs@[i], s),
    }
}

} // verus!

verus! {

impl Target {
    /// A copy of this target.
    pub fn duplicate(&self) -> (r: Target)
        ensures
            r == *self,
        decreases self,
    {
        match self {
            Target::Variable(v) => Target::Variable(Variable(v.0.clone())),
            Target::Array(a, idx) => Target::Array(Array(a.0.clone()), Box::new(idx.duplicate())),
        }
    }
}

impl AExpr {
    /// A copy of this expression.
    pub fn duplicate(&self) -> (r: AExpr)
        ensures
            r == *self,
        decreases self,
    {
        match self {
            AExpr::Number(n) => AExpr::Number(*n),
            AExpr::Reference(t) => AExpr::Reference(t.duplicate()),
            AExpr::Binary(l, op, r) => AExpr::Binary(Box::new(l.duplicate()), *op, Box::new(r.duplicate())),
            AExpr::Minus(inner) => AExpr::Minus(Box::new(inner.duplicate())),
        }
    }

    /// `l op r`.
    pub fn binary(l: AExpr, op: AOp, r: AExpr) -> (e: AExpr)
        ensures
            e == AExpr::Binary(Box::new(l), op, Box::new(r)),
    {
        AExpr::Binary(Box::new(l), op, Box::new(r))
    }
}

impl BExpr {
    /// `l op r`.
    pub fn logic(l: BExpr, op: LogicOp, r: BExpr) -> (e: BExpr)
        ensures
            e == BExpr::Logic(Box::new(l), op, Box::new(r)),
    {
        BExpr::Logic(Box::new(l), op, Box::new(r))
    }
}

} // verus!

verus! {

/// Only assignments and `skip`: no branching, no iteration.
pub open spec fn straight_line(c: Commands) -> bool {
    forall|i: int| 0 <= i < c.0.len() ==> (#[trigger] c.0@[i] is Assignment || c.0@[i] is Skip)
}

pub open spec fn guard_loop_free(g: Guard) -> bool
    decreases g,
{
    commands_loop_free(g.1)
}

/// No `do ... od` anywhere in the commands.
pub open spec fn commands_loop_free(c: Commands) -> bool
    decreases c,
{
    forall|i: int| 0 <= i < c.0.len() ==> command_loop_free(#[trigger] c.0@[i])
}

pub open spec fn command_loop_free(c: Command) -> bool
    decreases c,
{
    match c {
        Command::Assignment(_, _) => true,
        Command::Skip => true,
        Command::If(gs) => forall|i: int| 0 <= i < gs.len() ==> guard_loop_free(#[trigger] gs@[i]),
        Command::Loop(_) => false,
    }
}

} // verus!

verus! {

/// The number literals of a target's index lie in `lo..=hi`.
pub open spec fn target_literals_within(t: Target, lo: int, hi: int) -> bool
    decreases t,
{
    match t {
        Target::Variable(_) => true,
        Target::Array(_, idx) => literals_within(*idx, lo, hi),
    }
}

/// The number literals of an expression lie in `lo..=hi`.
pub open spec fn literals_within(e: AExpr, lo: int, hi: int) -> bool
    decreases e,
{
    match e {
        AExpr::Number(n) => lo <= n <= hi,
        AExpr::Reference(t) => target_literals_within(t, lo, hi),
        AExpr::Binary(l, _, r) => literals_within(*l, lo, hi) && literals_within(*r, lo, hi),
        AExpr::Minus(inner) => literals_within(*inner, lo, hi),
    }
}

/// The number literals of a boolean expression lie in `lo..=hi`.
pub open spec fn bexpr_literals_within(b: BExpr, lo: int, hi: int) -> bool
    decreases b,
{
    match b {
        BExpr::Bool(_) => true,
        BExpr::Rel(l, _, r) => literals_within(l, lo, hi) && literals_within(r, lo, hi),
        BExpr::Logic(l, _, r) => bexpr_literals_within(*l, lo, hi) && bexpr_literals_within(
            *r,
            lo,
            hi,
        ),
        BExpr::Not(inner) => bexpr_literals_within(*inner, lo, hi),
    }
}

/// The binary operations and negations of a target's index.
pub open spec fn target_nodes(t: Target) -> nat
    decreases t,
{
    match t {
        Target::Variable(_) => 0,
        Target::Array(_, idx) => aexpr_nodes(*idx),
    }
}

/// How many binary operations and negations an expression holds, array
/// indices included.
pub open spec fn aexpr_nodes(e: AExpr) -> nat
    decreases e,
{
    match e {
        AExpr::Number(_) => 0,
        AExpr::Reference(t) => target_nodes(t),
        AExpr::Binary(l, _, r) => 1 + aexpr_nodes(*l) + aexpr_nodes(*r),
        AExpr::Minus(inner) => 1 + aexpr_nodes(*inner),
    }
}

/// How many comparisons, logical operations, binary operations and
/// arithmetic negations a boolean expression holds.
pub open spec fn bexpr_nodes(b: BExpr) -> nat
    decreases b,
{
    match b {
        BExpr::Bool(_) => 0,
        BExpr::Rel(l, _, r) => 1 + aexpr_nodes(l) + aexpr_nodes(r),
        BExpr::Logic(l, _, r) => 1 + bexpr_nodes(*l) + bexpr_nodes(*r),
        BExpr::Not(inner) => bexpr_nodes(*inner),
    }
}

/// How many logical negations a boolean expression holds.
pub open spec fn bexpr_nots(b: BExpr) -> nat
    decreases b,
{
    match b {
        BExpr::Bool(_) => 0,
        BExpr::Rel(_, _, _) => 0,
        BExpr::Logic(l, _, r) => bexpr_nots(*l) + bexpr_nots(*r),
        BExpr::Not(inner) => 1 + bexpr_nots(*inner),
    }
}

/// A construct that a program may or may not use.
#[derive(Clone, Copy, Debug, PartialEq, Eq, Structural)]
pub enum Feature {
    /// `do ... od`.
    Loop,
    /// `/`.
    Division,
    /// Unary `-`.
    UnaryMinus,
    /// An array reference or array target `A[i]`.
    ArrayAccess,
}

pub open spec fn target_uses(t: Target, f: Feature) -> bool
    decreases t,
{
    match t {
        Target::Variable(_) => false,
        Target::Array(_, idx) => f == Feature::ArrayAccess || aexpr_uses(*idx, f),
    }
}

pub open spec fn aexpr_uses(e: AExpr, f: Feature) -> bool
    decreases e,
{
    match e {
        AExpr::Number(_) => false,
        AExpr::Reference(t) => target_uses(t, f),
        AExpr::Binary(l, op, r) => (f == Feature::Division && op == AOp::Divide) || aexpr_uses(*l, f)
            || aexpr_uses(*r, f),
        AExpr::Minus(inner) => f == Feature::UnaryMinus || aexpr_uses(*inner, f),
    }
}

pub open spec fn bexpr_uses(b: BExpr, f: Feature) -> bool
    decreases b,
{
    match b {
        BExpr::Bool(_) => false,
        BExpr::Rel(l, _, r) => aexpr_uses(l, f) || aexpr_uses(r, f),
        BExpr::Logic(l, _, r) => bexpr_uses(*l, f) || bexpr_uses(*r, f),
        BExpr::Not(inner) => bexpr_uses(*inner, f),
    }
}

pub open spec fn guard_uses(g: Guard, f: Feature) -> bool
    decreases g,
{
    bexpr_uses(g.0, f) || commands_use(g.1, f)
}

/// Whether construct `f` occurs anywhere in the commands.
pub open spec fn commands_use(c: Commands, f: Feature) -> bool
    decreases c,
{
    exists|i: int| 0 <= i < c.0.len() && command_uses(#[trigger] c.0@[i], f)
}

pub open spec fn command_uses(c: Command, f: Feature) -> bool
    decreases c,
{
    match c {
        Command::Assignment(t, e) => target_uses(t, f) || aexpr_uses(e, f),
        Command::Skip => false,
        Command::If(gs) => exists|i: int| 0 <= i < gs.len() && guard_uses(#[trigger] gs@[i], f),
        Command::Loop(gs) => f == Feature::Loop || exists|i: int|
            0 <= i < gs.len() && guard_uses(#[trigger] gs@[i], f),
    }
}

/// Whether `s` allows construct `f`.
pub open spec fn shape_allows(s: Shape, f: Feature) -> bool {
    match f {
        Feature::Loop => s.loops,
        Feature::Division => s.division,
        Feature::UnaryMinus => s.unary_minus,
        Feature::ArrayAccess => s.arrays,
    }
}

pub proof fn lemma_target_fits_excludes(t: Target, s: Shape, f: Feature)
    requires
        target_fits(t, s),
        !shape_allows(s, f),
    ensures
        !target_uses(t, f),
    decreases t,
{
    if let Target::Array(_, idx) = t {
        lemma_aexpr_fits_excludes(*idx, s, f);
    }
}

pub proof fn lemma_aexpr_fits_excludes(e: AExpr, s: Shape, f: Feature)
    requires
        aexpr_fits(e, s),
        !shape_allows(s, f),
    ensures
        !aexpr_uses(e, f),
    decreases e,
{
    match e {
        AExpr::Number(_) => {},
        AExpr::Reference(t) => lemma_target_fits_excludes(t, s, f),
        AExpr::Binary(l, _, r) => {
            lemma_aexpr_fits_excludes(*l, s, f);
            lemma_aexpr_fits_excludes(*r, s, f);
        },
        AExpr::Minus(inner) => lemma_aexpr_fits_excludes(*inner, s, f),
    }
}

pub proof fn lemma_bexpr_fits_excludes(b: BExpr, s: Shape, f: Feature)
    requires
        bexpr_fits(b, s),
        !shape_allows(s, f),
    ensures
        !bexpr_uses(b, f),
    decreases b,
{
    match b {
        BExpr::Bool(_) => {},
        BExpr::Rel(l, _, r) => {
            lemma_aexpr_fits_excludes(l, s, f);
            lemma_aexpr_fits_excludes(r, s, f);
        },
        BExpr::Logic(l, _, r) => {
            lemma_bexpr_fits_excludes(*l, s, f);
            lemma_bexpr_fits_excludes(*r, s, f);
        },
        BExpr::Not(inner) => lemma_bexpr_fits_excludes(*inner, s, f),
    }
}

pub proof fn lemma_guard_fits_excludes(g: Guard, s: Shape, f: Feature)
    requires
        guard_fits(g, s),
        !shape_allows(s, f),
    ensures
        !guard_uses(g, f),
    decreases g,
{
    lemma_bexpr_fits_excludes(g.0, s, f);
    lemma_commands_fit_exclude(g.1, s, f);
}

/// A program that fits a shape uses none of the constructs that the shape
/// rules out: no loops, divisions, unary minus or array accesses where
/// those are switched off.
pub proof fn lemma_commands_fit_exclude(c: Commands, s: Shape, f: Feature)
    requires
        commands_fits(c, s),
        !shape_allows(s, f),
    ensures
        !commands_use(c, f),
    decreases c,
{
    assert forall|i: int| 0 <= i < c.0.len() implies !command_uses(#[trigger] c.0@[i], f) by {
        lemma_command_fits_excludes(c.0@[i], s, f);
    }
}

pub proof fn lemma_command_fits_excludes(c: Command, s: Shape, f: Feature)
    requires
        command_fits(c, s),
        !shape_allows(s, f),
    ensures
        !command_uses(c, f),
    decreases c,
{
    match c {
        Command::Assignment(t, e) => {
            lemma_target_fits_excludes(t, s, f);
            lemma_aexpr_fits_excludes(e, s, f);
        },
        Command::Skip => {},
        Command::If(gs) => {
            assert forall|i: int| 0 <= i < gs.len() implies !guard_uses(#[trigger] gs@[i], f) by {
                lemma_guard_fits_excludes(gs@[i], s, f);
            }
        },
        Command::Loop(gs) => {
            assert forall|i: int| 0 <= i < gs.len() implies !guard_uses(#[trigger] gs@[i], f) by {
                lemma_guard_fits_excludes(gs@[i], s, f);
            }
        },
    }
}

} // verus!
