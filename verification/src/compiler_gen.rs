//! Test-case generator for the compiler environment.
//!
//! Besides assignments and guarded commands it generates array targets
//! `A[i]`, `skip` and unary minus; each of these, loops and division can be
//! switched off on the context, and a generated program then holds none of
//! them (see [`CompilerContext::shape`] and the `ensures` of the generators).
//!
//! Recursive productions are nested at most [`NESTING_BUDGET`] levels deep:
//! beyond that only the non-recursive productions are drawn, so that every
//! generation ends.

use crate::ast::{
    aexpr_nodes, bexpr_nodes, bexpr_nots, target_nodes, bexpr_literals_within, literals_within, target_literals_within, commands_use, lemma_commands_fit_exclude, Feature,
    aexpr_fits, bexpr_fits, command_fits, commands_fits, guard_fits, target_fits, AExpr, AOp,
    Array, BExpr, Command, Commands, Guard, LogicOp, RelOp, Shape, Target, Variable, names_view,
};
use crate::random::{
    choose_item, pick, random_bool, random_range_i32, random_range_usize, random_u64, seed_from_u64,
};
use rand::rngs::SmallRng;
use vstd::prelude::*;

verus! {

/// The deepest nesting of recursive productions that a generator draws.
pub const NESTING_BUDGET: u32 = 1000;

/// The state of the compiler-environment generator.
pub struct CompilerContext {
    /// How many more commands may still be generated.
    pub fuel: u32,
    /// How many more binary or negated arithmetic sub-expressions may nest.
    pub recursion_limit: u32,
    /// How many more negations may nest in a guard.
    pub negation_limit: u32,
    pub no_loops: bool,
    pub no_division: bool,
    pub no_unary_minus: bool,
    pub no_arrays: bool,
    /// Scalar variable names used as assignment targets / references.
    pub names: Vec<String>,
    /// Array names used as array targets.
    pub array_names: Vec<String>,
}

impl CompilerContext {
    /// What a program generated under this context respects.
    pub open spec fn shape(self) -> Shape {
        Shape {
            loops: !self.no_loops,
            division: !self.no_division,
            unary_minus: !self.no_unary_minus,
            arrays: !self.no_arrays,
            names: names_view(self.names@),
            array_names: names_view(self.array_names@),
        }
    }

    pub open spec fn spec_use_array(self) -> bool {
        !self.no_arrays && self.array_names.len() > 0
    }

    /// Some assignment target can be drawn: a variable, or a usable array.
    pub open spec fn has_targets(self) -> bool {
        self.names.len() > 0 || self.spec_use_array()
    }

    /// Drawing a reference never lacks a target: either some target exists,
    /// or there are no names at all and references are never drawn.
    pub open spec fn references_ok(self) -> bool {
        self.has_targets() || self.array_names.len() == 0
    }

    /// The flags and the names are those of `other`.
    pub open spec fn same_config(self, other: Self) -> bool {
        &&& self.no_loops == other.no_loops
        &&& self.no_division == other.no_division
        &&& self.no_unary_minus == other.no_unary_minus
        &&& self.no_arrays == other.no_arrays
        &&& self.names@ == other.names@
        &&& self.array_names@ == other.array_names@
    }
}

pub open spec fn default_names() -> Seq<Seq<char>> {
    seq!["a"@, "b"@, "c"@, "d"@]
}

pub open spec fn default_array_names() -> Seq<Seq<char>> {
    seq!["A"@, "B"@, "C"@]
}

impl Default for CompilerContext {
    fn default() -> (cx: Self)
        ensures
            cx.fuel == 10,
            cx.recursion_limit == 0,
            cx.negation_limit == 0,
            !cx.no_loops && !cx.no_division && !cx.no_unary_minus && !cx.no_arrays,
            names_view(cx.names@) == default_names(),
            names_view(cx.array_names@) == default_array_names(),
            cx.names@.len() == 4,
            cx.array_names@.len() == 3,
    {
        let names = vec![
            String::from_str("a"),
            String::from_str("b"),
            String::from_str("c"),
            String::from_str("d"),
        ];
        let array_names = vec![String::from_str("A"), String::from_str("B"), String::from_str("C")];
        assert(names_view(names@) =~= default_names());
        assert(names_view(array_names@) =~= default_array_names());
        CompilerContext {
            fuel: 10,
            recursion_limit: 0,
            negation_limit: 0,
            no_loops: false,
            no_division: false,
            no_unary_minus: false,
            no_arrays: false,
            names,
            array_names,
        }
    }
}

} // verus!

verus! {

impl CompilerContext {
    /// A context with `fuel` as fuel and as both nesting limits; the rest is
    /// the default. The random generator is not used.
    pub fn new(fuel: u32, _rng: &mut SmallRng) -> (cx: Self)
        ensures
            cx.fuel == fuel,
            cx.recursion_limit == fuel,
            cx.negation_limit == fuel,
            !cx.no_loops && !cx.no_division && !cx.no_unary_minus && !cx.no_arrays,
            names_view(cx.names@) == default_names(),
            names_view(cx.array_names@) == default_array_names(),
            cx.names@.len() == 4,
            cx.array_names@.len() == 3,
            *final(_rng) == *old(_rng),
    {
        let d = CompilerContext::default();
        CompilerContext { fuel, recursion_limit: fuel, negation_limit: fuel, ..d }
    }

    pub fn set_no_loop(&mut self, no_loops: bool) -> (r: &mut Self)
        ensures
            *r == (CompilerContext { no_loops, ..*old(self) }),
            *final(self) == *final(r),
    {
        self.no_loops = no_loops;
        self
    }

    pub fn set_no_division(&mut self, no_division: bool) -> (r: &mut Self)
        ensures
            *r == (CompilerContext { no_division, ..*old(self) }),
            *final(self) == *final(r),
    {
        self.no_division = no_division;
        self
    }

    pub fn set_no_unary_minus(&mut self, no_unary_minus: bool) -> (r: &mut Self)
        ensures
            *r == (CompilerContext { no_unary_minus, ..*old(self) }),
            *final(self) == *final(r),
    {
        self.no_unary_minus = no_unary_minus;
        self
    }

    pub fn set_no_arrays(&mut self, no_arrays: bool) -> (r: &mut Self)
        ensures
            *r == (CompilerContext { no_arrays, ..*old(self) }),
            *final(self) == *final(r),
    {
        self.no_arrays = no_arrays;
        self
    }

    /// Whether array targets may be drawn: arrays are on and named.
    pub fn use_array(&self) -> (r: bool)
        ensures
            r == self.spec_use_array(),
    {
        !self.no_arrays && self.array_names.len() > 0
    }

    /// Draws how many items to generate, between `min` and `max` but not
    /// above the fuel unless `min` is, and spends that much fuel (down to
    /// zero at most).
    fn many(&mut self, min: usize, max: usize, rng: &mut SmallRng) -> (n: usize)
        ensures
            min <= n,
            n <= max || n == min,
            n <= old(self).fuel || n == min,
            final(self).fuel == (if old(self).fuel < n { 0 } else { old(self).fuel - n }),
            final(self).recursion_limit == old(self).recursion_limit,
            final(self).negation_limit == old(self).negation_limit,
            final(self).same_config(*old(self)),
    {
        let fuel = self.fuel as usize;
        let capped = if max < fuel { max } else { fuel };
        let top = if capped < min { min } else { capped };
        let n = random_range_usize(rng, min, top);
        if (self.fuel as usize) < n {
            self.fuel = 0;
        } else {
            self.fuel = self.fuel - n as u32;
        }
        n
    }
}

/// A fresh generator seeded from `rng`.
fn bridge(rng: &mut SmallRng) -> SmallRng {
    seed_from_u64(random_u64(rng))
}

} // verus!

verus! {

/// The kinds of command that the generator draws from.
#[derive(Clone, Copy, Debug, PartialEq, Eq, Structural)]
pub enum CommandChoice {
    Assignment,
    Skip,
    If,
    Loop,
}

/// The kinds of target that the generator draws from.
#[derive(Clone, Copy, Debug, PartialEq, Eq, Structural)]
pub enum TargetChoice {
    Variable,
    Array,
}

/// The kinds of arithmetic expression that the generator draws from.
#[derive(Clone, Copy, Debug, PartialEq, Eq, Structural)]
pub enum AExprChoice {
    Number,
    Reference,
    Binary,
    Minus,
}

/// The kinds of boolean expression that the generator draws from.
#[derive(Clone, Copy, Debug, PartialEq, Eq, Structural)]
pub enum BExprChoice {
    Bool,
    Rel,
    Logic,
    Not,
}

/// The weighted kinds of command: assignment 20, `skip` 6, `if` 12 where
/// nesting is left, `do` 6 where nesting is left and loops are allowed.
pub open spec fn command_options(nested: bool, no_loops: bool) -> Seq<(u32, CommandChoice)> {
    seq![
        (20u32, CommandChoice::Assignment),
        (6u32, CommandChoice::Skip),
        (if nested { 12u32 } else { 0u32 }, CommandChoice::If),
        (if no_loops || !nested { 0u32 } else { 6u32 }, CommandChoice::Loop),
    ]
}

/// The command is of the kind drawn.
pub open spec fn command_of_kind(k: CommandChoice, c: Command) -> bool {
    match k {
        CommandChoice::Assignment => c is Assignment,
        CommandChoice::Skip => c is Skip,
        CommandChoice::If => c is If,
        CommandChoice::Loop => c is Loop,
    }
}

/// The weighted kinds of arithmetic expression: a number 8, a reference 16
/// where names and nesting exist, a binary operation 18 and a negation 8
/// (unless switched off) where recursion, fuel and nesting are left.
pub open spec fn aexpr_options(referable: bool, nested: bool, no_unary_minus: bool) -> Seq<
    (u32, AExprChoice),
> {
    seq![
        (8u32, AExprChoice::Number),
        (if referable { 16u32 } else { 0u32 }, AExprChoice::Reference),
        (if nested { 18u32 } else { 0u32 }, AExprChoice::Binary),
        (if nested && !no_unary_minus { 8u32 } else { 0u32 }, AExprChoice::Minus),
    ]
}

/// The expression is of the kind drawn.
pub open spec fn aexpr_of_kind(k: AExprChoice, e: AExpr) -> bool {
    match k {
        AExprChoice::Number => e matches AExpr::Number(n) && -100 <= n <= 100,
        AExprChoice::Reference => e is Reference,
        AExprChoice::Binary => e is Binary,
        AExprChoice::Minus => e is Minus,
    }
}

/// The weighted kinds of boolean expression: a literal 4, a comparison 14
/// and a logical operation 14 where recursion and nesting are left, a
/// negation 8 where negations and nesting are left.
pub open spec fn bexpr_options(nested: bool, negatable: bool) -> Seq<(u32, BExprChoice)> {
    seq![
        (4u32, BExprChoice::Bool),
        (if nested { 14u32 } else { 0u32 }, BExprChoice::Rel),
        (if nested { 14u32 } else { 0u32 }, BExprChoice::Logic),
        (if negatable { 8u32 } else { 0u32 }, BExprChoice::Not),
    ]
}

/// The boolean expression is of the kind drawn.
pub open spec fn bexpr_of_kind(k: BExprChoice, b: BExpr) -> bool {
    match k {
        BExprChoice::Bool => b is Bool,
        BExprChoice::Rel => b is Rel,
        BExprChoice::Logic => b is Logic,
        BExprChoice::Not => b is Not,
    }
}

/// The weighted kinds of target: a variable 14 where there are names, an
/// array cell 6 where arrays are usable.
pub open spec fn target_options(named: bool, arrays: bool) -> Seq<(u32, TargetChoice)> {
    seq![
        (if named { 14u32 } else { 0u32 }, TargetChoice::Variable),
        (if arrays { 6u32 } else { 0u32 }, TargetChoice::Array),
    ]
}

/// The target is of a kind that has positive weight in `options`.
pub open spec fn target_drawn(options: Seq<(u32, TargetChoice)>, t: Target) -> bool {
    exists|i: int|
        0 <= i < options.len() && (#[trigger] options[i]).0 > 0 && match options[i].1 {
            TargetChoice::Variable => t is Variable,
            TargetChoice::Array => t is Array,
        }
}

/// The command is of a kind that has positive weight in `options`.
pub open spec fn command_drawn(options: Seq<(u32, CommandChoice)>, c: Command) -> bool {
    exists|i: int|
        0 <= i < options.len() && (#[trigger] options[i]).0 > 0 && command_of_kind(options[i].1, c)
}

/// The expression is of a kind that has positive weight in `options`.
pub open spec fn aexpr_drawn(options: Seq<(u32, AExprChoice)>, e: AExpr) -> bool {
    exists|i: int|
        0 <= i < options.len() && (#[trigger] options[i]).0 > 0 && aexpr_of_kind(options[i].1, e)
}

/// The boolean expression is of a kind that has positive weight in
/// `options`.
pub open spec fn bexpr_drawn(options: Seq<(u32, BExprChoice)>, b: BExpr) -> bool {
    exists|i: int|
        0 <= i < options.len() && (#[trigger] options[i]).0 > 0 && bexpr_of_kind(options[i].1, b)
}

/// A name drawn from `names` is one of the names of the view.
proof fn lemma_drawn_name(names: Seq<String>, s: String)
    requires
        exists|i: int| 0 <= i < names.len() && names[i] == s,
    ensures
        names_view(names).contains(s@),
{
    let i = choose|i: int| 0 <= i < names.len() && names[i] == s;
    assert(names_view(names)[i] == s@);
}

/// Draws a variable or, where arrays are usable, an indexed array cell.
fn gen_reference_at(cx: &mut CompilerContext, rng: &mut SmallRng, depth: u32) -> (t: Target)
    requires
        old(cx).has_targets(),
    ensures
        target_fits(t, old(cx).shape()),
        target_literals_within(t, -100, 100),
        final(cx).same_config(*old(cx)),
        final(cx).fuel == old(cx).fuel,
        final(cx).negation_limit == old(cx).negation_limit,
        final(cx).recursion_limit <= old(cx).recursion_limit,
        old(cx).recursion_limit - final(cx).recursion_limit == target_nodes(t),
        old(cx).fuel == 0 ==> target_nodes(t) == 0,
        target_drawn(target_options(old(cx).names.len() > 0, old(cx).spec_use_array()), t),
    decreases depth, 1int,
{
    let mut erng = bridge(rng);
    let options = vec![
        (if cx.names.len() == 0 { 0 } else { 14 }, TargetChoice::Variable),
        (if cx.use_array() { 6 } else { 0 }, TargetChoice::Array),
    ];
    assert(options@[0].0 > 0 || options@[1].0 > 0);
    let ghost spec_options = target_options(cx.names.len() > 0, cx.spec_use_array());
    assert(options@ == spec_options);
    let choice = pick(&mut erng, &options);
    let ghost k = choose|k: int| 0 <= k < options.len() && options@[k].1 == choice && options@[k].0 > 0;
    let t = match choice {
        TargetChoice::Variable => {
            let name = choose_item(&mut erng, &cx.names).unwrap().clone();
            proof {
                lemma_drawn_name(cx.names@, name);
            }
            Target::Variable(Variable(name))
        },
        TargetChoice::Array => {
            let name = match choose_item(&mut erng, &cx.array_names) {
                Some(n) => n.clone(),
                None => String::from_str("A"),
            };
            proof {
                lemma_drawn_name(cx.array_names@, name);
            }
            let idx = gen_aexpr_at(cx, &mut erng, depth);
            Target::Array(Array(name), Box::new(idx))
        },
    };
    assert(spec_options[k].0 > 0);
    t
}

/// Draws an arithmetic expression: a number in `-100..=100`, a reference,
/// a binary operation or a negation.
fn gen_aexpr_at(cx: &mut CompilerContext, rng: &mut SmallRng, depth: u32) -> (e: AExpr)
    requires
        old(cx).references_ok(),
    ensures
        aexpr_fits(e, old(cx).shape()),
        literals_within(e, -100, 100),
        final(cx).same_config(*old(cx)),
        final(cx).fuel == old(cx).fuel,
        final(cx).negation_limit == old(cx).negation_limit,
        final(cx).recursion_limit <= old(cx).recursion_limit,
        old(cx).recursion_limit - final(cx).recursion_limit == aexpr_nodes(e),
        old(cx).fuel == 0 ==> aexpr_nodes(e) == 0,
        aexpr_drawn(
            aexpr_options(
                !(old(cx).names.len() == 0 && old(cx).array_names.len() == 0) && depth > 0,
                old(cx).recursion_limit != 0 && old(cx).fuel != 0 && depth > 0,
                old(cx).no_unary_minus,
            ),
            e,
        ),
    decreases depth, 0int,
{
    let mut erng = bridge(rng);
    let nested = cx.recursion_limit != 0 && cx.fuel != 0 && depth > 0;
    let options = vec![
        (8, AExprChoice::Number),
        (
            if (cx.names.len() == 0 && cx.array_names.len() == 0) || depth == 0 {
                0
            } else {
                16
            },
            AExprChoice::Reference,
        ),
        (if nested { 18 } else { 0 }, AExprChoice::Binary),
        (if nested && !cx.no_unary_minus { 8 } else { 0 }, AExprChoice::Minus),
    ];
    assert(options@[0].0 > 0);
    let ghost spec_options = aexpr_options(
        !(cx.names.len() == 0 && cx.array_names.len() == 0) && depth > 0,
        nested,
        cx.no_unary_minus,
    );
    assert(options@ == spec_options);
    let choice = pick(&mut erng, &options);
    let ghost k = choose|k: int| 0 <= k < options.len() && options@[k].1 == choice && options@[k].0 > 0;
    let e = match choice {
        AExprChoice::Number => AExpr::Number(random_range_i32(&mut erng, -100, 100)),
        AExprChoice::Reference => AExpr::Reference(gen_reference_at(cx, &mut erng, depth - 1)),
        AExprChoice::Binary => {
            cx.recursion_limit = cx.recursion_limit - 1;
            let l = gen_aexpr_at(cx, &mut erng, depth - 1);
            let op = gen_aop(cx, &mut erng);
            let r = gen_aexpr_at(cx, &mut erng, depth - 1);
            AExpr::binary(l, op, r)
        },
        AExprChoice::Minus => {
            cx.recursion_limit = cx.recursion_limit - 1;
            AExpr::Minus(Box::new(gen_aexpr_at(cx, &mut erng, depth - 1)))
        },
    };
    assert(aexpr_of_kind(spec_options[k].1, e));
    e
}

/// The weighted arithmetic operators: `+` 10, `-` 8, `*` 8, `^` 2 and `/`
/// 6 where division is allowed.
pub open spec fn aop_options(no_division: bool) -> Seq<(u32, AOp)> {
    seq![
        (10u32, AOp::Plus),
        (8u32, AOp::Minus),
        (8u32, AOp::Times),
        (2u32, AOp::Pow),
        (if no_division { 0u32 } else { 6u32 }, AOp::Divide),
    ]
}

/// `x` is an option of positive weight in `options`.
pub open spec fn positive_option<T>(options: Seq<(u32, T)>, x: T) -> bool {
    exists|i: int| 0 <= i < options.len() && (#[trigger] options[i]).0 > 0 && options[i].1 == x
}

/// Draws an arithmetic operator; division only where it is allowed.
pub fn gen_aop(cx: &mut CompilerContext, rng: &mut SmallRng) -> (op: AOp)
    ensures
        old(cx).no_division ==> op != AOp::Divide,
        positive_option(aop_options(old(cx).no_division), op),
        *final(cx) == *old(cx),
{
    let mut erng = bridge(rng);
    let options = vec![
        (10, AOp::Plus),
        (8, AOp::Minus),
        (8, AOp::Times),
        (2, AOp::Pow),
        (if cx.no_division { 0 } else { 6 }, AOp::Divide),
    ];
    assert(options@ == aop_options(cx.no_division));
    assert(options@[0].0 > 0);
    pick(&mut erng, &options)
}

} // verus!

verus! {

/// Draws an arithmetic expression (see the module's description); it fits
/// the context's shape, its number literals lie in `-100..=100`, and only
/// the recursion limit changes, downwards.
pub fn gen_aexpr(cx: &mut CompilerContext, rng: &mut SmallRng) -> (e: AExpr)
    requires
        old(cx).references_ok(),
    ensures
        aexpr_fits(e, old(cx).shape()),
        literals_within(e, -100, 100),
        final(cx).same_config(*old(cx)),
        final(cx).fuel == old(cx).fuel,
        final(cx).negation_limit == old(cx).negation_limit,
        final(cx).recursion_limit <= old(cx).recursion_limit,
        old(cx).recursion_limit - final(cx).recursion_limit == aexpr_nodes(e),
        old(cx).fuel == 0 ==> aexpr_nodes(e) == 0,
        aexpr_drawn(
            aexpr_options(
                !(old(cx).names.len() == 0 && old(cx).array_names.len() == 0),
                old(cx).recursion_limit != 0 && old(cx).fuel != 0,
                old(cx).no_unary_minus,
            ),
            e,
        ),
{
    gen_aexpr_at(cx, rng, NESTING_BUDGET)
}

/// Draws an assignment target that fits the context's shape.
pub fn gen_target(cx: &mut CompilerContext, rng: &mut SmallRng) -> (t: Target)
    requires
        old(cx).has_targets(),
    ensures
        target_fits(t, old(cx).shape()),
        target_literals_within(t, -100, 100),
        final(cx).same_config(*old(cx)),
        final(cx).fuel == old(cx).fuel,
        final(cx).negation_limit == old(cx).negation_limit,
        final(cx).recursion_limit <= old(cx).recursion_limit,
        old(cx).recursion_limit - final(cx).recursion_limit == target_nodes(t),
        old(cx).fuel == 0 ==> target_nodes(t) == 0,
        target_drawn(target_options(old(cx).names.len() > 0, old(cx).spec_use_array()), t),
{
    gen_reference_at(cx, rng, NESTING_BUDGET)
}

/// The relational operators, each of weight 6.
pub open spec fn relop_options() -> Seq<(u32, RelOp)> {
    seq![
        (6u32, RelOp::Eq),
        (6u32, RelOp::Gt),
        (6u32, RelOp::Ge),
        (6u32, RelOp::Lt),
        (6u32, RelOp::Le),
        (6u32, RelOp::Ne),
    ]
}

/// The logical operators, each of weight 6.
pub open spec fn logicop_options() -> Seq<(u32, LogicOp)> {
    seq![(6u32, LogicOp::And), (6u32, LogicOp::Land), (6u32, LogicOp::Or), (6u32, LogicOp::Lor)]
}

/// Draws a relational operator.
pub fn gen_relop(cx: &mut CompilerContext, rng: &mut SmallRng) -> (op: RelOp)
    ensures
        *final(cx) == *old(cx),
        positive_option(relop_options(), op),
{
    let mut erng = bridge(rng);
    let options = vec![
        (6, RelOp::Eq),
        (6, RelOp::Gt),
        (6, RelOp::Ge),
        (6, RelOp::Lt),
        (6, RelOp::Le),
        (6, RelOp::Ne),
    ];
    assert(options@ == relop_options());
    assert(options@[0].0 > 0);
    pick(&mut erng, &options)
}

/// Draws a logical operator.
pub fn gen_logicop(cx: &mut CompilerContext, rng: &mut SmallRng) -> (op: LogicOp)
    ensures
        *final(cx) == *old(cx),
        positive_option(logicop_options(), op),
{
    let mut erng = bridge(rng);
    let options = vec![
        (6, LogicOp::And),
        (6, LogicOp::Land),
        (6, LogicOp::Or),
        (6, LogicOp::Lor),
    ];
    assert(options@ == logicop_options());
    assert(options@[0].0 > 0);
    pick(&mut erng, &options)
}

fn gen_bexpr_at(cx: &mut CompilerContext, rng: &mut SmallRng, depth: u32) -> (b: BExpr)
    requires
        old(cx).recursion_limit == 0 || old(cx).references_ok(),
    ensures
        bexpr_fits(b, old(cx).shape()),
        bexpr_literals_within(b, -100, 100),
        final(cx).same_config(*old(cx)),
        final(cx).fuel == old(cx).fuel,
        final(cx).negation_limit <= old(cx).negation_limit,
        final(cx).recursion_limit <= old(cx).recursion_limit,
        old(cx).negation_limit - final(cx).negation_limit == bexpr_nots(b),
        old(cx).recursion_limit - final(cx).recursion_limit == bexpr_nodes(b),
        old(cx).recursion_limit == 0 && old(cx).negation_limit == 0 ==> b is Bool && *final(cx)
            == *old(cx),
        bexpr_drawn(
            bexpr_options(
                old(cx).recursion_limit != 0 && depth > 0,
                old(cx).negation_limit != 0 && depth > 0,
            ),
            b,
        ),
    decreases depth,
{
    let mut erng = bridge(rng);
    let nested = cx.recursion_limit != 0 && depth > 0;
    let options = vec![
        (4, BExprChoice::Bool),
        (if nested { 14 } else { 0 }, BExprChoice::Rel),
        (if nested { 14 } else { 0 }, BExprChoice::Logic),
        (if cx.negation_limit != 0 && depth > 0 { 8 } else { 0 }, BExprChoice::Not),
    ];
    assert(options@[0].0 > 0);
    let ghost spec_options = bexpr_options(nested, cx.negation_limit != 0 && depth > 0);
    assert(options@ == spec_options);
    let choice = pick(&mut erng, &options);
    let ghost k = choose|k: int| 0 <= k < options.len() && options@[k].1 == choice && options@[k].0 > 0;
    let b = match choice {
        BExprChoice::Bool => BExpr::Bool(random_bool(&mut erng)),
        BExprChoice::Rel => {
            cx.recursion_limit = cx.recursion_limit - 1;
            let l = gen_aexpr(cx, &mut erng);
            let op = gen_relop(cx, &mut erng);
            let r = gen_aexpr(cx, &mut erng);
            BExpr::Rel(l, op, r)
        },
        BExprChoice::Logic => {
            cx.recursion_limit = cx.recursion_limit - 1;
            let l = gen_bexpr_at(cx, &mut erng, depth - 1);
            let op = gen_logicop(cx, &mut erng);
            let r = gen_bexpr_at(cx, &mut erng, depth - 1);
            BExpr::logic(l, op, r)
        },
        BExprChoice::Not => {
            cx.negation_limit = cx.negation_limit - 1;
            BExpr::Not(Box::new(gen_bexpr_at(cx, &mut erng, depth - 1)))
        },
    };
    assert(bexpr_of_kind(spec_options[k].1, b));
    b
}

/// Draws a boolean expression: a literal, a comparison, a logical
/// combination or a negation. It fits the context's shape; the nesting
/// limits only go down.
pub fn gen_bexpr(cx: &mut CompilerContext, rng: &mut SmallRng) -> (b: BExpr)
    requires
        old(cx).recursion_limit == 0 || old(cx).references_ok(),
    ensures
        bexpr_fits(b, old(cx).shape()),
        bexpr_literals_within(b, -100, 100),
        final(cx).same_config(*old(cx)),
        final(cx).fuel == old(cx).fuel,
        final(cx).negation_limit <= old(cx).negation_limit,
        final(cx).recursion_limit <= old(cx).recursion_limit,
        old(cx).negation_limit - final(cx).negation_limit == bexpr_nots(b),
        old(cx).recursion_limit - final(cx).recursion_limit == bexpr_nodes(b),
        old(cx).recursion_limit == 0 && old(cx).negation_limit == 0 ==> b is Bool && *final(cx)
            == *old(cx),
        bexpr_drawn(
            bexpr_options(old(cx).recursion_limit != 0, old(cx).negation_limit != 0),
            b,
        ),
{
    gen_bexpr_at(cx, rng, NESTING_BUDGET)
}

/// Draws between 1 and 10 commands (not above the fuel unless that is
/// zero) and spends that much fuel.
fn gen_commands_at(cx: &mut CompilerContext, rng: &mut SmallRng, depth: u32) -> (c: Commands)
    requires
        old(cx).has_targets(),
    ensures
        commands_fits(c, old(cx).shape()),
        1 <= c.0.len() <= 10,
        c.0.len() <= old(cx).fuel || c.0.len() == 1,
        final(cx).fuel <= (if old(cx).fuel < c.0.len() { 0 } else { old(cx).fuel - c.0.len() }),
        final(cx).same_config(*old(cx)),
        final(cx).recursion_limit <= 5,
        final(cx).negation_limit <= 3,
    decreases depth, 1int,
{
    let n = cx.many(1, 10, rng);
    let ghost fuel_after = cx.fuel;
    let mut v: Vec<Command> = Vec::new();
    let mut i: usize = 0;
    while i < n
        invariant
            i <= n,
            v.len() == i,
            cx.has_targets(),
            cx.same_config(*old(cx)),
            cx.fuel <= fuel_after,
            forall|j: int| 0 <= j < v.len() ==> command_fits(#[trigger] v@[j], old(cx).shape()),
            1 <= n,
            i > 0 ==> cx.recursion_limit <= 5 && cx.negation_limit <= 3,
        decreases n - i,
    {
        let c = gen_command_at(cx, rng, depth);
        v.push(c);
        i = i + 1;
    }
    Commands(v)
}

/// A guard `b -> C` with the nesting limits reset (5 and 3).
fn gen_guard_at(cx: &mut CompilerContext, rng: &mut SmallRng, depth: u32) -> (g: Guard)
    requires
        old(cx).has_targets(),
    ensures
        guard_fits(g, old(cx).shape()),
        bexpr_nots(g.0) <= 3,
        bexpr_nodes(g.0) <= 5,
        1 <= g.1.0.len() <= 10,
        final(cx).fuel <= (if old(cx).fuel == 0 { 0 } else { old(cx).fuel - 1 }),
        final(cx).same_config(*old(cx)),
        final(cx).recursion_limit <= 5,
        final(cx).negation_limit <= 3,
    decreases depth, 2int,
{
    cx.recursion_limit = 5;
    cx.negation_limit = 3;
    let b = gen_bexpr(cx, rng);
    let c = gen_commands_at(cx, rng, depth);
    Guard(b, c)
}

/// Between 1 and 10 guards, spending fuel as for commands.
fn gen_guards_at(cx: &mut CompilerContext, rng: &mut SmallRng, depth: u32) -> (gs: Vec<Guard>)
    requires
        old(cx).has_targets(),
    ensures
        forall|j: int| 0 <= j < gs.len() ==> guard_fits(#[trigger] gs@[j], old(cx).shape()),
        1 <= gs.len() <= 10,
        final(cx).fuel <= (if old(cx).fuel == 0 { 0 } else { old(cx).fuel - 1 }),
        final(cx).same_config(*old(cx)),
        final(cx).recursion_limit <= 5,
        final(cx).negation_limit <= 3,
    decreases depth, 3int,
{
    let n = cx.many(1, 10, rng);
    let mut v: Vec<Guard> = Vec::new();
    let mut i: usize = 0;
    while i < n
        invariant
            i <= n,
            v.len() == i,
            cx.has_targets(),
            cx.same_config(*old(cx)),
            cx.fuel <= old(cx).fuel,
            forall|j: int| 0 <= j < v.len() ==> guard_fits(#[trigger] v@[j], old(cx).shape()),
            1 <= n,
            i > 0 ==> cx.recursion_limit <= 5 && cx.negation_limit <= 3,
            i > 0 ==> cx.fuel <= (if old(cx).fuel == 0 { 0 } else { old(cx).fuel - 1 }),
        decreases n - i,
    {
        let g = gen_guard_at(cx, rng, depth);
        v.push(g);
        i = i + 1;
    }
    v
}

fn gen_command_at(cx: &mut CompilerContext, rng: &mut SmallRng, depth: u32) -> (c: Command)
    requires
        old(cx).has_targets(),
    ensures
        command_fits(c, old(cx).shape()),
        final(cx).fuel <= old(cx).fuel,
        final(cx).same_config(*old(cx)),
        final(cx).recursion_limit <= 5,
        final(cx).negation_limit <= 3,
        c matches Command::If(gs) ==> 1 <= gs.len() <= 10,
        c matches Command::Loop(gs) ==> 1 <= gs.len() <= 10,
        command_drawn(command_options(depth > 0, old(cx).no_loops), c),
    decreases depth, 0int,
{
    cx.recursion_limit = 5;
    cx.negation_limit = 3;
    let mut erng = bridge(rng);
    let options = vec![
        (20, CommandChoice::Assignment),
        (6, CommandChoice::Skip),
        (if depth > 0 { 12 } else { 0 }, CommandChoice::If),
        (if cx.no_loops || depth == 0 { 0 } else { 6 }, CommandChoice::Loop),
    ];
    assert(options@ == command_options(depth > 0, old(cx).no_loops));
    assert(options@[0].0 > 0);
    let choice = pick(&mut erng, &options);
    let ghost k = choose|k: int| 0 <= k < options.len() && options@[k].1 == choice && options@[k].0 > 0;
    let c = match choice {
        CommandChoice::Assignment => {
            let t = gen_target(cx, &mut erng);
            let e = gen_aexpr(cx, &mut erng);
            Command::Assignment(t, e)
        },
        CommandChoice::Skip => Command::Skip,
        CommandChoice::If => Command::If(gen_guards_at(cx, &mut erng, depth - 1)),
        CommandChoice::Loop => Command::Loop(gen_guards_at(cx, &mut erng, depth - 1)),
    };
    assert(command_of_kind(options@[k].1, c));
    assert(command_options(depth > 0, old(cx).no_loops)[k] == options@[k]);
    c
}

/// Draws a command: an assignment, `skip`, or an `if`/`do` of 1 to 10
/// guards; it fits the context's shape and fuel never grows. The nesting
/// limits are first reset to 5 and 3.
pub fn gen_command(cx: &mut CompilerContext, rng: &mut SmallRng) -> (c: Command)
    requires
        old(cx).has_targets(),
    ensures
        command_fits(c, old(cx).shape()),
        final(cx).fuel <= old(cx).fuel,
        final(cx).same_config(*old(cx)),
        final(cx).recursion_limit <= 5,
        final(cx).negation_limit <= 3,
        c matches Command::If(gs) ==> 1 <= gs.len() <= 10,
        c matches Command::Loop(gs) ==> 1 <= gs.len() <= 10,
        command_drawn(command_options(true, old(cx).no_loops), c),
{
    gen_command_at(cx, rng, NESTING_BUDGET)
}

/// Draws between 1 and 10 commands, at most the fuel unless that is zero,
/// spending at least that much fuel; they fit the context's shape.
pub fn gen_commands(cx: &mut CompilerContext, rng: &mut SmallRng) -> (c: Commands)
    requires
        old(cx).has_targets(),
    ensures
        commands_fits(c, old(cx).shape()),
        1 <= c.0.len() <= 10,
        c.0.len() <= old(cx).fuel || c.0.len() == 1,
        final(cx).fuel <= (if old(cx).fuel < c.0.len() { 0 } else { old(cx).fuel - c.0.len() }),
        final(cx).same_config(*old(cx)),
{
    gen_commands_at(cx, rng, NESTING_BUDGET)
}

/// Draws a guard `b -> C` after resetting the nesting limits to 5 and 3;
/// its body holds 1 to 10 commands and spends at least one fuel where
/// there is any.
pub fn gen_guard(cx: &mut CompilerContext, rng: &mut SmallRng) -> (g: Guard)
    requires
        old(cx).has_targets(),
    ensures
        guard_fits(g, old(cx).shape()),
        bexpr_nots(g.0) <= 3,
        bexpr_nodes(g.0) <= 5,
        1 <= g.1.0.len() <= 10,
        final(cx).fuel <= (if old(cx).fuel == 0 { 0 } else { old(cx).fuel - 1 }),
        final(cx).same_config(*old(cx)),
        final(cx).recursion_limit <= 5,
        final(cx).negation_limit <= 3,
{
    gen_guard_at(cx, rng, NESTING_BUDGET)
}

} // verus!

verus! {

/// A program generated under a context uses none of the constructs that
/// the context switches off: no `do` with `no_loops`, no `/` with
/// `no_division`, no unary `-` with `no_unary_minus`, and no array access
/// with `no_arrays`.
pub proof fn lemma_switches_respected(cx: CompilerContext, c: Commands)
    requires
        commands_fits(c, cx.shape()),
    ensures
        cx.no_loops ==> !commands_use(c, Feature::Loop),
        cx.no_division ==> !commands_use(c, Feature::Division),
        cx.no_unary_minus ==> !commands_use(c, Feature::UnaryMinus),
        cx.no_arrays ==> !commands_use(c, Feature::ArrayAccess),
{
    if cx.no_loops {
        lemma_commands_fit_exclude(c, cx.shape(), Feature::Loop);
    }
    if cx.no_division {
        lemma_commands_fit_exclude(c, cx.shape(), Feature::Division);
    }
    if cx.no_unary_minus {
        lemma_commands_fit_exclude(c, cx.shape(), Feature::UnaryMinus);
    }
    if cx.no_arrays {
        lemma_commands_fit_exclude(c, cx.shape(), Feature::ArrayAccess);
    }
}

} // verus!
