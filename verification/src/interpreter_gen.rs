//! Test-case generator for the interpreter environment.
//!
//! Programs are generated by level: 1 assignments, 2 sequencing,
//! 3 conditionals, 4 stuck guards, 5 loops, 6 nondeterminism, 7 undefined
//! semantics (division by zero) and 8 a composition that guarantees one
//! program part of each earlier level. Each level's productions are weighted
//! options ([`GenOptionsNested`]); a level also guarantees that one of its
//! own productions is used.
//!
//! Where the generator would fail at run time (a name missing from memory,
//! or a list of options without a positive weight), the functions here
//! return `None`. Over a memory that holds the context's names (see
//! [`InterpreterContext::covered`]), with options and a pending guarantee
//! that have a production of positive weight, every generator returns a
//! result.

use crate::ast::{
    aexpr_fits, aexpr_nodes, aexpr_uses, target_uses, literals_within, command_loop_free, names_view, target_fits, Feature, Shape, commands_loop_free, guard_loop_free, straight_line, AExpr, AOp, Array,
    BExpr, Command, Commands, Guard, LogicOp, RelOp, Target, Variable,
};
use crate::compiler_gen::{gen_aexpr, gen_aop, gen_bexpr, gen_guard, positive_option, CompilerContext};
use crate::bounds::{bounds, bounds_in, describes, eval_aexpr, in_i32, lemma_bounds_exact, lemma_bounds_sound};
use crate::guards::{
    eval_bexpr, lemma_nondet_never_fails, lemma_nondet_rel_confirmed, lemma_stuck_never_holds,
    lemma_stuck_rel_refuted, nondet_confirmed, stuck_refuted,
};
use crate::memory::{InterpreterMemory, MemoryView};
use crate::random::{
    choose_item, choose_weighted, lemma_total_weight_bounds, pick, random_below_u32,
    random_range_i32, random_range_u32, random_ratio, random_u64, seed_from_u64, shuffle,
};
use rand::rngs::SmallRng;
use vstd::prelude::*;

verus! {

/// One production of a level; each stands for a way to build commands.
#[derive(Clone, Copy, Debug, PartialEq, Eq, Structural)]
pub enum Production {
    /// A single assignment (level 1).
    Assignment,
    /// Two generated parts in sequence (level 2).
    SequenceOfTwo,
    /// Three generated parts in sequence (level 2).
    SequenceOfThree,
    /// `if` with one guard that holds (level 3).
    ConditionalSingle,
    /// `if` with several guards (level 3).
    ConditionalMultiple,
    /// `if` with one guard that does not hold (level 4).
    StuckIf,
    /// The same, drawn only where loops are allowed (level 4).
    StuckIfLoopsAllowed,
    /// `do` with one guard that holds (level 5).
    LoopHolding,
    /// `do` with one compiler-style guard (level 5).
    LoopCompilerGuard,
    /// `if` with several overlapping guards (level 6).
    NondetIf,
    /// `do` with several overlapping guards (level 6).
    NondetLoop,
    /// `if` whose guards divide by zero (level 7).
    UndefinedIf,
    /// `do` whose guards divide by zero (level 7).
    UndefinedLoop,
    /// An assignment to a negative array index (level 7).
    UndefinedArrayAssignment,
}

/// Weighted productions; weights are in twentieths.
pub struct GenOptionsNested(pub Vec<(u32, Production)>);

impl GenOptionsNested {
    /// Weights small enough that their total fits a `u32`.
    pub open spec fn wf(self) -> bool {
        &&& self.0.len() <= 64
        &&& forall|i: int| 0 <= i < self.0.len() ==> #[trigger] self.0@[i].0 <= 1000
    }
}

/// The state of the interpreter-environment generator.
pub struct InterpreterContext {
    pub level: u32,
    /// Whether the next generation step must use `guarantee_gen`.
    pub guarantee: bool,
    pub guarantee_gen: Option<GenOptionsNested>,
    pub memory: InterpreterMemory,
    pub allow_loops: bool,
    pub multiple_guards: bool,
    pub compiler_context: CompilerContext,
}

impl InterpreterContext {
    /// The options of the context are well formed.
    pub open spec fn wf(self) -> bool {
        self.guarantee_gen matches Some(g) ==> g.wf()
    }

    /// What a generation step can still spend: the fuel, and one more step
    /// while a guaranteed production is pending.
    pub open spec fn budget(self) -> int {
        2 * self.compiler_context.fuel + (if self.guarantee && self.guarantee_gen is Some {
            1int
        } else {
            0
        })
    }
}

impl Default for InterpreterContext {
    fn default() -> (cx: Self)
        ensures
            cx.level == 1,
            !cx.guarantee,
            cx.guarantee_gen is None,
            cx.memory@.variables.len() == 0,
            cx.memory@.arrays.len() == 0,
            cx.allow_loops,
            cx.multiple_guards,
            cx.compiler_context.fuel == 10,
            cx.compiler_context.recursion_limit == 0,
            cx.compiler_context.negation_limit == 0,
            !cx.compiler_context.no_loops && !cx.compiler_context.no_division,
            !cx.compiler_context.no_unary_minus && !cx.compiler_context.no_arrays,
            cx.compiler_context.names@.len() == 4,
            cx.compiler_context.array_names@.len() == 3,
            cx.compiler_context.has_targets(),
    {
        let compiler_context = CompilerContext::default();
        InterpreterContext {
            level: 1,
            guarantee: false,
            guarantee_gen: None,
            memory: InterpreterMemory::new(),
            allow_loops: true,
            multiple_guards: true,
            compiler_context,
        }
    }
}

impl InterpreterContext {
    /// A context for `level` around `compiler_context`; the rest is the
    /// default. The random generator is not used.
    pub fn new(level: u32, compiler_context: CompilerContext, _rng: &mut SmallRng) -> (cx: Self)
        ensures
            cx.level == level,
            cx.compiler_context == compiler_context,
            !cx.guarantee,
            cx.guarantee_gen is None,
            cx.memory@.variables.len() == 0,
            cx.memory@.arrays.len() == 0,
            cx.allow_loops,
            cx.multiple_guards,
            *final(_rng) == *old(_rng),
    {
        InterpreterContext {
            level,
            guarantee: false,
            guarantee_gen: None,
            memory: InterpreterMemory::new(),
            allow_loops: true,
            multiple_guards: true,
            compiler_context,
        }
    }
}

} // verus!

verus! {

impl InterpreterContext {
    /// The names, flags and memory are those of `other`; only the counters
    /// of the compiler context may differ.
    pub open spec fn keeps(self, other: Self) -> bool {
        &&& self.compiler_context.same_config(other.compiler_context)
        &&& self.memory == other.memory
        &&& self.level == other.level
        &&& self.guarantee == other.guarantee
        &&& self.guarantee_gen == other.guarantee_gen
        &&& self.allow_loops == other.allow_loops
        &&& self.multiple_guards == other.multiple_guards
    }

    /// A variable or an array target can be drawn by the defined and
    /// undefined reference generators.
    pub open spec fn reference_targets_ok(self) -> bool {
        self.compiler_context.names.len() > 0 || !self.compiler_context.no_arrays
    }
}

/// The bounds of `a` over the memory of `cx`: a least and a greatest value
/// and whether evaluating it may fail (see [`bounds`]). They are sound: a
/// value of `a` lies between them and a failing evaluation is flagged.
/// `None` exactly where a name of `a` is missing from memory.
pub fn aexpr_resolve(a: AExpr, cx: &InterpreterContext) -> (r: Option<(i32, i32, bool)>)
    ensures
        r == bounds(a, cx.memory@),
        r matches Some(b) ==> describes(b, eval_aexpr(a, cx.memory@)),
        r is None ==> eval_aexpr(a, cx.memory@) is None,
        eval_aexpr(a, cx.memory@) matches Some(v) ==> r == Some((v, v, false)),
{
    proof {
        lemma_bounds_sound(a, cx.memory@);
        lemma_bounds_exact(a, cx.memory@);
    }
    bounds_in(a, &cx.memory)
}

/// The pair ordered as (smaller, larger) by bounds: `(b, a)` where `b`
/// has the lesser lower bound (or the same one and the lesser upper bound),
/// else `(a, b)`; and whether either may fail. `None` where the bounds of
/// either cannot be computed.
pub open spec fn sorted_pair(a: AExpr, b: AExpr, mem: MemoryView) -> Option<(AExpr, AExpr, bool)> {
    match (bounds(a, mem), bounds(b, mem)) {
        (Some((amin, amax, aex)), Some((bmin, bmax, bex))) => if bmin < amin || (bmin == amin
            && bmax < amax) {
            Some((b, a, aex || bex))
        } else {
            Some((a, b, aex || bex))
        },
        _ => None,
    }
}

/// Every name that the shape admits has an entry in the memory.
pub open spec fn names_in_memory(s: Shape, m: MemoryView) -> bool {
    &&& forall|x: Seq<char>| #[trigger] s.names.contains(x) ==> m.variable(x) is Some
    &&& forall|x: Seq<char>| #[trigger] s.array_names.contains(x) ==> m.array(x) is Some
}

/// The bounds of an expression that fits a shape can be computed over a
/// memory that holds every name of the shape.
pub proof fn lemma_bounds_defined(e: AExpr, s: Shape, m: MemoryView)
    requires
        aexpr_fits(e, s),
        names_in_memory(s, m),
    ensures
        bounds(e, m) is Some,
    decreases e,
{
    match e {
        AExpr::Number(_) => {},
        AExpr::Reference(t) => match t {
            Target::Variable(v) => {
                assert(target_fits(t, s));
                assert(s.names.contains(v.0@));
            },
            Target::Array(a, idx) => {
                assert(target_fits(t, s));
                assert(s.array_names.contains(a.0@));
                lemma_bounds_defined(*idx, s, m);
            },
        },
        AExpr::Binary(l, op, r) => {
            lemma_bounds_defined(*l, s, m);
            lemma_bounds_defined(*r, s, m);
        },
        AExpr::Minus(inner) => {
            lemma_bounds_defined(*inner, s, m);
        },
    }
}

impl InterpreterContext {
    /// Memory holds every name of the compiler context, and the array `A`
    /// that an array reference falls back on where arrays are on but none
    /// is named.
    pub open spec fn covered(self) -> bool {
        &&& names_in_memory(self.compiler_context.shape(), self.memory@)
        &&& (!self.compiler_context.no_arrays && self.compiler_context.array_names.len() == 0
            ==> self.memory@.array("A"@) is Some)
    }
}

/// A memory made for a compiler context holds every name of it.
pub proof fn lemma_initial_covered(m: MemoryView, cx: CompilerContext)
    requires
        initial_memory_for(m, cx),
    ensures
        names_in_memory(cx.shape(), m),
{
    assert forall|x: Seq<char>| #[trigger] cx.shape().names.contains(x) implies m.variable(x) is Some by {
        let i = choose|i: int| 0 <= i < names_view(cx.names@).len() && names_view(cx.names@)[i] == x;
        assert(m.variable(cx.names@[i]@) is Some);
    }
    assert forall|x: Seq<char>| #[trigger] cx.shape().array_names.contains(x) implies m.array(x) is Some by {
        let i = choose|i: int| 0 <= i < names_view(cx.array_names@).len() && names_view(cx.array_names@)[i] == x;
        assert(m.array(cx.array_names@[i]@) is Some);
    }
}

/// The bounds of an expression without variables can always be computed.
pub proof fn lemma_closed_bounds(e: AExpr, mem: MemoryView)
    requires
        aexpr_is_closed(e),
    ensures
        bounds(e, mem) is Some,
    decreases e,
{
    match e {
        AExpr::Binary(l, _, r) => {
            lemma_closed_bounds(*l, mem);
            lemma_closed_bounds(*r, mem);
        },
        AExpr::Minus(inner) => lemma_closed_bounds(*inner, mem),
        _ => {},
    }
}

/// The bounds of an expression that reads only names that the memory
/// holds can be computed; without arrays on, the expression reads none.
pub proof fn lemma_bounds_within(
    e: AExpr,
    names: Seq<Seq<char>>,
    arrays: Seq<Seq<char>>,
    mem: MemoryView,
    arrays_on: bool,
)
    requires
        aexpr_names_within(e, names, arrays),
        forall|x: Seq<char>| #[trigger] names.contains(x) ==> mem.variable(x) is Some,
        arrays_on ==> forall|a: Seq<char>| #[trigger] array_name_ok(a, arrays) ==> mem.array(a) is Some,
        !arrays_on ==> !aexpr_uses(e, Feature::ArrayAccess),
    ensures
        bounds(e, mem) is Some,
    decreases e,
{
    match e {
        AExpr::Number(_) => {},
        AExpr::Reference(t) => match t {
            Target::Variable(v) => {
                assert(target_names_within(t, names, arrays));
                assert(names.contains(v.0@));
            },
            Target::Array(a, idx) => {
                assert(target_names_within(t, names, arrays));
                assert(!arrays_on ==> target_uses(t, Feature::ArrayAccess));
                assert(array_name_ok(a.0@, arrays));
                lemma_bounds_within(*idx, names, arrays, mem, arrays_on);
            },
        },
        AExpr::Binary(l, _, r) => {
            lemma_bounds_within(*l, names, arrays, mem, arrays_on);
            lemma_bounds_within(*r, names, arrays, mem, arrays_on);
        },
        AExpr::Minus(inner) => {
            lemma_bounds_within(*inner, names, arrays, mem, arrays_on);
        },
    }
}

/// Over a covered memory, the bounds of an expression that reads only the
/// context's names (and no array where arrays are off) can be computed.
pub proof fn lemma_covered_bounds(cx: InterpreterContext, e: AExpr)
    requires
        cx.covered(),
        aexpr_names_within(
            e,
            names_view(cx.compiler_context.names@),
            names_view(cx.compiler_context.array_names@),
        ),
        cx.compiler_context.no_arrays ==> !aexpr_uses(e, Feature::ArrayAccess),
    ensures
        bounds(e, cx.memory@) is Some,
{
    let names = names_view(cx.compiler_context.names@);
    let arrays = names_view(cx.compiler_context.array_names@);
    assert forall|x: Seq<char>| #[trigger] names.contains(x) implies cx.memory@.variable(x) is Some by {
        assert(cx.compiler_context.shape().names.contains(x));
    }
    if !cx.compiler_context.no_arrays {
        assert forall|a: Seq<char>| #[trigger] array_name_ok(a, arrays) implies cx.memory@.array(a) is Some by {
            if arrays.contains(a) {
                assert(cx.compiler_context.shape().array_names.contains(a));
            } else {
                assert(arrays.len() == cx.compiler_context.array_names@.len());
            }
        }
    }
    lemma_bounds_within(e, names, arrays, cx.memory@, !cx.compiler_context.no_arrays);
}

/// Ordering two expressions by their bounds keeps both and puts the one of
/// the lesser lower bound first (the first argument where the lower bounds
/// are equal and its upper bound is not greater); the flag returned says
/// whether evaluating either may fail, whichever comes first, so it is set
/// wherever the evaluation of either fails. It is computed exactly where
/// the bounds of both are.
pub proof fn lemma_sorted_pair(a: AExpr, b: AExpr, mem: MemoryView)
    ensures
        sorted_pair(a, b, mem) is Some <==> (bounds(a, mem) is Some && bounds(b, mem) is Some),
        sorted_pair(a, b, mem) matches Some((s, l, ex)) ==> {
            let (ab, bb) = (bounds(a, mem).unwrap(), bounds(b, mem).unwrap());
            &&& (s == a && l == b) || (s == b && l == a)
            &&& bounds(s, mem).unwrap().0 <= bounds(l, mem).unwrap().0
            &&& ab.0 < bb.0 ==> s == a && l == b
            &&& bb.0 < ab.0 ==> s == b && l == a
            &&& ab == bb ==> s == a && l == b
            &&& ex == (ab.2 || bb.2)
            &&& (eval_aexpr(a, mem) is None || eval_aexpr(b, mem) is None) ==> ex
        },
{
    lemma_bounds_sound(a, mem);
    lemma_bounds_sound(b, mem);
}

/// Orders two expressions by their bounds (see [`sorted_pair`]).
pub fn sort_aexpr(a: AExpr, b: AExpr, cx: &InterpreterContext) -> (r: Option<(AExpr, AExpr, bool)>)
    ensures
        r == sorted_pair(a, b, cx.memory@),
        r matches Some((_, _, ex)) ==> ex == (bounds(a, cx.memory@).unwrap().2 || bounds(
            b,
            cx.memory@,
        ).unwrap().2),
        r matches Some((s, l, _)) ==> ((s == a && l == b) || (s == b && l == a)) && bounds(
            s,
            cx.memory@,
        ).unwrap().0 <= bounds(l, cx.memory@).unwrap().0,
{
    proof {
        lemma_sorted_pair(a, b, cx.memory@);
    }
    let ab = aexpr_resolve(a.duplicate(), cx);
    let bb = aexpr_resolve(b.duplicate(), cx);
    match (ab, bb) {
        (Some((amin, amax, aex)), Some((bmin, bmax, bex))) => {
            if bmin < amin || (bmin == amin && bmax < amax) {
                Some((b, a, aex || bex))
            } else {
                Some((a, b, aex || bex))
            }
        },
        _ => None,
    }
}

/// No variable or array occurs in `e`.
pub open spec fn aexpr_is_closed(e: AExpr) -> bool
    decreases e,
{
    match e {
        AExpr::Number(_) => true,
        AExpr::Reference(_) => false,
        AExpr::Binary(l, _, r) => aexpr_is_closed(*l) && aexpr_is_closed(*r),
        AExpr::Minus(inner) => aexpr_is_closed(*inner),
    }
}

/// The kinds of expression without variables that the generator draws
/// from.
#[derive(Clone, Copy, Debug, PartialEq, Eq, Structural)]
pub enum SimpleChoice {
    Number,
    Binary,
    Minus,
}

/// The weighted kinds of expression without variables: a number 8, and a
/// binary operation 18 and a negation 8 where recursion and fuel are left.
pub open spec fn simple_options(nested: bool) -> Seq<(u32, SimpleChoice)> {
    seq![
        (8u32, SimpleChoice::Number),
        (if nested { 18u32 } else { 0u32 }, SimpleChoice::Binary),
        (if nested { 8u32 } else { 0u32 }, SimpleChoice::Minus),
    ]
}

/// The expression is of a kind that has positive weight in `options`.
pub open spec fn simple_drawn(options: Seq<(u32, SimpleChoice)>, e: AExpr) -> bool {
    exists|i: int|
        0 <= i < options.len() && (#[trigger] options[i]).0 > 0 && match options[i].1 {
            SimpleChoice::Number => e matches AExpr::Number(n) && -100 <= n <= 100,
            SimpleChoice::Binary => e is Binary,
            SimpleChoice::Minus => e is Minus,
        }
}

/// An expression of numbers in `-100..=100`, binary operations and
/// negations, without variables, and without division where the context
/// switches it off. Drawing a number spends one negation, so a positive
/// negation limit goes down; without recursion limit or fuel left the
/// expression is a single number.
pub fn gen_aexpr_simple(cx: &mut InterpreterContext, rng: &mut SmallRng) -> (e: AExpr)
    ensures
        aexpr_is_closed(e),
        literals_within(e, -100, 100),
        old(cx).compiler_context.no_division ==> !aexpr_uses(e, Feature::Division),
        old(cx).compiler_context.recursion_limit == 0 || old(cx).compiler_context.fuel == 0
            ==> e is Number,
        old(cx).compiler_context.negation_limit > 0 ==> final(cx).compiler_context.negation_limit
            < old(cx).compiler_context.negation_limit,
        old(cx).compiler_context.recursion_limit - final(cx).compiler_context.recursion_limit
            == aexpr_nodes(e),
        final(cx).keeps(*old(cx)),
        final(cx).compiler_context.fuel == old(cx).compiler_context.fuel,
        final(cx).compiler_context.recursion_limit <= old(cx).compiler_context.recursion_limit,
        final(cx).compiler_context.negation_limit <= old(cx).compiler_context.negation_limit,
        simple_drawn(
            simple_options(
                old(cx).compiler_context.recursion_limit != 0 && old(cx).compiler_context.fuel != 0,
            ),
            e,
        ),
    decreases old(cx).compiler_context.recursion_limit,
{
    let nested = cx.compiler_context.recursion_limit != 0 && cx.compiler_context.fuel != 0;
    let options = vec![
        (8, SimpleChoice::Number),
        (if nested { 18 } else { 0 }, SimpleChoice::Binary),
        (if nested { 8 } else { 0 }, SimpleChoice::Minus),
    ];
    assert(options@ == simple_options(nested));
    assert(options@[0].0 > 0);
    let mut erng = seed_from_u64(random_u64(rng));
    let choice = pick(&mut erng, &options);
    let ghost k = choose|k: int| 0 <= k < options.len() && options@[k].1 == choice && options@[k].0 > 0;
    let e = match choice {
        SimpleChoice::Number => {
            if cx.compiler_context.negation_limit > 0 {
                cx.compiler_context.negation_limit = cx.compiler_context.negation_limit - 1;
            }
            AExpr::Number(random_range_i32(&mut erng, -100, 100))
        },
        SimpleChoice::Binary => {
            cx.compiler_context.recursion_limit = cx.compiler_context.recursion_limit - 1;
            let l = gen_aexpr_simple(cx, &mut erng);
            let op = gen_aop(&mut cx.compiler_context, &mut erng);
            let r = gen_aexpr_simple(cx, &mut erng);
            AExpr::binary(l, op, r)
        },
        SimpleChoice::Minus => {
            cx.compiler_context.recursion_limit = cx.compiler_context.recursion_limit - 1;
            AExpr::Minus(Box::new(gen_aexpr_simple(cx, &mut erng)))
        },
    };
    assert(simple_options(nested)[k].0 > 0);
    e
}

} // verus!

verus! {

/// An array name that a defined reference may use: one of `arrays`, or
/// `A` where there are none.
pub open spec fn array_name_ok(name: Seq<char>, arrays: Seq<Seq<char>>) -> bool {
    arrays.contains(name) || (arrays.len() == 0 && name == "A"@)
}

/// The target reads only variables of `names` and arrays that
/// [`array_name_ok`] admits.
pub open spec fn target_names_within(t: Target, names: Seq<Seq<char>>, arrays: Seq<Seq<char>>) -> bool
    decreases t,
{
    match t {
        Target::Variable(v) => names.contains(v.0@),
        Target::Array(a, idx) => array_name_ok(a.0@, arrays) && aexpr_names_within(*idx, names, arrays),
    }
}

/// The expression reads only variables of `names` and arrays that
/// [`array_name_ok`] admits.
pub open spec fn aexpr_names_within(e: AExpr, names: Seq<Seq<char>>, arrays: Seq<Seq<char>>) -> bool
    decreases e,
{
    match e {
        AExpr::Number(_) => true,
        AExpr::Reference(t) => target_names_within(t, names, arrays),
        AExpr::Binary(l, _, r) => aexpr_names_within(*l, names, arrays) && aexpr_names_within(
            *r,
            names,
            arrays,
        ),
        AExpr::Minus(inner) => aexpr_names_within(*inner, names, arrays),
    }
}

/// The kinds of target that the reference generators draw from.
#[derive(Clone, Copy, Debug, PartialEq, Eq, Structural)]
pub enum TargetKind {
    Variable,
    Array,
}

/// The kinds of expression that the defined-expression generator draws
/// from.
#[derive(Clone, Copy, Debug, PartialEq, Eq, Structural)]
pub enum DefinedChoice {
    Number,
    Reference,
    Binary,
    Minus,
}

/// The weighted kinds of target: a variable 14 where there are names, an
/// array cell 6 where arrays are on.
pub open spec fn target_kind_options(named: bool, arrays_on: bool) -> Seq<(u32, TargetKind)> {
    seq![
        (if named { 14u32 } else { 0u32 }, TargetKind::Variable),
        (if arrays_on { 6u32 } else { 0u32 }, TargetKind::Array),
    ]
}

/// The target is of a kind that has positive weight in `options`.
pub open spec fn target_kind_drawn(options: Seq<(u32, TargetKind)>, t: Target) -> bool {
    exists|i: int|
        0 <= i < options.len() && (#[trigger] options[i]).0 > 0 && match options[i].1 {
            TargetKind::Variable => t is Variable,
            TargetKind::Array => t is Array,
        }
}

/// The weighted kinds of defined expression: a number 8, a reference 16
/// where names and nesting exist, and a binary operation 18 and a negation
/// 8 where recursion, fuel and nesting are left.
pub open spec fn defined_options(referable: bool, nested: bool) -> Seq<(u32, DefinedChoice)> {
    seq![
        (8u32, DefinedChoice::Number),
        (if referable { 16u32 } else { 0u32 }, DefinedChoice::Reference),
        (if nested { 18u32 } else { 0u32 }, DefinedChoice::Binary),
        (if nested { 8u32 } else { 0u32 }, DefinedChoice::Minus),
    ]
}

/// The expression is of a kind that has positive weight in `options`.
pub open spec fn defined_drawn(options: Seq<(u32, DefinedChoice)>, e: AExpr) -> bool {
    exists|i: int|
        0 <= i < options.len() && (#[trigger] options[i]).0 > 0 && match options[i].1 {
            DefinedChoice::Number => e matches AExpr::Number(n) && -100 <= n <= 100,
            DefinedChoice::Reference => e is Reference,
            DefinedChoice::Binary => e is Binary,
            DefinedChoice::Minus => e is Minus,
        }
}

/// An index expression moved towards an array's range by its bounds
/// `small..=large` and whether it may fail (`ex`): negated when wholly
/// negative; where its lower bound is negative, plus that bound on the
/// right (`plus_bound`, or where the bound is `i32::MIN`, whose negation
/// does not fit) or its negation on the left; lowered by the upper bound
/// less `shift` when that bound exceeds 5; and replaced by the number
/// `pick` where it may fail.
pub open spec fn moved_index_defined(
    aexpr: AExpr,
    small: i32,
    large: i32,
    ex: bool,
    plus_bound: bool,
    shift: i32,
    pick: i32,
) -> AExpr {
    let e1 = if large < 0 {
        AExpr::Minus(Box::new(aexpr))
    } else {
        aexpr
    };
    let e2 = if small < 0 {
        if plus_bound || small == i32::MIN {
            AExpr::Binary(Box::new(e1), AOp::Plus, Box::new(AExpr::Number(small)))
        } else {
            AExpr::Binary(Box::new(AExpr::Number((-small) as i32)), AOp::Plus, Box::new(e1))
        }
    } else {
        e1
    };
    let e3 = if large > 5 {
        AExpr::Binary(Box::new(e2), AOp::Minus, Box::new(AExpr::Number((large - shift) as i32)))
    } else {
        e2
    };
    if ex {
        AExpr::Number(pick)
    } else {
        e3
    }
}

/// Moves an index expression by its bounds and the drawn values (see
/// [`moved_index_defined`]); the names it reads stay those of `aexpr`.
pub fn move_index_defined(
    aexpr: AExpr,
    small: i32,
    large: i32,
    ex: bool,
    plus_bound: bool,
    shift: i32,
    pick: i32,
) -> (r: AExpr)
    requires
        0 <= shift <= 5,
    ensures
        r == moved_index_defined(aexpr, small, large, ex, plus_bound, shift, pick),
        forall|names: Seq<Seq<char>>, arrays: Seq<Seq<char>>|
            aexpr_names_within(aexpr, names, arrays) ==> #[trigger] aexpr_names_within(
                r,
                names,
                arrays,
            ),
{
    let e1 = if large < 0 {
        AExpr::Minus(Box::new(aexpr))
    } else {
        aexpr
    };
    let e2 = if small < 0 {
        if plus_bound || small == i32::MIN {
            AExpr::Binary(Box::new(e1), AOp::Plus, Box::new(AExpr::Number(small)))
        } else {
            AExpr::Binary(Box::new(AExpr::Number(-small)), AOp::Plus, Box::new(e1))
        }
    } else {
        e1
    };
    let e3 = if large > 5 {
        AExpr::Binary(Box::new(e2), AOp::Minus, Box::new(AExpr::Number(large - shift)))
    } else {
        e2
    };
    let r = if ex {
        AExpr::Number(pick)
    } else {
        e3
    };
    assert forall|names: Seq<Seq<char>>, arrays: Seq<Seq<char>>|
        aexpr_names_within(aexpr, names, arrays) implies #[trigger] aexpr_names_within(
            r,
            names,
            arrays,
        ) by {
        assert(aexpr_names_within(AExpr::Number(small), names, arrays));
        assert(aexpr_names_within(AExpr::Number((-small) as i32), names, arrays));
        assert(aexpr_names_within(AExpr::Number((large - shift) as i32), names, arrays));
        assert(aexpr_names_within(AExpr::Number(pick), names, arrays));
        assert(aexpr_names_within(e1, names, arrays));
        assert(aexpr_names_within(e2, names, arrays));
        assert(aexpr_names_within(e3, names, arrays));
    }
    r
}

/// Draws the values that move a defined index (a coin where the lower
/// bound is negative, a shift in `0..=5` where the upper one exceeds 5, a
/// number in `1..=5` where it may fail) and moves it (see
/// [`moved_index_defined`]).
fn fix_index_defined(aexpr: AExpr, small: i32, large: i32, ex: bool, rng: &mut SmallRng) -> (r: AExpr)
    ensures
        exists|plus_bound: bool, shift: i32, pick: i32|
            0 <= shift <= 5 && 1 <= pick <= 5 && r == #[trigger] moved_index_defined(
                aexpr,
                small,
                large,
                ex,
                plus_bound,
                shift,
                pick,
            ),
        forall|names: Seq<Seq<char>>, arrays: Seq<Seq<char>>|
            aexpr_names_within(aexpr, names, arrays) ==> #[trigger] aexpr_names_within(
                r,
                names,
                arrays,
            ),
{
    let plus_bound = if small < 0 {
        random_ratio(rng, 1, 2)
    } else {
        true
    };
    let shift = if large > 5 {
        random_range_i32(rng, 0, 5)
    } else {
        0
    };
    let pick = if ex {
        random_range_i32(rng, 1, 5)
    } else {
        1
    };
    move_index_defined(aexpr, small, large, ex, plus_bound, shift, pick)
}

} // verus!

verus! {

fn gen_reference_defined_at(cx: &mut InterpreterContext, rng: &mut SmallRng, depth: u32) -> (r: Option<
    Target,
>)
    requires
        old(cx).reference_targets_ok(),
    ensures
        r matches Some(t) ==> target_kind_drawn(target_kind_options(old(cx).compiler_context.names.len() != 0, !old(cx).compiler_context.no_arrays), t),
        r matches Some(t) ==> target_names_within(
            t,
            names_view(old(cx).compiler_context.names@),
            names_view(old(cx).compiler_context.array_names@),
        ),
        old(cx).compiler_context.no_arrays ==> r matches Some(Target::Variable(_)),
        old(cx).covered() ==> r is Some,
        r matches Some(Target::Array(_, idx)) ==> exists|
            e: AExpr,
            b: (i32, i32, bool),
            plus_bound: bool,
            shift: i32,
            pick: i32,
        |
            #![trigger moved_index_defined(e, b.0, b.1, b.2, plus_bound, shift, pick)]
            bounds(e, old(cx).memory@) == Some(b) && 0 <= shift <= 5 && 1 <= pick <= 5 && *idx
                == moved_index_defined(e, b.0, b.1, b.2, plus_bound, shift, pick),
        final(cx).keeps(*old(cx)),
        final(cx).compiler_context.fuel == old(cx).compiler_context.fuel,
        final(cx).compiler_context.negation_limit == old(cx).compiler_context.negation_limit,
        final(cx).compiler_context.recursion_limit <= old(cx).compiler_context.recursion_limit,
    decreases depth, 1int,
{
    let ghost names = names_view(cx.compiler_context.names@);
    let ghost arrays = names_view(cx.compiler_context.array_names@);
    let options = vec![
        (if cx.compiler_context.names.len() == 0 { 0 } else { 14 }, TargetKind::Variable),
        (if cx.compiler_context.no_arrays { 0 } else { 6 }, TargetKind::Array),
    ];
    assert(options@[0].0 > 0 || options@[1].0 > 0);
    let mut erng = seed_from_u64(random_u64(rng));
    let ghost spec_options = target_kind_options(cx.compiler_context.names.len() != 0, !cx.compiler_context.no_arrays);
    assert(options@ == spec_options);
    let choice = pick(&mut erng, &options);
    let ghost k = choose|k: int| 0 <= k < options.len() && options@[k].1 == choice && options@[k].0 > 0;
    let r = match choice {
        TargetKind::Variable => {
            let name = choose_item(&mut erng, &cx.compiler_context.names).unwrap().clone();
            proof {
                let i = choose|i: int|
                    0 <= i < cx.compiler_context.names.len() && cx.compiler_context.names@[i]
                        == name;
                assert(names[i] == name@);
            }
            Some(Target::Variable(Variable(name)))
        },
        TargetKind::Array => {
            let name = match choose_item(&mut erng, &cx.compiler_context.array_names) {
                Some(n) => n.clone(),
                None => String::from_str("A"),
            };
            proof {
                if cx.compiler_context.array_names.len() > 0 {
                    let i = choose|i: int|
                        0 <= i < cx.compiler_context.array_names.len()
                            && cx.compiler_context.array_names@[i] == name;
                    assert(arrays[i] == name@);
                }
            }
            let aexpr = match gen_aexpr_defined_at(cx, &mut erng, depth) {
                Some(e) => e,
                None => return None,
            };
            proof {
                if old(cx).covered() {
                    lemma_covered_bounds(*cx, aexpr);
                }
            }
            let (small, large, ex) = match aexpr_resolve(aexpr.duplicate(), cx) {
                Some(b) => b,
                None => return None,
            };
            let idx = fix_index_defined(aexpr, small, large, ex, &mut erng);
            assert(aexpr_names_within(aexpr, names, arrays) ==> aexpr_names_within(idx, names, arrays));
            Some(Target::Array(Array(name), Box::new(idx)))
        },
    };
    assert(spec_options[k].0 > 0);
    r
}

fn gen_aexpr_defined_at(cx: &mut InterpreterContext, rng: &mut SmallRng, depth: u32) -> (r: Option<
    AExpr,
>)
    requires
        old(cx).compiler_context.references_ok(),
    ensures
        r matches Some(e) ==> defined_drawn(defined_options(!(old(cx).compiler_context.names.len() == 0 && old(cx).compiler_context.array_names.len() == 0) && depth > 0, old(cx).compiler_context.recursion_limit != 0 && old(cx).compiler_context.fuel != 0 && depth > 0), e),
        r matches Some(e) ==> aexpr_names_within(
            e,
            names_view(old(cx).compiler_context.names@),
            names_view(old(cx).compiler_context.array_names@),
        ),
        old(cx).compiler_context.no_arrays ==> r is Some,
        old(cx).compiler_context.no_arrays ==> (r matches Some(e) ==> !aexpr_uses(e, Feature::ArrayAccess)),
        old(cx).covered() ==> r is Some,
        old(cx).compiler_context.recursion_limit == 0 || old(cx).compiler_context.fuel == 0 ==> (
        r matches Some(e) ==> (e matches AExpr::Number(n) && -100 <= n <= 100) || e is Reference),
        final(cx).keeps(*old(cx)),
        final(cx).compiler_context.fuel == old(cx).compiler_context.fuel,
        final(cx).compiler_context.negation_limit == old(cx).compiler_context.negation_limit,
        final(cx).compiler_context.recursion_limit <= old(cx).compiler_context.recursion_limit,
    decreases depth, 0int,
{
    let ccx = &cx.compiler_context;
    let nested = ccx.recursion_limit != 0 && ccx.fuel != 0 && depth > 0;
    let options = vec![
        (8, DefinedChoice::Number),
        (
            if (ccx.names.len() == 0 && ccx.array_names.len() == 0) || depth == 0 {
                0
            } else {
                16
            },
            DefinedChoice::Reference,
        ),
        (if nested { 18 } else { 0 }, DefinedChoice::Binary),
        (if nested { 8 } else { 0 }, DefinedChoice::Minus),
    ];
    assert(options@[0].0 > 0);
    let mut erng = seed_from_u64(random_u64(rng));
    let ghost spec_options = defined_options(!(cx.compiler_context.names.len() == 0 && cx.compiler_context.array_names.len() == 0) && depth > 0, nested);
    assert(options@ == spec_options);
    let choice = pick(&mut erng, &options);
    let ghost k = choose|k: int| 0 <= k < options.len() && options@[k].1 == choice && options@[k].0 > 0;
    let r = match choice {
        DefinedChoice::Number => Some(AExpr::Number(random_range_i32(&mut erng, -100, 100))),
        DefinedChoice::Reference => match gen_reference_defined_at(cx, &mut erng, depth - 1) {
            Some(t) => {
                assert(old(cx).compiler_context.no_arrays ==> !target_uses(t, Feature::ArrayAccess));
                Some(AExpr::Reference(t))
            },
            None => None,
        },
        DefinedChoice::Binary => {
            cx.compiler_context.recursion_limit = cx.compiler_context.recursion_limit - 1;
            let l = match gen_aexpr_defined_at(cx, &mut erng, depth - 1) {
                Some(e) => e,
                None => return None,
            };
            let op = gen_aop(&mut cx.compiler_context, &mut erng);
            let r = match gen_aexpr_defined_at(cx, &mut erng, depth - 1) {
                Some(e) => e,
                None => return None,
            };
            Some(AExpr::binary(l, op, r))
        },
        DefinedChoice::Minus => {
            cx.compiler_context.recursion_limit = cx.compiler_context.recursion_limit - 1;
            match gen_aexpr_defined_at(cx, &mut erng, depth - 1) {
                Some(e) => Some(AExpr::Minus(Box::new(e))),
                None => None,
            }
        },
    };
    assert(spec_options[k].0 > 0);
    r
}

/// An arithmetic expression whose references are meant to be defined: it
/// reads only the context's variables and arrays (see
/// [`aexpr_names_within`]), and array indices are moved into range using
/// their bounds. `None` only where an array name is missing from memory:
/// over a covered memory (see [`InterpreterContext::covered`]) an
/// expression is always built.
pub fn gen_aexpr_defined(cx: &mut InterpreterContext, rng: &mut SmallRng) -> (r: Option<AExpr>)
    requires
        old(cx).compiler_context.references_ok(),
    ensures
        r matches Some(e) ==> aexpr_names_within(
            e,
            names_view(old(cx).compiler_context.names@),
            names_view(old(cx).compiler_context.array_names@),
        ),
        old(cx).compiler_context.no_arrays ==> r is Some,
        old(cx).compiler_context.no_arrays ==> (r matches Some(e) ==> !aexpr_uses(e, Feature::ArrayAccess)),
        old(cx).covered() ==> r is Some,
        old(cx).compiler_context.recursion_limit == 0 || old(cx).compiler_context.fuel == 0 ==> (
        r matches Some(e) ==> (e matches AExpr::Number(n) && -100 <= n <= 100) || e is Reference),
        final(cx).keeps(*old(cx)),
        final(cx).compiler_context.fuel == old(cx).compiler_context.fuel,
        final(cx).compiler_context.negation_limit == old(cx).compiler_context.negation_limit,
        final(cx).compiler_context.recursion_limit <= old(cx).compiler_context.recursion_limit,
{
    gen_aexpr_defined_at(cx, rng, crate::compiler_gen::NESTING_BUDGET)
}

/// An assignment to a defined target of a defined expression.
fn gen_assignment(cx: &mut InterpreterContext, rng: &mut SmallRng) -> (r: Option<Command>)
    requires
        old(cx).reference_targets_ok(),
    ensures
        r matches Some(Command::Assignment(t, e)) ==> target_names_within(
            t,
            names_view(old(cx).compiler_context.names@),
            names_view(old(cx).compiler_context.array_names@),
        ) && aexpr_names_within(
            e,
            names_view(old(cx).compiler_context.names@),
            names_view(old(cx).compiler_context.array_names@),
        ),
        r matches Some(c) ==> c is Assignment,
        old(cx).compiler_context.no_arrays ==> r is Some,
        old(cx).covered() ==> r is Some,
        final(cx).keeps(*old(cx)),
        final(cx).compiler_context.fuel == old(cx).compiler_context.fuel,
        final(cx).compiler_context.negation_limit == old(cx).compiler_context.negation_limit,
        final(cx).compiler_context.recursion_limit <= old(cx).compiler_context.recursion_limit,
{
    let t = match gen_reference_defined_at(cx, rng, crate::compiler_gen::NESTING_BUDGET) {
        Some(t) => t,
        None => return None,
    };
    match gen_aexpr_defined(cx, rng) {
        Some(e) => Some(Command::Assignment(t, e)),
        None => None,
    }
}

} // verus!

verus! {

/// A guard built as a failing one: `false`, `!true`, a double negation of
/// one, a conjunction with one, a disjunction of two, or a comparison.
pub open spec fn stuck_form(b: BExpr) -> bool
    decreases b,
{
    match b {
        BExpr::Bool(v) => !v,
        BExpr::Rel(_, _, _) => true,
        BExpr::Not(inner) => match *inner {
            BExpr::Bool(v) => v,
            BExpr::Not(x) => stuck_form(*x),
            _ => false,
        },
        BExpr::Logic(l, op, r) => match op {
            LogicOp::And | LogicOp::Land => stuck_form(*l) || stuck_form(*r),
            LogicOp::Or | LogicOp::Lor => stuck_form(*l) && stuck_form(*r),
        },
    }
}

/// A guard built as a holding one: `true`, `!false`, the negation of a
/// failing one, a disjunction with one, or a comparison.
pub open spec fn nondet_form(b: BExpr) -> bool
    decreases b,
{
    match b {
        BExpr::Bool(v) => v,
        BExpr::Rel(_, _, _) => true,
        BExpr::Not(inner) => match *inner {
            BExpr::Bool(v) => !v,
            _ => stuck_form(*inner),
        },
        BExpr::Logic(l, op, r) => match op {
            LogicOp::Or | LogicOp::Lor => nondet_form(*l) || nondet_form(*r),
            _ => false,
        },
    }
}

/// The value of a guard as far as it is known from its literals alone
/// (comparisons unknown), in three-valued logic.
pub open spec fn known_value(b: BExpr) -> Option<bool>
    decreases b,
{
    match b {
        BExpr::Bool(v) => Some(v),
        BExpr::Rel(_, _, _) => None,
        BExpr::Not(inner) => match known_value(*inner) {
            Some(v) => Some(!v),
            None => None,
        },
        BExpr::Logic(l, op, r) => {
            let lv = known_value(*l);
            let rv = known_value(*r);
            match op {
                LogicOp::And | LogicOp::Land => if lv == Some(false) || rv == Some(false) {
                    Some(false)
                } else if lv == Some(true) && rv == Some(true) {
                    Some(true)
                } else {
                    None
                },
                LogicOp::Or | LogicOp::Lor => if lv == Some(true) || rv == Some(true) {
                    Some(true)
                } else if lv == Some(false) && rv == Some(false) {
                    Some(false)
                } else {
                    None
                },
            }
        },
    }
}

/// A guard built as failing is never known to hold, and one built as
/// holding is never known to fail.
pub proof fn lemma_forms_known_values(b: BExpr)
    ensures
        stuck_form(b) ==> known_value(b) != Some(true),
        nondet_form(b) ==> known_value(b) != Some(false),
    decreases b,
{
    match b {
        BExpr::Bool(_) => {},
        BExpr::Rel(_, _, _) => {},
        BExpr::Not(inner) => {
            lemma_forms_known_values(*inner);
            match *inner {
                BExpr::Not(x) => {
                    lemma_forms_known_values(*x);
                },
                _ => {},
            }
        },
        BExpr::Logic(l, _, r) => {
            lemma_forms_known_values(*l);
            lemma_forms_known_values(*r);
        },
    }
}

} // verus!

verus! {

/// The kinds of holding comparison that the generator draws from.
#[derive(Clone, Copy, Debug, PartialEq, Eq, Structural)]
pub enum NondetRelChoice {
    EqualShifted,
    EqualSelf,
    NotEqual,
    GreaterEqual,
    Greater,
    LessEqual,
    Less,
}

/// `n - 1`, or 0 for 0.
pub open spec fn saturating_dec(n: u32) -> u32 {
    if n == 0 {
        0
    } else {
        (n - 1) as u32
    }
}

fn decrement_negations(cx: &mut InterpreterContext)
    ensures
        final(cx).keeps(*old(cx)),
        final(cx).compiler_context.fuel == old(cx).compiler_context.fuel,
        final(cx).compiler_context.recursion_limit == old(cx).compiler_context.recursion_limit,
        final(cx).compiler_context.negation_limit == (if old(cx).compiler_context.negation_limit
            == 0 {
            0
        } else {
            old(cx).compiler_context.negation_limit - 1
        }),
{
    if cx.compiler_context.negation_limit > 0 {
        cx.compiler_context.negation_limit = cx.compiler_context.negation_limit - 1;
    }
}

/// The kinds of holding comparison, each of weight 20: equal sides (one
/// shifted), an expression equal to itself, unequal sides, and sides
/// ordered by `>=`, `>`, `<=` or `<`.
pub open spec fn nondet_rel_options() -> Seq<(u32, NondetRelChoice)> {
    seq![
        (20u32, NondetRelChoice::EqualShifted),
        (20u32, NondetRelChoice::EqualSelf),
        (20u32, NondetRelChoice::NotEqual),
        (20u32, NondetRelChoice::GreaterEqual),
        (20u32, NondetRelChoice::Greater),
        (20u32, NondetRelChoice::LessEqual),
        (20u32, NondetRelChoice::Less),
    ]
}

/// The comparison is of the holding kind drawn.
pub open spec fn nondet_rel_of_kind(k: NondetRelChoice, b: BExpr) -> bool {
    match k {
        NondetRelChoice::EqualShifted => b matches BExpr::Rel(_, op, _) && op == RelOp::Eq,
        NondetRelChoice::EqualSelf => b matches BExpr::Rel(l, op, r) && op == RelOp::Eq && l == r,
        NondetRelChoice::NotEqual => b matches BExpr::Rel(_, op, _) && op == RelOp::Ne,
        NondetRelChoice::GreaterEqual => b matches BExpr::Rel(_, op, _) && op == RelOp::Ge,
        NondetRelChoice::Greater => b matches BExpr::Rel(_, op, _) && op == RelOp::Gt,
        NondetRelChoice::LessEqual => b matches BExpr::Rel(_, op, _) && op == RelOp::Le,
        NondetRelChoice::Less => b matches BExpr::Rel(_, op, _) && op == RelOp::Lt,
    }
}

/// The kinds of failing comparison, each of weight 20: two drawn sides
/// equal, an expression unequal to itself, and sides against their order
/// by `>=`, `>`, `<=` or `<`.
pub open spec fn stuck_rel_options() -> Seq<(u32, StuckRelChoice)> {
    seq![
        (20u32, StuckRelChoice::Equal),
        (20u32, StuckRelChoice::NotEqualSelf),
        (20u32, StuckRelChoice::GreaterEqual),
        (20u32, StuckRelChoice::Greater),
        (20u32, StuckRelChoice::LessEqual),
        (20u32, StuckRelChoice::Less),
    ]
}

/// The comparison is of the failing kind drawn.
pub open spec fn stuck_rel_of_kind(k: StuckRelChoice, b: BExpr) -> bool {
    match k {
        StuckRelChoice::Equal => b matches BExpr::Rel(_, op, _) && op == RelOp::Eq,
        StuckRelChoice::NotEqualSelf => b matches BExpr::Rel(l, op, r) && op == RelOp::Ne && l == r,
        StuckRelChoice::GreaterEqual => b matches BExpr::Rel(_, op, _) && op == RelOp::Ge,
        StuckRelChoice::Greater => b matches BExpr::Rel(_, op, _) && op == RelOp::Gt,
        StuckRelChoice::LessEqual => b matches BExpr::Rel(_, op, _) && op == RelOp::Le,
        StuckRelChoice::Less => b matches BExpr::Rel(_, op, _) && op == RelOp::Lt,
    }
}

/// `y`, whose least value is `ylo`, raised so that its least value is at
/// least `floor`: unchanged where it already is, else plus the difference;
/// `None` where `floor` or the difference does not fit an `i32`.
pub open spec fn lifted(y: AExpr, ylo: i32, floor: int) -> Option<AExpr> {
    if ylo >= floor {
        Some(y)
    } else if in_i32(floor) && in_i32(floor - ylo) {
        Some(AExpr::Binary(Box::new(y), AOp::Plus, Box::new(AExpr::Number((floor - ylo) as i32))))
    } else {
        None
    }
}

/// Raises `y` to the least value `floor` (see [`lifted`]).
fn lift(y: AExpr, ylo: i32, floor: i64) -> (r: Option<AExpr>)
    requires
        i32::MIN <= floor <= i32::MAX + 1,
    ensures
        r == lifted(y, ylo, floor as int),
        r matches Some(y2) ==> (aexpr_is_closed(y) ==> aexpr_is_closed(y2)),
        r matches Some(y2) ==> forall|s: Shape| aexpr_fits(y, s) ==> #[trigger] aexpr_fits(y2, s),
{
    if ylo as i64 >= floor {
        Some(y)
    } else if floor <= i32::MAX as i64 && floor - ylo as i64 <= i32::MAX as i64 {
        let k = AExpr::Number((floor - ylo as i64) as i32);
        let y2 = AExpr::Binary(Box::new(y), AOp::Plus, Box::new(k));
        assert(aexpr_is_closed(k));
        assert forall|s: Shape| aexpr_fits(y, s) implies #[trigger] aexpr_fits(y2, s) by {
            assert(aexpr_fits(k, s));
        }
        Some(y2)
    } else {
        None
    }
}

/// The two sides with their bounds, the one of lesser bounds first: `b`
/// where its lower bound is less, or the same and its upper bound less
/// (the order of [`sorted_pair`]).
pub open spec fn ordered(a: AExpr, ab: (i32, i32, bool), b: AExpr, bb: (i32, i32, bool)) -> (
    AExpr,
    (i32, i32, bool),
    AExpr,
    (i32, i32, bool),
) {
    if bb.0 < ab.0 || (bb.0 == ab.0 && bb.1 < ab.1) {
        (b, bb, a, ab)
    } else {
        (a, ab, b, bb)
    }
}

/// The comparison that a holding kind builds from sides `a` and `b`
/// without variables, so that it cannot evaluate to false (see
/// `lemma_nondet_rel_confirmed` in the guards module):
/// - equal sides: the first as is (its lower bound where it may fail), the
///   second shifted by the difference of their lower bounds (the first's
///   lower bound where the second may fail or the shift does not fit);
/// - an expression equal to itself;
/// - unequal sides, the second raised above the first's upper bound;
/// - the sides ordered by their bounds (see [`ordered`]) under `>=`, `>`,
///   `<=` or `<`, the larger raised to the smaller's upper bound (above it
///   for `>` and `<`).
///
/// Where a raise does not fit an `i32`, the sides are the numbers 0 and 1
/// in the same places.
pub open spec fn nondet_rel_of(k: NondetRelChoice, a: AExpr, b: AExpr, mem: MemoryView) -> BExpr {
    match (bounds(a, mem), bounds(b, mem)) {
        (Some(ab), Some(bb)) => match k {
            NondetRelChoice::EqualShifted => {
                let left = if ab.2 {
                    AExpr::Number(ab.0)
                } else {
                    a
                };
                let right = if bb.2 {
                    AExpr::Number(ab.0)
                } else if in_i32(ab.0 - bb.0) {
                    AExpr::Binary(Box::new(b), AOp::Plus, Box::new(AExpr::Number((ab.0 - bb.0) as i32)))
                } else {
                    AExpr::Number(ab.0)
                };
                BExpr::Rel(left, RelOp::Eq, right)
            },
            NondetRelChoice::EqualSelf => BExpr::Rel(a, RelOp::Eq, a),
            NondetRelChoice::NotEqual => match lifted(b, bb.0, ab.1 + 1) {
                Some(b2) => BExpr::Rel(a, RelOp::Ne, b2),
                None => BExpr::Rel(AExpr::Number(0), RelOp::Ne, AExpr::Number(1)),
            },
            _ => {
                let (small, sb, large, lb) = ordered(a, ab, b, bb);
                let gap: int = if k == NondetRelChoice::Greater || k == NondetRelChoice::Less {
                    1
                } else {
                    0
                };
                let (s2, l2) = match lifted(large, lb.0, sb.1 + gap) {
                    Some(l2) => (small, l2),
                    None => (AExpr::Number(0), AExpr::Number(1)),
                };
                match k {
                    NondetRelChoice::GreaterEqual => BExpr::Rel(l2, RelOp::Ge, s2),
                    NondetRelChoice::Greater => BExpr::Rel(l2, RelOp::Gt, s2),
                    NondetRelChoice::LessEqual => BExpr::Rel(s2, RelOp::Le, l2),
                    _ => BExpr::Rel(s2, RelOp::Lt, l2),
                }
            },
        },
        _ => BExpr::Rel(a, RelOp::Eq, a),
    }
}

/// Builds the comparison of holding kind `k` from sides without variables
/// (see [`nondet_rel_of`]).
pub fn build_nondet_rel(k: NondetRelChoice, a: AExpr, b: AExpr, cx: &InterpreterContext) -> (r: BExpr)
    requires
        aexpr_is_closed(a),
        aexpr_is_closed(b),
    ensures
        r == nondet_rel_of(k, a, b, cx.memory@),
        r matches BExpr::Rel(l, _, rr) ==> aexpr_is_closed(l) && aexpr_is_closed(rr),
{
    proof {
        lemma_closed_bounds(a, cx.memory@);
        lemma_closed_bounds(b, cx.memory@);
    }
    let (amin, amax, aex) = aexpr_resolve(a.duplicate(), cx).unwrap();
    let (bmin, bmax, bex) = aexpr_resolve(b.duplicate(), cx).unwrap();
    let zero = AExpr::Number(0);
    let one = AExpr::Number(1);
    assert(aexpr_is_closed(zero) && aexpr_is_closed(one));
    match k {
        NondetRelChoice::EqualShifted => {
            let left = if aex {
                AExpr::Number(amin)
            } else {
                a
            };
            let right = if bex {
                AExpr::Number(amin)
            } else {
                let diff: i64 = amin as i64 - bmin as i64;
                if diff > i32::MAX as i64 || diff < i32::MIN as i64 {
                    AExpr::Number(amin)
                } else {
                    let shift = AExpr::Number(diff as i32);
                    assert(aexpr_is_closed(shift));
                    AExpr::Binary(Box::new(b), AOp::Plus, Box::new(shift))
                }
            };
            assert(aexpr_is_closed(AExpr::Number(amin)));
            BExpr::Rel(left, RelOp::Eq, right)
        },
        NondetRelChoice::EqualSelf => BExpr::Rel(a.duplicate(), RelOp::Eq, a),
        NondetRelChoice::NotEqual => match lift(b, bmin, amax as i64 + 1) {
            Some(b2) => {
                assert(aexpr_is_closed(b2));
                BExpr::Rel(a, RelOp::Ne, b2)
            },
            None => BExpr::Rel(zero, RelOp::Ne, one),
        },
        _ => {
            let swap = bmin < amin || (bmin == amin && bmax < amax);
            let (small, smax, large, lmin) = if swap {
                (b, bmax, a, amin)
            } else {
                (a, amax, b, bmin)
            };
            let gap: i64 = match k {
                NondetRelChoice::Greater | NondetRelChoice::Less => 1,
                _ => 0,
            };
            let (s2, l2) = match lift(large, lmin, smax as i64 + gap) {
                Some(l2) => (small, l2),
                None => (zero, one),
            };
            assert(aexpr_is_closed(s2) && aexpr_is_closed(l2));
            match k {
                NondetRelChoice::GreaterEqual => BExpr::Rel(l2, RelOp::Ge, s2),
                NondetRelChoice::Greater => BExpr::Rel(l2, RelOp::Gt, s2),
                NondetRelChoice::LessEqual => BExpr::Rel(s2, RelOp::Le, l2),
                _ => BExpr::Rel(s2, RelOp::Lt, l2),
            }
        },
    }
}

/// A comparison that never evaluates to false over the context's memory,
/// of expressions without variables, of a kind drawn with equal weights
/// (see [`nondet_rel_of`]). The negation limit
/// goes down by one (not below zero) and the recursion limit is set to it
/// before the sides are drawn.
pub fn gen_bexpr_nondet_rel(cx: &mut InterpreterContext, rng: &mut SmallRng) -> (r: BExpr)
    ensures
        r is Rel,
        exists|i: int|
            0 <= i < nondet_rel_options().len() && #[trigger] nondet_rel_of_kind(nondet_rel_options()[i].1, r),
        r matches BExpr::Rel(l, _, rr) ==> aexpr_is_closed(l) && aexpr_is_closed(rr),
        exists|k: NondetRelChoice, a: AExpr, b: AExpr|
            #![trigger nondet_rel_of(k, a, b, old(cx).memory@)]
            aexpr_is_closed(a) && aexpr_is_closed(b) && r == nondet_rel_of(k, a, b, old(cx).memory@),
        nondet_confirmed(r, old(cx).memory@),
        eval_bexpr(r, old(cx).memory@) != Some(false),
        final(cx).keeps(*old(cx)),
        final(cx).compiler_context.fuel == old(cx).compiler_context.fuel,
        final(cx).compiler_context.negation_limit <= old(cx).compiler_context.negation_limit,
        final(cx).compiler_context.negation_limit <= saturating_dec(
            old(cx).compiler_context.negation_limit,
        ),
        final(cx).compiler_context.recursion_limit <= saturating_dec(
            old(cx).compiler_context.negation_limit,
        ),
{
    let options = vec![
        (20, NondetRelChoice::EqualShifted),
        (20, NondetRelChoice::EqualSelf),
        (20, NondetRelChoice::NotEqual),
        (20, NondetRelChoice::GreaterEqual),
        (20, NondetRelChoice::Greater),
        (20, NondetRelChoice::LessEqual),
        (20, NondetRelChoice::Less),
    ];
    assert(options@[0].0 > 0);
    let mut erng = seed_from_u64(random_u64(rng));
    assert(options@ == nondet_rel_options());
    let choice = pick(&mut erng, &options);
    let ghost k = choose|k: int| 0 <= k < options.len() && options@[k].1 == choice && options@[k].0 > 0;
    decrement_negations(cx);
    cx.compiler_context.recursion_limit = cx.compiler_context.negation_limit;
    let a = gen_aexpr_simple(cx, &mut erng);
    let b = if let NondetRelChoice::EqualSelf = choice {
        AExpr::Number(0)
    } else {
        gen_aexpr_simple(cx, &mut erng)
    };
    let r = build_nondet_rel(choice, a, b, cx);
    proof {
        lemma_closed_bounds(a, cx.memory@);
        lemma_closed_bounds(b, cx.memory@);
        assert(r == nondet_rel_of(choice, a, b, old(cx).memory@));
        lemma_nondet_rel_confirmed(choice, a, b, old(cx).memory@);
    }
    assert(nondet_rel_of_kind(nondet_rel_options()[k].1, r));
    r
}

/// The kinds of failing comparison that the generator draws from.
#[derive(Clone, Copy, Debug, PartialEq, Eq, Structural)]
pub enum StuckRelChoice {
    Equal,
    NotEqualSelf,
    GreaterEqual,
    Greater,
    LessEqual,
    Less,
}

/// The comparison that a failing kind builds from sides `a` and `b`, so
/// that it cannot evaluate to true (see `lemma_stuck_rel_refuted` in the
/// guards module):
/// - equal sides, the second raised above the first's upper bound;
/// - `a` unequal to itself;
/// - the sides ordered by their bounds (see [`ordered`]) against that order
///   under `>=`, `>`, `<=` or `<`, the larger raised to the smaller's upper
///   bound (above it for `>=` and `<=`).
///
/// Where a raise does not fit an `i32`, the sides are the numbers 0 and 1
/// in the same places. `None` where the bounds of a side cannot be
/// computed.
pub open spec fn stuck_rel_of(k: StuckRelChoice, a: AExpr, b: AExpr, mem: MemoryView) -> Option<BExpr> {
    match (bounds(a, mem), bounds(b, mem)) {
        (Some(ab), Some(bb)) => Some(
            match k {
                StuckRelChoice::Equal => match lifted(b, bb.0, ab.1 + 1) {
                    Some(b2) => BExpr::Rel(a, RelOp::Eq, b2),
                    None => BExpr::Rel(AExpr::Number(0), RelOp::Eq, AExpr::Number(1)),
                },
                StuckRelChoice::NotEqualSelf => BExpr::Rel(a, RelOp::Ne, a),
                _ => {
                    let (small, sb, large, lb) = ordered(a, ab, b, bb);
                    let gap: int = if k == StuckRelChoice::GreaterEqual || k
                        == StuckRelChoice::LessEqual {
                        1
                    } else {
                        0
                    };
                    let (s2, l2) = match lifted(large, lb.0, sb.1 + gap) {
                        Some(l2) => (small, l2),
                        None => (AExpr::Number(0), AExpr::Number(1)),
                    };
                    match k {
                        StuckRelChoice::GreaterEqual => BExpr::Rel(s2, RelOp::Ge, l2),
                        StuckRelChoice::Greater => BExpr::Rel(s2, RelOp::Gt, l2),
                        StuckRelChoice::LessEqual => BExpr::Rel(l2, RelOp::Le, s2),
                        _ => BExpr::Rel(l2, RelOp::Lt, s2),
                    }
                },
            },
        ),
        _ => None,
    }
}

/// Builds the comparison of failing kind `k` (see [`stuck_rel_of`]).
pub fn build_stuck_rel(k: StuckRelChoice, a: AExpr, b: AExpr, cx: &InterpreterContext) -> (r: Option<BExpr>)
    ensures
        r == stuck_rel_of(k, a, b, cx.memory@),
        r matches Some(BExpr::Rel(l, _, rr)) ==> (forall|s: Shape|
            aexpr_fits(a, s) && aexpr_fits(b, s) ==> #[trigger] aexpr_fits(l, s) && aexpr_fits(rr, s)),
{
    let (amin, amax, _) = match aexpr_resolve(a.duplicate(), cx) {
        Some(v) => v,
        None => return None,
    };
    let (bmin, bmax, _) = match aexpr_resolve(b.duplicate(), cx) {
        Some(v) => v,
        None => return None,
    };
    let zero = AExpr::Number(0);
    let one = AExpr::Number(1);
    let r = match k {
        StuckRelChoice::Equal => match lift(b, bmin, amax as i64 + 1) {
            Some(b2) => BExpr::Rel(a, RelOp::Eq, b2),
            None => BExpr::Rel(zero, RelOp::Eq, one),
        },
        StuckRelChoice::NotEqualSelf => BExpr::Rel(a.duplicate(), RelOp::Ne, a),
        _ => {
            let swap = bmin < amin || (bmin == amin && bmax < amax);
            let (small, smax, large, lmin) = if swap {
                (b, bmax, a, amin)
            } else {
                (a, amax, b, bmin)
            };
            let gap: i64 = match k {
                StuckRelChoice::GreaterEqual | StuckRelChoice::LessEqual => 1,
                _ => 0,
            };
            let (s2, l2) = match lift(large, lmin, smax as i64 + gap) {
                Some(l2) => (small, l2),
                None => (zero, one),
            };
            match k {
                StuckRelChoice::GreaterEqual => BExpr::Rel(s2, RelOp::Ge, l2),
                StuckRelChoice::Greater => BExpr::Rel(s2, RelOp::Gt, l2),
                StuckRelChoice::LessEqual => BExpr::Rel(l2, RelOp::Le, s2),
                _ => BExpr::Rel(l2, RelOp::Lt, s2),
            }
        },
    };
    Some(r)
}

/// A comparison that never evaluates to true over the context's memory,
/// of expressions that fit the context's shape, of a kind drawn with equal
/// weights (see [`stuck_rel_of`]). `None`
/// where a name is missing from memory; where memory holds every name of
/// the context a comparison is always built (see [`lemma_bounds_defined`]).
pub fn gen_bexpr_stuck_rel(cx: &mut InterpreterContext, rng: &mut SmallRng) -> (r: Option<BExpr>)
    requires
        old(cx).compiler_context.references_ok(),
    ensures
        r matches Some(b) ==> b is Rel,
        r matches Some(b) ==> exists|i: int|
            0 <= i < stuck_rel_options().len() && #[trigger] stuck_rel_of_kind(stuck_rel_options()[i].1, b),
        r matches Some(BExpr::Rel(l, _, rr)) ==> aexpr_fits(l, old(cx).compiler_context.shape())
            && aexpr_fits(rr, old(cx).compiler_context.shape()),
        r matches Some(c) ==> exists|k: StuckRelChoice, a: AExpr, b: AExpr|
            #![trigger stuck_rel_of(k, a, b, old(cx).memory@)]
            aexpr_fits(a, old(cx).compiler_context.shape()) && aexpr_fits(b, old(cx).compiler_context.shape())
                && stuck_rel_of(k, a, b, old(cx).memory@) == Some(c),
        r matches Some(c) ==> stuck_refuted(c, old(cx).memory@),
        r matches Some(c) ==> eval_bexpr(c, old(cx).memory@) != Some(true),
        names_in_memory(old(cx).compiler_context.shape(), old(cx).memory@) ==> r is Some,
        final(cx).keeps(*old(cx)),
        final(cx).compiler_context.fuel == old(cx).compiler_context.fuel,
        final(cx).compiler_context.negation_limit <= old(cx).compiler_context.negation_limit,
        final(cx).compiler_context.negation_limit == saturating_dec(
            old(cx).compiler_context.negation_limit,
        ),
{
    let options = vec![
        (20, StuckRelChoice::Equal),
        (20, StuckRelChoice::NotEqualSelf),
        (20, StuckRelChoice::GreaterEqual),
        (20, StuckRelChoice::Greater),
        (20, StuckRelChoice::LessEqual),
        (20, StuckRelChoice::Less),
    ];
    assert(options@[0].0 > 0);
    let mut erng = seed_from_u64(random_u64(rng));
    assert(options@ == stuck_rel_options());
    let choice = pick(&mut erng, &options);
    let ghost k = choose|k: int| 0 <= k < options.len() && options@[k].1 == choice && options@[k].0 > 0;
    decrement_negations(cx);
    let a = gen_aexpr(&mut cx.compiler_context, &mut erng);
    let b = if let StuckRelChoice::NotEqualSelf = choice {
        AExpr::Number(0)
    } else {
        gen_aexpr(&mut cx.compiler_context, &mut erng)
    };
    proof {
        assert(aexpr_fits(AExpr::Number(0), old(cx).compiler_context.shape()));
        if names_in_memory(old(cx).compiler_context.shape(), old(cx).memory@) {
            lemma_bounds_defined(a, old(cx).compiler_context.shape(), cx.memory@);
            lemma_bounds_defined(b, old(cx).compiler_context.shape(), cx.memory@);
        }
    }
    let r = build_stuck_rel(choice, a, b, cx);
    proof {
        if r is Some {
            assert(stuck_rel_of(choice, a, b, old(cx).memory@) == r);
        }
        lemma_stuck_rel_refuted(choice, a, b, old(cx).memory@);
    }
    assert(r matches Some(b) ==> stuck_rel_of_kind(stuck_rel_options()[k].1, b));
    r
}

} // verus!

verus! {

/// The kinds of holding guard that the generator draws from.
#[derive(Clone, Copy, Debug, PartialEq, Eq, Structural)]
pub enum NondetChoice {
    True,
    NotFalse,
    NotStuck,
    NondetOrAny,
    AnyOrNondet,
    NondetLorAny,
    AnyLorNondet,
    NondetOrStuck,
    NondetLorStuck,
    Relation,
}

/// The kinds of failing guard that the generator draws from.
#[derive(Clone, Copy, Debug, PartialEq, Eq, Structural)]
pub enum StuckChoice {
    False,
    NotTrue,
    DoubleNegation,
    StuckAndAny,
    AnyAndStuck,
    StuckLandAny,
    AnyLandStuck,
    StuckOrStuck,
    StuckLorStuck,
    Relation,
}

/// `x` where negations are left, else 0.
pub open spec fn weight_if(negatable: bool, x: u32) -> u32 {
    if negatable {
        x
    } else {
        0
    }
}

/// The weighted kinds of holding guard: `true` 40; where negations are
/// left, `!false` 20, the negation of a failing guard 20, a disjunction
/// with a holding guard on the left 10 (`|`) or 5 (`||`) or on the right
/// 5 each, a holding guard or a failing one 5 each, and a comparison 20.
pub open spec fn nondet_options(negatable: bool) -> Seq<(u32, NondetChoice)> {
    seq![
        (40u32, NondetChoice::True),
        (weight_if(negatable, 20), NondetChoice::NotFalse),
        (weight_if(negatable, 20), NondetChoice::NotStuck),
        (weight_if(negatable, 10), NondetChoice::NondetOrAny),
        (weight_if(negatable, 5), NondetChoice::AnyOrNondet),
        (weight_if(negatable, 5), NondetChoice::NondetLorAny),
        (weight_if(negatable, 5), NondetChoice::AnyLorNondet),
        (weight_if(negatable, 5), NondetChoice::NondetOrStuck),
        (weight_if(negatable, 5), NondetChoice::NondetLorStuck),
        (weight_if(negatable, 20), NondetChoice::Relation),
    ]
}

/// The guard is of the holding kind drawn.
pub open spec fn nondet_of_kind(k: NondetChoice, b: BExpr) -> bool {
    match k {
        NondetChoice::True => b == BExpr::Bool(true),
        NondetChoice::NotFalse => b == BExpr::Not(Box::new(BExpr::Bool(false))),
        NondetChoice::NotStuck => b matches BExpr::Not(inner) && stuck_form(*inner),
        NondetChoice::NondetOrAny => b matches BExpr::Logic(l, op, _) && op == LogicOp::Or
            && nondet_form(*l),
        NondetChoice::AnyOrNondet => b matches BExpr::Logic(_, op, r) && op == LogicOp::Or
            && nondet_form(*r),
        NondetChoice::NondetLorAny => b matches BExpr::Logic(l, op, _) && op == LogicOp::Lor
            && nondet_form(*l),
        NondetChoice::AnyLorNondet => b matches BExpr::Logic(_, op, r) && op == LogicOp::Lor
            && nondet_form(*r),
        NondetChoice::NondetOrStuck => b matches BExpr::Logic(l, op, r) && op == LogicOp::Or
            && nondet_form(*l) && stuck_form(*r),
        NondetChoice::NondetLorStuck => b matches BExpr::Logic(l, op, r) && op == LogicOp::Lor
            && nondet_form(*l) && stuck_form(*r),
        NondetChoice::Relation => b is Rel,
    }
}

/// The guard is of a holding kind that has positive weight in `options`.
pub open spec fn nondet_drawn(options: Seq<(u32, NondetChoice)>, b: BExpr) -> bool {
    exists|i: int|
        0 <= i < options.len() && (#[trigger] options[i]).0 > 0 && nondet_of_kind(options[i].1, b)
}

/// The weighted kinds of failing guard: `false` 40; where negations are
/// left, `!true` 20, a double negation of a failing guard 20, a conjunction
/// with a failing guard on either side 5 each (`&` and `&&`), a disjunction
/// of two failing guards 5 each (`|` and `||`), and a comparison 20.
pub open spec fn stuck_options(negatable: bool) -> Seq<(u32, StuckChoice)> {
    seq![
        (40u32, StuckChoice::False),
        (weight_if(negatable, 20), StuckChoice::NotTrue),
        (weight_if(negatable, 20), StuckChoice::DoubleNegation),
        (weight_if(negatable, 5), StuckChoice::StuckAndAny),
        (weight_if(negatable, 5), StuckChoice::AnyAndStuck),
        (weight_if(negatable, 5), StuckChoice::StuckLandAny),
        (weight_if(negatable, 5), StuckChoice::AnyLandStuck),
        (weight_if(negatable, 5), StuckChoice::StuckOrStuck),
        (weight_if(negatable, 5), StuckChoice::StuckLorStuck),
        (weight_if(negatable, 20), StuckChoice::Relation),
    ]
}

/// The guard is of the failing kind drawn.
pub open spec fn stuck_of_kind(k: StuckChoice, b: BExpr) -> bool {
    match k {
        StuckChoice::False => b == BExpr::Bool(false),
        StuckChoice::NotTrue => b == BExpr::Not(Box::new(BExpr::Bool(true))),
        StuckChoice::DoubleNegation => b matches BExpr::Not(inner) && *inner matches BExpr::Not(x)
            && stuck_form(*x),
        StuckChoice::StuckAndAny => b matches BExpr::Logic(l, op, _) && op == LogicOp::And
            && stuck_form(*l),
        StuckChoice::AnyAndStuck => b matches BExpr::Logic(_, op, r) && op == LogicOp::And
            && stuck_form(*r),
        StuckChoice::StuckLandAny => b matches BExpr::Logic(l, op, _) && op == LogicOp::Land
            && stuck_form(*l),
        StuckChoice::AnyLandStuck => b matches BExpr::Logic(_, op, r) && op == LogicOp::Land
            && stuck_form(*r),
        StuckChoice::StuckOrStuck => b matches BExpr::Logic(l, op, r) && op == LogicOp::Or
            && stuck_form(*l) && stuck_form(*r),
        StuckChoice::StuckLorStuck => b matches BExpr::Logic(l, op, r) && op == LogicOp::Lor
            && stuck_form(*l) && stuck_form(*r),
        StuckChoice::Relation => b is Rel,
    }
}

/// The guard is of a failing kind that has positive weight in `options`.
pub open spec fn stuck_drawn(options: Seq<(u32, StuckChoice)>, b: BExpr) -> bool {
    exists|i: int|
        0 <= i < options.len() && (#[trigger] options[i]).0 > 0 && stuck_of_kind(options[i].1, b)
}

/// The failing guard that kind `k` builds from its parts: `s1` and `s2`
/// failing guards drawn for it (`s1` the comparison for the relation
/// kind) and `x` any guard drawn for it; parts a kind does not use are
/// left out.
pub open spec fn stuck_guard_of(k: StuckChoice, s1: BExpr, s2: BExpr, x: BExpr) -> BExpr {
    match k {
        StuckChoice::False => BExpr::Bool(false),
        StuckChoice::NotTrue => BExpr::Not(Box::new(BExpr::Bool(true))),
        StuckChoice::DoubleNegation => BExpr::Not(Box::new(BExpr::Not(Box::new(s1)))),
        StuckChoice::StuckAndAny => BExpr::Logic(Box::new(s1), LogicOp::And, Box::new(x)),
        StuckChoice::AnyAndStuck => BExpr::Logic(Box::new(x), LogicOp::And, Box::new(s1)),
        StuckChoice::StuckLandAny => BExpr::Logic(Box::new(s1), LogicOp::Land, Box::new(x)),
        StuckChoice::AnyLandStuck => BExpr::Logic(Box::new(x), LogicOp::Land, Box::new(s1)),
        StuckChoice::StuckOrStuck => BExpr::Logic(Box::new(s1), LogicOp::Or, Box::new(s2)),
        StuckChoice::StuckLorStuck => BExpr::Logic(Box::new(s1), LogicOp::Lor, Box::new(s2)),
        StuckChoice::Relation => s1,
    }
}

/// Builds the failing guard of kind `k` from its parts (see
/// [`stuck_guard_of`]).
pub fn build_stuck_guard(k: StuckChoice, s1: BExpr, s2: BExpr, x: BExpr) -> (r: BExpr)
    ensures
        r == stuck_guard_of(k, s1, s2, x),
{
    match k {
        StuckChoice::False => BExpr::Bool(false),
        StuckChoice::NotTrue => BExpr::Not(Box::new(BExpr::Bool(true))),
        StuckChoice::DoubleNegation => BExpr::Not(Box::new(BExpr::Not(Box::new(s1)))),
        StuckChoice::StuckAndAny => BExpr::Logic(Box::new(s1), LogicOp::And, Box::new(x)),
        StuckChoice::AnyAndStuck => BExpr::Logic(Box::new(x), LogicOp::And, Box::new(s1)),
        StuckChoice::StuckLandAny => BExpr::Logic(Box::new(s1), LogicOp::Land, Box::new(x)),
        StuckChoice::AnyLandStuck => BExpr::Logic(Box::new(x), LogicOp::Land, Box::new(s1)),
        StuckChoice::StuckOrStuck => BExpr::Logic(Box::new(s1), LogicOp::Or, Box::new(s2)),
        StuckChoice::StuckLorStuck => BExpr::Logic(Box::new(s1), LogicOp::Lor, Box::new(s2)),
        StuckChoice::Relation => s1,
    }
}

/// The holding guard that kind `k` builds from its parts: `h` a holding
/// guard drawn for it (the comparison for the relation kind), `s` a
/// failing guard and `x` any guard drawn for it; parts a kind does not use
/// are left out.
pub open spec fn nondet_guard_of(k: NondetChoice, h: BExpr, s: BExpr, x: BExpr) -> BExpr {
    match k {
        NondetChoice::True => BExpr::Bool(true),
        NondetChoice::NotFalse => BExpr::Not(Box::new(BExpr::Bool(false))),
        NondetChoice::NotStuck => BExpr::Not(Box::new(s)),
        NondetChoice::NondetOrAny => BExpr::Logic(Box::new(h), LogicOp::Or, Box::new(x)),
        NondetChoice::AnyOrNondet => BExpr::Logic(Box::new(x), LogicOp::Or, Box::new(h)),
        NondetChoice::NondetLorAny => BExpr::Logic(Box::new(h), LogicOp::Lor, Box::new(x)),
        NondetChoice::AnyLorNondet => BExpr::Logic(Box::new(x), LogicOp::Lor, Box::new(h)),
        NondetChoice::NondetOrStuck => BExpr::Logic(Box::new(h), LogicOp::Or, Box::new(s)),
        NondetChoice::NondetLorStuck => BExpr::Logic(Box::new(h), LogicOp::Lor, Box::new(s)),
        NondetChoice::Relation => h,
    }
}

/// Builds the holding guard of kind `k` from its parts (see
/// [`nondet_guard_of`]).
pub fn build_nondet_guard(k: NondetChoice, h: BExpr, s: BExpr, x: BExpr) -> (r: BExpr)
    ensures
        r == nondet_guard_of(k, h, s, x),
{
    match k {
        NondetChoice::True => BExpr::Bool(true),
        NondetChoice::NotFalse => BExpr::Not(Box::new(BExpr::Bool(false))),
        NondetChoice::NotStuck => BExpr::Not(Box::new(s)),
        NondetChoice::NondetOrAny => BExpr::Logic(Box::new(h), LogicOp::Or, Box::new(x)),
        NondetChoice::AnyOrNondet => BExpr::Logic(Box::new(x), LogicOp::Or, Box::new(h)),
        NondetChoice::NondetLorAny => BExpr::Logic(Box::new(h), LogicOp::Lor, Box::new(x)),
        NondetChoice::AnyLorNondet => BExpr::Logic(Box::new(x), LogicOp::Lor, Box::new(h)),
        NondetChoice::NondetOrStuck => BExpr::Logic(Box::new(h), LogicOp::Or, Box::new(s)),
        NondetChoice::NondetLorStuck => BExpr::Logic(Box::new(h), LogicOp::Lor, Box::new(s)),
        NondetChoice::Relation => h,
    }
}

/// A holding guard, of a kind drawn by weight (see [`nondet_guard_of`]):
/// every comparison in a holding position is confirmed by its sides'
/// bounds, so it never evaluates to false over the context's memory, and
/// guards built so overlap. `None` only where a name is missing from
/// memory; without negations left it is `true`, and with at most one, or
/// where memory holds every name of the context, it is always built.
pub fn gen_bexpr_nondet(cx: &mut InterpreterContext, rng: &mut SmallRng) -> (r: Option<BExpr>)
    requires
        old(cx).compiler_context.references_ok(),
    ensures
        r matches Some(b) ==> nondet_form(b),
        r matches Some(b) ==> nondet_confirmed(b, old(cx).memory@),
        r matches Some(b) ==> eval_bexpr(b, old(cx).memory@) != Some(false),
        r matches Some(b) ==> nondet_drawn(
            nondet_options(old(cx).compiler_context.negation_limit != 0),
            b,
        ),
        r matches Some(b) ==> exists|k: NondetChoice, h: BExpr, st: BExpr, x: BExpr|
            #![trigger nondet_guard_of(k, h, st, x)]
            positive_option(nondet_options(old(cx).compiler_context.negation_limit != 0), k)
                && nondet_confirmed(h, old(cx).memory@) && stuck_refuted(st, old(cx).memory@) && b
                == nondet_guard_of(k, h, st, x),
        old(cx).compiler_context.negation_limit == 0 ==> r == Some(BExpr::Bool(true)) && *final(cx)
            == *old(cx),
        old(cx).compiler_context.negation_limit <= 1 ==> r is Some,
        names_in_memory(old(cx).compiler_context.shape(), old(cx).memory@) ==> r is Some,
        final(cx).keeps(*old(cx)),
        final(cx).compiler_context.fuel == old(cx).compiler_context.fuel,
        final(cx).compiler_context.negation_limit <= old(cx).compiler_context.negation_limit,
    decreases old(cx).compiler_context.negation_limit, 1int,
{
    let w = |x: u32| -> (r: u32)
        ensures
            r == (if cx.compiler_context.negation_limit == 0 { 0 } else { x }),
        { if cx.compiler_context.negation_limit == 0 { 0 } else { x } };
    let options = vec![
        (40, NondetChoice::True),
        (w(20), NondetChoice::NotFalse),
        (w(20), NondetChoice::NotStuck),
        (w(10), NondetChoice::NondetOrAny),
        (w(5), NondetChoice::AnyOrNondet),
        (w(5), NondetChoice::NondetLorAny),
        (w(5), NondetChoice::AnyLorNondet),
        (w(5), NondetChoice::NondetOrStuck),
        (w(5), NondetChoice::NondetLorStuck),
        (w(20), NondetChoice::Relation),
    ];
    assert(options@[0].0 > 0);
    let ghost spec_options = nondet_options(cx.compiler_context.negation_limit != 0);
    assert(options@ == spec_options);
    let mut erng = seed_from_u64(random_u64(rng));
    let choice = pick(&mut erng, &options);
    let ghost k = choose|k: int| 0 <= k < options.len() && options@[k].1 == choice && options@[k].0 > 0;
    if let NondetChoice::True = choice {
        assert(nondet_of_kind(spec_options[k].1, BExpr::Bool(true)));
        assert(positive_option(spec_options, choice));
        assert(BExpr::Bool(true) == nondet_guard_of(
            choice,
            BExpr::Bool(true),
            BExpr::Bool(false),
            BExpr::Bool(false),
        ));
        return Some(BExpr::Bool(true));
    }
    cx.compiler_context.negation_limit = cx.compiler_context.negation_limit - 1;
    let parts: Option<(BExpr, BExpr, BExpr)> = match choice {
        NondetChoice::NotFalse => Some((BExpr::Bool(true), BExpr::Bool(false), BExpr::Bool(false))),
        NondetChoice::NotStuck => match gen_bexpr_stuck(cx, &mut erng) {
            Some(st) => Some((BExpr::Bool(true), st, BExpr::Bool(false))),
            None => None,
        },
        NondetChoice::NondetOrAny | NondetChoice::NondetLorAny => {
            let h = match gen_bexpr_nondet(cx, &mut erng) {
                Some(b) => b,
                None => return None,
            };
            let x = gen_bexpr(&mut cx.compiler_context, &mut erng);
            Some((h, BExpr::Bool(false), x))
        },
        NondetChoice::AnyOrNondet | NondetChoice::AnyLorNondet => {
            let x = gen_bexpr(&mut cx.compiler_context, &mut erng);
            let h = match gen_bexpr_nondet(cx, &mut erng) {
                Some(b) => b,
                None => return None,
            };
            Some((h, BExpr::Bool(false), x))
        },
        NondetChoice::NondetOrStuck | NondetChoice::NondetLorStuck => {
            let h = match gen_bexpr_nondet(cx, &mut erng) {
                Some(b) => b,
                None => return None,
            };
            let st = match gen_bexpr_stuck(cx, &mut erng) {
                Some(b) => b,
                None => return None,
            };
            Some((h, st, BExpr::Bool(false)))
        },
        _ => Some((gen_bexpr_nondet_rel(cx, &mut erng), BExpr::Bool(false), BExpr::Bool(false))),
    };
    let r = match parts {
        Some((h, st, x)) => {
            let b = build_nondet_guard(choice, h, st, x);
            assert(positive_option(spec_options, choice));
            Some(b)
        },
        None => None,
    };
    assert(r matches Some(b) ==> nondet_of_kind(spec_options[k].1, b));
    proof {
        if r is Some {
            lemma_nondet_never_fails(r.unwrap(), old(cx).memory@);
        }
    }
    r
}

/// A failing guard, of a kind drawn by weight (see [`stuck_guard_of`]):
/// every comparison in a failing position is refuted by its sides' bounds,
/// so it never evaluates to true over the context's memory. `None` where a
/// comparison in it cannot be built; without negations left it is `false`,
/// and it is always built where memory holds every name of the context.
#[verifier::rlimit(40)]
pub fn gen_bexpr_stuck(cx: &mut InterpreterContext, rng: &mut SmallRng) -> (r: Option<BExpr>)
    requires
        old(cx).compiler_context.references_ok(),
    ensures
        r matches Some(b) ==> stuck_form(b),
        r matches Some(b) ==> stuck_refuted(b, old(cx).memory@),
        r matches Some(b) ==> eval_bexpr(b, old(cx).memory@) != Some(true),
        r matches Some(b) ==> stuck_drawn(
            stuck_options(old(cx).compiler_context.negation_limit != 0),
            b,
        ),
        r matches Some(b) ==> exists|k: StuckChoice, s1: BExpr, s2: BExpr, x: BExpr|
            #![trigger stuck_guard_of(k, s1, s2, x)]
            positive_option(stuck_options(old(cx).compiler_context.negation_limit != 0), k)
                && stuck_refuted(s1, old(cx).memory@) && stuck_refuted(s2, old(cx).memory@) && b
                == stuck_guard_of(k, s1, s2, x),
        old(cx).compiler_context.negation_limit == 0 ==> r == Some(BExpr::Bool(false)) && *final(cx)
            == *old(cx),
        names_in_memory(old(cx).compiler_context.shape(), old(cx).memory@) ==> r is Some,
        final(cx).keeps(*old(cx)),
        final(cx).compiler_context.fuel == old(cx).compiler_context.fuel,
        final(cx).compiler_context.negation_limit <= old(cx).compiler_context.negation_limit,
    decreases old(cx).compiler_context.negation_limit, 0int,
{
    let w = |x: u32| -> (r: u32)
        ensures
            r == (if cx.compiler_context.negation_limit == 0 { 0 } else { x }),
        { if cx.compiler_context.negation_limit == 0 { 0 } else { x } };
    let options = vec![
        (40, StuckChoice::False),
        (w(20), StuckChoice::NotTrue),
        (w(20), StuckChoice::DoubleNegation),
        (w(5), StuckChoice::StuckAndAny),
        (w(5), StuckChoice::AnyAndStuck),
        (w(5), StuckChoice::StuckLandAny),
        (w(5), StuckChoice::AnyLandStuck),
        (w(5), StuckChoice::StuckOrStuck),
        (w(5), StuckChoice::StuckLorStuck),
        (w(20), StuckChoice::Relation),
    ];
    assert(options@[0].0 > 0);
    let ghost spec_options = stuck_options(cx.compiler_context.negation_limit != 0);
    assert(options@ == spec_options);
    let mut erng = seed_from_u64(random_u64(rng));
    let choice = pick(&mut erng, &options);
    let ghost k = choose|k: int| 0 <= k < options.len() && options@[k].1 == choice && options@[k].0 > 0;
    if let StuckChoice::False = choice {
        assert(stuck_of_kind(spec_options[k].1, BExpr::Bool(false)));
        assert(positive_option(spec_options, choice));
        assert(BExpr::Bool(false) == stuck_guard_of(
            choice,
            BExpr::Bool(false),
            BExpr::Bool(false),
            BExpr::Bool(false),
        ));
        return Some(BExpr::Bool(false));
    }
    cx.compiler_context.negation_limit = cx.compiler_context.negation_limit - 1;
    let parts: Option<(BExpr, BExpr, BExpr)> = match choice {
        StuckChoice::NotTrue => Some((BExpr::Bool(false), BExpr::Bool(false), BExpr::Bool(false))),
        StuckChoice::DoubleNegation => match gen_bexpr_stuck(cx, &mut erng) {
            Some(s) => Some((s, BExpr::Bool(false), BExpr::Bool(false))),
            None => None,
        },
        StuckChoice::StuckAndAny | StuckChoice::StuckLandAny => {
            let l = match gen_bexpr_stuck(cx, &mut erng) {
                Some(b) => b,
                None => return None,
            };
            let x = gen_bexpr(&mut cx.compiler_context, &mut erng);
            Some((l, BExpr::Bool(false), x))
        },
        StuckChoice::AnyAndStuck | StuckChoice::AnyLandStuck => {
            let x = gen_bexpr(&mut cx.compiler_context, &mut erng);
            let r = match gen_bexpr_stuck(cx, &mut erng) {
                Some(b) => b,
                None => return None,
            };
            Some((r, BExpr::Bool(false), x))
        },
        StuckChoice::StuckOrStuck | StuckChoice::StuckLorStuck => {
            let l = match gen_bexpr_stuck(cx, &mut erng) {
                Some(b) => b,
                None => return None,
            };
            let r = match gen_bexpr_stuck(cx, &mut erng) {
                Some(b) => b,
                None => return None,
            };
            Some((l, r, BExpr::Bool(false)))
        },
        _ => match gen_bexpr_stuck_rel(cx, &mut erng) {
            Some(c) => Some((c, BExpr::Bool(false), BExpr::Bool(false))),
            None => None,
        },
    };
    let r = match parts {
        Some((s1, s2, x)) => {
            let b = build_stuck_guard(choice, s1, s2, x);
            assert(positive_option(spec_options, choice));
            Some(b)
        },
        None => None,
    };
    assert(r matches Some(b) ==> stuck_of_kind(spec_options[k].1, b));
    proof {
        if r is Some {
            lemma_stuck_never_holds(r.unwrap(), old(cx).memory@);
        }
    }
    r
}

} // verus!

verus! {

/// `e` divides something by the literal 0.
pub open spec fn divides_by_zero(e: AExpr) -> bool {
    e matches AExpr::Binary(_, op, r) && op == AOp::Divide && *r == AExpr::Number(0)
}

/// `b` compares a division by the literal 0 with 0.
pub open spec fn undefined_form(b: BExpr) -> bool {
    b matches BExpr::Rel(l, _, r) && divides_by_zero(l) && r == AExpr::Number(0)
}

/// An expression divided by the literal 0; the recursion limit goes down by
/// one (not below zero).
pub fn gen_aexpr_op_undefined(cx: &mut InterpreterContext, rng: &mut SmallRng) -> (e: AExpr)
    requires
        old(cx).compiler_context.references_ok(),
    ensures
        divides_by_zero(e),
        final(cx).keeps(*old(cx)),
        final(cx).compiler_context.fuel == old(cx).compiler_context.fuel,
        final(cx).compiler_context.negation_limit == old(cx).compiler_context.negation_limit,
        final(cx).compiler_context.recursion_limit <= old(cx).compiler_context.recursion_limit,
{
    let options = vec![(4, AOp::Divide)];
    assert(options@[0].0 > 0);
    let mut erng = seed_from_u64(random_u64(rng));
    let op = pick(&mut erng, &options);
    if cx.compiler_context.recursion_limit > 0 {
        cx.compiler_context.recursion_limit = cx.compiler_context.recursion_limit - 1;
    }
    let l = gen_aexpr(&mut cx.compiler_context, &mut erng);
    AExpr::binary(l, op, AExpr::Number(0))
}

/// A comparison of a division by zero with 0 (see [`undefined_form`]).
pub fn gen_bexpr_undefined(cx: &mut InterpreterContext, rng: &mut SmallRng) -> (b: BExpr)
    requires
        old(cx).compiler_context.references_ok(),
    ensures
        undefined_form(b),
        final(cx).keeps(*old(cx)),
        final(cx).compiler_context.fuel == old(cx).compiler_context.fuel,
        final(cx).compiler_context.negation_limit == old(cx).compiler_context.negation_limit,
        final(cx).compiler_context.recursion_limit <= old(cx).compiler_context.recursion_limit,
{
    let options = vec![
        (20, RelOp::Eq),
        (20, RelOp::Ne),
        (20, RelOp::Gt),
        (20, RelOp::Lt),
        (20, RelOp::Ge),
        (20, RelOp::Le),
    ];
    assert(options@[0].0 > 0);
    let mut erng = seed_from_u64(random_u64(rng));
    let op = pick(&mut erng, &options);
    let l = gen_aexpr_op_undefined(cx, &mut erng);
    BExpr::Rel(l, op, AExpr::Number(0))
}

/// An index expression moved with its bounds `small..=large`, meant to
/// leave the array's range: negated when wholly negative; where its lower
/// bound is negative, less that bound on the right (`minus_bound`) or plus
/// its negation on the left; and lowered by half its upper bound, rounded
/// up, when that bound exceeds 5.
pub open spec fn moved_index_undefined(aexpr: AExpr, small: i32, large: i32, minus_bound: bool) -> AExpr {
    let e1 = if large < 0 {
        AExpr::Minus(Box::new(aexpr))
    } else {
        aexpr
    };
    let e2 = if small < 0 {
        if minus_bound {
            AExpr::Binary(Box::new(e1), AOp::Minus, Box::new(AExpr::Number(small)))
        } else {
            AExpr::Binary(
                Box::new(AExpr::Minus(Box::new(AExpr::Number(small)))),
                AOp::Plus,
                Box::new(e1),
            )
        }
    } else {
        e1
    };
    if large > 5 {
        AExpr::Binary(Box::new(e2), AOp::Minus, Box::new(AExpr::Number((large - large / 2) as i32)))
    } else {
        e2
    }
}

/// Moves an index expression by its bounds and the drawn coin (see
/// [`moved_index_undefined`]); the names it reads stay those of `aexpr`.
pub fn move_index_undefined(aexpr: AExpr, small: i32, large: i32, minus_bound: bool) -> (r: AExpr)
    ensures
        r == moved_index_undefined(aexpr, small, large, minus_bound),
        forall|names: Seq<Seq<char>>, arrays: Seq<Seq<char>>|
            aexpr_names_within(aexpr, names, arrays) ==> #[trigger] aexpr_names_within(
                r,
                names,
                arrays,
            ),
{
    let e1 = if large < 0 {
        AExpr::Minus(Box::new(aexpr))
    } else {
        aexpr
    };
    let e2 = if small < 0 {
        if minus_bound {
            AExpr::Binary(Box::new(e1), AOp::Minus, Box::new(AExpr::Number(small)))
        } else {
            AExpr::Binary(
                Box::new(AExpr::Minus(Box::new(AExpr::Number(small)))),
                AOp::Plus,
                Box::new(e1),
            )
        }
    } else {
        e1
    };
    let r = if large > 5 {
        AExpr::Binary(Box::new(e2), AOp::Minus, Box::new(AExpr::Number(large - large / 2)))
    } else {
        e2
    };
    assert forall|names: Seq<Seq<char>>, arrays: Seq<Seq<char>>|
        aexpr_names_within(aexpr, names, arrays) implies #[trigger] aexpr_names_within(
            r,
            names,
            arrays,
        ) by {
        assert(aexpr_names_within(AExpr::Number(small), names, arrays));
        assert(aexpr_names_within(AExpr::Minus(Box::new(AExpr::Number(small))), names, arrays));
        assert(aexpr_names_within(AExpr::Number((large - large / 2) as i32), names, arrays));
        assert(aexpr_names_within(e1, names, arrays));
        assert(aexpr_names_within(e2, names, arrays));
    }
    r
}

/// Draws the coin that moves an undefined index where its lower bound is
/// negative, and moves it (see [`moved_index_undefined`]).
fn fix_index_undefined(aexpr: AExpr, small: i32, large: i32, rng: &mut SmallRng) -> (r: AExpr)
    ensures
        exists|minus_bound: bool| r == #[trigger] moved_index_undefined(aexpr, small, large, minus_bound),
        forall|names: Seq<Seq<char>>, arrays: Seq<Seq<char>>|
            aexpr_names_within(aexpr, names, arrays) ==> #[trigger] aexpr_names_within(
                r,
                names,
                arrays,
            ),
{
    let minus_bound = if small < 0 {
        random_ratio(rng, 1, 2)
    } else {
        true
    };
    move_index_undefined(aexpr, small, large, minus_bound)
}

fn gen_reference_undefined(cx: &mut InterpreterContext, rng: &mut SmallRng) -> (r: Option<Target>)
    requires
        old(cx).reference_targets_ok(),
    ensures
        r matches Some(t) ==> target_kind_drawn(target_kind_options(old(cx).compiler_context.names.len() != 0, !old(cx).compiler_context.no_arrays), t),
        r matches Some(t) ==> target_names_within(
            t,
            names_view(old(cx).compiler_context.names@),
            names_view(old(cx).compiler_context.array_names@),
        ),
        old(cx).compiler_context.no_arrays ==> r matches Some(Target::Variable(_)),
        old(cx).covered() ==> r is Some,
        r matches Some(Target::Array(_, idx)) ==> exists|
            e: AExpr,
            b: (i32, i32, bool),
            minus_bound: bool,
        |
            #![trigger moved_index_undefined(e, b.0, b.1, minus_bound)]
            bounds(e, old(cx).memory@) == Some(b) && *idx == moved_index_undefined(
                e,
                b.0,
                b.1,
                minus_bound,
            ),
        final(cx).keeps(*old(cx)),
        final(cx).compiler_context.fuel == old(cx).compiler_context.fuel,
        final(cx).compiler_context.negation_limit == old(cx).compiler_context.negation_limit,
        final(cx).compiler_context.recursion_limit <= old(cx).compiler_context.recursion_limit,
{
    let ghost names = names_view(cx.compiler_context.names@);
    let ghost arrays = names_view(cx.compiler_context.array_names@);
    let options = vec![
        (if cx.compiler_context.names.len() == 0 { 0 } else { 14 }, TargetKind::Variable),
        (if cx.compiler_context.no_arrays { 0 } else { 6 }, TargetKind::Array),
    ];
    assert(options@[0].0 > 0 || options@[1].0 > 0);
    let mut erng = seed_from_u64(random_u64(rng));
    let ghost spec_options = target_kind_options(cx.compiler_context.names.len() != 0, !cx.compiler_context.no_arrays);
    assert(options@ == spec_options);
    let choice = pick(&mut erng, &options);
    let ghost k = choose|k: int| 0 <= k < options.len() && options@[k].1 == choice && options@[k].0 > 0;
    let r = match choice {
        TargetKind::Variable => {
            let name = choose_item(&mut erng, &cx.compiler_context.names).unwrap().clone();
            proof {
                let i = choose|i: int|
                    0 <= i < cx.compiler_context.names.len() && cx.compiler_context.names@[i]
                        == name;
                assert(names[i] == name@);
            }
            Some(Target::Variable(Variable(name)))
        },
        TargetKind::Array => {
            let name = match choose_item(&mut erng, &cx.compiler_context.array_names) {
                Some(n) => n.clone(),
                None => String::from_str("A"),
            };
            proof {
                if cx.compiler_context.array_names.len() > 0 {
                    let i = choose|i: int|
                        0 <= i < cx.compiler_context.array_names.len()
                            && cx.compiler_context.array_names@[i] == name;
                    assert(arrays[i] == name@);
                }
            }
            let aexpr = match gen_aexpr_defined(cx, &mut erng) {
                Some(e) => e,
                None => return None,
            };
            proof {
                if old(cx).covered() {
                    lemma_covered_bounds(*cx, aexpr);
                }
            }
            let (small, large, _) = match aexpr_resolve(aexpr.duplicate(), cx) {
                Some(b) => b,
                None => return None,
            };
            let idx = fix_index_undefined(aexpr, small, large, &mut erng);
            assert(aexpr_names_within(aexpr, names, arrays) ==> aexpr_names_within(idx, names, arrays));
            Some(Target::Array(Array(name), Box::new(idx)))
        },
    };
    assert(spec_options[k].0 > 0);
    r
}

/// The kinds of expression that the undefined-expression generator draws
/// from.
#[derive(Clone, Copy, Debug, PartialEq, Eq, Structural)]
pub enum UndefinedChoice {
    Negative,
    Reference,
    Binary,
    Minus,
}

/// The weighted kinds of undefined expression: a negative number 8, a
/// reference 16 where there are names, and a binary operation 18 and a
/// negation 8 where recursion and fuel are left.
pub open spec fn undefined_options(referable: bool, nested: bool) -> Seq<(u32, UndefinedChoice)> {
    seq![
        (8u32, UndefinedChoice::Negative),
        (if referable { 16u32 } else { 0u32 }, UndefinedChoice::Reference),
        (if nested { 18u32 } else { 0u32 }, UndefinedChoice::Binary),
        (if nested { 8u32 } else { 0u32 }, UndefinedChoice::Minus),
    ]
}

/// The expression is of a kind that has positive weight in `options`; a
/// drawn number lies in `-100..=-1`.
pub open spec fn undefined_drawn(options: Seq<(u32, UndefinedChoice)>, e: AExpr) -> bool {
    exists|i: int|
        0 <= i < options.len() && (#[trigger] options[i]).0 > 0 && match options[i].1 {
            UndefinedChoice::Negative => e matches AExpr::Number(n) && -100 <= n <= -1,
            UndefinedChoice::Reference => e is Reference,
            UndefinedChoice::Binary => e is Binary,
            UndefinedChoice::Minus => e is Minus,
        }
}

/// An expression meant to reach undefined behaviour: negative numbers in
/// `-100..=-1`, references with indices moved by their bounds, binary
/// operations and negations, reading only the context's variables and
/// arrays (see [`aexpr_names_within`]). `None` only where an array name
/// is missing from memory: over a covered memory (see
/// [`InterpreterContext::covered`]) an expression is always built.
pub fn gen_aexpr_undefined(cx: &mut InterpreterContext, rng: &mut SmallRng) -> (r: Option<AExpr>)
    requires
        old(cx).compiler_context.references_ok(),
    ensures
        old(cx).covered() ==> r is Some,
        r matches Some(e) ==> undefined_drawn(undefined_options(!(old(cx).compiler_context.names.len() == 0 && old(cx).compiler_context.array_names.len() == 0), old(cx).compiler_context.recursion_limit != 0 && old(cx).compiler_context.fuel != 0), e),
        r matches Some(e) ==> aexpr_names_within(
            e,
            names_view(old(cx).compiler_context.names@),
            names_view(old(cx).compiler_context.array_names@),
        ),
        old(cx).compiler_context.no_arrays ==> r is Some,
        final(cx).keeps(*old(cx)),
        final(cx).compiler_context.fuel == old(cx).compiler_context.fuel,
        final(cx).compiler_context.negation_limit == old(cx).compiler_context.negation_limit,
        final(cx).compiler_context.recursion_limit <= old(cx).compiler_context.recursion_limit,
    decreases old(cx).compiler_context.recursion_limit,
{
    let ccx = &cx.compiler_context;
    let nested = ccx.recursion_limit != 0 && ccx.fuel != 0;
    let options = vec![
        (8, UndefinedChoice::Negative),
        (
            if ccx.names.len() == 0 && ccx.array_names.len() == 0 {
                0
            } else {
                16
            },
            UndefinedChoice::Reference,
        ),
        (if nested { 18 } else { 0 }, UndefinedChoice::Binary),
        (if nested { 8 } else { 0 }, UndefinedChoice::Minus),
    ];
    assert(options@[0].0 > 0);
    let mut erng = seed_from_u64(random_u64(rng));
    let ghost spec_options = undefined_options(!(cx.compiler_context.names.len() == 0 && cx.compiler_context.array_names.len() == 0), nested);
    assert(options@ == spec_options);
    let choice = pick(&mut erng, &options);
    let ghost k = choose|k: int| 0 <= k < options.len() && options@[k].1 == choice && options@[k].0 > 0;
    let r = match choice {
        UndefinedChoice::Negative => Some(AExpr::Number(random_range_i32(&mut erng, -100, -1))),
        UndefinedChoice::Reference => match gen_reference_undefined(cx, &mut erng) {
            Some(t) => Some(AExpr::Reference(t)),
            None => None,
        },
        UndefinedChoice::Binary => {
            cx.compiler_context.recursion_limit = cx.compiler_context.recursion_limit - 1;
            let l = match gen_aexpr_undefined(cx, &mut erng) {
                Some(e) => e,
                None => return None,
            };
            let op = gen_aop(&mut cx.compiler_context, &mut erng);
            let r = match gen_aexpr_undefined(cx, &mut erng) {
                Some(e) => e,
                None => return None,
            };
            Some(AExpr::binary(l, op, r))
        },
        UndefinedChoice::Minus => {
            cx.compiler_context.recursion_limit = cx.compiler_context.recursion_limit - 1;
            match gen_aexpr_undefined(cx, &mut erng) {
                Some(e) => Some(AExpr::Minus(Box::new(e))),
                None => None,
            }
        },
    };
    assert(spec_options[k].0 > 0);
    r
}

} // verus!

verus! {

/// The level that a production belongs to.
pub open spec fn production_level(p: Production) -> int {
    match p {
        Production::Assignment => 1,
        Production::SequenceOfTwo | Production::SequenceOfThree => 2,
        Production::ConditionalSingle | Production::ConditionalMultiple => 3,
        Production::StuckIf | Production::StuckIfLoopsAllowed => 4,
        Production::LoopHolding | Production::LoopCompilerGuard => 5,
        Production::NondetIf | Production::NondetLoop => 6,
        Production::UndefinedIf | Production::UndefinedLoop | Production::UndefinedArrayAssignment => 7,
    }
}

impl GenOptionsNested {
    /// Every production listed belongs to a level of at most `k`.
    pub open spec fn levels_at_most(self, k: int) -> bool {
        forall|i: int| 0 <= i < self.0.len() ==> production_level(#[trigger] self.0@[i].1) <= k
    }
}

/// Level 1, assignment: a single assignment.
pub fn lvl_assignment() -> (g: GenOptionsNested)
    ensures
        g.0@ == seq![(20u32, Production::Assignment)],
{
    GenOptionsNested(vec![(20, Production::Assignment)])
}

/// Level 2, sequencing: two parts in sequence, or three where the fuel is
/// at least 3.
pub fn lvl_sequencing(cx: &InterpreterContext) -> (g: GenOptionsNested)
    ensures
        g.0@ == seq![
            (40u32, Production::SequenceOfTwo),
            (if cx.compiler_context.fuel >= 3 { 2u32 } else { 0u32 }, Production::SequenceOfThree),
        ],
{
    GenOptionsNested(
        vec![
            (40, Production::SequenceOfTwo),
            (if cx.compiler_context.fuel >= 3 { 2 } else { 0 }, Production::SequenceOfThree),
        ],
    )
}

/// Level 3, conditionals: `if` with one holding guard, or with several
/// where multiple guards are allowed (then each half of the weight).
pub fn lvl_conditionals(cx: &InterpreterContext) -> (g: GenOptionsNested)
    ensures
        g.0@ == seq![
            (if cx.multiple_guards { 10u32 } else { 20u32 }, Production::ConditionalSingle),
            (if cx.multiple_guards { 10u32 } else { 0u32 }, Production::ConditionalMultiple),
        ],
{
    GenOptionsNested(
        vec![
            (if cx.multiple_guards { 10 } else { 20 }, Production::ConditionalSingle),
            (if cx.multiple_guards { 10 } else { 0 }, Production::ConditionalMultiple),
        ],
    )
}

/// Level 4, stuck: `if` with a failing guard; the second option is only
/// drawn where loops are allowed.
pub fn lvl_stuck(cx: &InterpreterContext) -> (g: GenOptionsNested)
    ensures
        g.0@ == seq![
            (10u32, Production::StuckIf),
            (if cx.allow_loops { 10u32 } else { 0u32 }, Production::StuckIfLoopsAllowed),
        ],
{
    GenOptionsNested(
        vec![
            (10, Production::StuckIf),
            (if cx.allow_loops { 10 } else { 0 }, Production::StuckIfLoopsAllowed),
        ],
    )
}

/// Level 5, loops: `do` with a holding guard or with a compiler guard.
pub fn lvl_loops() -> (g: GenOptionsNested)
    ensures
        g.0@ == seq![(5u32, Production::LoopHolding), (5u32, Production::LoopCompilerGuard)],
{
    GenOptionsNested(vec![(5, Production::LoopHolding), (5, Production::LoopCompilerGuard)])
}

/// Level 6, nondeterminism: `if` or `do` with several holding guards.
pub fn lvl_nondeterminism() -> (g: GenOptionsNested)
    ensures
        g.0@ == seq![(16u32, Production::NondetIf), (4u32, Production::NondetLoop)],
{
    GenOptionsNested(vec![(16, Production::NondetIf), (4, Production::NondetLoop)])
}

/// Level 7, undefined semantics: `if` or `do` dividing by zero, or an
/// assignment to a negative array index.
pub fn lvl_undefined() -> (g: GenOptionsNested)
    ensures
        g.0@ == seq![
            (8u32, Production::UndefinedIf),
            (4u32, Production::UndefinedLoop),
            (8u32, Production::UndefinedArrayAssignment),
        ],
{
    GenOptionsNested(
        vec![
            (8, Production::UndefinedIf),
            (4, Production::UndefinedLoop),
            (8, Production::UndefinedArrayAssignment),
        ],
    )
}

} // verus!

verus! {

impl InterpreterContext {
    /// The names, flags, memory, level and switches are those of `other`;
    /// the counters and the pending guarantee may differ.
    pub open spec fn steady(self, other: Self) -> bool {
        &&& self.compiler_context.same_config(other.compiler_context)
        &&& self.memory == other.memory
        &&& self.level == other.level
        &&& self.allow_loops == other.allow_loops
        &&& self.multiple_guards == other.multiple_guards
    }

    /// A pending guaranteed production list, if any, belongs to levels of at
    /// most `k`.
    pub open spec fn pending_at_most(self, k: int) -> bool {
        self.guarantee_gen matches Some(g) ==> g.levels_at_most(k)
    }

    /// The pending guaranteed productions with their weights, if any.
    pub open spec fn guaranteed(self) -> Seq<(u32, Production)> {
        match self.guarantee_gen {
            Some(g) => g.0@,
            None => seq![],
        }
    }

    /// A guaranteed production is pending.
    pub open spec fn pending(self) -> bool {
        self.guarantee && self.guarantee_gen is Some
    }

    /// A pending guaranteed list has a production of positive weight.
    pub open spec fn pending_live(self) -> bool {
        self.pending() ==> exists|i: int|
            0 <= i < self.guaranteed().len() && (#[trigger] self.guaranteed()[i]).0 > 0
    }
}

impl GenOptionsNested {
    /// Some production has a positive weight.
    pub open spec fn live(self) -> bool {
        exists|i: int| 0 <= i < self.0.len() && (#[trigger] self.0@[i]).0 > 0
    }
}

/// The guards' bodies hold no loop.
pub open spec fn guards_loop_free(gs: Seq<Guard>) -> bool {
    forall|i: int| 0 <= i < gs.len() ==> guard_loop_free(#[trigger] gs[i])
}

fn saturating_sub_u32(a: u32, b: u32) -> (r: u32)
    ensures
        r == (if a < b { 0 } else { a - b }),
{
    if a < b {
        0
    } else {
        a - b
    }
}

/// How many guards a multi-guard draws at most: half the fuel, at least 2.
pub open spec fn guard_limit(fuel: u32) -> int {
    if fuel < 2 {
        2
    } else if fuel / 2 < 2 {
        2
    } else {
        (fuel / 2) as int
    }
}

fn guard_cap(fuel: u32) -> (c: u32)
    ensures
        c == guard_limit(fuel),
{
    let f = if fuel < 2 { 2 } else { fuel };
    if f / 2 < 2 {
        2
    } else {
        f / 2
    }
}

/// Two or more guards meant to hold (see [`nondet_form`]), at most half the
/// fuel, whose bodies are generated from `gnopt`. Always built with at most
/// one negation and one fuel left and nothing pending, and over a covered
/// memory with `gnopt` and a pending guarantee of positive weight.
pub fn gen_multiple_guards(
    cx: &mut InterpreterContext,
    rng: &mut SmallRng,
    gnopt: &GenOptionsNested,
) -> (r: Option<Vec<Guard>>)
    requires
        gnopt.wf(),
        old(cx).wf(),
        old(cx).compiler_context.has_targets(),
    ensures
        r matches Some(gs) ==> 2 <= gs.len() <= guard_limit(old(cx).compiler_context.fuel),
        r matches Some(gs) ==> forall|i: int| 0 <= i < gs.len() ==> nondet_form(#[trigger] gs@[i].0),
        r matches Some(gs) ==> forall|i: int|
            0 <= i < gs.len() ==> nondet_confirmed(#[trigger] gs@[i].0, old(cx).memory@),
        r matches Some(gs) ==> forall|i: int| 0 <= i < gs.len() ==> (#[trigger] gs@[i]).1.0.len() >= 1,
        final(cx).wf(),
        final(cx).steady(*old(cx)),
        final(cx).budget() <= old(cx).budget(),
        final(cx).guarantee_gen is None || final(cx).guarantee_gen == old(cx).guarantee_gen,
        final(cx).guarantee ==> old(cx).guarantee,
        gnopt.levels_at_most(4) && old(cx).pending_at_most(4) ==> (r matches Some(gs)
            ==> guards_loop_free(gs@)),
        old(cx).compiler_context.negation_limit <= 1 && old(cx).compiler_context.fuel <= 1
            && !old(cx).pending() ==> r is Some,
        gnopt.live() && old(cx).covered() && old(cx).pending_live() ==> r is Some,
    decreases old(cx).budget(), 1int,
{
    let cap = guard_cap(cx.compiler_context.fuel);
    let n = random_range_u32(rng, 2, cap);
    let ghost start = *cx;
    let mut guards: Vec<Guard> = Vec::new();
    let mut i: u32 = 0;
    while i < n
        invariant
            start == *old(cx),
            i <= n,
            guards.len() == i,
            gnopt.wf(),
            cx.wf(),
            cx.compiler_context.has_targets(),
            cx.steady(start),
            cx.budget() <= start.budget(),
            cx.guarantee_gen is None || cx.guarantee_gen == start.guarantee_gen,
            cx.guarantee ==> start.guarantee,
            forall|j: int| 0 <= j < guards.len() ==> nondet_form(#[trigger] guards@[j].0),
            forall|j: int|
                0 <= j < guards.len() ==> nondet_confirmed(#[trigger] guards@[j].0, start.memory@),
            forall|j: int| 0 <= j < guards.len() ==> (#[trigger] guards@[j]).1.0.len() >= 1,
            gnopt.levels_at_most(4) && start.pending_at_most(4) ==> guards_loop_free(guards@),
            start.compiler_context.negation_limit <= 1 && start.compiler_context.fuel <= 1
                && !start.pending() ==> cx.compiler_context.negation_limit <= 1
                && cx.compiler_context.fuel <= 1 && !cx.pending(),
            start.covered() ==> cx.covered(),
            start.pending_live() ==> cx.pending_live(),
        decreases n - i,
    {
        let b = match gen_bexpr_nondet(cx, rng) {
            Some(b) => b,
            None => return None,
        };
        let body = match gnopt.generate(cx, rng) {
            Some(c) => c,
            None => return None,
        };
        guards.push(Guard(b, body));
        i = i + 1;
    }
    Some(guards)
}

/// One or more guards that divide by zero (see [`undefined_form`]), fewer
/// than half the fuel (at least 2), whose bodies are generated from
/// `gnopt`. Always built with at most one fuel left and nothing pending,
/// and over a covered memory with `gnopt` and a pending guarantee of
/// positive weight.
pub fn gen_undefined_guards(
    cx: &mut InterpreterContext,
    rng: &mut SmallRng,
    gnopt: &GenOptionsNested,
) -> (r: Option<Vec<Guard>>)
    requires
        gnopt.wf(),
        old(cx).wf(),
        old(cx).compiler_context.has_targets(),
    ensures
        r matches Some(gs) ==> 1 <= gs.len() < guard_limit(old(cx).compiler_context.fuel),
        r matches Some(gs) ==> forall|i: int|
            0 <= i < gs.len() ==> undefined_form(#[trigger] gs@[i].0),
        r matches Some(gs) ==> forall|i: int| 0 <= i < gs.len() ==> (#[trigger] gs@[i]).1.0.len() >= 1,
        final(cx).wf(),
        final(cx).steady(*old(cx)),
        final(cx).budget() <= old(cx).budget(),
        final(cx).guarantee_gen is None || final(cx).guarantee_gen == old(cx).guarantee_gen,
        final(cx).guarantee ==> old(cx).guarantee,
        gnopt.levels_at_most(4) && old(cx).pending_at_most(4) ==> (r matches Some(gs)
            ==> guards_loop_free(gs@)),
        old(cx).compiler_context.fuel <= 1 && !old(cx).pending() ==> r is Some,
        gnopt.live() && old(cx).covered() && old(cx).pending_live() ==> r is Some,
    decreases old(cx).budget(), 1int,
{
    let cap = guard_cap(cx.compiler_context.fuel);
    let n = random_below_u32(rng, 1, cap);
    let ghost start = *cx;
    let mut guards: Vec<Guard> = Vec::new();
    let mut i: u32 = 0;
    while i < n
        invariant
            start == *old(cx),
            i <= n,
            guards.len() == i,
            gnopt.wf(),
            cx.wf(),
            cx.compiler_context.has_targets(),
            cx.steady(start),
            cx.budget() <= start.budget(),
            cx.guarantee_gen is None || cx.guarantee_gen == start.guarantee_gen,
            cx.guarantee ==> start.guarantee,
            forall|j: int| 0 <= j < guards.len() ==> undefined_form(#[trigger] guards@[j].0),
            forall|j: int| 0 <= j < guards.len() ==> (#[trigger] guards@[j]).1.0.len() >= 1,
            gnopt.levels_at_most(4) && start.pending_at_most(4) ==> guards_loop_free(guards@),
            start.compiler_context.fuel <= 1 && !start.pending() ==> cx.compiler_context.fuel <= 1
                && !cx.pending(),
            start.covered() ==> cx.covered(),
            start.pending_live() ==> cx.pending_live(),
        decreases n - i,
    {
        let b = gen_bexpr_undefined(cx, rng);
        let body = match gnopt.generate(cx, rng) {
            Some(c) => c,
            None => return None,
        };
        guards.push(Guard(b, body));
        i = i + 1;
    }
    Some(guards)
}

} // verus!

verus! {

/// `c` is an `if` whose guards number between `lo` and `hi`.
pub open spec fn is_if(c: Command, lo: int, hi: int) -> bool {
    c matches Command::If(gs) && lo <= gs.len() <= hi
}

/// `c` is a `do` whose guards number between `lo` and `hi`.
pub open spec fn is_loop(c: Command, lo: int, hi: int) -> bool {
    c matches Command::Loop(gs) && lo <= gs.len() <= hi
}

/// The guards of an `if` or `do`.
pub open spec fn guards_of(c: Command) -> Seq<Guard> {
    match c {
        Command::If(gs) => gs@,
        Command::Loop(gs) => gs@,
        _ => seq![],
    }
}

/// Every guard of `c` holds over `mem` wherever it can be evaluated (see
/// [`nondet_confirmed`]).
pub open spec fn all_nondet(c: Command, mem: MemoryView) -> bool {
    forall|i: int|
        0 <= i < guards_of(c).len() ==> nondet_confirmed(#[trigger] guards_of(c)[i].0, mem)
}

/// Every guard of `c` divides by zero.
pub open spec fn all_undefined(c: Command) -> bool {
    forall|i: int| 0 <= i < guards_of(c).len() ==> undefined_form(#[trigger] guards_of(c)[i].0)
}

/// `c` assigns to an array cell at a literal index in `-100..=-1`.
pub open spec fn negative_cell_assignment(c: Command) -> bool {
    c matches Command::Assignment(Target::Array(_, idx), _) && *idx matches AExpr::Number(k) && -100
        <= k <= -1
}

/// What production `p` builds over memory `mem`: one assignment; two or
/// three parts (each of one command or more); an `if` or `do` with one
/// guard that never evaluates to false over `mem` (or, for the compiler
/// guard, any); an `if` with one guard that never evaluates to true over
/// `mem` (see [`stuck_refuted`]); an `if` or `do` with two or more guards
/// that never evaluate to false; an `if` or `do` whose guards divide by
/// zero; or an assignment to an array cell with a negative index in
/// `-100..=-1`.
pub open spec fn production_made(p: Production, s: Seq<Command>, mem: MemoryView) -> bool {
    match p {
        Production::Assignment => s.len() == 1 && s[0] is Assignment,
        Production::SequenceOfTwo => s.len() >= 2,
        Production::SequenceOfThree => s.len() >= 3,
        Production::ConditionalSingle => s.len() == 1 && is_if(s[0], 1, 1) && all_nondet(s[0], mem),
        Production::LoopHolding => s.len() == 1 && is_loop(s[0], 1, 1) && all_nondet(s[0], mem),
        Production::LoopCompilerGuard => s.len() == 1 && is_loop(s[0], 1, 1),
        Production::StuckIf | Production::StuckIfLoopsAllowed => s.len() == 1 && is_if(s[0], 1, 1)
            && stuck_refuted(guards_of(s[0])[0].0, mem),
        Production::ConditionalMultiple | Production::NondetIf => s.len() == 1 && is_if(
            s[0],
            2,
            usize::MAX as int,
        ) && all_nondet(s[0], mem),
        Production::NondetLoop => s.len() == 1 && is_loop(s[0], 2, usize::MAX as int) && all_nondet(
            s[0], mem
        ),
        Production::UndefinedIf => s.len() == 1 && is_if(s[0], 1, usize::MAX as int) && all_undefined(
            s[0],
        ),
        Production::UndefinedLoop => s.len() == 1 && is_loop(s[0], 1, usize::MAX as int)
            && all_undefined(s[0]),
        Production::UndefinedArrayAssignment => s.len() == 1 && negative_cell_assignment(s[0]),
    }
}

/// The part that a level guarantees over memory `mem`, as one command: an
/// assignment (1); an `if` with one guard that never evaluates to false
/// (3) or never to true (4) over `mem`; a `do` with one guard (5); an `if`
/// or `do` with two or more guards that never evaluate to false (6); an
/// `if` or `do` whose guards divide by zero, or an assignment to a negative
/// array index (7).
pub open spec fn level_part(k: int, c: Command, mem: MemoryView) -> bool {
    if k == 1 {
        c is Assignment
    } else if k == 3 {
        is_if(c, 1, 1) && all_nondet(c, mem)
    } else if k == 4 {
        is_if(c, 1, 1) && stuck_refuted(guards_of(c)[0].0, mem)
    } else if k == 5 {
        is_loop(c, 1, 1)
    } else if k == 6 {
        (is_if(c, 2, usize::MAX as int) || is_loop(c, 2, usize::MAX as int)) && all_nondet(c, mem)
    } else if k == 7 {
        ((is_if(c, 1, usize::MAX as int) || is_loop(c, 1, usize::MAX as int)) && all_undefined(c))
            || negative_cell_assignment(c)
    } else {
        true
    }
}

/// The commands hold the part of level `k`: two commands or more for level
/// 2 (a sequence), a command that is [`level_part`] for the others.
pub open spec fn has_level_part(k: int, s: Seq<Command>, mem: MemoryView) -> bool {
    if k == 2 {
        s.len() >= 2
    } else {
        exists|j: int| 0 <= j < s.len() && level_part(k, #[trigger] s[j], mem)
    }
}

/// The productions that level `k` guarantees.
pub open spec fn level_production(k: int, p: Production) -> bool {
    &&& production_level(p) == k
    &&& (k == 3 ==> p == Production::ConditionalSingle)
}

/// Every production of positive weight in `g` is one that level `k`
/// guarantees, and there is one.
pub open spec fn guarantees_level(k: int, g: Seq<(u32, Production)>) -> bool {
    &&& forall|i: int| 0 <= i < g.len() && (#[trigger] g[i]).0 > 0 ==> level_production(k, g[i].1)
    &&& exists|i: int| 0 <= i < g.len() && (#[trigger] g[i]).0 > 0
}

/// What a guaranteed production of level `k` builds holds that level's part.
pub proof fn lemma_production_part(k: int, p: Production, s: Seq<Command>, mem: MemoryView)
    requires
        level_production(k, p),
        production_made(p, s, mem),
    ensures
        has_level_part(k, s, mem),
{
    if k != 2 {
        assert(level_part(k, s[0], mem));
    }
}

/// A level's part stays where commands are added around it or reordered.
pub proof fn lemma_part_kept(k: int, s: Seq<Command>, t: Seq<Command>, mem: MemoryView)
    requires
        has_level_part(k, s, mem),
        s.len() <= t.len(),
        forall|j: int| 0 <= j < s.len() ==> t.contains(#[trigger] s[j]),
    ensures
        has_level_part(k, t, mem),
{
    if k != 2 {
        let j = choose|j: int| 0 <= j < s.len() && level_part(k, #[trigger] s[j], mem);
        assert(t.contains(s[j]));
        let m = choose|m: int| 0 <= m < t.len() && t[m] == s[j];
        assert(level_part(k, t[m], mem));
    }
}

/// `parts` generated parts in sequence, after lowering the recursion limit
/// by `parts`.
fn run_sequence(
    parts: u32,
    cx: &mut InterpreterContext,
    rng: &mut SmallRng,
    gnopt: &GenOptionsNested,
) -> (r: Option<Commands>)
    requires
        2 <= parts <= 3,
        gnopt.wf(),
        old(cx).wf(),
        old(cx).compiler_context.has_targets(),
    ensures
        final(cx).wf(),
        final(cx).steady(*old(cx)),
        final(cx).budget() <= old(cx).budget(),
        final(cx).guarantee_gen is None || final(cx).guarantee_gen == old(cx).guarantee_gen,
        final(cx).guarantee ==> old(cx).guarantee,
        gnopt.levels_at_most(2) && old(cx).pending_at_most(2) ==> (r matches Some(c)
            ==> straight_line(c)),
        gnopt.levels_at_most(4) && old(cx).pending_at_most(4) ==> (r matches Some(c)
            ==> commands_loop_free(c)),
        r matches Some(c) ==> c.0.len() >= parts,
        gnopt.live() && old(cx).covered() && old(cx).pending_live() ==> r is Some,
    decreases old(cx).budget(), 1int,
{
    cx.compiler_context.recursion_limit = saturating_sub_u32(
        cx.compiler_context.recursion_limit,
        parts,
    );
    let ghost start = *cx;
    assert(cx.guaranteed() == old(cx).guaranteed());
    assert(cx.compiler_context.shape() == old(cx).compiler_context.shape());
    let mut seq: Vec<Command> = Vec::new();
    let mut i: u32 = 0;
    while i < parts
        invariant
            i <= parts,
            gnopt.wf(),
            cx.wf(),
            cx.compiler_context.has_targets(),
            cx.steady(start),
            cx.budget() <= start.budget(),
            cx.guarantee_gen is None || cx.guarantee_gen == start.guarantee_gen,
            cx.guarantee ==> start.guarantee,
            start.steady(*old(cx)),
            start.budget() == old(cx).budget(),
            start.guarantee_gen == old(cx).guarantee_gen,
            start.guarantee == old(cx).guarantee,
            seq@.len() >= i,
            old(cx).covered() ==> cx.covered(),
            old(cx).pending_live() ==> cx.pending_live(),
            gnopt.levels_at_most(2) && start.pending_at_most(2) ==> forall|j: int|
                0 <= j < seq@.len() ==> (#[trigger] seq@[j] is Assignment || seq@[j] is Skip),
            gnopt.levels_at_most(4) && start.pending_at_most(4) ==> forall|j: int|
                0 <= j < seq@.len() ==> command_loop_free(#[trigger] seq@[j]),
        decreases parts - i,
    {
        let ghost cx_before = *cx;
        let generated = match gnopt.generate(cx, rng) {
            Some(c) => c,
            None => return None,
        };
        let ghost added = generated.0@;
        proof {
            if gnopt.levels_at_most(4) && start.pending_at_most(4) {
                assert(cx_before.pending_at_most(4));
                assert(commands_loop_free(generated));
            }
            if gnopt.levels_at_most(2) && start.pending_at_most(2) {
                assert(cx_before.pending_at_most(2));
                assert(straight_line(generated));
            }
        }
        let mut part = generated.0;
        let ghost before = seq@;
        seq.append(&mut part);
        proof {
            assert(seq@ =~= before + added);
            if gnopt.levels_at_most(4) && start.pending_at_most(4) {
                assert forall|j: int| 0 <= j < seq@.len() implies command_loop_free(
                    #[trigger] seq@[j],
                ) by {
                    if j < before.len() {
                        assert(command_loop_free(before[j]));
                    } else {
                        assert(command_loop_free(generated.0@[j - before.len()]));
                    }
                }
            }
        }
        i = i + 1;
    }
    Some(Commands(seq))
}

/// Builds commands by production `p`, drawing nested parts from `gnopt`.
fn run_production(
    p: Production,
    cx: &mut InterpreterContext,
    rng: &mut SmallRng,
    gnopt: &GenOptionsNested,
) -> (r: Option<Commands>)
    requires
        gnopt.wf(),
        old(cx).wf(),
        old(cx).compiler_context.has_targets(),
    ensures
        final(cx).wf(),
        final(cx).steady(*old(cx)),
        final(cx).budget() <= old(cx).budget(),
        final(cx).guarantee_gen is None || final(cx).guarantee_gen == old(cx).guarantee_gen,
        final(cx).guarantee ==> old(cx).guarantee,
        production_level(p) <= 2 && gnopt.levels_at_most(2) && old(cx).pending_at_most(2) ==> (r matches Some(
            c,
        ) ==> straight_line(c)),
        production_level(p) <= 4 && gnopt.levels_at_most(4) && old(cx).pending_at_most(4) ==> (r matches Some(
            c,
        ) ==> commands_loop_free(c)),
        r matches Some(c) ==> production_made(p, c.0@, old(cx).memory@),
        p is LoopCompilerGuard || p is UndefinedArrayAssignment ==> r is Some,
        p is Assignment && old(cx).compiler_context.no_arrays ==> r is Some,
        gnopt.live() && old(cx).covered() && old(cx).pending_live() ==> r is Some,
    decreases old(cx).budget(), 2int,
{
    match p {
        Production::Assignment => match gen_assignment(cx, rng) {
            Some(c) => Some(Commands(vec![c])),
            None => None,
        },
        Production::SequenceOfTwo | Production::SequenceOfThree => {
            let parts: u32 = if let Production::SequenceOfTwo = p {
                2
            } else {
                3
            };
            run_sequence(parts, cx, rng, gnopt)
        },
        Production::ConditionalSingle | Production::LoopHolding => {
            let b = match gen_bexpr_nondet(cx, rng) {
                Some(b) => b,
                None => return None,
            };
            proof {
                assert(cx.compiler_context.shape() == old(cx).compiler_context.shape());
                assert(cx.guaranteed() == old(cx).guaranteed());
            }
            let body = match gnopt.generate(cx, rng) {
                Some(c) => c,
                None => return None,
            };
            if let Production::ConditionalSingle = p {
                Some(Commands(vec![Command::If(vec![Guard(b, body)])]))
            } else {
                Some(Commands(vec![Command::Loop(vec![Guard(b, body)])]))
            }
        },
        Production::ConditionalMultiple | Production::NondetIf | Production::NondetLoop => {
            let guards = match gen_multiple_guards(cx, rng, gnopt) {
                Some(g) => g,
                None => return None,
            };
            if let Production::NondetLoop = p {
                Some(Commands(vec![Command::Loop(guards)]))
            } else {
                Some(Commands(vec![Command::If(guards)]))
            }
        },
        Production::StuckIf | Production::StuckIfLoopsAllowed => {
            let b = match gen_bexpr_stuck(cx, rng) {
                Some(b) => b,
                None => return None,
            };
            proof {
                assert(cx.compiler_context.shape() == old(cx).compiler_context.shape());
                assert(cx.guaranteed() == old(cx).guaranteed());
            }
            let body = match gnopt.generate(cx, rng) {
                Some(c) => c,
                None => return None,
            };
            Some(Commands(vec![Command::If(vec![Guard(b, body)])]))
        },
        Production::LoopCompilerGuard => {
            let g = gen_guard(&mut cx.compiler_context, rng);
            Some(Commands(vec![Command::Loop(vec![g])]))
        },
        Production::UndefinedIf | Production::UndefinedLoop => {
            let guards = match gen_undefined_guards(cx, rng, gnopt) {
                Some(g) => g,
                None => return None,
            };
            if let Production::UndefinedLoop = p {
                Some(Commands(vec![Command::Loop(guards)]))
            } else {
                Some(Commands(vec![Command::If(guards)]))
            }
        },
        Production::UndefinedArrayAssignment => {
            let name = match choose_item(rng, &cx.compiler_context.array_names) {
                Some(n) => n.clone(),
                None => String::from_str("A"),
            };
            let index = random_range_i32(rng, -100, -1);
            let target = Target::Array(Array(name), Box::new(AExpr::Number(index)));
            let e = gen_aexpr(&mut cx.compiler_context, rng);
            Some(Commands(vec![Command::Assignment(target, e)]))
        },
    }
}

impl GenOptionsNested {
    /// One generation step: spends one fuel (not below zero); then uses the
    /// pending guaranteed productions if there are any (and clears them),
    /// else gives `skip` when the fuel is out or below a draw from `0..5`,
    /// else builds commands by a production drawn from these options.
    /// `None` only where a list drawn from has no positive weight, or a
    /// name is missing from memory: over a covered memory, with options and
    /// a pending guarantee of positive weight, commands are always built. A
    /// target is needed only where commands are built: with fuel of at most
    /// 1 and nothing pending the step gives `skip`.
    pub fn generate(&self, cx: &mut InterpreterContext, rng: &mut SmallRng) -> (r: Option<Commands>)
        requires
            self.wf(),
            old(cx).wf(),
            old(cx).compiler_context.has_targets() || (old(cx).compiler_context.fuel <= 1
                && !old(cx).pending()),
        ensures
            final(cx).wf(),
            final(cx).steady(*old(cx)),
            final(cx).budget() <= old(cx).budget(),
            final(cx).guarantee_gen is None || final(cx).guarantee_gen == old(cx).guarantee_gen,
        final(cx).guarantee ==> old(cx).guarantee,
            old(cx).pending() ==> !final(cx).guarantee && final(cx).guarantee_gen is None,
            old(cx).compiler_context.fuel <= 1 && !old(cx).pending() ==> (r matches Some(c) && c.0@
                =~= seq![Command::Skip]),
            old(cx).compiler_context.fuel <= 1 && !old(cx).pending() ==> final(cx).compiler_context.fuel
                == 0 && final(cx).compiler_context.negation_limit
                == old(cx).compiler_context.negation_limit && final(cx).guarantee == old(cx).guarantee
                && final(cx).guarantee_gen == old(cx).guarantee_gen,
            r matches Some(c) ==> c.0.len() >= 1,
            self.0.len() == 0 && !old(cx).pending() ==> (r matches Some(c) ==> c.0@ == seq![
                Command::Skip,
            ]),
            old(cx).pending() ==> (r matches Some(c) ==> exists|i: int|
                0 <= i < old(cx).guaranteed().len() && (#[trigger] old(cx).guaranteed()[i]).0 > 0
                    && production_made(old(cx).guaranteed()[i].1, c.0@, old(cx).memory@)),
            final(cx).compiler_context.fuel <= saturating_dec(old(cx).compiler_context.fuel),
            self.levels_at_most(2) && old(cx).pending_at_most(2) ==> (r matches Some(c)
                ==> straight_line(c)),
            self.levels_at_most(4) && old(cx).pending_at_most(4) ==> (r matches Some(c)
                ==> commands_loop_free(c)),
            self.live() && old(cx).covered() && old(cx).pending_live() ==> r is Some,
        decreases old(cx).budget(), 0int,
    {
        cx.compiler_context.fuel = saturating_sub_u32(cx.compiler_context.fuel, 1);
        let mut erng = seed_from_u64(random_u64(rng));
        if cx.guarantee && cx.guarantee_gen.is_some() {
            let guaranteed = cx.guarantee_gen.take().unwrap();
            cx.guarantee = false;
            proof {
                lemma_total_weight_bounds(guaranteed.0@);
            }
            assert(guaranteed.0@ == old(cx).guaranteed());
            let p = match choose_weighted(&mut erng, &guaranteed.0) {
                Some(p) => p,
                None => return None,
            };
            let ghost k = choose|k: int|
                0 <= k < guaranteed.0.len() && guaranteed.0@[k].1 == p && guaranteed.0@[k].0 > 0;
            let made = run_production(p, cx, &mut erng, self);
            assert(made matches Some(c) ==> (old(cx).guaranteed()[k]).0 > 0 && production_made(
                old(cx).guaranteed()[k].1,
                c.0@, old(cx).memory@
            ));
            return made;
        } else if cx.compiler_context.fuel == 0 || cx.compiler_context.fuel < random_below_u32(
            &mut erng,
            0,
            5,
        ) {
            return Some(Commands(vec![Command::Skip]));
        }
        proof {
            lemma_total_weight_bounds(self.0@);
        }
        let p = match choose_weighted(&mut erng, &self.0) {
            Some(p) => p,
            None => return None,
        };
        run_production(p, cx, &mut erng, self)
    }
}

} // verus!

verus! {

/// Every command of `s` is an assignment or `skip`.
pub open spec fn all_straight(s: Seq<Command>) -> bool {
    forall|j: int| 0 <= j < s.len() ==> (#[trigger] s[j] is Assignment || s[j] is Skip)
}

/// No command of `s` holds a loop.
pub open spec fn all_loop_free(s: Seq<Command>) -> bool {
    forall|j: int| 0 <= j < s.len() ==> command_loop_free(#[trigger] s[j])
}

/// What the commands of a generated program respect at `level`: only
/// assignments and `skip` at levels 1 and 2, and no loop up to level 4.
pub open spec fn level_respected(level: u32, s: Seq<Command>) -> bool {
    &&& (1 <= level <= 2 ==> all_straight(s))
    &&& (1 <= level <= 4 ==> all_loop_free(s))
}

/// A memory that the generator starts from: each of the context's names
/// with a value in `-20..=20`, each array with 5 to 10 such values, one
/// entry per name and no other names.
pub open spec fn initial_memory_for(m: MemoryView, cx: CompilerContext) -> bool {
    &&& forall|i: int| 0 <= i < cx.names.len() ==> (#[trigger] m.variable(cx.names@[i]@)) is Some
    &&& forall|i: int|
        0 <= i < cx.array_names.len() ==> (#[trigger] m.array(cx.array_names@[i]@)) is Some
    &&& forall|j: int|
        0 <= j < m.variables.len() ==> crate::ast::names_view(cx.names@).contains(
            (#[trigger] m.variables[j]).0,
        )
    &&& forall|j: int|
        0 <= j < m.arrays.len() ==> crate::ast::names_view(cx.array_names@).contains(
            (#[trigger] m.arrays[j]).0,
        )
    &&& crate::memory::small_values(m.variables)
    &&& crate::memory::small_arrays(m.arrays)
    &&& m.unique_names()
}

fn append_options(opts: &mut Vec<(u32, Production)>, g: GenOptionsNested)
    ensures
        final(opts)@ == old(opts)@ + g.0@,
{
    let mut v = g.0;
    opts.append(&mut v);
}

/// Appends the commands of one generation step to `cmds`.
fn generate_into(
    opts: &GenOptionsNested,
    cx: &mut InterpreterContext,
    rng: &mut SmallRng,
    cmds: &mut Vec<Command>,
) -> (ok: bool)
    requires
        opts.wf(),
        old(cx).wf(),
        old(cx).compiler_context.has_targets() || (old(cx).compiler_context.fuel <= 1
            && !old(cx).pending()),
    ensures
        old(cx).compiler_context.fuel <= 1 && !old(cx).pending() ==> ok,
        final(cx).wf(),
        final(cx).steady(*old(cx)),
        final(cx).guarantee_gen is None || final(cx).guarantee_gen == old(cx).guarantee_gen,
        final(cx).guarantee ==> old(cx).guarantee,
        old(cx).pending() ==> !final(cx).guarantee && final(cx).guarantee_gen is None,
        final(cx).budget() <= old(cx).budget(),
        ok ==> final(cmds)@.len() >= old(cmds)@.len() + 1,
        ok ==> final(cmds)@.subrange(0, old(cmds)@.len() as int) == old(cmds)@,
        !ok ==> final(cmds)@ == old(cmds)@,
        final(cx).compiler_context.fuel <= saturating_dec(old(cx).compiler_context.fuel),
        ok ==> forall|k: int| #[trigger]
            has_level_part(k, old(cmds)@, old(cx).memory@) ==> has_level_part(k, final(cmds)@, old(cx).memory@),
        ok && old(cx).pending() ==> forall|k: int|
            guarantees_level(k, old(cx).guaranteed()) ==> #[trigger] has_level_part(
                k,
                final(cmds)@, old(cx).memory@
            ),
        ok && old(cx).pending() && guarantees_level(1, old(cx).guaranteed())
            ==> final(cmds)@.len() == old(cmds)@.len() + 1,
        ok && opts.0.len() == 0 && !old(cx).pending()
            ==> final(cmds)@ == old(cmds)@.push(Command::Skip),
        ok && opts.levels_at_most(2) && old(cx).pending_at_most(2) && all_straight(old(cmds)@)
            ==> all_straight(final(cmds)@),
        ok && opts.levels_at_most(4) && old(cx).pending_at_most(4) && all_loop_free(old(cmds)@)
            ==> all_loop_free(final(cmds)@),
        opts.live() && old(cx).covered() && old(cx).pending_live() ==> ok,
{
    let generated = match opts.generate(cx, rng) {
        Some(c) => c,
        None => return false,
    };
    let ghost before = cmds@;
    let ghost added = generated.0@;
    let mut part = generated.0;
    cmds.append(&mut part);
    proof {
        assert(cmds@ =~= before + added);
        assert forall|k: int| #[trigger] has_level_part(k, before, old(cx).memory@) implies has_level_part(
            k,
            cmds@, old(cx).memory@
        ) by {
            assert forall|j: int| 0 <= j < before.len() implies cmds@.contains(#[trigger] before[j]) by {
                assert(cmds@[j] == before[j]);
            }
            lemma_part_kept(k, before, cmds@, old(cx).memory@);
        }
        if old(cx).pending() {
            let i = choose|i: int|
                0 <= i < old(cx).guaranteed().len() && (#[trigger] old(cx).guaranteed()[i]).0 > 0
                    && production_made(old(cx).guaranteed()[i].1, added, old(cx).memory@);
            assert forall|k: int| guarantees_level(k, old(cx).guaranteed()) implies #[trigger] has_level_part(
                k,
                cmds@, old(cx).memory@
            ) by {
                lemma_production_part(k, old(cx).guaranteed()[i].1, added, old(cx).memory@);
                assert forall|j: int| 0 <= j < added.len() implies cmds@.contains(#[trigger] added[j]) by {
                    assert(cmds@[before.len() + j] == added[j]);
                }
                lemma_part_kept(k, added, cmds@, old(cx).memory@);
            }
        }
        if opts.levels_at_most(4) && old(cx).pending_at_most(4) && all_loop_free(before) {
            assert forall|j: int| 0 <= j < cmds@.len() implies command_loop_free(
                #[trigger] cmds@[j],
            ) by {
                if j >= before.len() {
                    assert(command_loop_free(generated.0@[j - before.len()]));
                }
            }
        }
    }
    true
}

} // verus!

verus! {

/// Sets a guaranteed production list for the next generation step.
fn guarantee_next(cx: &mut InterpreterContext, g: GenOptionsNested)
    requires
        g.wf(),
    ensures
        final(cx).guarantee,
        final(cx).guarantee_gen == Some(g),
        final(cx).steady(*old(cx)),
        final(cx).compiler_context.fuel == old(cx).compiler_context.fuel,
        final(cx).wf(),
{
    cx.guarantee = true;
    cx.guarantee_gen = Some(g);
}

/// The productions of all levels up to the context's, in level order; at
/// levels 1 to 7 the level's own productions are also made the pending
/// guarantee (level 1 with fuel 1, level 3 with single guards, level 4
/// without loops).
fn level_options(cx: &mut InterpreterContext) -> (g: GenOptionsNested)
    requires
        old(cx).wf(),
    ensures
        g.wf(),
        final(cx).wf(),
        final(cx).compiler_context.same_config(old(cx).compiler_context),
        final(cx).memory == old(cx).memory,
        final(cx).level == old(cx).level,
        1 <= old(cx).level <= 4 ==> g.levels_at_most(4) && final(cx).pending_at_most(4),
        1 <= old(cx).level <= 2 ==> g.levels_at_most(2) && final(cx).pending_at_most(2),
        1 <= old(cx).level <= 7 ==> final(cx).pending() && guarantees_level(
            old(cx).level as int,
            final(cx).guaranteed(),
        ),
        old(cx).level == 1 ==> final(cx).compiler_context.fuel == 1,
        old(cx).level == 0 ==> g.0.len() == 0 && final(cx).guarantee == old(cx).guarantee
            && final(cx).guarantee_gen == old(cx).guarantee_gen,
        old(cx).level >= 8 ==> final(cx).guarantee == old(cx).guarantee
            && final(cx).guarantee_gen == old(cx).guarantee_gen,
        old(cx).level >= 1 ==> g.live(),
        old(cx).level != 1 ==> final(cx).compiler_context.fuel == old(cx).compiler_context.fuel,
{
    let level = cx.level;
    let mut options: Vec<(u32, Production)> = Vec::new();
    if level >= 1 {
        if level == 1 {
            guarantee_next(cx, lvl_assignment());
            cx.compiler_context.fuel = 1;
            proof {
                assert(cx.guaranteed()[0].0 > 0);
                assert forall|i: int| 0 <= i < cx.guaranteed().len() && (#[trigger] cx.guaranteed()[i]).0 > 0 implies level_production(1, cx.guaranteed()[i].1) by {}
            }
        }
        append_options(&mut options, lvl_assignment());
        assert(options@[0].0 > 0);
    }
    if level >= 2 {
        if level == 2 {
            let g = lvl_sequencing(cx);
            guarantee_next(cx, g);
            proof {
                assert(cx.guaranteed()[0].0 > 0);
                assert forall|i: int| 0 <= i < cx.guaranteed().len() && (#[trigger] cx.guaranteed()[i]).0 > 0 implies level_production(2, cx.guaranteed()[i].1) by {}
            }
        }
        let g = lvl_sequencing(cx);
        append_options(&mut options, g);
        assert(options@[0].0 > 0);
    }
    if level >= 3 {
        if level == 3 {
            cx.multiple_guards = false;
            let g = lvl_conditionals(cx);
            guarantee_next(cx, g);
            proof {
                assert(cx.guaranteed()[0].0 > 0);
                assert forall|i: int| 0 <= i < cx.guaranteed().len() && (#[trigger] cx.guaranteed()[i]).0 > 0 implies level_production(3, cx.guaranteed()[i].1) by {}
            }
        }
        let g = lvl_conditionals(cx);
        append_options(&mut options, g);
        assert(options@[0].0 > 0);
    }
    if level >= 4 {
        if level == 4 {
            cx.allow_loops = false;
            let g = lvl_stuck(cx);
            guarantee_next(cx, g);
            proof {
                assert(cx.guaranteed()[0].0 > 0);
                assert forall|i: int| 0 <= i < cx.guaranteed().len() && (#[trigger] cx.guaranteed()[i]).0 > 0 implies level_production(4, cx.guaranteed()[i].1) by {}
            }
        }
        let g = lvl_stuck(cx);
        append_options(&mut options, g);
        assert(options@[0].0 > 0);
    }
    if level >= 5 {
        if level == 5 {
            guarantee_next(cx, lvl_loops());
            proof {
                assert(cx.guaranteed()[0].0 > 0);
                assert forall|i: int| 0 <= i < cx.guaranteed().len() && (#[trigger] cx.guaranteed()[i]).0 > 0 implies level_production(5, cx.guaranteed()[i].1) by {}
            }
        }
        append_options(&mut options, lvl_loops());
        assert(options@[0].0 > 0);
    }
    if level >= 6 {
        if level == 6 {
            guarantee_next(cx, lvl_nondeterminism());
            proof {
                assert(cx.guaranteed()[0].0 > 0);
                assert forall|i: int| 0 <= i < cx.guaranteed().len() && (#[trigger] cx.guaranteed()[i]).0 > 0 implies level_production(6, cx.guaranteed()[i].1) by {}
            }
        }
        append_options(&mut options, lvl_nondeterminism());
        assert(options@[0].0 > 0);
    }
    if level >= 7 {
        if level == 7 {
            guarantee_next(cx, lvl_undefined());
            proof {
                assert(cx.guaranteed()[0].0 > 0);
                assert forall|i: int| 0 <= i < cx.guaranteed().len() && (#[trigger] cx.guaranteed()[i]).0 > 0 implies level_production(7, cx.guaranteed()[i].1) by {}
            }
        }
        append_options(&mut options, lvl_undefined());
        assert(options@[0].0 > 0);
    }
    let g = GenOptionsNested(options);
    proof {
        if level >= 1 {
            assert(g.0@[0].0 > 0);
        }
    }
    g
}

/// Level 8: one part of each level 1 to 7 in turn, each guaranteed and with
/// fuel 3 (level 3 with single guards, level 4 without loops), appended to
/// `cmds`: each part adds a command or more, and the commands already there
/// stay. Returns whether every part was built.
fn compose_levels(
    opts: &GenOptionsNested,
    cx: &mut InterpreterContext,
    rng: &mut SmallRng,
    cmds: &mut Vec<Command>,
) -> (ok: bool)
    requires
        opts.wf(),
        old(cx).wf(),
        old(cx).compiler_context.has_targets(),
    ensures
        final(cx).wf(),
        final(cx).compiler_context.same_config(old(cx).compiler_context),
        final(cx).memory == old(cx).memory,
        final(cx).level == old(cx).level,
        final(cx).compiler_context.fuel <= 3,
        final(cmds)@.len() >= old(cmds)@.len(),
        final(cmds)@.subrange(0, old(cmds)@.len() as int) == old(cmds)@,
        ok ==> final(cmds)@.len() >= old(cmds)@.len() + 7,
        ok ==> !final(cx).guarantee && final(cx).guarantee_gen is None,
        ok ==> final(cx).allow_loops && final(cx).multiple_guards,
        ok ==> forall|k: int| 1 <= k <= 7 ==> #[trigger] has_level_part(k, final(cmds)@, old(cx).memory@),
        opts.live() && old(cx).covered() ==> ok,
{
    let mut erng = seed_from_u64(random_u64(rng));
    cx.compiler_context.fuel = 3;
    guarantee_next(cx, lvl_assignment());
    proof {
        assert(cx.guaranteed()[0].0 > 0);
        assert forall|i: int| 0 <= i < cx.guaranteed().len() && (#[trigger] cx.guaranteed()[i]).0 > 0 implies level_production(1, cx.guaranteed()[i].1) by {}
    }
    if !generate_into(opts, cx, &mut erng, cmds) {
        return false;
    }
    assert(has_level_part(1, cmds@, old(cx).memory@));
    cx.compiler_context.fuel = 3;
    let g = lvl_sequencing(cx);
    guarantee_next(cx, g);
    proof {
        assert(cx.guaranteed()[0].0 > 0);
        assert forall|i: int| 0 <= i < cx.guaranteed().len() && (#[trigger] cx.guaranteed()[i]).0 > 0 implies level_production(2, cx.guaranteed()[i].1) by {}
    }
    if !generate_into(opts, cx, &mut erng, cmds) {
        return false;
    }
    assert(has_level_part(2, cmds@, old(cx).memory@));
    cx.compiler_context.fuel = 3;
    cx.multiple_guards = false;
    let g = lvl_conditionals(cx);
    guarantee_next(cx, g);
    proof {
        assert(cx.guaranteed()[0].0 > 0);
        assert forall|i: int| 0 <= i < cx.guaranteed().len() && (#[trigger] cx.guaranteed()[i]).0 > 0 implies level_production(3, cx.guaranteed()[i].1) by {}
    }
    if !generate_into(opts, cx, &mut erng, cmds) {
        return false;
    }
    assert(has_level_part(3, cmds@, old(cx).memory@));
    cx.multiple_guards = true;
    cx.compiler_context.fuel = 3;
    cx.allow_loops = false;
    let g = lvl_stuck(cx);
    guarantee_next(cx, g);
    proof {
        assert(cx.guaranteed()[0].0 > 0);
        assert forall|i: int| 0 <= i < cx.guaranteed().len() && (#[trigger] cx.guaranteed()[i]).0 > 0 implies level_production(4, cx.guaranteed()[i].1) by {}
    }
    if !generate_into(opts, cx, &mut erng, cmds) {
        return false;
    }
    assert(has_level_part(4, cmds@, old(cx).memory@));
    cx.allow_loops = true;
    cx.compiler_context.fuel = 3;
    guarantee_next(cx, lvl_loops());
    proof {
        assert(cx.guaranteed()[0].0 > 0);
        assert forall|i: int| 0 <= i < cx.guaranteed().len() && (#[trigger] cx.guaranteed()[i]).0 > 0 implies level_production(5, cx.guaranteed()[i].1) by {}
    }
    if !generate_into(opts, cx, &mut erng, cmds) {
        return false;
    }
    assert(has_level_part(5, cmds@, old(cx).memory@));
    cx.compiler_context.fuel = 3;
    guarantee_next(cx, lvl_nondeterminism());
    proof {
        assert(cx.guaranteed()[0].0 > 0);
        assert forall|i: int| 0 <= i < cx.guaranteed().len() && (#[trigger] cx.guaranteed()[i]).0 > 0 implies level_production(6, cx.guaranteed()[i].1) by {}
    }
    if !generate_into(opts, cx, &mut erng, cmds) {
        return false;
    }
    assert(has_level_part(6, cmds@, old(cx).memory@));
    cx.compiler_context.fuel = 3;
    guarantee_next(cx, lvl_undefined());
    proof {
        assert(cx.guaranteed()[0].0 > 0);
        assert forall|i: int| 0 <= i < cx.guaranteed().len() && (#[trigger] cx.guaranteed()[i]).0 > 0 implies level_production(7, cx.guaranteed()[i].1) by {}
    }
    let ok = generate_into(opts, cx, &mut erng, cmds);
    proof {
        if ok {
            assert(has_level_part(7, cmds@, old(cx).memory@));
            assert forall|k: int| 1 <= k <= 7 implies #[trigger] has_level_part(k, cmds@, old(cx).memory@) by {
                if k == 1 {
                } else if k == 2 {
                } else if k == 3 {
                } else if k == 4 {
                } else if k == 5 {
                } else if k == 6 {
                }
            }
        }
    }
    ok
}

/// What a generated program holds at `level` over its memory: one
/// assignment at level 1;
/// the part that the level guarantees at levels 2 to 7 (see
/// [`has_level_part`]); at level 8 seven commands or more and each level's
/// part.
pub open spec fn level_made(level: u32, s: Seq<Command>, mem: MemoryView) -> bool {
    if level == 1 {
        s.len() == 1 && s[0] is Assignment
    } else if 2 <= level <= 7 {
        has_level_part(level as int, s, mem)
    } else if level == 8 {
        s.len() >= 7 && forall|k: int| 1 <= k <= 7 ==> #[trigger] has_level_part(k, s, mem)
    } else {
        true
    }
}

/// Generates a program for the context's level (see the module's
/// description) and the memory that it starts from.
///
/// The memory gives each of the compiler context's names a value in
/// `-20..=20` and each array 5 to 10 such values; it is stored in the
/// context and returned with the program. The nesting limits are first set
/// to at most 4. At levels 1 to 7 the level's own productions are
/// guaranteed once; at level 8 one part of each level 1 to 7 is generated
/// first. Then the productions of all levels up to the context's are drawn
/// a random number of times (at least `3 - k` or `k - 3` for `k` parts
/// already made, capped at `u32::MAX`) and the commands shuffled. Level 0
/// has no productions: it is admitted only with fuel of at most 1 and no
/// pending guarantee, where every step gives `skip`. A program is always generated where arrays are off or
/// named and a guarantee left pending by the caller has a production of
/// positive weight; otherwise `None` where an array reference would read
/// the unnamed array `A`, which memory does not hold.
pub fn generate_selective(cx: &mut InterpreterContext, rng: &mut SmallRng) -> (r: Option<
    (Commands, InterpreterMemory),
>)
    requires
        old(cx).wf(),
        old(cx).level >= 1 ==> old(cx).compiler_context.has_targets(),
        old(cx).level >= 1 || (old(cx).compiler_context.fuel <= 1 && !old(cx).pending()),
    ensures
        initial_memory_for(final(cx).memory@, old(cx).compiler_context),
        final(cx).compiler_context.same_config(old(cx).compiler_context),
        final(cx).level == old(cx).level,
        r matches Some((c, m)) ==> m@ == final(cx).memory@,
        r matches Some((c, m)) ==> level_respected(old(cx).level, c.0@),
        r matches Some((c, m)) ==> level_made(old(cx).level, c.0@, final(cx).memory@),
        old(cx).level == 1 && r is Some ==> final(cx).compiler_context.fuel == 0,
        (old(cx).compiler_context.no_arrays || old(cx).compiler_context.array_names.len() > 0)
            && old(cx).pending_live() ==> r is Some,
        old(cx).level == 0 ==> r is Some,
        old(cx).level == 0 ==> (r matches Some((c, m)) ==> forall|j: int|
            0 <= j < c.0.len() ==> #[trigger] c.0@[j] == Command::Skip),
{
    let mut cmds: Vec<Command> = Vec::new();
    let fuel = cx.compiler_context.fuel;
    cx.compiler_context.negation_limit = if fuel < 4 { fuel } else { 4 };
    cx.compiler_context.recursion_limit = if fuel < 4 { fuel } else { 4 };
    let memory = InterpreterMemory::from_names(
        &cx.compiler_context.names,
        &cx.compiler_context.array_names,
        rng,
    );
    cx.memory = memory;
    let level = cx.level;
    let ghost owed = (old(cx).compiler_context.no_arrays
        || old(cx).compiler_context.array_names.len() > 0) && old(cx).pending_live();
    proof {
        lemma_initial_covered(cx.memory@, old(cx).compiler_context);
        assert(cx.compiler_context.shape() == old(cx).compiler_context.shape());
    }
    let generation_options = level_options(cx);
    proof {
        assert(cx.compiler_context.shape() == old(cx).compiler_context.shape());
        assert(owed ==> cx.covered());
        if owed && 1 <= level <= 7 {
            assert(guarantees_level(level as int, cx.guaranteed()));
        }
    }
    if level == 8 {
        if !compose_levels(&generation_options, cx, rng, &mut cmds) {
            return None;
        }
    }
    let len = cmds.len();
    let min: u32 = if 3 >= len {
        (3 - len) as u32
    } else {
        let d = len - 3;
        if d > u32::MAX as usize {
            u32::MAX
        } else {
            d as u32
        }
    };
    let max = if cx.compiler_context.fuel > min {
        cx.compiler_context.fuel
    } else {
        min
    };
    let n = random_range_u32(rng, min, max);
    let mut i: u32 = 0;
    let ghost mut first_done = false;
    while i < n
        invariant_except_break
            level == 1 ==> !first_done,
        invariant
            i <= n,
            !first_done ==> i == 0,
            1 <= level <= 7 ==> n >= 3,
            1 <= level <= 7 && !first_done ==> cx.pending() && guarantees_level(
                level as int,
                cx.guaranteed(),
            ) && cmds@.len() == 0,
            1 <= level <= 7 && first_done ==> has_level_part(level as int, cmds@, cx.memory@),
            level == 1 && !first_done ==> cx.compiler_context.fuel == 1,
            level == 1 && first_done ==> cmds@.len() == 1 && cx.compiler_context.fuel == 0,
            level == 8 ==> cmds@.len() >= 7 && forall|k: int|
                1 <= k <= 7 ==> #[trigger] has_level_part(k, cmds@, cx.memory@),
            generation_options.wf(),
            cx.wf(),
            cx.compiler_context.same_config(old(cx).compiler_context),
            level >= 1 ==> cx.compiler_context.has_targets(),
            level == 0 ==> cx.compiler_context.fuel <= 1 && !cx.pending()
                && generation_options.0.len() == 0 && forall|j: int|
                0 <= j < cmds@.len() ==> #[trigger] cmds@[j] == Command::Skip,
            cx.level == level,
            level == old(cx).level,
            initial_memory_for(cx.memory@, old(cx).compiler_context),
            level >= 1 ==> generation_options.live(),
            owed ==> cx.covered() && cx.pending_live(),
            owed == ((old(cx).compiler_context.no_arrays
                || old(cx).compiler_context.array_names.len() > 0) && old(cx).pending_live()),
            1 <= level <= 4 ==> generation_options.levels_at_most(4) && cx.pending_at_most(4)
                && all_loop_free(cmds@),
            1 <= level <= 2 ==> generation_options.levels_at_most(2) && cx.pending_at_most(2)
                && all_straight(cmds@),
        ensures
            1 <= level <= 7 ==> first_done,
            1 <= level <= 7 ==> has_level_part(level as int, cmds@, cx.memory@),
            level == 1 ==> cmds@.len() == 1 && cx.compiler_context.fuel == 0,
            level == 8 ==> cmds@.len() >= 7 && forall|k: int|
                1 <= k <= 7 ==> #[trigger] has_level_part(k, cmds@, cx.memory@),
            level == 0 ==> forall|j: int| 0 <= j < cmds@.len() ==> #[trigger] cmds@[j] == Command::Skip,
        decreases n - i,
    {
        let mut erng = seed_from_u64(random_u64(rng));
        let ghost before = cmds@;
        let ghost cx_before = *cx;
        if !generate_into(&generation_options, cx, &mut erng, &mut cmds) {
            return None;
        }
        proof {
            if level == 8 {
                assert forall|k: int| 1 <= k <= 7 implies #[trigger] has_level_part(k, cmds@, cx.memory@) by {
                    assert(has_level_part(k, before, cx.memory@));
                }
            }
            if level == 1 && !first_done {
                assert(cx_before.pending() && guarantees_level(1, cx_before.guaranteed()));
                assert(cx_before.compiler_context.fuel == 1);
                assert(cmds@.len() == 1);
                assert(cx.compiler_context.fuel == 0);
            }
            first_done = true;
            if level == 0 {
                assert forall|j: int| 0 <= j < cmds@.len() implies #[trigger] cmds@[j]
                    == Command::Skip by {
                    if j < before.len() {
                        assert(cmds@[j] == before[j]);
                    }
                }
            }
        }
        if cx.compiler_context.fuel == 0 && i <= min {
            break;
        }
        i = i + 1;
    }
    let ghost before_shuffle = cmds@;
    shuffle(rng, &mut cmds);
    proof {
        assert forall|j: int| 0 <= j < cmds@.len() implies before_shuffle.contains(
            #[trigger] cmds@[j],
        ) by {
            vstd::seq_lib::to_multiset_contains(cmds@, cmds@[j]);
            vstd::seq_lib::to_multiset_contains(before_shuffle, cmds@[j]);
            assert(cmds@.contains(cmds@[j]));
        }
        assert forall|j: int| 0 <= j < before_shuffle.len() implies cmds@.contains(
            #[trigger] before_shuffle[j],
        ) by {
            vstd::seq_lib::to_multiset_contains(before_shuffle, before_shuffle[j]);
            vstd::seq_lib::to_multiset_contains(cmds@, before_shuffle[j]);
            assert(before_shuffle.contains(before_shuffle[j]));
        }
        vstd::seq_lib::to_multiset_len(cmds@);
        vstd::seq_lib::to_multiset_len(before_shuffle);
        assert forall|k: int| #[trigger] has_level_part(k, before_shuffle, cx.memory@) implies has_level_part(
            k,
            cmds@, cx.memory@
        ) by {
            lemma_part_kept(k, before_shuffle, cmds@, cx.memory@);
        }
        if 1 <= level <= 7 {
            assert(has_level_part(level as int, cmds@, cx.memory@));
        }
        if level == 0 {
            assert forall|j: int| 0 <= j < cmds@.len() implies #[trigger] cmds@[j] == Command::Skip by {
                assert(before_shuffle.contains(cmds@[j]));
            }
        }
        if level == 1 {
            assert(has_level_part(1, cmds@, cx.memory@));
            assert(level_part(1, cmds@[0], cx.memory@));
        }
        if level == 8 {
            assert forall|k: int| 1 <= k <= 7 implies #[trigger] has_level_part(k, cmds@, cx.memory@) by {
                assert(has_level_part(k, before_shuffle, cx.memory@));
            }
        }
    }
    let m = cx.memory.duplicate();
    Some((Commands(cmds), m))
}

} // verus!
