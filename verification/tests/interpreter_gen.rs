use ce_core::ast::{AExpr, AOp, Array, BExpr, Command, Commands, Guard, LogicOp, RelOp, Target, Variable};
use ce_core::compiler_gen::CompilerContext;
use ce_core::interpreter_gen::{
    aexpr_resolve, gen_aexpr_defined, gen_aexpr_op_undefined, gen_aexpr_simple, gen_bexpr_nondet, gen_bexpr_stuck,
    gen_bexpr_nondet_rel, gen_bexpr_stuck_rel, gen_aexpr_undefined, gen_bexpr_undefined, gen_multiple_guards, gen_undefined_guards, generate_selective, lvl_assignment,
    lvl_conditionals, lvl_loops, lvl_nondeterminism, lvl_sequencing, lvl_stuck, lvl_undefined,
    sort_aexpr, build_nondet_guard, build_nondet_rel, build_stuck_guard, build_stuck_rel, GenOptionsNested,
    InterpreterContext, NondetChoice, NondetRelChoice, Production, StuckChoice, StuckRelChoice,
};
use ce_core::memory::InterpreterMemory;
use rand::rngs::SmallRng;
use rand::SeedableRng;

fn num(n: i32) -> AExpr {
    AExpr::Number(n)
}

fn bin(l: AExpr, op: AOp, r: AExpr) -> AExpr {
    AExpr::Binary(Box::new(l), op, Box::new(r))
}

fn var(name: &str) -> AExpr {
    AExpr::Reference(Target::Variable(Variable(name.to_string())))
}

fn cell(name: &str, idx: AExpr) -> AExpr {
    AExpr::Reference(Target::Array(Array(name.to_string()), Box::new(idx)))
}

fn context_with_memory() -> InterpreterContext {
    let mut cx = InterpreterContext::default();
    cx.memory.variables = vec![("x".to_string(), 4), ("y".to_string(), -6)];
    cx.memory.arrays = vec![("A".to_string(), vec![3, -2, 7])];
    cx
}

/// The value of a guard as far as its literals decide it.
fn known(b: &BExpr) -> Option<bool> {
    match b {
        BExpr::Bool(v) => Some(*v),
        BExpr::Rel(..) => None,
        BExpr::Not(inner) => known(inner).map(|v| !v),
        BExpr::Logic(l, op, r) => {
            let (lv, rv) = (known(l), known(r));
            match op {
                LogicOp::And | LogicOp::Land => {
                    if lv == Some(false) || rv == Some(false) {
                        Some(false)
                    } else if lv == Some(true) && rv == Some(true) {
                        Some(true)
                    } else {
                        None
                    }
                }
                LogicOp::Or | LogicOp::Lor => {
                    if lv == Some(true) || rv == Some(true) {
                        Some(true)
                    } else if lv == Some(false) && rv == Some(false) {
                        Some(false)
                    } else {
                        None
                    }
                }
            }
        }
    }
}

fn is_closed(e: &AExpr) -> bool {
    match e {
        AExpr::Number(_) => true,
        AExpr::Reference(_) => false,
        AExpr::Binary(l, _, r) => is_closed(l) && is_closed(r),
        AExpr::Minus(inner) => is_closed(inner),
    }
}

fn divides_by_zero(e: &AExpr) -> bool {
    matches!(e, AExpr::Binary(_, AOp::Divide, r) if matches!(**r, AExpr::Number(0)))
}

fn undefined_guard(b: &BExpr) -> bool {
    matches!(b, BExpr::Rel(l, _, AExpr::Number(0)) if divides_by_zero(l))
}

fn has_loop(c: &Command) -> bool {
    match c {
        Command::Assignment(..) | Command::Skip => false,
        Command::If(gs) => gs.iter().any(|g: &Guard| g.1 .0.iter().any(has_loop)),
        Command::Loop(_) => true,
    }
}

#[test]
fn level_options_carry_their_weights() {
    assert_eq!(lvl_assignment().0, vec![(20, Production::Assignment)]);
    assert_eq!(lvl_loops().0, vec![(5, Production::LoopHolding), (5, Production::LoopCompilerGuard)]);
    assert_eq!(lvl_nondeterminism().0, vec![(16, Production::NondetIf), (4, Production::NondetLoop)]);
    assert_eq!(
        lvl_undefined().0,
        vec![(8, Production::UndefinedIf), (4, Production::UndefinedLoop), (8, Production::UndefinedArrayAssignment)]
    );
}

#[test]
fn level_options_follow_the_context() {
    let mut cx = InterpreterContext::default();
    cx.compiler_context.fuel = 2;
    assert_eq!(lvl_sequencing(&cx).0, vec![(40, Production::SequenceOfTwo), (0, Production::SequenceOfThree)]);
    cx.compiler_context.fuel = 3;
    assert_eq!(lvl_sequencing(&cx).0, vec![(40, Production::SequenceOfTwo), (2, Production::SequenceOfThree)]);
    assert_eq!(
        lvl_conditionals(&cx).0,
        vec![(10, Production::ConditionalSingle), (10, Production::ConditionalMultiple)]
    );
    cx.multiple_guards = false;
    assert_eq!(
        lvl_conditionals(&cx).0,
        vec![(20, Production::ConditionalSingle), (0, Production::ConditionalMultiple)]
    );
    assert_eq!(lvl_stuck(&cx).0, vec![(10, Production::StuckIf), (10, Production::StuckIfLoopsAllowed)]);
    cx.allow_loops = false;
    assert_eq!(lvl_stuck(&cx).0, vec![(10, Production::StuckIf), (0, Production::StuckIfLoopsAllowed)]);
}

#[test]
fn default_interpreter_context() {
    let cx = InterpreterContext::default();
    assert_eq!(cx.level, 1);
    assert!(!cx.guarantee);
    assert!(cx.guarantee_gen.is_none());
    assert!(cx.memory.variables.is_empty() && cx.memory.arrays.is_empty());
    assert!(cx.allow_loops && cx.multiple_guards);
    assert_eq!(cx.compiler_context.fuel, 10);
    let mut rng = SmallRng::seed_from_u64(0);
    let cx = InterpreterContext::new(5, CompilerContext::new(4, &mut rng), &mut rng);
    assert_eq!(cx.level, 5);
    assert_eq!(cx.compiler_context.fuel, 4);
    assert!(cx.allow_loops && cx.multiple_guards && !cx.guarantee);
}

#[test]
fn resolve_bounds_of_closed_expressions() {
    let cx = InterpreterContext::default();
    assert_eq!(aexpr_resolve(num(5), &cx), Some((5, 5, false)));
    assert_eq!(aexpr_resolve(bin(num(3), AOp::Plus, num(4)), &cx), Some((7, 7, false)));
    assert_eq!(aexpr_resolve(bin(num(3), AOp::Minus, num(10)), &cx), Some((-7, -7, false)));
    assert_eq!(aexpr_resolve(bin(num(3), AOp::Times, num(-4)), &cx), Some((-12, -12, false)));
    assert_eq!(aexpr_resolve(bin(num(7), AOp::Divide, num(2)), &cx), Some((3, 3, false)));
    assert_eq!(aexpr_resolve(bin(num(-7), AOp::Divide, num(2)), &cx), Some((-3, -3, false)));
    assert_eq!(aexpr_resolve(bin(num(7), AOp::Divide, num(0)), &cx), Some((i32::MIN, i32::MAX, true)));
    assert_eq!(aexpr_resolve(bin(num(2), AOp::Pow, num(3)), &cx), Some((8, 8, false)));
    assert_eq!(aexpr_resolve(bin(num(-2), AOp::Pow, num(2)), &cx), Some((4, 4, false)));
    assert_eq!(aexpr_resolve(bin(num(2), AOp::Pow, num(-1)), &cx), Some((i32::MIN, i32::MAX, true)));
    assert_eq!(aexpr_resolve(AExpr::Minus(Box::new(num(5))), &cx), Some((-5, -5, false)));
}

#[test]
fn resolve_flags_overflow() {
    let cx = InterpreterContext::default();
    assert_eq!(aexpr_resolve(bin(num(i32::MAX), AOp::Plus, num(1)), &cx), Some((i32::MAX, i32::MAX, true)));
    assert_eq!(aexpr_resolve(bin(num(i32::MIN), AOp::Minus, num(1)), &cx), Some((i32::MIN, i32::MIN, true)));
    assert_eq!(aexpr_resolve(bin(num(i32::MIN), AOp::Times, num(2)), &cx), Some((i32::MIN, i32::MIN, true)));
    assert_eq!(aexpr_resolve(bin(num(10), AOp::Pow, num(10)), &cx), Some((i32::MIN, i32::MAX, true)));
    assert_eq!(aexpr_resolve(bin(num(i32::MIN), AOp::Divide, num(-1)), &cx), Some((i32::MIN, i32::MAX, true)));
    assert_eq!(aexpr_resolve(AExpr::Minus(Box::new(num(i32::MIN))), &cx), Some((i32::MAX, i32::MAX, true)));
}

#[test]
fn resolve_reads_memory() {
    let cx = context_with_memory();
    assert_eq!(aexpr_resolve(var("x"), &cx), Some((4, 4, false)));
    assert_eq!(aexpr_resolve(bin(var("x"), AOp::Times, var("y")), &cx), Some((-24, -24, false)));
    assert_eq!(aexpr_resolve(bin(var("y"), AOp::Minus, var("x")), &cx), Some((-10, -10, false)));
    assert_eq!(aexpr_resolve(cell("A", num(1)), &cx), Some((-2, -2, false)));
    assert_eq!(aexpr_resolve(cell("A", num(3)), &cx), Some((-2, 7, true)));
    assert_eq!(aexpr_resolve(cell("A", num(-1)), &cx), Some((-2, 7, true)));
    assert_eq!(aexpr_resolve(cell("A", AExpr::Minus(Box::new(num(1)))), &cx), Some((-2, 7, true)));
    assert_eq!(aexpr_resolve(cell("A", bin(num(0), AOp::Divide, num(0))), &cx), Some((-2, 7, true)));
    assert_eq!(aexpr_resolve(var("z"), &cx), None);
    assert_eq!(aexpr_resolve(cell("B", num(0)), &cx), None);
}

#[test]
fn resolve_bounds_a_quotient_by_its_dividend() {
    let mut cx = InterpreterContext::default();
    cx.memory.arrays = vec![("A".to_string(), vec![0, 3])];
    let a = bin(num(5), AOp::Divide, cell("A", num(5)));
    assert_eq!(aexpr_resolve(cell("A", num(5)), &cx), Some((0, 3, true)));
    assert_eq!(aexpr_resolve(a, &cx), Some((-5, 5, true)));
}

#[test]
fn sort_orders_by_bounds_and_reports_failure() {
    let cx = context_with_memory();
    match sort_aexpr(num(5), num(3), &cx) {
        Some((AExpr::Number(3), AExpr::Number(5), false)) => {}
        other => panic!("{other:?}"),
    }
    match sort_aexpr(num(2), num(5), &cx) {
        Some((AExpr::Number(2), AExpr::Number(5), false)) => {}
        other => panic!("{other:?}"),
    }
    match sort_aexpr(var("x"), cell("A", num(9)), &cx) {
        Some((AExpr::Reference(Target::Array(..)), AExpr::Reference(Target::Variable(_)), true)) => {}
        other => panic!("{other:?}"),
    }
    assert!(sort_aexpr(var("nope"), num(1), &cx).is_none());
}

#[test]
fn simple_expressions_have_no_variables() {
    for seed in 0..200u64 {
        let mut rng = SmallRng::seed_from_u64(seed);
        let mut cx = InterpreterContext::default();
        cx.compiler_context.recursion_limit = 4;
        cx.compiler_context.negation_limit = 4;
        let e = gen_aexpr_simple(&mut cx, &mut rng);
        assert!(is_closed(&e), "seed {seed}: {e:?}");
        assert_eq!(cx.compiler_context.fuel, 10);
    }
}

#[test]
fn undefined_expressions_divide_by_zero() {
    for seed in 0..200u64 {
        let mut rng = SmallRng::seed_from_u64(seed);
        let mut cx = InterpreterContext::default();
        cx.compiler_context.recursion_limit = 3;
        let e = gen_aexpr_op_undefined(&mut cx, &mut rng);
        assert!(divides_by_zero(&e), "seed {seed}: {e:?}");
        let b = gen_bexpr_undefined(&mut cx, &mut rng);
        assert!(undefined_guard(&b), "seed {seed}: {b:?}");
    }
}

#[test]
fn stuck_guards_never_hold_and_nondet_guards_never_fail_by_their_literals() {
    for seed in 0..300u64 {
        let mut rng = SmallRng::seed_from_u64(seed);
        let mut cx = context_with_memory();
        cx.compiler_context.names = vec!["x".to_string(), "y".to_string()];
        cx.compiler_context.array_names = vec!["A".to_string()];
        cx.compiler_context.negation_limit = 4;
        cx.compiler_context.recursion_limit = 3;
        if let Some(b) = gen_bexpr_stuck(&mut cx, &mut rng) {
            assert_ne!(known(&b), Some(true), "seed {seed}: {b:?}");
        }
        cx.compiler_context.negation_limit = 4;
        if let Some(b) = gen_bexpr_nondet(&mut cx, &mut rng) {
            assert_ne!(known(&b), Some(false), "seed {seed}: {b:?}");
        }
    }
}

#[test]
fn generation_without_fuel_gives_skip() {
    for seed in 0..50u64 {
        let mut rng = SmallRng::seed_from_u64(seed);
        let mut cx = InterpreterContext::default();
        cx.compiler_context.fuel = 1;
        let c = lvl_loops().generate(&mut cx, &mut rng).unwrap();
        assert!(matches!(c.0.as_slice(), [Command::Skip]), "seed {seed}: {c:?}");
        assert_eq!(cx.compiler_context.fuel, 0);
    }
}

#[test]
fn multiple_guards_count_between_two_and_half_the_fuel() {
    for seed in 0..100u64 {
        let mut rng = SmallRng::seed_from_u64(seed);
        let mut cx = InterpreterContext::default();
        cx.memory = InterpreterMemory::from_names(
            &cx.compiler_context.names,
            &cx.compiler_context.array_names,
            &mut rng,
        );
        cx.compiler_context.fuel = 8;
        cx.compiler_context.negation_limit = 2;
        cx.compiler_context.recursion_limit = 2;
        if let Some(gs) = gen_multiple_guards(&mut cx, &mut rng, &lvl_assignment()) {
            assert!((2..=4).contains(&gs.len()), "seed {seed}: {}", gs.len());
            assert!(gs.iter().all(|g| known(&g.0) != Some(false)));
        }
        cx.compiler_context.fuel = 8;
        if let Some(gs) = gen_undefined_guards(&mut cx, &mut rng, &lvl_assignment()) {
            assert!((1..4).contains(&gs.len()), "seed {seed}: {}", gs.len());
            assert!(gs.iter().all(|g| undefined_guard(&g.0)));
        }
    }
}

#[test]
fn memory_from_names_gives_small_values() {
    let mut rng = SmallRng::seed_from_u64(3);
    let names = vec!["a".to_string(), "b".to_string(), "a".to_string()];
    let arrays = vec!["A".to_string()];
    let m = InterpreterMemory::from_names(&names, &arrays, &mut rng);
    assert_eq!(m.variables.len(), 2);
    assert!(m.variables.iter().all(|(n, v)| (n == "a" || n == "b") && (-20..=20).contains(v)));
    assert_eq!(m.arrays.len(), 1);
    let (n, a) = &m.arrays[0];
    assert_eq!(n, "A");
    assert!((5..=10).contains(&a.len()) && a.iter().all(|v| (-20..=20).contains(v)));
    assert_eq!(m.get_variable(&"b".to_string()), m.variables.iter().find(|p| p.0 == "b").map(|p| p.1));
    assert_eq!(m.get_variable(&"zz".to_string()), None);
}

#[test]
fn selective_generation_respects_levels_and_memory() {
    for level in 1..=8u32 {
        for seed in 0..40u64 {
            let mut rng = SmallRng::seed_from_u64(seed * 31 + level as u64);
            let mut cx = InterpreterContext::default();
            cx.level = level;
            let result = generate_selective(&mut cx, &mut rng);
            let names = ["a", "b", "c", "d"];
            assert_eq!(cx.memory.variables.len(), 4);
            assert!(cx.memory.variables.iter().all(|(n, v)| names.contains(&n.as_str()) && (-20..=20).contains(v)));
            assert_eq!(cx.memory.arrays.len(), 3);
            assert!(cx.memory.arrays.iter().all(|(_, a)| (5..=10).contains(&a.len())));
            assert_eq!(cx.level, level);
            if let Some((Commands(cmds), m)) = result {
                assert_eq!(m.variables, cx.memory.variables);
                assert_eq!(m.arrays, cx.memory.arrays);
                if level <= 2 {
                    assert!(cmds.iter().all(|c| matches!(c, Command::Assignment(..) | Command::Skip)));
                }
                if level <= 4 {
                    assert!(!cmds.iter().any(has_loop), "level {level} seed {seed}");
                }
            }
        }
    }
}

#[test]
fn selective_generation_mostly_succeeds() {
    let mut ok = 0;
    for seed in 0..100u64 {
        let mut rng = SmallRng::seed_from_u64(seed);
        let mut cx = InterpreterContext::default();
        cx.level = 3;
        if generate_selective(&mut cx, &mut rng).is_some() {
            ok += 1;
        }
    }
    assert!(ok > 50, "{ok}");
}

#[test]
fn options_can_be_built_by_hand() {
    let g = GenOptionsNested(vec![(1, Production::Assignment)]);
    let mut rng = SmallRng::seed_from_u64(9);
    let mut cx = InterpreterContext::default();
    cx.memory = InterpreterMemory::from_names(&cx.compiler_context.names, &cx.compiler_context.array_names, &mut rng);
    cx.compiler_context.fuel = 5;
    for _ in 0..10 {
        if let Some(c) = g.generate(&mut cx, &mut rng) {
            assert!(c.0.iter().all(|c| matches!(c, Command::Assignment(..) | Command::Skip)));
        }
    }
    let _ = RelOp::Eq;
}

fn names_in(e: &AExpr, vars: &mut Vec<String>, arrays: &mut Vec<String>) {
    match e {
        AExpr::Number(_) => {}
        AExpr::Reference(Target::Variable(v)) => vars.push(v.0.clone()),
        AExpr::Reference(Target::Array(a, idx)) => {
            arrays.push(a.0.clone());
            names_in(idx, vars, arrays);
        }
        AExpr::Binary(l, _, r) => {
            names_in(l, vars, arrays);
            names_in(r, vars, arrays);
        }
        AExpr::Minus(inner) => names_in(inner, vars, arrays),
    }
}

#[test]
fn defined_expressions_read_only_the_context_names() {
    let mut seen_reference = false;
    for seed in 0..300u64 {
        let mut rng = SmallRng::seed_from_u64(seed);
        let mut cx = InterpreterContext::default();
        cx.compiler_context.names = vec!["x".to_string(), "y".to_string()];
        cx.compiler_context.array_names = vec!["Q".to_string()];
        cx.compiler_context.recursion_limit = 3;
        cx.memory = InterpreterMemory::from_names(&cx.compiler_context.names, &cx.compiler_context.array_names, &mut rng);
        if let Some(e) = gen_aexpr_defined(&mut cx, &mut rng) {
            let (mut vars, mut arrays) = (vec![], vec![]);
            names_in(&e, &mut vars, &mut arrays);
            seen_reference |= !vars.is_empty() || !arrays.is_empty();
            assert!(vars.iter().all(|v| v == "x" || v == "y"), "seed {seed}: {e:?}");
            assert!(arrays.iter().all(|a| a == "Q"), "seed {seed}: {e:?}");
        }
    }
    assert!(seen_reference);
}

#[test]
fn guards_without_negations_left_are_literals() {
    for seed in 0..100u64 {
        let mut rng = SmallRng::seed_from_u64(seed);
        let mut cx = InterpreterContext::default();
        cx.compiler_context.negation_limit = 0;
        assert!(matches!(gen_bexpr_nondet(&mut cx, &mut rng), Some(BExpr::Bool(true))));
        assert!(matches!(gen_bexpr_stuck(&mut cx, &mut rng), Some(BExpr::Bool(false))));
    }
}

#[test]
fn guards_with_one_negation_are_always_built() {
    for seed in 0..200u64 {
        let mut rng = SmallRng::seed_from_u64(seed);
        let mut cx = InterpreterContext::default();
        cx.compiler_context.negation_limit = 1;
        cx.compiler_context.recursion_limit = 4;
        assert!(gen_bexpr_nondet(&mut cx, &mut rng).is_some(), "seed {seed}");
        cx.compiler_context.negation_limit = 1;
        let b = gen_bexpr_nondet_rel(&mut cx, &mut rng);
        assert!(matches!(b, BExpr::Rel(..)), "seed {seed}: {b:?}");
    }
}

#[test]
fn stuck_guards_are_always_built_without_division() {
    for seed in 0..200u64 {
        let mut rng = SmallRng::seed_from_u64(seed);
        let mut cx = InterpreterContext::default();
        cx.memory = InterpreterMemory::from_names(&cx.compiler_context.names, &cx.compiler_context.array_names, &mut rng);
        cx.compiler_context.set_no_division(true);
        cx.compiler_context.negation_limit = 3;
        cx.compiler_context.recursion_limit = 3;
        assert!(gen_bexpr_stuck(&mut cx, &mut rng).is_some(), "seed {seed}");
        assert!(gen_bexpr_stuck_rel(&mut cx, &mut rng).is_some(), "seed {seed}");
    }
}

#[test]
fn over_a_covering_memory_everything_is_built() {
    for seed in 0..200u64 {
        let mut rng = SmallRng::seed_from_u64(seed);
        let mut cx = InterpreterContext::default();
        cx.memory = InterpreterMemory::from_names(&cx.compiler_context.names, &cx.compiler_context.array_names, &mut rng);
        cx.compiler_context.negation_limit = 3;
        cx.compiler_context.recursion_limit = 3;
        cx.compiler_context.fuel = 4;
        assert!(gen_aexpr_defined(&mut cx, &mut rng).is_some(), "seed {seed}");
        assert!(gen_aexpr_undefined(&mut cx, &mut rng).is_some(), "seed {seed}");
        assert!(gen_bexpr_nondet(&mut cx, &mut rng).is_some(), "seed {seed}");
        assert!(gen_multiple_guards(&mut cx, &mut rng, &lvl_assignment()).is_some(), "seed {seed}");
        assert!(gen_undefined_guards(&mut cx, &mut rng, &lvl_assignment()).is_some(), "seed {seed}");
        assert!(lvl_loops().generate(&mut cx, &mut rng).is_some(), "seed {seed}");
    }
    for level in 1..=8u32 {
        for seed in 0..20u64 {
            let mut rng = SmallRng::seed_from_u64(seed);
            let mut cx = InterpreterContext::default();
            cx.level = level;
            assert!(generate_selective(&mut cx, &mut rng).is_some(), "level {level} seed {seed}");
        }
    }
}

#[test]
fn without_arrays_defined_and_undefined_expressions_are_always_built() {
    for seed in 0..200u64 {
        let mut rng = SmallRng::seed_from_u64(seed);
        let mut cx = InterpreterContext::default();
        cx.compiler_context.set_no_arrays(true);
        cx.compiler_context.recursion_limit = 3;
        cx.memory = InterpreterMemory::from_names(&cx.compiler_context.names, &vec![], &mut rng);
        assert!(gen_aexpr_defined(&mut cx, &mut rng).is_some(), "seed {seed}");
        assert!(gen_aexpr_undefined(&mut cx, &mut rng).is_some(), "seed {seed}");
    }
}

#[test]
fn simple_expressions_spend_negations_and_are_numbers_without_recursion() {
    for seed in 0..100u64 {
        let mut rng = SmallRng::seed_from_u64(seed);
        let mut cx = InterpreterContext::default();
        cx.compiler_context.recursion_limit = 0;
        cx.compiler_context.negation_limit = 2;
        let e = gen_aexpr_simple(&mut cx, &mut rng);
        assert!(matches!(e, AExpr::Number(n) if (-100..=100).contains(&n)), "seed {seed}: {e:?}");
        assert_eq!(cx.compiler_context.negation_limit, 1);
    }
}

fn level_parts(cmds: &[Command], level: u32) -> bool {
    cmds.iter().any(|c| match (level, c) {
        (1, Command::Assignment(..)) => true,
        (3, Command::If(gs)) => gs.len() == 1 && known(&gs[0].0) != Some(false),
        (4, Command::If(gs)) => gs.len() == 1 && known(&gs[0].0) != Some(true),
        (5, Command::Loop(_)) => true,
        (6, Command::If(gs)) | (6, Command::Loop(gs)) => gs.len() >= 2,
        (7, Command::If(gs)) | (7, Command::Loop(gs)) => gs.iter().all(|g| undefined_guard(&g.0)),
        (7, Command::Assignment(Target::Array(_, idx), _)) => matches!(**idx, AExpr::Number(k) if (-100..=-1).contains(&k)),
        _ => false,
    })
}

#[test]
fn each_level_holds_its_guaranteed_part() {
    for level in 1..=8u32 {
        let mut made = 0;
        for seed in 0..40u64 {
            let mut rng = SmallRng::seed_from_u64(seed * 7 + level as u64);
            let mut cx = InterpreterContext::default();
            cx.level = level;
            if let Some((Commands(cmds), _)) = generate_selective(&mut cx, &mut rng) {
                made += 1;
                match level {
                    1 => {
                        assert_eq!(cmds.len(), 1);
                        assert!(matches!(cmds[0], Command::Assignment(..)));
                        assert_eq!(cx.compiler_context.fuel, 0);
                    }
                    2 => assert!(cmds.len() >= 2),
                    8 => {
                        assert!(cmds.len() >= 7);
                        for k in [1, 3, 4, 5, 6, 7] {
                            assert!(level_parts(&cmds, k), "level 8 part {k} seed {seed}");
                        }
                    }
                    k => assert!(level_parts(&cmds, k), "level {k} seed {seed}: {cmds:?}"),
                }
            }
        }
        assert!(made > 0, "level {level}");
    }
}

#[test]
fn a_pending_guarantee_decides_the_step() {
    for seed in 0..40u64 {
        let mut rng = SmallRng::seed_from_u64(seed);
        let mut cx = InterpreterContext::default();
        cx.memory = InterpreterMemory::from_names(&cx.compiler_context.names, &cx.compiler_context.array_names, &mut rng);
        cx.compiler_context.fuel = 1;
        cx.guarantee = true;
        cx.guarantee_gen = Some(lvl_loops());
        let c = lvl_assignment().generate(&mut cx, &mut rng);
        if let Some(c) = c {
            assert!(matches!(c.0.as_slice(), [Command::Loop(gs)] if gs.len() == 1), "seed {seed}");
        }
        assert!(!cx.guarantee && cx.guarantee_gen.is_none());
        assert_eq!(cx.compiler_context.fuel, 0);
    }
}

#[test]
fn interpreter_contexts_are_made_without_drawing() {
    let mut rng = SmallRng::seed_from_u64(11);
    let before = rng.clone();
    let cc = CompilerContext::default();
    let _ = InterpreterContext::new(2, cc, &mut rng);
    assert_eq!(rng, before);
}

#[test]
fn ranged_quotients_and_powers_take_the_corners() {
    let mut cx = InterpreterContext::default();
    cx.memory.arrays = vec![("B".to_string(), vec![2, 3]), ("N".to_string(), vec![-4, -2])];
    let b = || cell("B", num(5));
    let n = || cell("N", num(5));
    assert_eq!(aexpr_resolve(b(), &cx), Some((2, 3, true)));
    assert_eq!(aexpr_resolve(bin(num(20), AOp::Divide, b()), &cx), Some((6, 10, true)));
    assert_eq!(aexpr_resolve(bin(num(-20), AOp::Divide, b()), &cx), Some((-10, -6, true)));
    assert_eq!(aexpr_resolve(bin(num(20), AOp::Divide, n()), &cx), Some((-10, -5, true)));
    assert_eq!(aexpr_resolve(bin(b(), AOp::Pow, num(2)), &cx), Some((4, 9, true)));
    assert_eq!(aexpr_resolve(bin(num(3), AOp::Pow, b()), &cx), Some((9, 27, true)));
    assert_eq!(aexpr_resolve(bin(n(), AOp::Pow, num(2)), &cx), Some((i32::MIN, i32::MAX, true)));
}

#[test]
fn failing_comparisons_are_built_against_the_order_of_their_sides() {
    let cx = context_with_memory();
    let rel = |l: AExpr, op: RelOp, r: AExpr| Some(BExpr::Rel(l, op, r));
    assert_same(build_stuck_rel(StuckRelChoice::Greater, num(5), num(3), &cx), rel(num(3), RelOp::Gt, num(5)));
    assert_same(build_stuck_rel(StuckRelChoice::GreaterEqual, num(3), num(5), &cx), rel(num(3), RelOp::Ge, num(5)));
    assert_same(build_stuck_rel(StuckRelChoice::LessEqual, var("x"), var("y"), &cx), rel(var("x"), RelOp::Le, var("y")));
    assert_same(build_stuck_rel(StuckRelChoice::Less, var("y"), var("x"), &cx), rel(var("x"), RelOp::Lt, var("y")));
    assert_same(build_stuck_rel(StuckRelChoice::NotEqualSelf, var("x"), num(0), &cx), rel(var("x"), RelOp::Ne, var("x")));
    assert_same(build_stuck_rel(StuckRelChoice::Equal, num(1), num(2), &cx), rel(num(1), RelOp::Eq, num(2)));
    assert_same(build_stuck_rel(StuckRelChoice::Greater, var("q"), num(2), &cx), None);
    assert_same(
        build_stuck_rel(StuckRelChoice::Equal, num(5), num(3), &cx),
        rel(num(5), RelOp::Eq, bin(num(3), AOp::Plus, num(3))),
    );
    assert_same(build_stuck_rel(StuckRelChoice::Greater, num(5), num(5), &cx), rel(num(5), RelOp::Gt, num(5)));
    assert_same(
        build_stuck_rel(StuckRelChoice::GreaterEqual, num(5), num(5), &cx),
        rel(num(5), RelOp::Ge, bin(num(5), AOp::Plus, num(1))),
    );
    assert_same(
        build_stuck_rel(StuckRelChoice::Equal, num(i32::MAX), num(0), &cx),
        rel(num(0), RelOp::Eq, num(1)),
    );
}

#[test]
fn holding_comparisons_are_built_along_the_order_of_their_sides() {
    let cx = InterpreterContext::default();
    assert_same(
        build_nondet_rel(NondetRelChoice::EqualShifted, num(7), num(2), &cx),
        BExpr::Rel(num(7), RelOp::Eq, bin(num(2), AOp::Plus, num(5)))
    );
    assert_same(
        build_nondet_rel(NondetRelChoice::EqualShifted, num(7), bin(num(1), AOp::Divide, num(0)), &cx),
        BExpr::Rel(num(7), RelOp::Eq, num(7))
    );
    assert_same(
        build_nondet_rel(NondetRelChoice::EqualShifted, num(i32::MAX), num(-2), &cx),
        BExpr::Rel(num(i32::MAX), RelOp::Eq, num(i32::MAX))
    );
    assert_same(build_nondet_rel(NondetRelChoice::EqualSelf, num(4), num(0), &cx), BExpr::Rel(num(4), RelOp::Eq, num(4)));
    assert_same(build_nondet_rel(NondetRelChoice::GreaterEqual, num(3), num(5), &cx), BExpr::Rel(num(5), RelOp::Ge, num(3)));
    assert_same(build_nondet_rel(NondetRelChoice::Less, num(5), num(3), &cx), BExpr::Rel(num(3), RelOp::Lt, num(5)));
    assert_same(
        build_nondet_rel(NondetRelChoice::NotEqual, num(5), num(3), &cx),
        BExpr::Rel(num(5), RelOp::Ne, bin(num(3), AOp::Plus, num(3))),
    );
    assert_same(
        build_nondet_rel(NondetRelChoice::Greater, num(4), num(4), &cx),
        BExpr::Rel(bin(num(4), AOp::Plus, num(1)), RelOp::Gt, num(4)),
    );
    assert_same(
        build_nondet_rel(NondetRelChoice::NotEqual, num(0), num(i32::MIN), &cx),
        BExpr::Rel(num(0), RelOp::Ne, num(1)),
    );
}

fn assert_same<T: std::fmt::Debug>(got: T, want: T) {
    assert_eq!(format!("{got:?}"), format!("{want:?}"));
}

fn eval_a(e: &AExpr, m: &InterpreterMemory) -> Option<i32> {
    match e {
        AExpr::Number(n) => Some(*n),
        AExpr::Reference(Target::Variable(v)) => m.variables.iter().find(|(n, _)| *n == v.0).map(|(_, x)| *x),
        AExpr::Reference(Target::Array(a, idx)) => {
            let cells = &m.arrays.iter().find(|(n, _)| *n == a.0)?.1;
            let i = eval_a(idx, m)?;
            if i < 0 || i as usize >= cells.len() {
                None
            } else {
                Some(cells[i as usize])
            }
        }
        AExpr::Binary(l, op, r) => {
            let (x, y) = (eval_a(l, m)?, eval_a(r, m)?);
            match op {
                AOp::Plus => x.checked_add(y),
                AOp::Minus => x.checked_sub(y),
                AOp::Times => x.checked_mul(y),
                AOp::Divide => x.checked_div(y),
                AOp::Pow => {
                    if y < 0 {
                        None
                    } else {
                        x.checked_pow(y as u32)
                    }
                }
            }
        }
        AExpr::Minus(inner) => eval_a(inner, m)?.checked_neg(),
    }
}

fn eval_b(b: &BExpr, m: &InterpreterMemory) -> Option<bool> {
    match b {
        BExpr::Bool(v) => Some(*v),
        BExpr::Rel(l, op, r) => {
            let (x, y) = (eval_a(l, m)?, eval_a(r, m)?);
            Some(match op {
                RelOp::Eq => x == y,
                RelOp::Ne => x != y,
                RelOp::Gt => x > y,
                RelOp::Ge => x >= y,
                RelOp::Lt => x < y,
                RelOp::Le => x <= y,
            })
        }
        BExpr::Not(inner) => eval_b(inner, m).map(|v| !v),
        BExpr::Logic(l, op, r) => match op {
            LogicOp::And => Some(eval_b(l, m)? & eval_b(r, m)?),
            LogicOp::Or => Some(eval_b(l, m)? | eval_b(r, m)?),
            LogicOp::Land => match eval_b(l, m)? {
                false => Some(false),
                true => eval_b(r, m),
            },
            LogicOp::Lor => match eval_b(l, m)? {
                true => Some(true),
                false => eval_b(r, m),
            },
        },
    }
}

#[test]
fn failing_guards_never_hold_and_holding_guards_never_fail() {
    for seed in 0..300u64 {
        let mut rng = SmallRng::seed_from_u64(seed);
        let mut cx = InterpreterContext::default();
        cx.memory = InterpreterMemory::from_names(&cx.compiler_context.names, &cx.compiler_context.array_names, &mut rng);
        cx.compiler_context.negation_limit = 4;
        cx.compiler_context.recursion_limit = 4;
        cx.compiler_context.fuel = 4;
        let stuck = gen_bexpr_stuck(&mut cx, &mut rng).unwrap();
        assert_ne!(eval_b(&stuck, &cx.memory), Some(true), "seed {seed}: {stuck:?}");
        cx.compiler_context.negation_limit = 4;
        cx.compiler_context.recursion_limit = 4;
        let holding = gen_bexpr_nondet(&mut cx, &mut rng).unwrap();
        assert_ne!(eval_b(&holding, &cx.memory), Some(false), "seed {seed}: {holding:?}");
    }
}

#[test]
fn level_zero_and_no_targets_give_skip_without_fuel() {
    for seed in 0..20u64 {
        let mut rng = SmallRng::seed_from_u64(seed);
        let mut cx = InterpreterContext::default();
        cx.level = 0;
        cx.compiler_context.fuel = 1;
        let (Commands(cmds), _) = generate_selective(&mut cx, &mut rng).unwrap();
        assert!(!cmds.is_empty() && cmds.iter().all(|c| matches!(c, Command::Skip)), "seed {seed}");

        let mut cx = InterpreterContext::default();
        cx.compiler_context.names.clear();
        cx.compiler_context.set_no_arrays(true);
        cx.compiler_context.fuel = 1;
        let c = lvl_assignment().generate(&mut cx, &mut rng).unwrap();
        assert!(matches!(c.0.as_slice(), [Command::Skip]), "seed {seed}");
        assert_eq!(cx.compiler_context.fuel, 0);
    }
}

#[test]
fn guards_are_built_from_their_parts_by_kind() {
    let f = || BExpr::Bool(false);
    let t = || BExpr::Bool(true);
    let x = || BExpr::Rel(var("x"), RelOp::Lt, num(3));
    let not = |b: BExpr| BExpr::Not(Box::new(b));
    let logic = |l: BExpr, op: LogicOp, r: BExpr| BExpr::Logic(Box::new(l), op, Box::new(r));
    assert_same(build_stuck_guard(StuckChoice::False, x(), x(), x()), f());
    assert_same(build_stuck_guard(StuckChoice::NotTrue, x(), x(), x()), not(t()));
    assert_same(build_stuck_guard(StuckChoice::DoubleNegation, f(), t(), x()), not(not(f())));
    assert_same(build_stuck_guard(StuckChoice::AnyLandStuck, f(), t(), x()), logic(x(), LogicOp::Land, f()));
    assert_same(build_stuck_guard(StuckChoice::StuckOrStuck, f(), t(), x()), logic(f(), LogicOp::Or, t()));
    assert_same(build_stuck_guard(StuckChoice::Relation, x(), t(), f()), x());
    assert_same(build_nondet_guard(NondetChoice::True, x(), x(), x()), t());
    assert_same(build_nondet_guard(NondetChoice::NotStuck, t(), f(), x()), not(f()));
    assert_same(build_nondet_guard(NondetChoice::AnyOrNondet, t(), f(), x()), logic(x(), LogicOp::Or, t()));
    assert_same(build_nondet_guard(NondetChoice::NondetLorStuck, t(), f(), x()), logic(t(), LogicOp::Lor, f()));
}
