use ce_core::ast::{AExpr, AOp, BExpr, Command, Commands, Guard, Target};
use ce_core::compiler_gen::{
    gen_aexpr, gen_aop, gen_bexpr, gen_command, gen_commands, gen_guard, gen_logicop, gen_relop,
    gen_target, CompilerContext,
};
use rand::rngs::SmallRng;
use rand::SeedableRng;

#[derive(Default, Debug)]
struct Uses {
    loops: bool,
    division: bool,
    unary_minus: bool,
    arrays: bool,
    names: Vec<String>,
    array_names: Vec<String>,
}

fn walk_target(t: &Target, u: &mut Uses) {
    match t {
        Target::Variable(v) => u.names.push(v.0.clone()),
        Target::Array(a, idx) => {
            u.arrays = true;
            u.array_names.push(a.0.clone());
            walk_aexpr(idx, u);
        }
    }
}

fn walk_aexpr(e: &AExpr, u: &mut Uses) {
    match e {
        AExpr::Number(_) => {}
        AExpr::Reference(t) => walk_target(t, u),
        AExpr::Binary(l, op, r) => {
            if *op == AOp::Divide {
                u.division = true;
            }
            walk_aexpr(l, u);
            walk_aexpr(r, u);
        }
        AExpr::Minus(inner) => {
            u.unary_minus = true;
            walk_aexpr(inner, u);
        }
    }
}

fn walk_bexpr(b: &BExpr, u: &mut Uses) {
    match b {
        BExpr::Bool(_) => {}
        BExpr::Rel(l, _, r) => {
            walk_aexpr(l, u);
            walk_aexpr(r, u);
        }
        BExpr::Logic(l, _, r) => {
            walk_bexpr(l, u);
            walk_bexpr(r, u);
        }
        BExpr::Not(inner) => walk_bexpr(inner, u),
    }
}

fn walk_guard(g: &Guard, u: &mut Uses) {
    walk_bexpr(&g.0, u);
    walk_commands(&g.1, u);
}

fn walk_command(c: &Command, u: &mut Uses) {
    match c {
        Command::Assignment(t, e) => {
            walk_target(t, u);
            walk_aexpr(e, u);
        }
        Command::Skip => {}
        Command::If(gs) => gs.iter().for_each(|g| walk_guard(g, u)),
        Command::Loop(gs) => {
            u.loops = true;
            gs.iter().for_each(|g| walk_guard(g, u));
        }
    }
}

fn walk_commands(c: &Commands, u: &mut Uses) {
    c.0.iter().for_each(|c| walk_command(c, u));
}

fn uses_of(c: &Commands) -> Uses {
    let mut u = Uses::default();
    walk_commands(c, &mut u);
    u
}

fn strings(names: &[&str]) -> Vec<String> {
    names.iter().map(|s| s.to_string()).collect()
}

#[test]
fn default_context_has_fuel_ten_and_the_default_names() {
    let cx = CompilerContext::default();
    assert_eq!(cx.fuel, 10);
    assert_eq!(cx.recursion_limit, 0);
    assert_eq!(cx.negation_limit, 0);
    assert!(!cx.no_loops && !cx.no_division && !cx.no_unary_minus && !cx.no_arrays);
    assert_eq!(cx.names, strings(&["a", "b", "c", "d"]));
    assert_eq!(cx.array_names, strings(&["A", "B", "C"]));
}

#[test]
fn new_context_uses_fuel_for_both_limits() {
    let mut rng = SmallRng::seed_from_u64(1);
    let cx = CompilerContext::new(7, &mut rng);
    assert_eq!(cx.fuel, 7);
    assert_eq!(cx.recursion_limit, 7);
    assert_eq!(cx.negation_limit, 7);
    assert_eq!(cx.names, strings(&["a", "b", "c", "d"]));
    assert_eq!(cx.array_names, strings(&["A", "B", "C"]));
}

#[test]
fn setters_change_only_their_switch_and_chain() {
    let mut cx = CompilerContext::default();
    cx.set_no_loop(true).set_no_division(true);
    assert!(cx.no_loops);
    assert!(cx.no_division);
    assert!(!cx.no_unary_minus);
    assert!(!cx.no_arrays);
    assert_eq!(cx.fuel, 10);
    cx.set_no_unary_minus(true).set_no_arrays(true).set_no_loop(false);
    assert!(!cx.no_loops);
    assert!(cx.no_unary_minus);
    assert!(cx.no_arrays);
    assert_eq!(cx.names, strings(&["a", "b", "c", "d"]));
}

#[test]
fn use_array_needs_arrays_switched_on_and_named() {
    let mut cx = CompilerContext::default();
    assert!(cx.use_array());
    cx.set_no_arrays(true);
    assert!(!cx.use_array());
    cx.set_no_arrays(false);
    cx.array_names = vec![];
    assert!(!cx.use_array());
}

#[test]
fn switched_off_constructs_never_appear() {
    for seed in 0..300u64 {
        let mut rng = SmallRng::seed_from_u64(seed);
        let mut cx = CompilerContext::new(20, &mut rng);
        cx.set_no_loop(true).set_no_division(true).set_no_unary_minus(true).set_no_arrays(true);
        let c = gen_commands(&mut cx, &mut rng);
        let u = uses_of(&c);
        assert!(!u.loops, "seed {seed}: {c:?}");
        assert!(!u.division, "seed {seed}: {c:?}");
        assert!(!u.unary_minus, "seed {seed}: {c:?}");
        assert!(!u.arrays, "seed {seed}: {c:?}");
    }
}

#[test]
fn generated_programs_use_only_the_context_names() {
    for seed in 0..300u64 {
        let mut rng = SmallRng::seed_from_u64(seed);
        let mut cx = CompilerContext::new(15, &mut rng);
        cx.names = strings(&["x", "y"]);
        cx.array_names = strings(&["Q"]);
        let c = gen_commands(&mut cx, &mut rng);
        let u = uses_of(&c);
        assert!(u.names.iter().all(|n| n == "x" || n == "y"), "seed {seed}: {:?}", u.names);
        assert!(u.array_names.iter().all(|n| n == "Q"), "seed {seed}: {:?}", u.array_names);
    }
}

#[test]
fn all_constructs_appear_when_switched_on() {
    let mut seen = Uses::default();
    for seed in 0..300u64 {
        let mut rng = SmallRng::seed_from_u64(seed);
        let mut cx = CompilerContext::new(20, &mut rng);
        let u = uses_of(&gen_commands(&mut cx, &mut rng));
        seen.loops |= u.loops;
        seen.division |= u.division;
        seen.unary_minus |= u.unary_minus;
        seen.arrays |= u.arrays;
    }
    assert!(seen.loops && seen.division && seen.unary_minus && seen.arrays, "{seen:?}");
}

#[test]
fn gen_commands_draws_one_to_ten_commands_and_spends_fuel() {
    for seed in 0..300u64 {
        let mut rng = SmallRng::seed_from_u64(seed);
        let mut cx = CompilerContext::default();
        cx.fuel = 30;
        let c = gen_commands(&mut cx, &mut rng);
        let n = c.0.len() as u32;
        assert!((1..=10).contains(&n), "seed {seed}: {n}");
        assert!(cx.fuel <= 30 - n, "seed {seed}: fuel {} after {n}", cx.fuel);
    }
}

#[test]
fn gen_commands_without_fuel_draws_a_single_command() {
    for seed in 0..100u64 {
        let mut rng = SmallRng::seed_from_u64(seed);
        let mut cx = CompilerContext::default();
        cx.fuel = 0;
        let c = gen_commands(&mut cx, &mut rng);
        assert_eq!(c.0.len(), 1, "seed {seed}");
        assert_eq!(cx.fuel, 0);
    }
}

#[test]
fn gen_aop_without_division_never_divides() {
    for seed in 0..500u64 {
        let mut rng = SmallRng::seed_from_u64(seed);
        let mut cx = CompilerContext::default();
        cx.set_no_division(true);
        assert_ne!(gen_aop(&mut cx, &mut rng), AOp::Divide, "seed {seed}");
    }
}

#[test]
fn gen_aop_can_draw_every_operator() {
    let mut seen = vec![];
    for seed in 0..500u64 {
        let mut rng = SmallRng::seed_from_u64(seed);
        let mut cx = CompilerContext::default();
        let op = gen_aop(&mut cx, &mut rng);
        if !seen.contains(&op) {
            seen.push(op);
        }
    }
    for op in [AOp::Plus, AOp::Minus, AOp::Times, AOp::Divide, AOp::Pow] {
        assert!(seen.contains(&op), "{op:?} never drawn");
    }
}

#[test]
fn single_generators_keep_the_switches_and_never_add_fuel() {
    for seed in 0..200u64 {
        let mut rng = SmallRng::seed_from_u64(seed);
        let mut cx = CompilerContext::new(8, &mut rng);
        cx.set_no_division(true).set_no_unary_minus(true).set_no_arrays(true);
        let e = gen_aexpr(&mut cx, &mut rng);
        let b = gen_bexpr(&mut cx, &mut rng);
        let t = gen_target(&mut cx, &mut rng);
        let g = gen_guard(&mut cx, &mut rng);
        let c = gen_command(&mut cx, &mut rng);
        let _ = gen_relop(&mut cx, &mut rng);
        let _ = gen_logicop(&mut cx, &mut rng);
        let mut u = Uses::default();
        walk_aexpr(&e, &mut u);
        walk_bexpr(&b, &mut u);
        walk_target(&t, &mut u);
        walk_guard(&g, &mut u);
        walk_command(&c, &mut u);
        assert!(!u.division && !u.unary_minus && !u.arrays, "seed {seed}: {u:?}");
        assert!(cx.fuel <= 8);
        assert!(cx.no_division && cx.no_unary_minus && cx.no_arrays && !cx.no_loops);
    }
}

#[test]
fn commands_and_guards_reset_the_nesting_limits() {
    for seed in 0..100u64 {
        let mut rng = SmallRng::seed_from_u64(seed);
        let mut cx = CompilerContext::new(50, &mut rng);
        cx.recursion_limit = 40;
        cx.negation_limit = 40;
        let _ = gen_command(&mut cx, &mut rng);
        assert!(cx.recursion_limit <= 5 && cx.negation_limit <= 3, "seed {seed}");
        cx.recursion_limit = 40;
        cx.negation_limit = 40;
        let fuel = cx.fuel;
        let g = gen_guard(&mut cx, &mut rng);
        assert!((1..=10).contains(&g.1 .0.len()));
        assert!(cx.recursion_limit <= 5 && cx.negation_limit <= 3, "seed {seed}");
        assert!(fuel == 0 || cx.fuel < fuel, "seed {seed}");
    }
}

#[test]
fn expression_literals_stay_within_a_hundred() {
    fn small(e: &AExpr) -> bool {
        match e {
            AExpr::Number(n) => (-100..=100).contains(n),
            AExpr::Reference(Target::Variable(_)) => true,
            AExpr::Reference(Target::Array(_, idx)) => small(idx),
            AExpr::Binary(l, _, r) => small(l) && small(r),
            AExpr::Minus(inner) => small(inner),
        }
    }
    for seed in 0..200u64 {
        let mut rng = SmallRng::seed_from_u64(seed);
        let mut cx = CompilerContext::new(10, &mut rng);
        let e = gen_aexpr(&mut cx, &mut rng);
        assert!(small(&e), "seed {seed}: {e:?}");
    }
}

fn aexpr_node_count(e: &AExpr) -> u32 {
    match e {
        AExpr::Number(_) => 0,
        AExpr::Reference(Target::Variable(_)) => 0,
        AExpr::Reference(Target::Array(_, idx)) => aexpr_node_count(idx),
        AExpr::Binary(l, _, r) => 1 + aexpr_node_count(l) + aexpr_node_count(r),
        AExpr::Minus(inner) => 1 + aexpr_node_count(inner),
    }
}

fn bexpr_node_count(b: &BExpr) -> u32 {
    match b {
        BExpr::Bool(_) => 0,
        BExpr::Rel(l, _, r) => 1 + aexpr_node_count(l) + aexpr_node_count(r),
        BExpr::Logic(l, _, r) => 1 + bexpr_node_count(l) + bexpr_node_count(r),
        BExpr::Not(inner) => bexpr_node_count(inner),
    }
}

fn bexpr_not_count(b: &BExpr) -> u32 {
    match b {
        BExpr::Bool(_) | BExpr::Rel(..) => 0,
        BExpr::Logic(l, _, r) => bexpr_not_count(l) + bexpr_not_count(r),
        BExpr::Not(inner) => 1 + bexpr_not_count(inner),
    }
}

#[test]
fn nesting_limits_count_the_nodes_drawn() {
    for seed in 0..200u64 {
        let mut rng = SmallRng::seed_from_u64(seed);
        let mut cx = CompilerContext::new(10, &mut rng);
        cx.recursion_limit = 6;
        let e = gen_aexpr(&mut cx, &mut rng);
        assert_eq!(6 - cx.recursion_limit, aexpr_node_count(&e), "seed {seed}: {e:?}");
        cx.recursion_limit = 6;
        cx.negation_limit = 4;
        let b = gen_bexpr(&mut cx, &mut rng);
        assert_eq!(6 - cx.recursion_limit, bexpr_node_count(&b), "seed {seed}: {b:?}");
        assert_eq!(4 - cx.negation_limit, bexpr_not_count(&b), "seed {seed}: {b:?}");
        let g = gen_guard(&mut cx, &mut rng);
        assert!(bexpr_not_count(&g.0) <= 3 && bexpr_node_count(&g.0) <= 5, "seed {seed}");
    }
}

#[test]
fn boolean_expressions_without_limits_are_literals() {
    for seed in 0..50u64 {
        let mut rng = SmallRng::seed_from_u64(seed);
        let mut cx = CompilerContext::default();
        cx.names = vec![];
        cx.array_names = vec![];
        let b = gen_bexpr(&mut cx, &mut rng);
        assert!(matches!(b, BExpr::Bool(_)));
        assert_eq!(cx.recursion_limit, 0);
        assert_eq!(cx.negation_limit, 0);
    }
}

#[test]
fn skip_and_every_kind_of_command_are_drawn() {
    let mut kinds = [false; 4];
    for seed in 0..300u64 {
        let mut rng = SmallRng::seed_from_u64(seed);
        let mut cx = CompilerContext::new(20, &mut rng);
        match gen_command(&mut cx, &mut rng) {
            Command::Assignment(..) => kinds[0] = true,
            Command::Skip => kinds[1] = true,
            Command::If(_) => kinds[2] = true,
            Command::Loop(_) => kinds[3] = true,
        }
    }
    assert_eq!(kinds, [true; 4]);
}

#[test]
fn contexts_are_made_without_drawing() {
    let mut rng = SmallRng::seed_from_u64(4);
    let before = rng.clone();
    let _ = CompilerContext::new(3, &mut rng);
    assert_eq!(rng, before);
}
