use ce_core::ast::{AExpr, AOp, Array, BExpr, Command, Commands, Guard, LogicOp, RelOp, Target, Variable};
use ce_core::coverage::{compiler_input_new_gen, to_fsharp_compiler_json, Determinism};

fn var(name: &str) -> Target {
    Target::Variable(Variable(name.to_string()))
}

fn num(n: i32) -> AExpr {
    AExpr::Number(n)
}

fn sample_program() -> Commands {
    Commands(vec![
        Command::Assignment(var("x"), AExpr::Binary(Box::new(num(1)), AOp::Plus, Box::new(num(2)))),
        Command::Loop(vec![
            Guard(
                BExpr::Rel(AExpr::Reference(var("x")), RelOp::Lt, num(-3)),
                Commands(vec![Command::Assignment(
                    Target::Array(Array("A".to_string()), Box::new(num(0))),
                    AExpr::Minus(Box::new(num(4))),
                )]),
            ),
            Guard(BExpr::Not(Box::new(BExpr::Bool(true))), Commands(vec![Command::Skip])),
        ]),
    ])
}

#[test]
fn program_prints_in_gcl_syntax() {
    assert_eq!(
        sample_program().to_gcl_string(),
        "x := (1 + 2) ;\ndo x < -3 ->\nA[0] := -(4)\n[] !(true) ->\nskip od"
    );
}

#[test]
fn operators_and_conditionals_print_fully_parenthesised() {
    let c = Commands(vec![Command::If(vec![Guard(
        BExpr::Logic(
            Box::new(BExpr::Rel(
                AExpr::Binary(Box::new(num(2)), AOp::Pow, Box::new(num(10))),
                RelOp::Ge,
                AExpr::Binary(Box::new(num(-7)), AOp::Divide, Box::new(num(3))),
            )),
            LogicOp::Lor,
            Box::new(BExpr::Rel(
                AExpr::Binary(Box::new(num(6)), AOp::Times, Box::new(num(0))),
                RelOp::Ne,
                AExpr::Binary(Box::new(num(5)), AOp::Minus, Box::new(num(1))),
            )),
        ),
        Commands(vec![Command::Skip, Command::Skip]),
    )])]);
    assert_eq!(
        c.to_gcl_string(),
        "if ((2 ^ 10) >= (-7 / 3) || (6 * 0) != (5 - 1)) ->\nskip ;\nskip fi"
    );
}

#[test]
fn extreme_numbers_print_in_decimal() {
    let c = Commands(vec![
        Command::Assignment(var("a"), num(i32::MIN)),
        Command::Assignment(var("b"), num(i32::MAX)),
        Command::Assignment(var("c"), num(0)),
    ]);
    assert_eq!(c.to_gcl_string(), "a := -2147483648 ;\nb := 2147483647 ;\nc := 0");
}

#[test]
fn compiler_json_escapes_its_quotes() {
    assert_eq!(
        to_fsharp_compiler_json(&sample_program(), Determinism::Deterministic),
        r#"{\"commands\":\"x := (1 + 2) ;\ndo x < -3 ->\nA[0] := -(4)\n[] !(true) ->\nskip od\",\"determinism\":\"Deterministic\"}"#
    );
}

#[test]
fn compiler_json_names_nondeterminism() {
    let c = Commands(vec![Command::Skip]);
    assert_eq!(
        to_fsharp_compiler_json(&c, Determinism::NonDeterministic),
        r#"{\"commands\":\"skip\",\"determinism\":\"NonDeterministic\"}"#
    );
}

#[test]
fn compiler_json_escapes_quotes_backslashes_and_controls_in_names() {
    let c = Commands(vec![Command::Assignment(var("q\"\\\t"), num(1))]);
    assert_eq!(
        to_fsharp_compiler_json(&c, Determinism::Deterministic),
        r#"{\"commands\":\"q\\"\\\t := 1\",\"determinism\":\"Deterministic\"}"#
    );
}

#[test]
fn compiler_input_is_for_the_compiler_and_repeatable() {
    for seed in 0..50usize {
        let (env, json) = compiler_input_new_gen(seed);
        assert_eq!(env, "Compiler");
        assert!(json.starts_with(r#"{\"commands\":\""#), "{json}");
        assert!(
            json.ends_with(r#"\",\"determinism\":\"Deterministic\"}"#)
                || json.ends_with(r#"\",\"determinism\":\"NonDeterministic\"}"#),
            "{json}"
        );
        assert_eq!(compiler_input_new_gen(seed), (env, json));
    }
}
