use frospy::compiler::{compile_to_table, ExprCPSRef};
use frospy::runtime::{builtin_force_cc, builtin_inc, make_env, Frame, Native, ThunkRef};
use frospy::parser::Expr;
use frospy::runtime::{run_program, RunOutcome, RuntimeError, Value};

fn atom(s: &str) -> Expr {
    Expr::Atom(s.to_string(), 0..0)
}

fn ilit(i: i64) -> Expr {
    Expr::Integer(i, 0..0)
}

fn group(es: Vec<Expr>) -> Expr {
    Expr::Thunk(es, 0..0)
}

fn compile_table(src: &[Expr]) -> Vec<Vec<ExprCPSRef>> {
    compile_to_table(src).unwrap()
}

fn run(src: &[Expr], steps: usize) -> (RunOutcome, Vec<Value>) {
    run_program(&compile_table(src), steps)
}

fn ints(vs: &[Value]) -> Vec<i64> {
    vs.iter().map(|v| v.get_integer().expect("integer")).collect()
}

// Every block reference in a flattened table resolves, and the entry block
// is the one row at index zero.
#[test]
fn flattening_is_total() {
    let src = vec![
        group(vec![group(vec![ilit(1)]), atom("force")]),
        group(vec![]),
        atom("force"),
        ilit(9),
    ];
    let prog = compile_table(&src);
    assert!(prog.len() >= 1);
    for row in prog.iter() {
        for ins in row.iter() {
            if let ExprCPSRef::ThunkRef(t) = ins {
                assert!(1 <= t.0 && t.0 < prog.len());
            }
        }
        // no block falls off its end: each ends in a control transfer
        assert!(matches!(
            row.last(),
            Some(ExprCPSRef::ForceByCC) | Some(ExprCPSRef::ForceByCCBare) | Some(ExprCPSRef::Terminate)
        ));
    }
}

// Bind x=1, capture a closure returning x under f, rebind x=2, force f,
// read x: the closure observes the environment captured at its creation.
#[test]
fn closure_captures_its_environment() {
    let src = vec![
        ilit(1),
        atom("quote"),
        atom("x"),
        atom("pop"),
        group(vec![atom("quote"), atom("x"), atom("push")]),
        atom("quote"),
        atom("f"),
        atom("pop"),
        ilit(2),
        atom("quote"),
        atom("x"),
        atom("pop"),
        atom("quote"),
        atom("f"),
        atom("push"),
        atom("force"),
        atom("quote"),
        atom("x"),
        atom("push"),
    ];
    let (outcome, _) = run(&src, 10_000);
    match outcome {
        RunOutcome::Done(stack) => assert_eq!(ints(&stack), vec![1, 2]),
        other => panic!("run did not finish: {:?}", other),
    }
}

fn increment_print_loop() -> Vec<Expr> {
    // ( $s $n ^n println ^n inc ^s ^s force ) $l 0 ^l ^l force
    let body = vec![
        atom("quote"), atom("s"), atom("pop"),
        atom("quote"), atom("n"), atom("pop"),
        atom("quote"), atom("n"), atom("push"),
        atom("println"),
        atom("quote"), atom("n"), atom("push"),
        atom("inc"),
        atom("quote"), atom("s"), atom("push"),
        atom("quote"), atom("s"), atom("push"),
        atom("force"),
    ];
    vec![
        group(body),
        atom("quote"), atom("l"), atom("pop"),
        ilit(0),
        atom("quote"), atom("l"), atom("push"),
        atom("quote"), atom("l"), atom("push"),
        atom("force"),
    ]
}

// An increment-and-print loop that forces itself in tail position prints
// 0, 1, 2, … in order; fifty iterations complete without any error.
#[test]
fn self_forcing_loop_prints_in_order() {
    let (outcome, out) = run(&increment_print_loop(), 50 * 40);
    assert!(matches!(outcome, RunOutcome::OutOfSteps));
    assert!(out.len() >= 50);
    for (k, v) in out.iter().take(50).enumerate() {
        assert_eq!(v.get_integer(), Some(k as i64));
    }
}

// Tail calls do not grow anything: ten thousand iterations run in bounded
// space, each frame replacement reusing the caller's continuation. The
// dispatch loop never recurses, so the host call stack stays flat.
#[test]
fn tail_calls_run_bounded_for_ten_thousand_iterations() {
    let (outcome, out) = run(&increment_print_loop(), 10_000 * 40);
    assert!(matches!(outcome, RunOutcome::OutOfSteps));
    assert!(out.len() >= 10_000);
    for (k, v) in out.iter().take(10_000).enumerate() {
        assert_eq!(v.get_integer(), Some(k as i64));
    }
}

// Forcing an unbound atom name aborts with an unbound-name error that
// identifies the name.
#[test]
fn unbound_name_aborts_with_that_name() {
    let (outcome, _) = run(&[atom("zzz")], 1000);
    match outcome {
        RunOutcome::Fail(RuntimeError::Unbound(n)) => assert_eq!(n, "zzz"),
        other => panic!("expected an unbound-name error, got {:?}", other),
    }
}

#[test]
fn runtime_type_errors() {
    // forcing an integer
    let (outcome, _) = run(&[ilit(1), atom("force")], 1000);
    assert!(matches!(outcome, RunOutcome::Fail(RuntimeError::InvalidApply)));
    // binding a non-atom name
    let (outcome2, _) = run(&[ilit(1), ilit(2), atom("pop")], 1000);
    assert!(matches!(outcome2, RunOutcome::Fail(RuntimeError::NotAName)));
    // incrementing an atom
    let (outcome3, _) = run(&[atom("quote"), atom("x"), atom("inc")], 1000);
    assert!(matches!(outcome3, RunOutcome::Fail(RuntimeError::NotAnInteger)));
    // forcing with an empty stack
    let (outcome4, _) = run(&[atom("force")], 1000);
    assert!(matches!(outcome4, RunOutcome::Fail(RuntimeError::PopEmpty)));
}

#[test]
fn malformed_tables_are_fatal() {
    let (outcome, _) = run_program(&Vec::new(), 10);
    assert!(matches!(outcome, RunOutcome::Fail(RuntimeError::DanglingBlockRef)));
    let (outcome2, _) = run_program(&vec![Vec::new()], 10);
    assert!(matches!(outcome2, RunOutcome::Fail(RuntimeError::BlockFellOff)));
}

// ---------------------------------------------------------------------
// Termination-correctness: whenever the reference evaluator finishes with
// some operand stack, compiling through transform, flattening and the
// trampoline finishes with the same stack and the same output.

#[derive(Debug, PartialEq)]
enum Flat {
    I(i64),
    A(String),
    Other,
}

fn flat_e(v: &frospy::eval::Value) -> Flat {
    match v {
        frospy::eval::Value::Integer(i) => Flat::I(*i),
        frospy::eval::Value::Atom(a) => Flat::A(a.clone()),
        _ => Flat::Other,
    }
}

fn flat_t(v: &Value) -> Flat {
    match (v.get_integer(), v.get_name()) {
        (Some(i), _) => Flat::I(i),
        (_, Some(n)) => Flat::A(n.to_string()),
        _ => Flat::Other,
    }
}

fn assert_same_as_oracle(src: &[Expr]) {
    let mut env = frospy::eval::env_with_builtins();
    let mut ostack = Vec::new();
    let mut oout = Vec::new();
    frospy::eval::eval_exprs(src, &mut env, &mut ostack, &mut oout, 256)
        .expect("reference evaluation");

    let (outcome, tout) = run(src, 1_000_000);
    match outcome {
        RunOutcome::Done(tstack) => {
            let a: Vec<Flat> = ostack.iter().map(flat_e).collect();
            let b: Vec<Flat> = tstack.iter().map(flat_t).collect();
            assert_eq!(a, b);
            let ao: Vec<Flat> = oout.iter().map(flat_e).collect();
            let bo: Vec<Flat> = tout.iter().map(flat_t).collect();
            assert_eq!(ao, bo);
        }
        other => panic!("trampoline did not finish: {:?}", other),
    }
}

#[test]
fn trampoline_matches_reference_evaluator() {
    // straight-line literals and quotes
    assert_same_as_oracle(&[ilit(1), ilit(2), atom("quote"), atom("hi")]);
    // binding and lookup
    assert_same_as_oracle(&[
        ilit(41),
        atom("quote"), atom("x"), atom("pop"),
        atom("quote"), atom("x"), atom("push"),
        atom("inc"),
    ]);
    // the capture scenario
    assert_same_as_oracle(&[
        ilit(1),
        atom("quote"), atom("x"), atom("pop"),
        group(vec![atom("quote"), atom("x"), atom("push")]),
        atom("quote"), atom("f"), atom("pop"),
        ilit(2),
        atom("quote"), atom("x"), atom("pop"),
        atom("quote"), atom("f"), atom("push"),
        atom("force"),
        atom("quote"), atom("x"), atom("push"),
    ]);
    // nested groups with mid-body forces and printing
    assert_same_as_oracle(&[
        group(vec![
            ilit(10),
            atom("println"),
            ilit(11),
        ]),
        atom("force"),
        group(vec![group(vec![ilit(7)]), atom("force"), atom("inc")]),
        atom("force"),
    ]);
}

// A native forced with a saved continuation that is not a closure is a
// fatal condition; compiled programs never build such a stack, so the
// force primitive is exercised directly.
#[test]
fn native_with_bad_continuation_is_fatal() {
    let mut stack = vec![
        Value::Integer(5),
        Value::BuiltIn(Native::Inc),
        Value::Integer(9),
    ];
    let mut frame = Frame { tr: ThunkRef(0), env: make_env() };
    let mut out = Vec::new();
    let r = builtin_force_cc(&mut stack, &mut frame, &mut out);
    assert!(matches!(r, Err(RuntimeError::InvalidContinuation)));
    // the native still ran before the fault
    assert_eq!(stack, vec![Value::Integer(6)]);
}

// The increment native wraps around at the top of the integer range.
#[test]
fn increment_wraps_at_the_top() {
    let mut env = make_env();
    let mut stack = vec![Value::Integer(i64::MAX)];
    builtin_inc(&mut env, &mut stack).unwrap();
    assert_eq!(stack, vec![Value::Integer(i64::MIN)]);
}
