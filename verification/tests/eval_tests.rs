use frospy::eval::{cswap, eval, Env, EvalError, Value};
use frospy::parser::Expr;

fn atom(s: &str) -> Expr {
    Expr::Atom(s.to_string(), 0..0)
}

fn ilit(i: i64) -> Expr {
    Expr::Integer(i, 0..0)
}

fn group(es: Vec<Expr>) -> Expr {
    Expr::Thunk(es, 0..0)
}

// quote <name> pop
fn bind(name: &str) -> Vec<Expr> {
    vec![atom("quote"), atom(name), atom("pop")]
}

// quote <name> push
fn lookup(name: &str) -> Vec<Expr> {
    vec![atom("quote"), atom(name), atom("push")]
}

fn seq_of(parts: Vec<Vec<Expr>>) -> Vec<Expr> {
    parts.into_iter().flatten().collect()
}

#[test]
fn test_cswap() {
    let mut stack = vec![
        Value::Integer(2),
        Value::Integer(1),
        Value::Atom("t".to_string()),
    ];
    cswap(&mut Env::new(), &mut stack).unwrap();

    assert_eq!(stack, vec![Value::Integer(1), Value::Integer(2)]);

    let mut stack = vec![
        Value::Integer(2),
        Value::Integer(1),
        Value::Atom("f".to_string()),
    ];
    cswap(&mut Env::new(), &mut stack).unwrap();

    assert_eq!(stack, vec![Value::Integer(2), Value::Integer(1)]);
}

// 1 $test (^test) $f 2 $test ^f force ^test
#[test]
fn test_binding() {
    let e = seq_of(vec![
        vec![ilit(1)],
        bind("test"),
        vec![group(lookup("test"))],
        bind("f"),
        vec![ilit(2)],
        bind("test"),
        lookup("f"),
        vec![atom("force")],
        lookup("test"),
    ]);

    assert_eq!(
        eval(&e).unwrap(),
        vec![Value::Integer(1), Value::Integer(2)]
    );
}

// (
//   ($x $y ^x) $true
//   ($x $y ^y) $false
//   ($p $x $y ^y ^x p) $if
//   2 1 ^true if
// ) force
#[test]
fn test_if() {
    let true_body = seq_of(vec![bind("x"), bind("y"), lookup("x")]);
    let false_body = seq_of(vec![bind("x"), bind("y"), lookup("y")]);
    let if_body = seq_of(vec![
        bind("p"),
        bind("x"),
        bind("y"),
        lookup("y"),
        lookup("x"),
        vec![atom("p")],
    ]);
    let body = seq_of(vec![
        vec![group(true_body)],
        bind("true"),
        vec![group(false_body)],
        bind("false"),
        vec![group(if_body)],
        bind("if"),
        vec![ilit(2), ilit(1)],
        lookup("true"),
        vec![atom("if")],
    ]);
    let e = vec![group(body), atom("force")];

    assert_eq!(eval(&e).unwrap(), vec![Value::Integer(1)]);
}

#[test]
fn eval_reports_unbound_names_with_their_span() {
    let e = vec![Expr::Atom("missing".to_string(), 4..11)];
    let st = eval(&e).unwrap_err();
    assert_eq!(st.error, EvalError::Unbound("missing".to_string()));
    assert_eq!(st.stack, vec![4..11]);
}

#[test]
fn eval_collects_a_span_trace_through_nested_closures() {
    // ( missing ) $f ^f force — the fault crosses the force's span.
    let e = seq_of(vec![
        vec![group(vec![Expr::Atom("missing".to_string(), 2..9)])],
        bind("f"),
        lookup("f"),
        vec![Expr::Atom("force".to_string(), 20..25)],
    ]);
    let st = eval(&e).unwrap_err();
    assert_eq!(st.error, EvalError::Unbound("missing".to_string()));
    assert_eq!(st.stack, vec![2..9, 20..25]);
}

#[test]
fn eval_depth_budget_is_bounded_unlike_the_trampoline() {
    // a closure that forces itself: the recursive evaluator gives up,
    // where the trampoline loops in constant space
    let e = seq_of(vec![
        vec![group(seq_of(vec![
            bind("s"),
            lookup("s"),
            lookup("s"),
            vec![atom("force")],
        ]))],
        bind("l"),
        lookup("l"),
        lookup("l"),
        vec![atom("force")],
    ]);
    let st = eval(&e).unwrap_err();
    assert_eq!(st.error, EvalError::RecursionLimit);
}

#[test]
fn eval_type_errors() {
    // forcing an integer
    let st = eval(&seq_of(vec![
        vec![ilit(3)],
        bind("x"),
        vec![atom("x")],
    ]))
    .unwrap_err();
    assert_eq!(st.error, EvalError::InvalidApply("integer".to_string()));
    // incrementing an atom
    let st2 = eval(&vec![atom("quote"), atom("y"), atom("inc")]).unwrap_err();
    assert_eq!(
        st2.error,
        EvalError::TypeMismatch("integer".to_string(), "atom".to_string())
    );
    // quote with nothing following
    let st3 = eval(&vec![ilit(1), atom("quote")]).unwrap_err();
    assert_eq!(st3.error, EvalError::BareQuote);
    // popping from an empty stack
    let st4 = eval(&vec![atom("inc")]).unwrap_err();
    assert_eq!(st4.error, EvalError::PopEmpty);
}
