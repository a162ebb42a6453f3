use frospy::cps::{expr_cps, CpsError, ExprCPS};
use frospy::parser::{Expr, Span};

fn sp() -> Span {
    0..0
}

fn atom(s: &str) -> Expr {
    Expr::Atom(s.to_string(), sp())
}

fn ilit(i: i64) -> Expr {
    Expr::Integer(i, sp())
}

fn group(es: Vec<Expr>) -> Expr {
    Expr::Thunk(es, sp())
}

fn alit(s: &str) -> ExprCPS {
    ExprCPS::AtomLiteral(s.to_string(), sp())
}

fn terminate_cont() -> ExprCPS {
    ExprCPS::Thunk(vec![ExprCPS::Terminate], sp())
}

// The empty program becomes a bare jump to the terminating continuation.
#[test]
fn transform_of_empty_program() {
    let r = expr_cps(&[]).unwrap();
    assert_eq!(r, vec![terminate_cont(), ExprCPS::ForceCCBare(sp())]);
}

// A group with no forcing call compiles to end in a bare force.
#[test]
fn bare_group_ends_in_bare_force() {
    let r = expr_cps(&[ilit(1)]).unwrap();
    assert_eq!(
        r,
        vec![
            ExprCPS::IntegerLiteral(1, sp()),
            terminate_cont(),
            ExprCPS::ForceCCBare(sp()),
        ]
    );
}

// A group whose last operation is a force compiles to a tail call through
// the ambient continuation: no continuation group is made for it.
#[test]
fn tail_force_reuses_the_continuation() {
    let r = expr_cps(&[group(vec![ilit(1)]), atom("force")]).unwrap();
    assert_eq!(
        r,
        vec![
            ExprCPS::Thunk(
                vec![
                    alit("k#0"),
                    ExprCPS::Pop(sp()),
                    ExprCPS::IntegerLiteral(1, sp()),
                    alit("k#0"),
                    ExprCPS::Push(sp()),
                    ExprCPS::ForceCCBare(sp()),
                ],
                sp()
            ),
            terminate_cont(),
            ExprCPS::ForceCC(sp()),
        ]
    );
}

// A mid-body force wraps everything after it as exactly one fresh
// continuation group.
#[test]
fn mid_force_allocates_one_continuation_group() {
    let r = expr_cps(&[group(vec![ilit(1)]), atom("force"), ilit(5)]).unwrap();
    assert_eq!(
        r,
        vec![
            ExprCPS::Thunk(
                vec![
                    alit("k#0"),
                    ExprCPS::Pop(sp()),
                    ExprCPS::IntegerLiteral(1, sp()),
                    alit("k#0"),
                    ExprCPS::Push(sp()),
                    ExprCPS::ForceCCBare(sp()),
                ],
                sp()
            ),
            ExprCPS::Thunk(
                vec![
                    ExprCPS::IntegerLiteral(5, sp()),
                    terminate_cont(),
                    ExprCPS::ForceCCBare(sp()),
                ],
                sp()
            ),
            ExprCPS::ForceCC(sp()),
        ]
    );
}

// Sugar: `quote x pop` binds, `quote x push` looks up, a bare atom forces
// its binding.
#[test]
fn desugaring_of_quote_forms() {
    let r = expr_cps(&[atom("quote"), atom("x"), atom("pop")]).unwrap();
    assert_eq!(
        r,
        vec![
            alit("x"),
            ExprCPS::Pop(sp()),
            terminate_cont(),
            ExprCPS::ForceCCBare(sp()),
        ]
    );
    let r2 = expr_cps(&[atom("quote"), ilit(7)]).unwrap();
    assert_eq!(
        r2,
        vec![
            ExprCPS::IntegerLiteral(7, sp()),
            terminate_cont(),
            ExprCPS::ForceCCBare(sp()),
        ]
    );
}

// A quote with nothing to quote is reported at the quote's span.
#[test]
fn bare_quote_is_an_error() {
    let r = expr_cps(&[ilit(1), Expr::Atom("quote".to_string(), 3..8)]);
    assert_eq!(r, Err(CpsError::BareQuote(3..8)));
}

// A quoted group is refused, at the group's span.
#[test]
fn quoted_group_is_an_error() {
    let r = expr_cps(&[atom("quote"), Expr::Thunk(vec![], 5..9)]);
    assert_eq!(r, Err(CpsError::QuoteThunk(5..9)));
}

// Each nested group gets its own fresh continuation name.
#[test]
fn fresh_names_count_up() {
    let r = expr_cps(&[group(vec![]), group(vec![])]).unwrap();
    match (&r[0], &r[1]) {
        (ExprCPS::Thunk(a, _), ExprCPS::Thunk(b, _)) => {
            assert_eq!(a[0], alit("k#0"));
            assert_eq!(b[0], alit("k#1"));
        },
        _ => panic!("expected two groups"),
    }
}
