//! The surface syntax: expressions and their source spans.
//!
//! An expression is an integer literal, an atom, or a parenthesized group
//! (a thunk). Atoms may carry one of three sigils, which are sugar for a
//! `quote` followed by the atom and an optional `pop` or `push`.

use vstd::prelude::*;

verus! {

/// The sigil in front of an atom: `'x`, `$x` or `^x`.
#[derive(Debug, Clone, Copy, PartialEq, Eq, Hash, Structural)]
pub enum AtomMod {
    Quote,
    QuotePop,
    QuotePush,
}

/// A half-open range of character positions in the source text.
pub type Span = std::ops::Range<usize>;

/// The span from the start of `s1` to the end of `s2`.
pub open spec fn span_combine_g(s1: Span, s2: Span) -> Span {
    Span { start: s1.start, end: s2.end }
}

/// The empty span generated expressions carry.
pub open spec fn dummy_span_g() -> Span {
    Span { start: 0, end: 0 }
}

/// The span from the start of `s1` to the end of `s2`.
pub fn span_combine(s1: &Span, s2: &Span) -> (r: Span)
    ensures
        r == span_combine_g(*s1, *s2),
{
    s1.start..s2.end
}

/// The empty span at position zero, for generated expressions.
pub fn dummy_span() -> (r: Span)
    ensures
        r == dummy_span_g(),
{
    0..0
}

/// The empty span at the start of `s`.
pub fn span_start_span(s: &Span) -> (r: Span)
    ensures
        r.start == s.start,
        r.end == s.start,
{
    s.start..s.start
}

/// The empty span at the end of `s`.
pub fn span_end_span(s: &Span) -> (r: Span)
    ensures
        r.start == s.end,
        r.end == s.end,
{
    s.end..s.end
}

/// A parsed expression.
#[derive(Debug)]
pub enum Expr {
    Integer(i64, Span),
    Atom(String, Span),
    Thunk(Vec<Expr>, Span),
}

/// The mathematical shape of an expression: atom names as character
/// sequences, thunk bodies as sequences of shapes.
pub ghost enum ExprG {
    Integer(i64, Span),
    Atom(Seq<char>, Span),
    Thunk(Seq<ExprG>, Span),
}

/// The shape of one expression.
pub open spec fn expr_deep_view(e: Expr) -> ExprG
    decreases e,
{
    match e {
        Expr::Integer(i, s) => ExprG::Integer(i, s),
        Expr::Atom(a, s) => ExprG::Atom(a@, s),
        Expr::Thunk(es, s) => ExprG::Thunk(exprs_deep_view(es@), s),
    }
}

/// The shapes of a sequence of expressions, elementwise.
pub open spec fn exprs_deep_view(s: Seq<Expr>) -> Seq<ExprG>
    decreases s,
{
    if s.len() == 0 {
        Seq::empty()
    } else {
        seq![expr_deep_view(s[0])] + exprs_deep_view(s.drop_first())
    }
}

/// Elementwise shape of a sequence, as indexed facts.
pub proof fn lemma_exprs_deep_view(s: Seq<Expr>)
    ensures
        exprs_deep_view(s).len() == s.len(),
        forall|k: int| 0 <= k < s.len() ==> exprs_deep_view(s)[k] == expr_deep_view(#[trigger] s[k]),
    decreases s,
{
    if s.len() > 0 {
        lemma_exprs_deep_view(s.drop_first());
        assert forall|k: int| 0 <= k < s.len() implies exprs_deep_view(s)[k] == expr_deep_view(#[trigger] s[k]) by {
            if k > 0 {
                assert(s.drop_first()[k - 1] == s[k]);
                assert(exprs_deep_view(s)[k] == exprs_deep_view(s.drop_first())[k - 1]);
            }
        }
    }
}

impl DeepView for Expr {
    type V = ExprG;

    open spec fn deep_view(&self) -> ExprG {
        expr_deep_view(*self)
    }
}

impl Expr {
    /// The source span the expression covers.
    pub fn get_span(&self) -> (r: &Span)
        ensures
            *r == self.spec_span(),
    {
        match self {
            Expr::Integer(_, s) => s,
            Expr::Atom(_, s) => s,
            Expr::Thunk(_, s) => s,
        }
    }

    /// The span field, at the specification level.
    pub open spec fn spec_span(&self) -> Span {
        match self {
            Expr::Integer(_, s) => *s,
            Expr::Atom(_, s) => *s,
            Expr::Thunk(_, s) => *s,
        }
    }
}

/// A thunk's shape is the elementwise shape of its body.
pub proof fn lemma_thunk_deep_view(v: Vec<Expr>, s: Span)
    ensures
        Expr::Thunk(v, s).deep_view() == ExprG::Thunk(v.deep_view(), s),
{
    lemma_exprs_deep_view(v@);
    assert(exprs_deep_view(v@) =~= v.deep_view());
}

fn span_eq(a: &Span, b: &Span) -> (r: bool)
    ensures
        r == (a.start == b.start && a.end == b.end),
{
    a.start == b.start && a.end == b.end
}

/// Structural equality of two expressions, including their spans.
#[verifier::loop_isolation(false)]
fn expr_eq(a: &Expr, b: &Expr) -> (r: bool)
    ensures
        r == (a.deep_view() == b.deep_view()),
    decreases a,
{
    match (a, b) {
        (Expr::Integer(i, s), Expr::Integer(j, t)) => *i == *j && span_eq(s, t),
        (Expr::Atom(x, s), Expr::Atom(y, t)) => {
            let names_eq: bool = (*x) == (*y);
            names_eq && span_eq(s, t)
        },
        (Expr::Thunk(v, s), Expr::Thunk(w, t)) => {
            proof {
                assert(*a == Expr::Thunk(*v, *s));
                assert(*b == Expr::Thunk(*w, *t));
                lemma_thunk_deep_view(*v, *s);
                lemma_thunk_deep_view(*w, *t);
            }
            if !span_eq(s, t) {
                return false;
            }
            if v.len() != w.len() {
                proof {
                    assert(v.deep_view().len() == v@.len());
                    assert(w.deep_view().len() == w@.len());
                }
                return false;
            }
            let mut k: usize = 0;
            while k < v.len()
                invariant
                    k <= v@.len(),
                    v@.len() == w@.len(),
                    forall|m: int| 0 <= m < k ==> #[trigger] v@[m].deep_view() == w@[m].deep_view(),
                decreases v@.len() - k,
            {
                if !expr_eq(&v[k], &w[k]) {
                    proof {
                        assert(v.deep_view()[k as int] != w.deep_view()[k as int]);
                    }
                    return false;
                }
                k = k + 1;
            }
            proof {
                assert(v.deep_view() =~= w.deep_view());
            }
            true
        },
        _ => false,
    }
}

impl PartialEq for Expr {
    fn eq(&self, other: &Self) -> (r: bool) {
        expr_eq(self, other)
    }
}

impl vstd::std_specs::cmp::PartialEqSpecImpl for Expr {
    open spec fn obeys_eq_spec() -> bool {
        true
    }

    open spec fn eq_spec(&self, other: &Self) -> bool {
        self.deep_view() == other.deep_view()
    }
}

fn span_copy(s: &Span) -> (r: Span)
    ensures
        r == *s,
{
    s.start..s.end
}

/// A structural copy of the expression.
#[verifier::loop_isolation(false)]
fn expr_clone(e: &Expr) -> (r: Expr)
    ensures
        r.deep_view() == e.deep_view(),
    decreases e,
{
    match e {
        Expr::Integer(i, s) => Expr::Integer(*i, span_copy(s)),
        Expr::Atom(a, s) => Expr::Atom(a.clone(), span_copy(s)),
        Expr::Thunk(v, s) => {
            let mut w: Vec<Expr> = Vec::new();
            let mut k: usize = 0;
            while k < v.len()
                invariant
                    k <= v@.len(),
                    w@.len() == k,
                    forall|m: int| 0 <= m < k ==> #[trigger] w@[m].deep_view() == v@[m].deep_view(),
                decreases v@.len() - k,
            {
                w.push(expr_clone(&v[k]));
                k = k + 1;
            }
            let r = Expr::Thunk(w, span_copy(s));
            proof {
                lemma_thunk_deep_view(w, *s);
                lemma_thunk_deep_view(*v, *s);
                assert(w.deep_view() =~= v.deep_view());
            }
            r
        },
    }
}

impl Clone for Expr {
    /// The clone has the same shape: same literals, names, spans and nesting.
    fn clone(&self) -> (r: Self)
        ensures
            r.deep_view() == self.deep_view(),
    {
        expr_clone(self)
    }
}

} // verus!
