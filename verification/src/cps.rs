//! The continuation-passing transform.
//!
//! Source expressions are first desugared into the transformed expression
//! form (quotes become literals, a bare atom becomes literal-push-force),
//! then every group is rewritten so that control transfer is explicit: a
//! tail force reuses the enclosing continuation, a mid-body force wraps the
//! remaining instructions as a fresh continuation group, and a group
//! without any force returns to its continuation with a bare force.

use vstd::prelude::*;
use crate::parser::{Expr, ExprG, Span, dummy_span, dummy_span_g, expr_deep_view, exprs_deep_view, lemma_exprs_deep_view, span_combine, span_combine_g};
use crate::runtime::str_eq;

verus! {

/// A transformed expression: the source shapes plus explicit control.
#[derive(Debug, PartialEq)]
pub enum ExprCPS {
    IntegerLiteral(i64, Span),
    AtomLiteral(String, Span),
    Thunk(Vec<ExprCPS>, Span),
    Force(Span),
    ForceCC(Span),
    ForceCCBare(Span),
    Terminate,
    Pop(Span),
    Push(Span),
}

/// The shape of a transformed expression, names as character sequences.
pub ghost enum ExprCPSG {
    IntegerLiteral(i64, Span),
    AtomLiteral(Seq<char>, Span),
    Thunk(Seq<ExprCPSG>, Span),
    Force(Span),
    ForceCC(Span),
    ForceCCBare(Span),
    Terminate,
    Pop(Span),
    Push(Span),
}

/// The shape of one transformed expression.
pub open spec fn cps_deep_view(e: ExprCPS) -> ExprCPSG
    decreases e,
{
    match e {
        ExprCPS::IntegerLiteral(i, s) => ExprCPSG::IntegerLiteral(i, s),
        ExprCPS::AtomLiteral(a, s) => ExprCPSG::AtomLiteral(a@, s),
        ExprCPS::Thunk(es, s) => ExprCPSG::Thunk(cpss_deep_view(es@), s),
        ExprCPS::Force(s) => ExprCPSG::Force(s),
        ExprCPS::ForceCC(s) => ExprCPSG::ForceCC(s),
        ExprCPS::ForceCCBare(s) => ExprCPSG::ForceCCBare(s),
        ExprCPS::Terminate => ExprCPSG::Terminate,
        ExprCPS::Pop(s) => ExprCPSG::Pop(s),
        ExprCPS::Push(s) => ExprCPSG::Push(s),
    }
}

/// The shapes of a sequence of transformed expressions, elementwise.
pub open spec fn cpss_deep_view(s: Seq<ExprCPS>) -> Seq<ExprCPSG>
    decreases s,
{
    if s.len() == 0 {
        Seq::empty()
    } else {
        seq![cps_deep_view(s[0])] + cpss_deep_view(s.drop_first())
    }
}

/// Elementwise shape of a sequence, as indexed facts.
pub proof fn lemma_cpss_deep_view(s: Seq<ExprCPS>)
    ensures
        cpss_deep_view(s).len() == s.len(),
        forall|k: int| 0 <= k < s.len() ==> cpss_deep_view(s)[k] == cps_deep_view(#[trigger] s[k]),
    decreases s,
{
    if s.len() > 0 {
        lemma_cpss_deep_view(s.drop_first());
        assert forall|k: int| 0 <= k < s.len() implies cpss_deep_view(s)[k]
            == cps_deep_view(#[trigger] s[k]) by {
            if k > 0 {
                assert(s.drop_first()[k - 1] == s[k]);
                assert(cpss_deep_view(s)[k] == cpss_deep_view(s.drop_first())[k - 1]);
            }
        }
    }
}

impl DeepView for ExprCPS {
    type V = ExprCPSG;

    open spec fn deep_view(&self) -> ExprCPSG {
        cps_deep_view(*self)
    }
}

/// Relies on the derived Clone of std's Range, which clones the two bounds.
pub assume_specification<Idx: Clone>[ <std::ops::Range<Idx> as Clone>::clone ](
    r: &std::ops::Range<Idx>,
) -> (res: std::ops::Range<Idx>)
    ensures
        cloned::<Idx>(r.start, res.start),
        cloned::<Idx>(r.end, res.end),
;

/// A transform-time fault: a `quote` with nothing to quote, or a quoted
/// group, each tied to the offending source span.
#[derive(Debug, Clone, PartialEq)]
pub enum CpsError {
    BareQuote(Span),
    QuoteThunk(Span),
}

/// The size of one expression: the node count, for termination measures.
pub open spec fn cps_size(e: ExprCPSG) -> nat
    decreases e,
{
    match e {
        ExprCPSG::Thunk(es, _) => 1 + cps_size_seq(es),
        _ => 1,
    }
}

/// The total size of a sequence of expressions.
pub open spec fn cps_size_seq(s: Seq<ExprCPSG>) -> nat
    decreases s,
{
    if s.len() == 0 {
        0
    } else {
        cps_size(s[0]) + cps_size_seq(s.drop_first())
    }
}

/// The decimal digit character for a value below ten.
pub open spec fn dec_digit(d: nat) -> char {
    if d == 0 {
        '0'
    } else if d == 1 {
        '1'
    } else if d == 2 {
        '2'
    } else if d == 3 {
        '3'
    } else if d == 4 {
        '4'
    } else if d == 5 {
        '5'
    } else if d == 6 {
        '6'
    } else if d == 7 {
        '7'
    } else if d == 8 {
        '8'
    } else {
        '9'
    }
}

/// The decimal digits of a number, most significant first.
pub open spec fn dec_digits(n: nat) -> Seq<char>
    decreases n,
{
    if n < 10 {
        seq![dec_digit(n)]
    } else {
        dec_digits(n / 10) + seq![dec_digit(n % 10)]
    }
}

/// The generated continuation name for counter value `n`. The marker
/// character cannot occur in a parsed atom, so generated names never
/// collide with source names, and distinct counter values give distinct
/// digit tails.
pub open spec fn gen_name_g(n: nat) -> Seq<char> {
    seq!['k', '#'] + dec_digits(n)
}

fn dec_digit_str(d: u64) -> (r: &'static str)
    requires
        d < 10,
    ensures
        r@ == seq![dec_digit(d as nat)],
{
    proof {
        reveal_strlit("0");
        reveal_strlit("1");
        reveal_strlit("2");
        reveal_strlit("3");
        reveal_strlit("4");
        reveal_strlit("5");
        reveal_strlit("6");
        reveal_strlit("7");
        reveal_strlit("8");
        reveal_strlit("9");
    }
    match d {
        0 => "0",
        1 => "1",
        2 => "2",
        3 => "3",
        4 => "4",
        5 => "5",
        6 => "6",
        7 => "7",
        8 => "8",
        _ => "9",
    }
}

pub(crate) fn push_dec(s: &mut String, n: u64)
    ensures
        final(s)@ == old(s)@ + dec_digits(n as nat),
    decreases n,
{
    if n >= 10 {
        push_dec(s, n / 10);
        s.append(dec_digit_str(n % 10));
    } else {
        s.append(dec_digit_str(n));
    }
}

/// The fresh name for counter value `n`.
fn gen_name(n: u64) -> (r: String)
    ensures
        r@ == gen_name_g(n as nat),
{
    proof {
        reveal_strlit("k#");
    }
    let mut s = "k#".to_owned();
    proof {
        assert("k#"@ =~= seq!['k', '#']);
    }
    push_dec(&mut s, n);
    s
}

/// Desugar a source sequence: a quoted integer or atom becomes the
/// literal; `push`, `pop` and `force` become the operators; any other atom
/// becomes literal, lookup and force; groups desugar recursively. A quote
/// with nothing following, or a quoted group, is the transform-time fault.
pub open spec fn desugar_g(s: Seq<ExprG>) -> Result<Seq<ExprCPSG>, CpsError>
    decreases s,
{
    if s.len() == 0 {
        Ok(Seq::empty())
    } else {
        match s[0] {
            ExprG::Integer(i, sp) => match desugar_g(s.drop_first()) {
                Ok(t) => Ok(seq![ExprCPSG::IntegerLiteral(i, sp)] + t),
                Err(e) => Err(e),
            },
            ExprG::Thunk(body, sp) => match desugar_g(body) {
                Ok(b) => match desugar_g(s.drop_first()) {
                    Ok(t) => Ok(seq![ExprCPSG::Thunk(b, sp)] + t),
                    Err(e) => Err(e),
                },
                Err(e) => Err(e),
            },
            ExprG::Atom(a, sp) => {
                if a == "quote"@ {
                    if s.len() < 2 {
                        Err(CpsError::BareQuote(sp))
                    } else {
                        match s[1] {
                            ExprG::Integer(i, sp2) => match desugar_g(s.drop_first().drop_first()) {
                                Ok(t) => Ok(
                                    seq![ExprCPSG::IntegerLiteral(i, span_combine_g(sp, sp2))] + t,
                                ),
                                Err(e) => Err(e),
                            },
                            ExprG::Atom(a2, sp2) => match desugar_g(s.drop_first().drop_first()) {
                                Ok(t) => Ok(
                                    seq![ExprCPSG::AtomLiteral(a2, span_combine_g(sp, sp2))] + t,
                                ),
                                Err(e) => Err(e),
                            },
                            ExprG::Thunk(_, sp2) => Err(CpsError::QuoteThunk(sp2)),
                        }
                    }
                } else {
                    let op = if a == "push"@ {
                        seq![ExprCPSG::Push(sp)]
                    } else if a == "pop"@ {
                        seq![ExprCPSG::Pop(sp)]
                    } else if a == "force"@ {
                        seq![ExprCPSG::Force(sp)]
                    } else {
                        seq![
                            ExprCPSG::AtomLiteral(a, sp),
                            ExprCPSG::Push(sp),
                            ExprCPSG::Force(sp),
                        ]
                    };
                    match desugar_g(s.drop_first()) {
                        Ok(t) => Ok(op + t),
                        Err(e) => Err(e),
                    }
                }
            },
        }
    }
}


/// Rewrite one instruction sequence against an ambient continuation `cont`
/// (itself an instruction sequence that pushes the enclosing continuation).
/// Scanning left to right: literals and operators are copied; a nested
/// group is rewritten as a closure body; at the first force the scan stops:
/// a force in tail position reuses `cont` directly, any other force wraps
/// the remaining instructions as a fresh continuation group; a sequence
/// with no force returns to `cont` with a bare force. `n` is the fresh-name
/// counter; the second component of the result is its value afterwards.
pub open spec fn cps_internal_g(
    s: Seq<ExprCPSG>,
    cont: Seq<ExprCPSG>,
    n: nat,
) -> (Seq<ExprCPSG>, nat)
    decreases cps_size_seq(s), 0int,
{
    if s.len() == 0 {
        (cont + seq![ExprCPSG::ForceCCBare(dummy_span_g())], n)
    } else {
        proof {
            assert(cps_size_seq(s) == cps_size(s[0]) + cps_size_seq(s.drop_first()));
            assert(cps_size(s[0]) >= 1);
        }
        match s[0] {
            ExprCPSG::Force(sp) => {
                if s.len() == 1 {
                    (cont + seq![ExprCPSG::ForceCC(sp)], n)
                } else {
                    let (body, n2) = cps_internal_g(s.drop_first(), cont, n);
                    (seq![ExprCPSG::Thunk(body, sp), ExprCPSG::ForceCC(sp)], n2)
                }
            },
            ExprCPSG::Thunk(body, sp) => {
                proof {
                    assert(cps_size(s[0]) == 1 + cps_size_seq(body));
                }
                let (t, n2) = cps_thunk_g(body, sp, n);
                let (rest, n3) = cps_internal_g(s.drop_first(), cont, n2);
                (seq![t] + rest, n3)
            },
            _ => {
                let (rest, n2) = cps_internal_g(s.drop_first(), cont, n);
                (seq![s[0]] + rest, n2)
            },
        }
    }
}

/// Build one closure body: generate a fresh private continuation name,
/// prefix the body with a binding of that name (the caller pushes its
/// continuation before forcing the closure), and rewrite the body with
/// a lookup of that name as the ambient continuation.
pub open spec fn cps_thunk_g(body: Seq<ExprCPSG>, sp: Span, n: nat) -> (ExprCPSG, nat)
    decreases cps_size_seq(body), 1int,
{
    let cc = gen_name_g(n);
    let cont = seq![
        ExprCPSG::AtomLiteral(cc, dummy_span_g()),
        ExprCPSG::Push(dummy_span_g()),
    ];
    let (b, n2) = cps_internal_g(body, cont, n + 1);
    (
        ExprCPSG::Thunk(
            seq![
                ExprCPSG::AtomLiteral(cc, dummy_span_g()),
                ExprCPSG::Pop(dummy_span_g()),
            ] + b,
            sp,
        ),
        n2,
    )
}

/// The fresh-name counter never moves past the size of what is rewritten.
pub proof fn lemma_cps_counter_bound(s: Seq<ExprCPSG>, cont: Seq<ExprCPSG>, n: nat)
    ensures
        n <= cps_internal_g(s, cont, n).1 <= n + cps_size_seq(s),
    decreases cps_size_seq(s), 0int,
{
    if s.len() == 0 {
    } else {
        assert(cps_size_seq(s) == cps_size(s[0]) + cps_size_seq(s.drop_first()));
        assert(cps_size(s[0]) >= 1);
        match s[0] {
            ExprCPSG::Force(sp) => {
                if s.len() > 1 {
                    lemma_cps_counter_bound(s.drop_first(), cont, n);
                }
            },
            ExprCPSG::Thunk(body, sp) => {
                assert(cps_size_seq(s) == cps_size(s[0]) + cps_size_seq(s.drop_first()));
                assert(cps_size(s[0]) == 1 + cps_size_seq(body));
                lemma_cps_thunk_counter_bound(body, sp, n);
                let n2 = cps_thunk_g(body, sp, n).1;
                lemma_cps_counter_bound(s.drop_first(), cont, n2);
            },
            _ => {
                lemma_cps_counter_bound(s.drop_first(), cont, n);
            },
        }
    }
}

/// Counter bound for one closure body.
pub proof fn lemma_cps_thunk_counter_bound(body: Seq<ExprCPSG>, sp: Span, n: nat)
    ensures
        n < cps_thunk_g(body, sp, n).1 <= n + 1 + cps_size_seq(body),
    decreases cps_size_seq(body), 1int,
{
    let cc = gen_name_g(n);
    let cont = seq![
        ExprCPSG::AtomLiteral(cc, dummy_span_g()),
        ExprCPSG::Push(dummy_span_g()),
    ];
    lemma_cps_counter_bound(body, cont, n + 1);
}


/// The size of one source expression shape, for termination measures.
pub open spec fn src_size(e: ExprG) -> nat
    decreases e,
{
    match e {
        ExprG::Thunk(b, _) => 1 + src_size_seq(b),
        _ => 1,
    }
}

/// The total size of a sequence of source expression shapes.
pub open spec fn src_size_seq(s: Seq<ExprG>) -> nat
    decreases s,
{
    if s.len() == 0 {
        0
    } else {
        proof {
            assert(s.len() > 0);
        }
        src_size(s[0]) + src_size_seq(s.drop_first())
    }
}

/// Every element weighs no more than its sequence.
proof fn lemma_src_size_elem(s: Seq<ExprG>, i: int)
    requires
        0 <= i < s.len(),
    ensures
        src_size(s[i]) <= src_size_seq(s),
        src_size(s[i]) >= 1,
    decreases s.len(),
{
    assert(src_size(s[i]) >= 1) by {
        assert(src_size(s[i]) == match s[i] {
            ExprG::Thunk(b, _) => 1 + src_size_seq(b),
            _ => 1nat,
        });
    }
    if i == 0 {
    } else {
        lemma_src_size_elem(s.drop_first(), i - 1);
        assert(s.drop_first()[i - 1] == s[i]);
    }
}

/// The tail of a sequence weighs no more than the whole.
proof fn lemma_src_size_skip(s: Seq<ExprG>, i: int, j: int)
    requires
        0 <= i <= j <= s.len(),
    ensures
        src_size_seq(s.skip(j)) <= src_size_seq(s.skip(i)),
    decreases j - i,
{
    if i < j {
        lemma_src_size_skip(s, i + 1, j);
        assert(s.skip(i).drop_first() =~= s.skip(i + 1));
        assert(src_size_seq(s.skip(i)) == src_size(s.skip(i)[0]) + src_size_seq(s.skip(i + 1)));
    }
}

/// Shapes of a concatenation, elementwise.
proof fn lemma_cpss_append(a: Seq<ExprCPS>, b: Seq<ExprCPS>)
    ensures
        cpss_deep_view(a + b) == cpss_deep_view(a) + cpss_deep_view(b),
{
    lemma_cpss_deep_view(a);
    lemma_cpss_deep_view(b);
    lemma_cpss_deep_view(a + b);
    assert forall|k: int| 0 <= k < a.len() + b.len() implies cpss_deep_view(a + b)[k]
        == (cpss_deep_view(a) + cpss_deep_view(b))[k] by {
        if k < a.len() {
            assert((a + b)[k] == a[k]);
        } else {
            assert((a + b)[k] == b[k - a.len()]);
        }
    }
    assert(cpss_deep_view(a + b) =~= cpss_deep_view(a) + cpss_deep_view(b));
}

/// A structural copy of one transformed expression.
#[verifier::loop_isolation(false)]
fn cps_clone(e: &ExprCPS) -> (r: ExprCPS)
    ensures
        r.deep_view() == e.deep_view(),
    decreases e,
{
    match e {
        ExprCPS::IntegerLiteral(i, s) => ExprCPS::IntegerLiteral(*i, span_copy(s)),
        ExprCPS::AtomLiteral(a, s) => ExprCPS::AtomLiteral(a.clone(), span_copy(s)),
        ExprCPS::Thunk(v, s) => {
            let mut w: Vec<ExprCPS> = Vec::new();
            let mut k: usize = 0;
            while k < v.len()
                invariant
                    k <= v@.len(),
                    w@.len() == k,
                    forall|m: int| 0 <= m < k ==> #[trigger] w@[m].deep_view() == v@[m].deep_view(),
                decreases v@.len() - k,
            {
                w.push(cps_clone(&v[k]));
                k = k + 1;
            }
            let r = ExprCPS::Thunk(w, span_copy(s));
            proof {
                lemma_cpss_deep_view(w@);
                lemma_cpss_deep_view(v@);
                assert forall|m: int| 0 <= m < v@.len() implies cpss_deep_view(w@)[m]
                    == cpss_deep_view(v@)[m] by {
                    assert(w@[m].deep_view() == v@[m].deep_view());
                }
                assert(cpss_deep_view(w@) =~= cpss_deep_view(v@));
            }
            r
        },
        ExprCPS::Force(s) => ExprCPS::Force(span_copy(s)),
        ExprCPS::ForceCC(s) => ExprCPS::ForceCC(span_copy(s)),
        ExprCPS::ForceCCBare(s) => ExprCPS::ForceCCBare(span_copy(s)),
        ExprCPS::Terminate => ExprCPS::Terminate,
        ExprCPS::Pop(s) => ExprCPS::Pop(span_copy(s)),
        ExprCPS::Push(s) => ExprCPS::Push(span_copy(s)),
    }
}

fn span_copy(s: &Span) -> (r: Span)
    ensures
        r == *s,
{
    s.start..s.end
}

/// A structural copy of a sequence of transformed expressions.
fn clone_cps_slice(v: &[ExprCPS]) -> (r: Vec<ExprCPS>)
    ensures
        cpss_deep_view(r@) == cpss_deep_view(v@),
{
    let mut w: Vec<ExprCPS> = Vec::new();
    let mut k: usize = 0;
    while k < v.len()
        invariant
            k <= v@.len(),
            w@.len() == k,
            forall|m: int| 0 <= m < k ==> #[trigger] w@[m].deep_view() == v@[m].deep_view(),
        decreases v@.len() - k,
    {
        w.push(cps_clone(&v[k]));
        k = k + 1;
    }
    proof {
        lemma_cpss_deep_view(w@);
        lemma_cpss_deep_view(v@);
        assert forall|m: int| 0 <= m < v@.len() implies cpss_deep_view(w@)[m]
            == cpss_deep_view(v@)[m] by {
            assert(w@[m].deep_view() == v@[m].deep_view());
        }
        assert(cpss_deep_view(w@) =~= cpss_deep_view(v@));
    }
    w
}


proof fn lemma_cpss_push(a: Seq<ExprCPS>, x: ExprCPS)
    ensures
        cpss_deep_view(a.push(x)) == cpss_deep_view(a) + seq![cps_deep_view(x)],
{
    reveal_with_fuel(cpss_deep_view, 3);
    assert(a.push(x) =~= a + seq![x]);
    lemma_cpss_append(a, seq![x]);
    assert(seq![x].drop_first() =~= Seq::<ExprCPS>::empty());
    assert(cpss_deep_view(seq![x]) =~= seq![cps_deep_view(x)]);
}

/// Desugar a source sequence into the transformed expression form; see
/// `desugar_g` for what each construct becomes.
#[verifier::loop_isolation(false)]
#[verifier::rlimit(60)]
fn exprs_to_exprs_cps(exprs: &[Expr]) -> (r: Result<Vec<ExprCPS>, CpsError>)
    ensures
        match r {
            Ok(v) => desugar_g(exprs_deep_view(exprs@)) == Ok::<Seq<ExprCPSG>, CpsError>(
                cpss_deep_view(v@),
            ),
            Err(e) => desugar_g(exprs_deep_view(exprs@)) == Err::<Seq<ExprCPSG>, CpsError>(e),
        },
    decreases src_size_seq(exprs_deep_view(exprs@)),
{
    let ghost dv = exprs_deep_view(exprs@);
    proof {
        lemma_exprs_deep_view(exprs@);
    }
    let mut acc: Vec<ExprCPS> = Vec::new();
    let mut i: usize = 0;
    proof {
        assert(dv.skip(0) =~= dv);
        assert(cpss_deep_view(acc@) + desugar_g(dv)->Ok_0 =~= desugar_g(dv)->Ok_0);
    }
    while i < exprs.len()
        invariant
            i <= exprs@.len(),
            match desugar_g(dv.skip(i as int)) {
                Ok(t) => desugar_g(dv) == Ok::<Seq<ExprCPSG>, CpsError>(cpss_deep_view(acc@) + t),
                Err(e) => desugar_g(dv) == Err::<Seq<ExprCPSG>, CpsError>(e),
            },
        decreases exprs@.len() - i,
    {
        let ghost si = dv.skip(i as int);
        let ghost acc0 = acc@;
        proof {
            assert(si[0] == dv[i as int]);
            assert(dv[i as int] == expr_deep_view(exprs@[i as int]));
            assert(si.drop_first() =~= dv.skip(i as int + 1));
        }
        match &exprs[i] {
            Expr::Integer(iv, sp) => {
                let ins = ExprCPS::IntegerLiteral(*iv, span_copy(sp));
                let ghost insv = ins;
                let ghost insg = cps_deep_view(ins);
                acc.push(ins);
                proof {
                    lemma_cpss_push(acc0, insv);
                    assert(cpss_deep_view(acc@) == cpss_deep_view(acc0) + seq![insg]);
                    if let Ok(t2) = desugar_g(dv.skip(i as int + 1)) {
                        assert(cpss_deep_view(acc@) + t2 =~= cpss_deep_view(acc0) + (seq![insg] + t2));
                    }
                }
                i = i + 1;
            },
            Expr::Thunk(body, sp) => {
                proof {
                    lemma_src_size_elem(dv, i as int);
                    lemma_src_size_skip(dv, 0, i as int);
                    assert(dv.skip(0) =~= dv);
                    assert(src_size_seq(si) == src_size(si[0]) + src_size_seq(si.drop_first()));
                    lemma_src_size_skip(dv, i as int, i as int);
                }
                let sub = exprs_to_exprs_cps(body.as_slice());
                match sub {
                    Err(e) => {
                        return Err(e);
                    },
                    Ok(bv) => {
                        let ins = ExprCPS::Thunk(bv, span_copy(sp));
                        let ghost insv = ins;
                        let ghost insg = cps_deep_view(ins);
                        acc.push(ins);
                        proof {
                            lemma_cpss_push(acc0, insv);
                            assert(cpss_deep_view(acc@) == cpss_deep_view(acc0) + seq![insg]);
                            assert(insg == ExprCPSG::Thunk(
                                desugar_g(exprs_deep_view(body@))->Ok_0,
                                *sp,
                            ));
                            if let Ok(t2) = desugar_g(dv.skip(i as int + 1)) {
                                assert(cpss_deep_view(acc@) + t2
                                    =~= cpss_deep_view(acc0) + (seq![insg] + t2));
                            }
                        }
                        i = i + 1;
                    },
                }
            },
            Expr::Atom(a, sp) => {
                if str_eq(a.as_str(), "quote") {
                    if i + 1 >= exprs.len() {
                        return Err(CpsError::BareQuote(span_copy(sp)));
                    }
                    proof {
                        assert(si[1] == dv[i as int + 1]);
                        assert(dv[i as int + 1] == expr_deep_view(exprs@[i as int + 1]));
                        assert(si.drop_first().drop_first() =~= dv.skip(i as int + 2));
                    }
                    match &exprs[i + 1] {
                        Expr::Integer(iv2, sp2) => {
                            let ins = ExprCPS::IntegerLiteral(*iv2, span_combine(sp, sp2));
                            let ghost insv = ins;
                            let ghost insg = cps_deep_view(ins);
                            acc.push(ins);
                            proof {
                                lemma_cpss_push(acc0, insv);
                                assert(cpss_deep_view(acc@) == cpss_deep_view(acc0) + seq![insg]);
                                if let Ok(t2) = desugar_g(dv.skip(i as int + 2)) {
                                    assert(cpss_deep_view(acc@) + t2
                                        =~= cpss_deep_view(acc0) + (seq![insg] + t2));
                                }
                            }
                            i = i + 2;
                        },
                        Expr::Atom(a2, sp2) => {
                            let ins = ExprCPS::AtomLiteral(a2.clone(), span_combine(sp, sp2));
                            let ghost insv = ins;
                            let ghost insg = cps_deep_view(ins);
                            acc.push(ins);
                            proof {
                                lemma_cpss_push(acc0, insv);
                                assert(cpss_deep_view(acc@) == cpss_deep_view(acc0) + seq![insg]);
                                if let Ok(t2) = desugar_g(dv.skip(i as int + 2)) {
                                    assert(cpss_deep_view(acc@) + t2
                                        =~= cpss_deep_view(acc0) + (seq![insg] + t2));
                                }
                            }
                            i = i + 2;
                        },
                        Expr::Thunk(_, sp2) => {
                            return Err(CpsError::QuoteThunk(span_copy(sp2)));
                        },
                    }
                } else {
                    let ghost an = a@;
                    let is_push = str_eq(a.as_str(), "push");
                    let is_pop = str_eq(a.as_str(), "pop");
                    let is_force = str_eq(a.as_str(), "force");
                    let ghost ops: Seq<ExprCPSG> = if an == "push"@ {
                        seq![ExprCPSG::Push(*sp)]
                    } else if an == "pop"@ {
                        seq![ExprCPSG::Pop(*sp)]
                    } else if an == "force"@ {
                        seq![ExprCPSG::Force(*sp)]
                    } else {
                        seq![
                            ExprCPSG::AtomLiteral(an, *sp),
                            ExprCPSG::Push(*sp),
                            ExprCPSG::Force(*sp),
                        ]
                    };
                    if is_push {
                        acc.push(ExprCPS::Push(span_copy(sp)));
                        proof {
                            lemma_cpss_push(acc0, ExprCPS::Push(*sp));
                        }
                    } else if is_pop {
                        acc.push(ExprCPS::Pop(span_copy(sp)));
                        proof {
                            lemma_cpss_push(acc0, ExprCPS::Pop(*sp));
                        }
                    } else if is_force {
                        acc.push(ExprCPS::Force(span_copy(sp)));
                        proof {
                            lemma_cpss_push(acc0, ExprCPS::Force(*sp));
                        }
                    } else {
                        let a1 = ExprCPS::AtomLiteral(a.clone(), span_copy(sp));
                        let ghost a1v = a1;
                        acc.push(a1);
                        let a2 = ExprCPS::Push(span_copy(sp));
                        let ghost a2v = a2;
                        acc.push(a2);
                        let a3 = ExprCPS::Force(span_copy(sp));
                        let ghost a3v = a3;
                        acc.push(a3);
                        proof {
                            lemma_cpss_deep_view(acc0);
                            lemma_cpss_deep_view(acc@);
                            assert(acc@ =~= acc0 + seq![a1v, a2v, a3v]);
                            assert forall|m: int| 0 <= m < acc@.len() implies cpss_deep_view(acc@)[m]
                                == (cpss_deep_view(acc0) + ops)[m] by {
                                if m < acc0.len() {
                                    assert(acc@[m] == acc0[m]);
                                } else if m == acc0.len() {
                                    assert(acc@[m] == a1v);
                                    assert(cps_deep_view(a1v) == ops[0]);
                                } else if m == acc0.len() + 1 {
                                    assert(acc@[m] == a2v);
                                    assert(cps_deep_view(a2v) == ops[1]);
                                } else {
                                    assert(acc@[m] == a3v);
                                    assert(cps_deep_view(a3v) == ops[2]);
                                }
                            }
                            assert(cpss_deep_view(acc@) =~= cpss_deep_view(acc0) + ops);
                        }
                    }
                    proof {
                        assert(cpss_deep_view(acc@) == cpss_deep_view(acc0) + ops);
                        if let Ok(t2) = desugar_g(dv.skip(i as int + 1)) {
                            assert(cpss_deep_view(acc@) + t2
                                =~= cpss_deep_view(acc0) + (ops + t2));
                        }
                    }
                    i = i + 1;
                }
            },
        }
    }
    proof {
        assert(dv.skip(exprs@.len() as int) =~= Seq::<ExprG>::empty());
        if let Ok(t) = desugar_g(dv.skip(exprs@.len() as int)) {
            assert(cpss_deep_view(acc@) + t =~= cpss_deep_view(acc@));
        }
    }
    Ok(acc)
}


/// Rewrite the sequence starting at `i` against the continuation `cont`;
/// `n` is the fresh-name counter. See `cps_internal_g`.
fn cps_internal_from(exprs: &[ExprCPS], i: usize, cont: &[ExprCPS], n: &mut u64) -> (r: Vec<
    ExprCPS,
>)
    requires
        i <= exprs@.len(),
        *old(n) + cps_size_seq(cpss_deep_view(exprs@).skip(i as int)) <= u64::MAX,
    ensures
        cpss_deep_view(r@) == cps_internal_g(
            cpss_deep_view(exprs@).skip(i as int),
            cpss_deep_view(cont@),
            *old(n) as nat,
        ).0,
        *final(n) as nat == cps_internal_g(
            cpss_deep_view(exprs@).skip(i as int),
            cpss_deep_view(cont@),
            *old(n) as nat,
        ).1,
    decreases cps_size_seq(cpss_deep_view(exprs@).skip(i as int)), 0int,
{
    let ghost dv = cpss_deep_view(exprs@);
    let ghost si = dv.skip(i as int);
    let ghost contg = cpss_deep_view(cont@);
    proof {
        lemma_cpss_deep_view(exprs@);
    }
    if i >= exprs.len() {
        let mut v = clone_cps_slice(cont);
        let ghost cv = v@;
        let bare = ExprCPS::ForceCCBare(dummy_span());
        let ghost barev = bare;
        v.push(bare);
        proof {
            assert(si =~= Seq::<ExprCPSG>::empty());
            lemma_cpss_push(cv, barev);
        }
        return v;
    }
    proof {
        assert(si[0] == dv[i as int]);
        assert(dv[i as int] == cps_deep_view(exprs@[i as int]));
        assert(si.drop_first() =~= dv.skip(i as int + 1));
        assert(cps_size_seq(si) == cps_size(si[0]) + cps_size_seq(si.drop_first()));
        assert(cps_size(si[0]) >= 1);
    }
    match &exprs[i] {
        ExprCPS::Force(sp) => {
            if i + 1 == exprs.len() {
                let mut v = clone_cps_slice(cont);
                let ghost cv = v@;
                let fcc = ExprCPS::ForceCC(span_copy(sp));
                let ghost fccv = fcc;
                v.push(fcc);
                proof {
                    assert(si.len() == 1);
                    lemma_cpss_push(cv, fccv);
                }
                v
            } else {
                let body = cps_internal_from(exprs, i + 1, cont, n);
                let mut v: Vec<ExprCPS> = Vec::new();
                let th = ExprCPS::Thunk(body, span_copy(sp));
                let ghost thv = th;
                v.push(th);
                let fcc = ExprCPS::ForceCC(span_copy(sp));
                let ghost fccv = fcc;
                v.push(fcc);
                proof {
                    assert(v@ =~= seq![thv, fccv]);
                    lemma_cpss_deep_view(v@);
                    assert(cpss_deep_view(v@) =~= seq![cps_deep_view(thv), cps_deep_view(fccv)]);
                }
                v
            }
        },
        ExprCPS::Thunk(b, sp) => {
            proof {
                assert(cps_size(si[0]) == 1 + cps_size_seq(cpss_deep_view(b@)));
            }
            let t = cps_thunk(b.as_slice(), sp, n);
            proof {
                lemma_cps_thunk_counter_bound(cpss_deep_view(b@), *sp, *old(n) as nat);
            }
            let mut rest = cps_internal_from(exprs, i + 1, cont, n);
            let ghost restv = rest@;
            let mut v: Vec<ExprCPS> = Vec::new();
            let ghost tv = t;
            v.push(t);
            v.append(&mut rest);
            proof {
                assert(v@ =~= seq![tv] + restv);
                lemma_cpss_append(seq![tv], restv);
                assert(seq![tv].drop_first() =~= Seq::<ExprCPS>::empty());
                reveal_with_fuel(cpss_deep_view, 3);
                assert(cpss_deep_view(seq![tv]) =~= seq![cps_deep_view(tv)]);
            }
            v
        },
        _ => {
            let ins = cps_clone(&exprs[i]);
            let mut rest = cps_internal_from(exprs, i + 1, cont, n);
            let ghost restv = rest@;
            let mut v: Vec<ExprCPS> = Vec::new();
            let ghost insv = ins;
            v.push(ins);
            v.append(&mut rest);
            proof {
                assert(v@ =~= seq![insv] + restv);
                lemma_cpss_append(seq![insv], restv);
                assert(seq![insv].drop_first() =~= Seq::<ExprCPS>::empty());
                reveal_with_fuel(cpss_deep_view, 3);
                assert(cpss_deep_view(seq![insv]) =~= seq![cps_deep_view(insv)]);
            }
            v
        },
    }
}

/// Build one closure body around a fresh continuation name; see
/// `cps_thunk_g`.
fn cps_thunk(exprs: &[ExprCPS], span: &Span, n: &mut u64) -> (r: ExprCPS)
    requires
        *old(n) + 1 + cps_size_seq(cpss_deep_view(exprs@)) <= u64::MAX,
    ensures
        r.deep_view() == cps_thunk_g(cpss_deep_view(exprs@), *span, *old(n) as nat).0,
        *final(n) as nat == cps_thunk_g(cpss_deep_view(exprs@), *span, *old(n) as nat).1,
    decreases cps_size_seq(cpss_deep_view(exprs@)), 1int,
{
    let ghost n0 = *n as nat;
    let cc = gen_name(*n);
    let ghost ccg = gen_name_g(n0);
    *n = *n + 1;
    let mut cont2: Vec<ExprCPS> = Vec::new();
    let c1 = ExprCPS::AtomLiteral(cc.clone(), dummy_span());
    let ghost c1v = c1;
    cont2.push(c1);
    let c2 = ExprCPS::Push(dummy_span());
    let ghost c2v = c2;
    cont2.push(c2);
    proof {
        assert(cont2@ =~= seq![c1v, c2v]);
        lemma_cpss_deep_view(cont2@);
        assert(cpss_deep_view(cont2@) =~= seq![
            ExprCPSG::AtomLiteral(ccg, dummy_span_g()),
            ExprCPSG::Push(dummy_span_g()),
        ]);
        assert(cpss_deep_view(exprs@).skip(0) =~= cpss_deep_view(exprs@));
    }
    let b = cps_internal_from(exprs, 0, cont2.as_slice(), n);
    let ghost bv = b@;
    let mut v: Vec<ExprCPS> = Vec::new();
    let p1 = ExprCPS::AtomLiteral(cc, dummy_span());
    let ghost p1v = p1;
    v.push(p1);
    let p2 = ExprCPS::Pop(dummy_span());
    let ghost p2v = p2;
    v.push(p2);
    let mut bb = b;
    v.append(&mut bb);
    let r = ExprCPS::Thunk(v, span_copy(span));
    proof {
        assert(v@ =~= seq![p1v, p2v] + bv);
        lemma_cpss_append(seq![p1v, p2v], bv);
        lemma_cpss_deep_view(seq![p1v, p2v]);
        assert(cpss_deep_view(seq![p1v, p2v]) =~= seq![
            ExprCPSG::AtomLiteral(ccg, dummy_span_g()),
            ExprCPSG::Pop(dummy_span_g()),
        ]);
    }
    r
}

/// The whole transform: desugar the source, then rewrite it as the body of
/// the top-level group, whose continuation only terminates the run.
pub open spec fn expr_cps_g(s: Seq<ExprG>) -> Result<Seq<ExprCPSG>, CpsError> {
    match desugar_g(s) {
        Ok(d) => Ok(
            cps_internal_g(
                d,
                seq![ExprCPSG::Thunk(seq![ExprCPSG::Terminate], dummy_span_g())],
                0,
            ).0,
        ),
        Err(e) => Err(e),
    }
}

/// Transform a source program into continuation-passing form. The result
/// ends in an explicit control transfer, and so does every group inside it;
/// the only faults are a `quote` with nothing to quote and a quoted group.
pub fn expr_cps(exprs: &[Expr]) -> (r: Result<Vec<ExprCPS>, CpsError>)
    requires
        (desugar_g(exprs_deep_view(exprs@)) matches Ok(d) ==> cps_size_seq(d) <= u64::MAX),
    ensures
        match expr_cps_g(exprs_deep_view(exprs@)) {
            Ok(c) => r matches Ok(v) && cpss_deep_view(v@) == c,
            Err(e) => r matches Err(e2) && e2 == e,
        },
{
    let d = match exprs_to_exprs_cps(exprs) {
        Ok(d) => d,
        Err(e) => {
            return Err(e);
        },
    };
    let mut tbody: Vec<ExprCPS> = Vec::new();
    tbody.push(ExprCPS::Terminate);
    let mut cont: Vec<ExprCPS> = Vec::new();
    let tc = ExprCPS::Thunk(tbody, dummy_span());
    let ghost tcv = tc;
    cont.push(tc);
    proof {
        reveal_with_fuel(cpss_deep_view, 3);
        assert(cont@ =~= seq![tcv]);
        assert(cpss_deep_view(cont@) =~= seq![cps_deep_view(tcv)]);
        assert(cps_deep_view(tcv) == ExprCPSG::Thunk(seq![ExprCPSG::Terminate], dummy_span_g()))
            by {
            assert(tcv->Thunk_0@ =~= seq![ExprCPS::Terminate]);
            assert(cpss_deep_view(seq![ExprCPS::Terminate]) =~= seq![ExprCPSG::Terminate]);
        }
        assert(cpss_deep_view(d@).skip(0) =~= cpss_deep_view(d@));
    }
    let mut n: u64 = 0;
    let v = cps_internal_from(d.as_slice(), 0, cont.as_slice(), &mut n);
    Ok(v)
}


/// Every element weighs no more than its sequence.
pub proof fn lemma_cps_size_elem(s: Seq<ExprCPSG>, i: int)
    requires
        0 <= i < s.len(),
    ensures
        cps_size(s[i]) <= cps_size_seq(s),
        cps_size(s[i]) >= 1,
    decreases s.len(),
{
    assert(cps_size(s[i]) >= 1) by {
        assert(cps_size(s[i]) == match s[i] {
            ExprCPSG::Thunk(b, _) => 1 + cps_size_seq(b),
            _ => 1nat,
        });
    }
    if i == 0 {
    } else {
        lemma_cps_size_elem(s.drop_first(), i - 1);
        assert(s.drop_first()[i - 1] == s[i]);
    }
}
/// No bare `force` occurs anywhere: after the transform, every force is an
/// explicit `ForceCC` or `ForceCCBare`.
pub open spec fn no_force(e: ExprCPSG) -> bool
    decreases e,
{
    match e {
        ExprCPSG::Force(_) => false,
        ExprCPSG::Thunk(body, _) => no_force_seq(body),
        _ => true,
    }
}

/// No bare `force` occurs in the sequence.
pub open spec fn no_force_seq(s: Seq<ExprCPSG>) -> bool
    decreases s,
{
    if s.len() == 0 {
        true
    } else {
        no_force(s[0]) && no_force_seq(s.drop_first())
    }
}

/// Pointwise reading of `no_force_seq`.
pub proof fn lemma_no_force_seq(s: Seq<ExprCPSG>)
    ensures
        no_force_seq(s) <==> (forall|k: int| 0 <= k < s.len() ==> no_force(#[trigger] s[k])),
    decreases s,
{
    if s.len() > 0 {
        lemma_no_force_seq(s.drop_first());
        assert(forall|k: int| 0 <= k < s.drop_first().len() ==> #[trigger] s.drop_first()[k] == s[k + 1]);
        if no_force(s[0]) && no_force_seq(s.drop_first()) {
            assert forall|k: int| 0 <= k < s.len() implies no_force(#[trigger] s[k]) by {
                if k > 0 {
                    assert(s[k] == s.drop_first()[k - 1]);
                }
            }
        }
        if forall|k: int| 0 <= k < s.len() ==> no_force(#[trigger] s[k]) {
            assert forall|k: int| 0 <= k < s.drop_first().len() implies no_force(
                #[trigger] s.drop_first()[k],
            ) by {
                assert(s.drop_first()[k] == s[k + 1]);
            }
        }
    }
}


/// No bare `force` in what a group is rewritten against, no bare `force`
/// in what comes out: the transform's output drives only `ForceCC` and
/// `ForceCCBare`.
pub proof fn lemma_cps_no_force(s: Seq<ExprCPSG>, cont: Seq<ExprCPSG>, n: nat)
    requires
        no_force_seq(cont),
    ensures
        no_force_seq(cps_internal_g(s, cont, n).0),
    decreases cps_size_seq(s), 0int,
{
    let r = cps_internal_g(s, cont, n).0;
    lemma_no_force_seq(cont);
    if s.len() == 0 {
        lemma_no_force_seq(r);
        assert forall|k: int| 0 <= k < r.len() implies no_force(#[trigger] r[k]) by {
            if k < cont.len() {
                assert(r[k] == cont[k]);
            } else {
                assert(r[k] == ExprCPSG::ForceCCBare(dummy_span_g()));
            }
        }
    } else {
        assert(cps_size_seq(s) == cps_size(s[0]) + cps_size_seq(s.drop_first()));
        assert(cps_size(s[0]) >= 1);
        match s[0] {
            ExprCPSG::Force(sp) => {
                if s.len() == 1 {
                    lemma_no_force_seq(r);
                    assert forall|k: int| 0 <= k < r.len() implies no_force(#[trigger] r[k]) by {
                        if k < cont.len() {
                            assert(r[k] == cont[k]);
                        } else {
                            assert(r[k] == ExprCPSG::ForceCC(sp));
                        }
                    }
                } else {
                    lemma_cps_no_force(s.drop_first(), cont, n);
                    let body = cps_internal_g(s.drop_first(), cont, n).0;
                    assert(r == seq![ExprCPSG::Thunk(body, sp), ExprCPSG::ForceCC(sp)]);
                    lemma_no_force_seq(r);
                    assert(no_force(r[0]));
                    assert(no_force(r[1]));
                }
            },
            ExprCPSG::Thunk(body, sp) => {
                assert(cps_size(s[0]) == 1 + cps_size_seq(body));
                lemma_cps_thunk_no_force(body, sp, n);
                let (t, n2) = cps_thunk_g(body, sp, n);
                lemma_cps_no_force(s.drop_first(), cont, n2);
                let rest = cps_internal_g(s.drop_first(), cont, n2).0;
                lemma_no_force_seq(rest);
                lemma_no_force_seq(r);
                assert forall|k: int| 0 <= k < r.len() implies no_force(#[trigger] r[k]) by {
                    if k == 0 {
                        assert(r[0] == t);
                    } else {
                        assert(r[k] == rest[k - 1]);
                    }
                }
            },
            _ => {
                lemma_cps_no_force(s.drop_first(), cont, n);
                let rest = cps_internal_g(s.drop_first(), cont, n).0;
                lemma_no_force_seq(rest);
                lemma_no_force_seq(r);
                assert forall|k: int| 0 <= k < r.len() implies no_force(#[trigger] r[k]) by {
                    if k == 0 {
                        assert(r[0] == s[0]);
                    } else {
                        assert(r[k] == rest[k - 1]);
                    }
                }
            },
        }
    }
}

/// A rewritten closure body holds no bare `force` either.
pub proof fn lemma_cps_thunk_no_force(body: Seq<ExprCPSG>, sp: Span, n: nat)
    ensures
        no_force(cps_thunk_g(body, sp, n).0),
    decreases cps_size_seq(body), 1int,
{
    let cc = gen_name_g(n);
    let cont = seq![
        ExprCPSG::AtomLiteral(cc, dummy_span_g()),
        ExprCPSG::Push(dummy_span_g()),
    ];
    lemma_no_force_seq(cont);
    assert(no_force_seq(cont));
    lemma_cps_no_force(body, cont, n + 1);
    let b = cps_internal_g(body, cont, n + 1).0;
    let full = seq![
        ExprCPSG::AtomLiteral(cc, dummy_span_g()),
        ExprCPSG::Pop(dummy_span_g()),
    ] + b;
    lemma_no_force_seq(b);
    lemma_no_force_seq(full);
    assert forall|k: int| 0 <= k < full.len() implies no_force(#[trigger] full[k]) by {
        if k >= 2 {
            assert(full[k] == b[k - 2]);
        }
    }
}

/// The transform's whole output holds no bare `force`.
pub proof fn lemma_expr_cps_no_force(s: Seq<ExprG>)
    ensures
        expr_cps_g(s) matches Ok(c) ==> no_force_seq(c),
{
    if let Ok(d) = desugar_g(s) {
        let cont = seq![ExprCPSG::Thunk(seq![ExprCPSG::Terminate], dummy_span_g())];
        lemma_no_force_seq(cont);
        lemma_no_force_seq(seq![ExprCPSG::Terminate]);
        assert(no_force(cont[0]));
        lemma_cps_no_force(d, cont, 0);
    }
}

/// How many forces a sequence holds at its own level, groups not entered.
pub open spec fn count_forces_top(s: Seq<ExprCPSG>) -> nat
    decreases s,
{
    if s.len() == 0 {
        0
    } else {
        (if s[0] is Force {
            1nat
        } else {
            0nat
        }) + count_forces_top(s.drop_first())
    }
}

/// How many groups a sequence holds at its own level.
pub open spec fn count_thunks_top(s: Seq<ExprCPSG>) -> nat
    decreases s,
{
    if s.len() == 0 {
        0
    } else {
        (if s[0] is Thunk {
            1nat
        } else {
            0nat
        }) + count_thunks_top(s.drop_first())
    }
}

proof fn lemma_count_thunks_append(a: Seq<ExprCPSG>, b: Seq<ExprCPSG>)
    ensures
        count_thunks_top(a + b) == count_thunks_top(a) + count_thunks_top(b),
    decreases a.len(),
{
    if a.len() == 0 {
        assert(a + b =~= b);
    } else {
        assert((a + b).drop_first() =~= a.drop_first() + b);
        assert((a + b)[0] == a[0]);
        lemma_count_thunks_append(a.drop_first(), b);
    }
}

/// A group with no forcing call compiles to end in a bare force back to
/// its continuation, and the only groups in the result are the rewritten
/// source groups and whatever groups the continuation holds.
pub proof fn lemma_cps_bare(s: Seq<ExprCPSG>, cont: Seq<ExprCPSG>, n: nat)
    requires
        count_forces_top(s) == 0,
    ensures
        cps_internal_g(s, cont, n).0.len() > 0,
        cps_internal_g(s, cont, n).0.last() == ExprCPSG::ForceCCBare(dummy_span_g()),
        count_thunks_top(cps_internal_g(s, cont, n).0) == count_thunks_top(s) + count_thunks_top(
            cont,
        ),
    decreases cps_size_seq(s), 0int,
{
    let r = cps_internal_g(s, cont, n).0;
    if s.len() == 0 {
        lemma_count_thunks_append(cont, seq![ExprCPSG::ForceCCBare(dummy_span_g())]);
        assert(count_thunks_top(seq![ExprCPSG::ForceCCBare(dummy_span_g())]) == 0) by {
            reveal_with_fuel(count_thunks_top, 3);
            assert(seq![ExprCPSG::ForceCCBare(dummy_span_g())].drop_first()
                =~= Seq::<ExprCPSG>::empty());
        }
    } else {
        assert(cps_size_seq(s) == cps_size(s[0]) + cps_size_seq(s.drop_first()));
        assert(cps_size(s[0]) >= 1);
        assert(!(s[0] is Force));
        match s[0] {
            ExprCPSG::Thunk(body, sp) => {
                assert(cps_size(s[0]) == 1 + cps_size_seq(body));
                let (t, n2) = cps_thunk_g(body, sp, n);
                lemma_cps_bare(s.drop_first(), cont, n2);
                let rest = cps_internal_g(s.drop_first(), cont, n2).0;
                lemma_count_thunks_append(seq![t], rest);
                assert(count_thunks_top(seq![t]) == 1) by {
                    reveal_with_fuel(count_thunks_top, 3);
                    assert(t is Thunk);
                    assert(seq![t].drop_first() =~= Seq::<ExprCPSG>::empty());
                }
                assert(r.last() == rest.last());
            },
            _ => {
                lemma_cps_bare(s.drop_first(), cont, n);
                let rest = cps_internal_g(s.drop_first(), cont, n).0;
                lemma_count_thunks_append(seq![s[0]], rest);
                assert(count_thunks_top(seq![s[0]]) == 0) by {
                    reveal_with_fuel(count_thunks_top, 3);
                    assert(!(s[0] is Thunk));
                    assert(seq![s[0]].drop_first() =~= Seq::<ExprCPSG>::empty());
                }
                assert(r.last() == rest.last());
            },
        }
    }
}

/// A group whose last instruction is the only force compiles to a tail
/// call: it ends by forcing through the ambient continuation, and no new
/// group is made for that final call.
pub proof fn lemma_cps_tail(s: Seq<ExprCPSG>, cont: Seq<ExprCPSG>, n: nat)
    requires
        s.len() >= 1,
        s.last() matches ExprCPSG::Force(_),
        count_forces_top(s.take(s.len() - 1)) == 0,
    ensures
        cps_internal_g(s, cont, n).0.len() > 0,
        cps_internal_g(s, cont, n).0.last() == ExprCPSG::ForceCC(s.last()->Force_0),
        count_thunks_top(cps_internal_g(s, cont, n).0) == count_thunks_top(s.take(s.len() - 1))
            + count_thunks_top(cont),
    decreases cps_size_seq(s), 0int,
{
    let r = cps_internal_g(s, cont, n).0;
    assert(cps_size_seq(s) == cps_size(s[0]) + cps_size_seq(s.drop_first()));
    assert(cps_size(s[0]) >= 1);
    if s.len() == 1 {
        lemma_count_thunks_append(cont, seq![ExprCPSG::ForceCC(s.last()->Force_0)]);
        assert(count_thunks_top(seq![ExprCPSG::ForceCC(s.last()->Force_0)]) == 0) by {
            reveal_with_fuel(count_thunks_top, 3);
            assert(seq![ExprCPSG::ForceCC(s.last()->Force_0)].drop_first()
                =~= Seq::<ExprCPSG>::empty());
        }
        assert(s.take(0) =~= Seq::<ExprCPSG>::empty());
    } else {
        assert(s.take(s.len() - 1)[0] == s[0]);
        assert(!(s[0] is Force)) by {
            assert(count_forces_top(s.take(s.len() - 1)) >= (if s.take(s.len() - 1)[0] is Force {
                1nat
            } else {
                0nat
            }));
        }
        assert(s.drop_first().last() == s.last());
        assert(s.drop_first().take(s.drop_first().len() - 1) =~= s.take(s.len() - 1).drop_first());
        assert(count_forces_top(s.take(s.len() - 1)) == (if s.take(s.len() - 1)[0] is Force {
            1nat
        } else {
            0nat
        }) + count_forces_top(s.take(s.len() - 1).drop_first()));
        match s[0] {
            ExprCPSG::Thunk(body, sp) => {
                assert(cps_size(s[0]) == 1 + cps_size_seq(body));
                let (t, n2) = cps_thunk_g(body, sp, n);
                lemma_cps_tail(s.drop_first(), cont, n2);
                let rest = cps_internal_g(s.drop_first(), cont, n2).0;
                lemma_count_thunks_append(seq![t], rest);
                assert(count_thunks_top(seq![t]) == 1) by {
                    reveal_with_fuel(count_thunks_top, 3);
                    assert(t is Thunk);
                    assert(seq![t].drop_first() =~= Seq::<ExprCPSG>::empty());
                }
                assert(r.last() == rest.last());
            },
            _ => {
                lemma_cps_tail(s.drop_first(), cont, n);
                let rest = cps_internal_g(s.drop_first(), cont, n).0;
                lemma_count_thunks_append(seq![s[0]], rest);
                assert(count_thunks_top(seq![s[0]]) == 0) by {
                    reveal_with_fuel(count_thunks_top, 3);
                    assert(!(s[0] is Thunk));
                    assert(seq![s[0]].drop_first() =~= Seq::<ExprCPSG>::empty());
                }
                assert(r.last() == rest.last());
            },
        }
    }
}

/// A group with a force before its end compiles to wrap everything after
/// that force as one fresh continuation group: exactly one new group for
/// the first such force, beyond the rewritten source groups before it.
pub proof fn lemma_cps_mid(s: Seq<ExprCPSG>, cont: Seq<ExprCPSG>, n: nat, p: int)
    requires
        0 <= p < s.len() - 1,
        s[p] matches ExprCPSG::Force(_),
        count_forces_top(s.take(p)) == 0,
    ensures
        cps_internal_g(s, cont, n).0.len() > 0,
        cps_internal_g(s, cont, n).0.last() == ExprCPSG::ForceCC(s[p]->Force_0),
        count_thunks_top(cps_internal_g(s, cont, n).0) == count_thunks_top(s.take(p)) + 1,
    decreases cps_size_seq(s), 0int,
{
    let r = cps_internal_g(s, cont, n).0;
    assert(cps_size_seq(s) == cps_size(s[0]) + cps_size_seq(s.drop_first()));
    assert(cps_size(s[0]) >= 1);
    if p == 0 {
        let sp = s[0]->Force_0;
        let body = cps_internal_g(s.drop_first(), cont, n).0;
        assert(r == seq![ExprCPSG::Thunk(body, sp), ExprCPSG::ForceCC(sp)]);
        assert(count_thunks_top(r) == 1) by {
            reveal_with_fuel(count_thunks_top, 4);
            assert(r[0] is Thunk);
            assert(r.drop_first() =~= seq![ExprCPSG::ForceCC(sp)]);
            assert(r.drop_first().drop_first() =~= Seq::<ExprCPSG>::empty());
        }
        assert(s.take(0) =~= Seq::<ExprCPSG>::empty());
    } else {
        assert(s.take(p)[0] == s[0]);
        assert(!(s[0] is Force)) by {
            assert(count_forces_top(s.take(p)) >= (if s.take(p)[0] is Force {
                1nat
            } else {
                0nat
            }));
        }
        assert(s.drop_first()[p - 1] == s[p]);
        assert(s.drop_first().take(p - 1) =~= s.take(p).drop_first());
        assert(count_forces_top(s.take(p)) == (if s.take(p)[0] is Force {
            1nat
        } else {
            0nat
        }) + count_forces_top(s.take(p).drop_first()));
        match s[0] {
            ExprCPSG::Thunk(body, sp) => {
                assert(cps_size(s[0]) == 1 + cps_size_seq(body));
                let (t, n2) = cps_thunk_g(body, sp, n);
                lemma_cps_mid(s.drop_first(), cont, n2, p - 1);
                let rest = cps_internal_g(s.drop_first(), cont, n2).0;
                lemma_count_thunks_append(seq![t], rest);
                assert(count_thunks_top(seq![t]) == 1) by {
                    reveal_with_fuel(count_thunks_top, 3);
                    assert(t is Thunk);
                    assert(seq![t].drop_first() =~= Seq::<ExprCPSG>::empty());
                }
                assert(r.last() == rest.last());
            },
            _ => {
                lemma_cps_mid(s.drop_first(), cont, n, p - 1);
                let rest = cps_internal_g(s.drop_first(), cont, n).0;
                lemma_count_thunks_append(seq![s[0]], rest);
                assert(count_thunks_top(seq![s[0]]) == 0) by {
                    reveal_with_fuel(count_thunks_top, 3);
                    assert(!(s[0] is Thunk));
                    assert(seq![s[0]].drop_first() =~= Seq::<ExprCPSG>::empty());
                }
                assert(r.last() == rest.last());
            },
        }
    }
}


/// An explicit control transfer: what a block may end with.
pub open spec fn is_control(e: ExprCPSG) -> bool {
    e is ForceCC || e is ForceCCBare || e is Terminate
}

/// Every group inside this expression ends in exactly one explicit control
/// transfer: no group falls off its end.
pub open spec fn well_terminated(e: ExprCPSG) -> bool
    decreases cps_size(e), 0int,
{
    match e {
        ExprCPSG::Thunk(b, _) => {
            proof {
                assert(cps_size(e) == 1 + cps_size_seq(b));
            }
            well_terminated_seq(b)
        },
        _ => true,
    }
}

/// The body of one group: it is not empty, its last instruction is a
/// control transfer, and every nested group is well terminated too.
pub open spec fn well_terminated_seq(s: Seq<ExprCPSG>) -> bool
    decreases cps_size_seq(s), 2int,
{
    s.len() > 0 && is_control(s.last()) && well_terminated_all(s)
}

/// Every element, and every group nested in it, is well terminated.
pub open spec fn well_terminated_all(s: Seq<ExprCPSG>) -> bool
    decreases cps_size_seq(s), 1int,
{
    if s.len() == 0 {
        true
    } else {
        proof {
            lemma_cps_size_elem(s, 0);
            assert(cps_size_seq(s) == cps_size(s[0]) + cps_size_seq(s.drop_first()));
        }
        well_terminated(s[0]) && well_terminated_all(s.drop_first())
    }
}

/// Pointwise reading of `well_terminated_all`.
pub proof fn lemma_well_terminated_all(s: Seq<ExprCPSG>)
    ensures
        well_terminated_all(s) <==> (forall|k: int| 0 <= k < s.len() ==> well_terminated(
            #[trigger] s[k],
        )),
    decreases s.len(),
{
    if s.len() > 0 {
        lemma_well_terminated_all(s.drop_first());
        assert(forall|k: int| 0 <= k < s.drop_first().len() ==> #[trigger] s.drop_first()[k] == s[k
            + 1]);
        if well_terminated(s[0]) && well_terminated_all(s.drop_first()) {
            assert forall|k: int| 0 <= k < s.len() implies well_terminated(#[trigger] s[k]) by {
                if k > 0 {
                    assert(s[k] == s.drop_first()[k - 1]);
                }
            }
        }
        if forall|k: int| 0 <= k < s.len() ==> well_terminated(#[trigger] s[k]) {
            assert forall|k: int| 0 <= k < s.drop_first().len() implies well_terminated(
                #[trigger] s.drop_first()[k],
            ) by {
                assert(s.drop_first()[k] == s[k + 1]);
            }
        }
    }
}

/// The rewritten form of any sequence is a well-terminated group body,
/// provided every element of the ambient continuation is well terminated:
/// no group the transform builds can fall off its end.
pub proof fn lemma_cps_well_terminated(s: Seq<ExprCPSG>, cont: Seq<ExprCPSG>, n: nat)
    requires
        well_terminated_all(cont),
    ensures
        well_terminated_seq(cps_internal_g(s, cont, n).0),
    decreases cps_size_seq(s), 0int,
{
    let r = cps_internal_g(s, cont, n).0;
    lemma_well_terminated_all(cont);
    if s.len() == 0 {
        lemma_well_terminated_all(r);
        assert forall|k: int| 0 <= k < r.len() implies well_terminated(#[trigger] r[k]) by {
            if k < cont.len() {
                assert(r[k] == cont[k]);
            } else {
                assert(r[k] == ExprCPSG::ForceCCBare(dummy_span_g()));
            }
        }
        assert(r.last() == ExprCPSG::ForceCCBare(dummy_span_g()));
    } else {
        assert(cps_size_seq(s) == cps_size(s[0]) + cps_size_seq(s.drop_first()));
        assert(cps_size(s[0]) >= 1);
        match s[0] {
            ExprCPSG::Force(sp) => {
                if s.len() == 1 {
                    lemma_well_terminated_all(r);
                    assert forall|k: int| 0 <= k < r.len() implies well_terminated(
                        #[trigger] r[k],
                    ) by {
                        if k < cont.len() {
                            assert(r[k] == cont[k]);
                        } else {
                            assert(r[k] == ExprCPSG::ForceCC(sp));
                        }
                    }
                    assert(r.last() == ExprCPSG::ForceCC(sp));
                } else {
                    lemma_cps_well_terminated(s.drop_first(), cont, n);
                    let body = cps_internal_g(s.drop_first(), cont, n).0;
                    assert(r == seq![ExprCPSG::Thunk(body, sp), ExprCPSG::ForceCC(sp)]);
                    lemma_well_terminated_all(r);
                    assert(well_terminated(r[0]));
                    assert(well_terminated(r[1]));
                    assert(r.last() == ExprCPSG::ForceCC(sp));
                }
            },
            ExprCPSG::Thunk(body, sp) => {
                assert(cps_size(s[0]) == 1 + cps_size_seq(body));
                lemma_cps_thunk_well_terminated(body, sp, n);
                let (t, n2) = cps_thunk_g(body, sp, n);
                lemma_cps_well_terminated(s.drop_first(), cont, n2);
                let rest = cps_internal_g(s.drop_first(), cont, n2).0;
                lemma_well_terminated_all(rest);
                lemma_well_terminated_all(r);
                assert forall|k: int| 0 <= k < r.len() implies well_terminated(#[trigger] r[k]) by {
                    if k == 0 {
                        assert(r[0] == t);
                    } else {
                        assert(r[k] == rest[k - 1]);
                    }
                }
                assert(r.last() == rest.last());
            },
            _ => {
                lemma_cps_well_terminated(s.drop_first(), cont, n);
                let rest = cps_internal_g(s.drop_first(), cont, n).0;
                lemma_well_terminated_all(rest);
                lemma_well_terminated_all(r);
                assert forall|k: int| 0 <= k < r.len() implies well_terminated(#[trigger] r[k]) by {
                    if k == 0 {
                        assert(r[0] == s[0]);
                        assert(well_terminated(s[0]));
                    } else {
                        assert(r[k] == rest[k - 1]);
                    }
                }
                assert(r.last() == rest.last());
            },
        }
    }
}

/// A rewritten closure is well terminated.
pub proof fn lemma_cps_thunk_well_terminated(body: Seq<ExprCPSG>, sp: Span, n: nat)
    ensures
        well_terminated(cps_thunk_g(body, sp, n).0),
    decreases cps_size_seq(body), 1int,
{
    let cc = gen_name_g(n);
    let cont = seq![
        ExprCPSG::AtomLiteral(cc, dummy_span_g()),
        ExprCPSG::Push(dummy_span_g()),
    ];
    lemma_well_terminated_all(cont);
    lemma_cps_well_terminated(body, cont, n + 1);
    let b = cps_internal_g(body, cont, n + 1).0;
    let full = seq![
        ExprCPSG::AtomLiteral(cc, dummy_span_g()),
        ExprCPSG::Pop(dummy_span_g()),
    ] + b;
    lemma_well_terminated_all(b);
    lemma_well_terminated_all(full);
    assert forall|k: int| 0 <= k < full.len() implies well_terminated(#[trigger] full[k]) by {
        if k >= 2 {
            assert(full[k] == b[k - 2]);
        }
    }
    assert(full.last() == b.last());
}

/// The whole transformed program is a well-terminated group body: it and
/// every group inside it end in exactly one explicit control transfer.
pub proof fn lemma_expr_cps_well_terminated(s: Seq<ExprG>)
    ensures
        expr_cps_g(s) matches Ok(c) ==> well_terminated_seq(c),
{
    if let Ok(d) = desugar_g(s) {
        let cont = seq![ExprCPSG::Thunk(seq![ExprCPSG::Terminate], dummy_span_g())];
        lemma_well_terminated_all(cont);
        lemma_well_terminated_all(seq![ExprCPSG::Terminate]);
        assert(seq![ExprCPSG::Terminate].last() == ExprCPSG::Terminate);
        assert(well_terminated_seq(seq![ExprCPSG::Terminate]));
        assert(well_terminated(cont[0]));
        lemma_cps_well_terminated(d, cont, 0);
    }
}

} // verus!
