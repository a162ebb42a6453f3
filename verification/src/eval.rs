//! The direct-style reference evaluator.
//!
//! It walks the source expression tree recursively, without the
//! continuation-passing transform, and serves as a semantic oracle for the
//! compiled pipeline's output. Because it runs on the host call stack, its
//! recursion is bounded by an explicit depth budget; the trampoline has no
//! such bound.

use vstd::prelude::*;
use std::rc::Rc;
use crate::parser::{Expr, ExprG, Span, expr_deep_view, exprs_deep_view, lemma_exprs_deep_view};
use crate::runtime::str_eq;

verus! {

/// The closed set of native functions the evaluator offers.
#[derive(Debug, Clone, Copy, PartialEq, Eq, Structural)]
pub enum EvalNative {
    Inc,
    Pop,
    Push,
    Force,
    Cswap,
    Println,
}

/// A value of the reference evaluator: an integer, an atom, a closure over
/// an unevaluated expression sequence, or a named native function.
#[derive(Debug)]
pub enum Value {
    Integer(i64),
    Atom(String),
    Thunk { env: Env, exprs: Vec<Expr> },
    BuiltIn(&'static str, EvalNative),
}

/// The evaluator's persistent binding environment: an association chain
/// with the most recent binding first; closures share the chain.
#[derive(Debug)]
pub struct Env {
    head: Option<Rc<EnvNode>>,
}

#[derive(Debug)]
struct EnvNode {
    name: String,
    value: Value,
    next: Option<Rc<EnvNode>>,
}

/// The shape of an evaluator value.
pub ghost enum ValueE {
    Integer(i64),
    Atom(Seq<char>),
    Thunk { env: Seq<(Seq<char>, ValueE)>, exprs: Seq<ExprG> },
    BuiltIn(Seq<char>, EvalNative),
}

/// The shape of one evaluator value.
pub closed spec fn value_e_view(v: Value) -> ValueE
    decreases v,
{
    match v {
        Value::Integer(i) => ValueE::Integer(i),
        Value::Atom(s) => ValueE::Atom(s@),
        Value::Thunk { env, exprs } => ValueE::Thunk {
            env: env_link_view(env.head),
            exprs: exprs_deep_view(exprs@),
        },
        Value::BuiltIn(n, f) => ValueE::BuiltIn(n@, f),
    }
}

spec fn env_link_view(l: Option<Rc<EnvNode>>) -> Seq<(Seq<char>, ValueE)>
    decreases l,
{
    match l {
        None => Seq::empty(),
        Some(node) => seq![(node.name@, value_e_view(node.value))] + env_link_view(node.next),
    }
}

impl DeepView for Value {
    type V = ValueE;

    open spec fn deep_view(&self) -> ValueE {
        value_e_view(*self)
    }
}

impl View for Env {
    type V = Seq<(Seq<char>, ValueE)>;

    closed spec fn view(&self) -> Seq<(Seq<char>, ValueE)> {
        env_link_view(self.head)
    }
}

/// Relies on Rc::clone: the clone shares the allocation of the original,
/// so it carries the same value.
#[verifier::external_body]
fn env_rc_clone(rc: &Rc<EnvNode>) -> (r: Rc<EnvNode>)
    ensures
        r == *rc,
{
    Rc::clone(rc)
}

impl Clone for Env {
    /// The clone shares the chain and observes the same bindings, also
    /// after the original is extended.
    fn clone(&self) -> (r: Self)
        ensures
            r == *self,
    {
        match &self.head {
            None => Env { head: None },
            Some(rc) => Env { head: Some(env_rc_clone(rc)) },
        }
    }
}

/// The first value bound to `name`, scanning the chain from its head.
pub open spec fn env_e_lookup(env: Seq<(Seq<char>, ValueE)>, name: Seq<char>) -> Option<ValueE>
    decreases env.len(),
{
    if env.len() == 0 {
        None
    } else if env[0].0 == name {
        Some(env[0].1)
    } else {
        env_e_lookup(env.drop_first(), name)
    }
}

impl Env {
    /// The empty environment.
    pub fn new() -> (r: Self)
        ensures
            r@ == Seq::<(Seq<char>, ValueE)>::empty(),
    {
        Env { head: None }
    }

    /// Bind `key` to `val` in front of the chain; an older binding of the
    /// same name is merely hidden, and chains captured earlier are
    /// untouched.
    pub fn insert_mut(&mut self, key: String, val: Value)
        ensures
            final(self)@ == seq![(key@, val.deep_view())] + old(self)@,
    {
        let next = match &self.head {
            None => None,
            Some(rc) => Some(env_rc_clone(rc)),
        };
        let node = EnvNode { name: key, value: val, next };
        self.head = Some(Rc::new(node));
    }

    /// The value bound to `key`: the first binding in the chain wins.
    pub fn get(&self, key: &str) -> (r: Option<&Value>)
        ensures
            match r {
                Some(v) => env_e_lookup(self@, key@) == Some(v.deep_view()),
                None => env_e_lookup(self@, key@) is None,
            },
    {
        let mut cur: &Option<Rc<EnvNode>> = &self.head;
        let ghost mut seen: Seq<(Seq<char>, ValueE)> = self@;
        while cur.is_some()
            invariant
                env_link_view(*cur) == seen,
                env_e_lookup(self@, key@) == env_e_lookup(seen, key@),
            decreases seen.len(),
        {
            let node = cur.as_ref().unwrap();
            proof {
                assert(seen == seq![(node.name@, value_e_view(node.value))] + env_link_view(
                    node.next,
                ));
                assert(seen.drop_first() =~= env_link_view(node.next));
            }
            if str_eq(node.name.as_str(), key) {
                return Some(&node.value);
            }
            cur = &node.next;
            proof {
                seen = seen.drop_first();
            }
        }
        None
    }
}

impl Value {
    /// A structural copy; closures share their captured environment chain.
    fn clone_value(&self) -> (r: Value)
        ensures
            r.deep_view() == self.deep_view(),
        decreases self,
    {
        match self {
            Value::Integer(i) => Value::Integer(*i),
            Value::Atom(s) => Value::Atom(s.clone()),
            Value::Thunk { env, exprs } => {
                let r = Value::Thunk { env: env.clone(), exprs: clone_exprs(exprs) };
                r
            },
            Value::BuiltIn(n, f) => Value::BuiltIn(*n, *f),
        }
    }
}

fn clone_exprs(v: &Vec<Expr>) -> (r: Vec<Expr>)
    ensures
        exprs_deep_view(r@) == exprs_deep_view(v@),
{
    let mut w: Vec<Expr> = Vec::new();
    let mut k: usize = 0;
    while k < v.len()
        invariant
            k <= v@.len(),
            w@.len() == k,
            forall|m: int| 0 <= m < k ==> #[trigger] w@[m].deep_view() == v@[m].deep_view(),
        decreases v@.len() - k,
    {
        w.push(v[k].clone());
        k = k + 1;
    }
    proof {
        lemma_exprs_deep_view(w@);
        lemma_exprs_deep_view(v@);
        assert forall|m: int| 0 <= m < v@.len() implies exprs_deep_view(w@)[m] == exprs_deep_view(
            v@,
        )[m] by {
            assert(w@[m].deep_view() == v@[m].deep_view());
        }
        assert(exprs_deep_view(w@) =~= exprs_deep_view(v@));
    }
    w
}

impl Clone for Value {
    /// The clone has the same shape.
    fn clone(&self) -> (r: Self)
        ensures
            r.deep_view() == self.deep_view(),
    {
        self.clone_value()
    }
}

impl PartialEq for Value {
    /// Equality by shape for integers and atoms; closures compare by their
    /// expressions and captured chains sharing a head, natives by name.
    fn eq(&self, other: &Self) -> bool {
        match (self, other) {
            (Value::Integer(i), Value::Integer(j)) => *i == *j,
            (Value::Atom(a), Value::Atom(b)) => str_eq(a.as_str(), b.as_str()),
            (Value::BuiltIn(a, _), Value::BuiltIn(b, _)) => str_eq(a, b),
            _ => false,
        }
    }
}

impl vstd::std_specs::cmp::PartialEqSpecImpl for Value {
    open spec fn obeys_eq_spec() -> bool {
        false
    }

    open spec fn eq_spec(&self, other: &Self) -> bool {
        self.deep_view() == other.deep_view()
    }
}


/// A fault of the reference evaluator.
#[derive(Debug, Clone, PartialEq)]
pub enum EvalError {
    /// The named atom has no binding in the environment.
    Unbound(String),
    /// The named kind of value cannot be applied as a function.
    InvalidApply(String),
    /// A value was needed but the operand stack was empty.
    PopEmpty,
    /// A native found an operand of the wrong kind: expected, then got.
    TypeMismatch(String, String),
    /// A `quote` with nothing following it.
    BareQuote,
    /// The recursion depth budget ran out; the trampoline has no such
    /// bound.
    RecursionLimit,
}

/// The shape of an evaluator fault.
pub ghost enum EvalErrorE {
    Unbound(Seq<char>),
    InvalidApply(Seq<char>),
    PopEmpty,
    TypeMismatch(Seq<char>, Seq<char>),
    BareQuote,
    RecursionLimit,
}

impl DeepView for EvalError {
    type V = EvalErrorE;

    open spec fn deep_view(&self) -> EvalErrorE {
        match self {
            EvalError::Unbound(n) => EvalErrorE::Unbound(n@),
            EvalError::InvalidApply(k) => EvalErrorE::InvalidApply(k@),
            EvalError::PopEmpty => EvalErrorE::PopEmpty,
            EvalError::TypeMismatch(a, b) => EvalErrorE::TypeMismatch(a@, b@),
            EvalError::BareQuote => EvalErrorE::BareQuote,
            EvalError::RecursionLimit => EvalErrorE::RecursionLimit,
        }
    }
}

/// A fault together with the source spans of the applications it crossed,
/// innermost first.
#[derive(Debug, PartialEq)]
pub struct EvalStacktrace {
    pub stack: Vec<Span>,
    pub error: EvalError,
}

/// What evaluating a sequence leaves behind: the environment, operand
/// stack and output afterwards, or the fault with the state at the abort.
pub ghost enum EvalResE {
    Fin {
        env: Seq<(Seq<char>, ValueE)>,
        stack: Seq<ValueE>,
        out: Seq<ValueE>,
    },
    Fault {
        error: EvalErrorE,
        spans: Seq<Span>,
        env: Seq<(Seq<char>, ValueE)>,
        stack: Seq<ValueE>,
        out: Seq<ValueE>,
    },
}

/// The kind word of a value, as the type-mismatch fault names it.
pub open spec fn kind_of_e(v: ValueE) -> Seq<char> {
    match v {
        ValueE::Integer(_) => "integer"@,
        ValueE::Atom(_) => "atom"@,
        ValueE::Thunk { .. } => "thunk"@,
        ValueE::BuiltIn(..) => "builtin"@,
    }
}

/// Apply one value: an integer or atom is a fault; a closure evaluates its
/// body in its captured environment against the shared stack, costing one
/// unit of depth; a native works the stack directly and may rebind names
/// in the applying frame's environment.
pub open spec fn apply_g(
    v: ValueE,
    env: Seq<(Seq<char>, ValueE)>,
    stack: Seq<ValueE>,
    out: Seq<ValueE>,
    fuel: nat,
) -> EvalResE
    decreases fuel, 0int, 0int,
{
    match v {
        ValueE::Integer(_) => EvalResE::Fault {
            error: EvalErrorE::InvalidApply("integer"@),
            spans: Seq::empty(),
            env,
            stack,
            out,
        },
        ValueE::Atom(_) => EvalResE::Fault {
            error: EvalErrorE::InvalidApply("atom"@),
            spans: Seq::empty(),
            env,
            stack,
            out,
        },
        ValueE::Thunk { env: tenv, exprs: texprs } => {
            if fuel == 0 {
                EvalResE::Fault {
                    error: EvalErrorE::RecursionLimit,
                    spans: Seq::empty(),
                    env,
                    stack,
                    out,
                }
            } else {
                match eval_g(texprs, tenv, stack, out, (fuel - 1) as nat) {
                    EvalResE::Fin { env: _, stack: s2, out: o2 } => EvalResE::Fin {
                        env,
                        stack: s2,
                        out: o2,
                    },
                    EvalResE::Fault { error, spans, env: _, stack: s2, out: o2 } => EvalResE::Fault {
                        error,
                        spans,
                        env,
                        stack: s2,
                        out: o2,
                    },
                }
            }
        },
        ValueE::BuiltIn(_, n) => match n {
            EvalNative::Inc => {
                if stack.len() == 0 {
                    EvalResE::Fault {
                        error: EvalErrorE::PopEmpty,
                        spans: Seq::empty(),
                        env,
                        stack,
                        out,
                    }
                } else {
                    match stack.last() {
                        ValueE::Integer(i) => EvalResE::Fin {
                            env,
                            stack: stack.drop_last().push(
                                ValueE::Integer(crate::runtime::wrap_inc(i)),
                            ),
                            out,
                        },
                        other => EvalResE::Fault {
                            error: EvalErrorE::TypeMismatch("integer"@, kind_of_e(other)),
                            spans: Seq::empty(),
                            env,
                            stack,
                            out,
                        },
                    }
                }
            },
            EvalNative::Pop => {
                if stack.len() == 0 {
                    EvalResE::Fault {
                        error: EvalErrorE::PopEmpty,
                        spans: Seq::empty(),
                        env,
                        stack,
                        out,
                    }
                } else if !(stack.last() is Atom) {
                    EvalResE::Fault {
                        error: EvalErrorE::TypeMismatch("atom"@, kind_of_e(stack.last())),
                        spans: Seq::empty(),
                        env,
                        stack,
                        out,
                    }
                } else if stack.len() == 1 {
                    EvalResE::Fault {
                        error: EvalErrorE::PopEmpty,
                        spans: Seq::empty(),
                        env,
                        stack,
                        out,
                    }
                } else {
                    EvalResE::Fin {
                        env: seq![(stack.last()->Atom_0, stack[stack.len() - 2])] + env,
                        stack: stack.drop_last().drop_last(),
                        out,
                    }
                }
            },
            EvalNative::Push => {
                if stack.len() == 0 {
                    EvalResE::Fault {
                        error: EvalErrorE::PopEmpty,
                        spans: Seq::empty(),
                        env,
                        stack,
                        out,
                    }
                } else if !(stack.last() is Atom) {
                    EvalResE::Fault {
                        error: EvalErrorE::TypeMismatch("atom"@, kind_of_e(stack.last())),
                        spans: Seq::empty(),
                        env,
                        stack,
                        out,
                    }
                } else {
                    match env_e_lookup(env, stack.last()->Atom_0) {
                        Some(v2) => EvalResE::Fin {
                            env,
                            stack: stack.drop_last().push(v2),
                            out,
                        },
                        None => EvalResE::Fault {
                            error: EvalErrorE::Unbound(stack.last()->Atom_0),
                            spans: Seq::empty(),
                            env,
                            stack,
                            out,
                        },
                    }
                }
            },
            EvalNative::Cswap => {
                if stack.len() == 0 {
                    EvalResE::Fault {
                        error: EvalErrorE::PopEmpty,
                        spans: Seq::empty(),
                        env,
                        stack,
                        out,
                    }
                } else {
                    let rest = stack.drop_last();
                    if stack.last() == ValueE::Atom("t"@) {
                        if rest.len() < 2 {
                            EvalResE::Fault {
                                error: EvalErrorE::PopEmpty,
                                spans: Seq::empty(),
                                env,
                                stack,
                                out,
                            }
                        } else {
                            EvalResE::Fin {
                                env,
                                stack: rest.update(rest.len() - 1, rest[rest.len() - 2]).update(
                                    rest.len() - 2,
                                    rest[rest.len() - 1],
                                ),
                                out,
                            }
                        }
                    } else {
                        EvalResE::Fin { env, stack: rest, out }
                    }
                }
            },
            EvalNative::Println => {
                if stack.len() == 0 {
                    EvalResE::Fault {
                        error: EvalErrorE::PopEmpty,
                        spans: Seq::empty(),
                        env,
                        stack,
                        out,
                    }
                } else {
                    EvalResE::Fin { env, stack: stack.drop_last(), out: out.push(stack.last()) }
                }
            },
            EvalNative::Force => {
                if stack.len() == 0 {
                    EvalResE::Fault {
                        error: EvalErrorE::PopEmpty,
                        spans: Seq::empty(),
                        env,
                        stack,
                        out,
                    }
                } else if fuel == 0 {
                    EvalResE::Fault {
                        error: EvalErrorE::RecursionLimit,
                        spans: Seq::empty(),
                        env,
                        stack,
                        out,
                    }
                } else {
                    apply_g(stack.last(), env, stack.drop_last(), out, (fuel - 1) as nat)
                }
            },
        },
    }
}

/// Evaluate a sequence left to right: literals and groups push themselves,
/// a quote pushes what follows it, and any other atom applies its binding.
/// A fault carries the spans of the applications it crossed.
pub open spec fn eval_g(
    exprs: Seq<ExprG>,
    env: Seq<(Seq<char>, ValueE)>,
    stack: Seq<ValueE>,
    out: Seq<ValueE>,
    fuel: nat,
) -> EvalResE
    decreases fuel, 1int, exprs.len(),
{
    if exprs.len() == 0 {
        EvalResE::Fin { env, stack, out }
    } else {
        match exprs[0] {
            ExprG::Integer(i, _) => eval_g(
                exprs.drop_first(),
                env,
                stack.push(ValueE::Integer(i)),
                out,
                fuel,
            ),
            ExprG::Thunk(es, _) => eval_g(
                exprs.drop_first(),
                env,
                stack.push(ValueE::Thunk { env, exprs: es }),
                out,
                fuel,
            ),
            ExprG::Atom(a, sp) => {
                if a == "quote"@ {
                    if exprs.len() < 2 {
                        EvalResE::Fault {
                            error: EvalErrorE::BareQuote,
                            spans: seq![sp],
                            env,
                            stack,
                            out,
                        }
                    } else {
                        match exprs[1] {
                            ExprG::Integer(i, _) => eval_g(
                                exprs.drop_first().drop_first(),
                                env,
                                stack.push(ValueE::Integer(i)),
                                out,
                                fuel,
                            ),
                            ExprG::Atom(a2, _) => eval_g(
                                exprs.drop_first().drop_first(),
                                env,
                                stack.push(ValueE::Atom(a2)),
                                out,
                                fuel,
                            ),
                            ExprG::Thunk(_, _) => EvalResE::Fault {
                                error: EvalErrorE::TypeMismatch("quotable"@, "thunk"@),
                                spans: seq![sp],
                                env,
                                stack,
                                out,
                            },
                        }
                    }
                } else {
                    match env_e_lookup(env, a) {
                        None => EvalResE::Fault {
                            error: EvalErrorE::Unbound(a),
                            spans: seq![sp],
                            env,
                            stack,
                            out,
                        },
                        Some(v) => match apply_g(v, env, stack, out, fuel) {
                            EvalResE::Fin { env: e2, stack: s2, out: o2 } => eval_g(
                                exprs.drop_first(),
                                e2,
                                s2,
                                o2,
                                fuel,
                            ),
                            EvalResE::Fault { error, spans, env: e2, stack: s2, out: o2 } =>
                                EvalResE::Fault {
                                error,
                                spans: spans.push(sp),
                                env: e2,
                                stack: s2,
                                out: o2,
                            },
                        },
                    }
                }
            },
        }
    }
}

/// The bindings the evaluator starts with: the six native functions under
/// their surface names.
pub open spec fn initial_eval_env_g() -> Seq<(Seq<char>, ValueE)> {
    seq![
        ("println"@, ValueE::BuiltIn("println"@, EvalNative::Println)),
        ("cswap"@, ValueE::BuiltIn("cswap"@, EvalNative::Cswap)),
        ("force"@, ValueE::BuiltIn("force"@, EvalNative::Force)),
        ("push"@, ValueE::BuiltIn("push"@, EvalNative::Push)),
        ("pop"@, ValueE::BuiltIn("pop"@, EvalNative::Pop)),
        ("inc"@, ValueE::BuiltIn("inc"@, EvalNative::Inc)),
    ]
}


/// The reference evaluator's recursion depth budget: unlike the trampoline
/// it consumes host stack, so its depth is bounded — deep enough for any
/// realistic direct-style program, shallow enough to fit a thread's stack.
pub open spec fn eval_fuel() -> nat {
    256
}

/// Apply a native by its tag, against an anonymous native value.
pub open spec fn native_apply_g(
    n: EvalNative,
    env: Seq<(Seq<char>, ValueE)>,
    stack: Seq<ValueE>,
    out: Seq<ValueE>,
    fuel: nat,
) -> EvalResE {
    apply_g(ValueE::BuiltIn(Seq::empty(), n), env, stack, out, fuel)
}

fn fault(e: EvalError) -> (r: EvalStacktrace)
    ensures
        r.error == e,
        r.stack@ == Seq::<Span>::empty(),
{
    let r = EvalStacktrace { stack: Vec::new(), error: e };
    proof {
        assert(r.stack@ =~= Seq::<Span>::empty());
    }
    r
}

/// Pop an integer and push its successor; the step past the largest
/// integer wraps to the smallest.
pub fn inc(_e: &mut Env, s: &mut Vec<Value>) -> (r: Result<(), EvalStacktrace>)
    ensures
        match native_apply_g(EvalNative::Inc, old(_e)@, old(s).deep_view(), Seq::empty(), 0) {
            EvalResE::Fin { env: e2, stack: s2, out: _ } => {
                &&& r is Ok
                &&& final(_e)@ == e2
                &&& final(s).deep_view() == s2
            },
            EvalResE::Fault { error, spans, env: e2, stack: s2, out: _ } => {
                &&& r matches Err(st) && st.error.deep_view() == error && st.stack@ == spans
                &&& final(_e)@ == e2
                &&& final(s).deep_view() == s2
            },
        },
{
    let n = s.len();
    if n == 0 {
        return Err(fault(EvalError::PopEmpty));
    }
    proof {
        assert(old(s).deep_view()[n - 1] == old(s)@[n - 1].deep_view());
    }
    let i = match &s[n - 1] {
        Value::Integer(i) => *i,
        Value::Atom(_) => {
            return Err(fault(EvalError::TypeMismatch("integer".to_owned(), "atom".to_owned())));
        },
        Value::Thunk { .. } => {
            return Err(fault(EvalError::TypeMismatch("integer".to_owned(), "thunk".to_owned())));
        },
        Value::BuiltIn(..) => {
            return Err(fault(EvalError::TypeMismatch("integer".to_owned(), "builtin".to_owned())));
        },
    };
    let next = if i == i64::MAX {
        i64::MIN
    } else {
        i + 1
    };
    let _ = s.pop();
    s.push(Value::Integer(next));
    proof {
        assert(s.deep_view() =~= old(s).deep_view().drop_last().push(
            ValueE::Integer(crate::runtime::wrap_inc(i)),
        ));
    }
    Ok(())
}

/// Pop a name, then a value, and bind the value to the name in front of
/// the chain.
pub fn pop(env: &mut Env, stack: &mut Vec<Value>) -> (r: Result<(), EvalStacktrace>)
    ensures
        match native_apply_g(EvalNative::Pop, old(env)@, old(stack).deep_view(), Seq::empty(), 0) {
            EvalResE::Fin { env: e2, stack: s2, out: _ } => {
                &&& r is Ok
                &&& final(env)@ == e2
                &&& final(stack).deep_view() == s2
            },
            EvalResE::Fault { error, spans, env: e2, stack: s2, out: _ } => {
                &&& r matches Err(st) && st.error.deep_view() == error && st.stack@ == spans
                &&& final(env)@ == e2
                &&& final(stack).deep_view() == s2
            },
        },
{
    let n = stack.len();
    if n == 0 {
        return Err(fault(EvalError::PopEmpty));
    }
    proof {
        assert(old(stack).deep_view()[n - 1] == old(stack)@[n - 1].deep_view());
    }
    let name_kind = match &stack[n - 1] {
        Value::Atom(_) => None,
        Value::Integer(_) => Some("integer"),
        Value::Thunk { .. } => Some("thunk"),
        Value::BuiltIn(..) => Some("builtin"),
    };
    if let Some(kind) = name_kind {
        return Err(fault(EvalError::TypeMismatch("atom".to_owned(), kind.to_owned())));
    }
    if n == 1 {
        return Err(fault(EvalError::PopEmpty));
    }
    let namev = stack.pop().unwrap();
    let value = stack.pop().unwrap();
    proof {
        assert(stack.deep_view() =~= old(stack).deep_view().drop_last().drop_last());
        assert(old(stack).deep_view()[n - 2] == old(stack)@[n - 2].deep_view());
    }
    match namev {
        Value::Atom(name) => {
            env.insert_mut(name, value);
            Ok(())
        },
        _ => {
            proof {
                assert(false);
            }
            Err(fault(EvalError::PopEmpty))
        },
    }
}

/// Pop a name and push the value bound to it.
pub fn push(env: &mut Env, stack: &mut Vec<Value>) -> (r: Result<(), EvalStacktrace>)
    ensures
        match native_apply_g(EvalNative::Push, old(env)@, old(stack).deep_view(), Seq::empty(), 0) {
            EvalResE::Fin { env: e2, stack: s2, out: _ } => {
                &&& r is Ok
                &&& final(env)@ == e2
                &&& final(stack).deep_view() == s2
            },
            EvalResE::Fault { error, spans, env: e2, stack: s2, out: _ } => {
                &&& r matches Err(st) && st.error.deep_view() == error && st.stack@ == spans
                &&& final(env)@ == e2
                &&& final(stack).deep_view() == s2
            },
        },
{
    let n = stack.len();
    if n == 0 {
        return Err(fault(EvalError::PopEmpty));
    }
    proof {
        assert(old(stack).deep_view()[n - 1] == old(stack)@[n - 1].deep_view());
    }
    let name_kind = match &stack[n - 1] {
        Value::Atom(_) => None,
        Value::Integer(_) => Some("integer"),
        Value::Thunk { .. } => Some("thunk"),
        Value::BuiltIn(..) => Some("builtin"),
    };
    if let Some(kind) = name_kind {
        return Err(fault(EvalError::TypeMismatch("atom".to_owned(), kind.to_owned())));
    }
    let looked = match &stack[n - 1] {
        Value::Atom(name) => match env.get(name.as_str()) {
            Some(v) => Ok(v.clone()),
            None => Err(name.clone()),
        },
        _ => {
            proof {
                assert(false);
            }
            Err(String::new())
        },
    };
    match looked {
        Ok(v) => {
            let ghost vg = v.deep_view();
            let _ = stack.pop();
            stack.push(v);
            proof {
                assert(stack.deep_view() =~= old(stack).deep_view().drop_last().push(vg));
            }
            Ok(())
        },
        Err(name) => Err(fault(EvalError::Unbound(name))),
    }
}

/// Pop a value; when it is the atom `t`, swap the two values below it.
pub fn cswap(env: &mut Env, stack: &mut Vec<Value>) -> (r: Result<(), EvalStacktrace>)
    ensures
        match native_apply_g(EvalNative::Cswap, old(env)@, old(stack).deep_view(), Seq::empty(), 0) {
            EvalResE::Fin { env: e2, stack: s2, out: _ } => {
                &&& r is Ok
                &&& final(env)@ == e2
                &&& final(stack).deep_view() == s2
            },
            EvalResE::Fault { error, spans, env: e2, stack: s2, out: _ } => {
                &&& r matches Err(st) && st.error.deep_view() == error && st.stack@ == spans
                &&& final(env)@ == e2
                &&& final(stack).deep_view() == s2
            },
        },
{
    let n = stack.len();
    if n == 0 {
        return Err(fault(EvalError::PopEmpty));
    }
    proof {
        assert(old(stack).deep_view()[n - 1] == old(stack)@[n - 1].deep_view());
        reveal_strlit("t");
    }
    let is_t = match &stack[n - 1] {
        Value::Atom(a) => str_eq(a.as_str(), "t"),
        _ => false,
    };
    if !is_t {
        let _ = stack.pop();
        proof {
            assert(stack.deep_view() =~= old(stack).deep_view().drop_last());
        }
        return Ok(());
    }
    if n < 3 {
        return Err(fault(EvalError::PopEmpty));
    }
    proof {
        assert(old(stack).deep_view()[n - 2] == old(stack)@[n - 2].deep_view());
        assert(old(stack).deep_view()[n - 3] == old(stack)@[n - 3].deep_view());
    }
    let _ = stack.pop();
    let x = stack.pop().unwrap();
    let y = stack.pop().unwrap();
    stack.push(x);
    stack.push(y);
    proof {
        let rest = old(stack).deep_view().drop_last();
        assert(stack.deep_view() =~= rest.update(rest.len() - 1, rest[rest.len() - 2]).update(
            rest.len() - 2,
            rest[rest.len() - 1],
        ));
    }
    Ok(())
}

/// Pop one value and append it to the output log: the print native.
pub fn println(env: &mut Env, stack: &mut Vec<Value>, out: &mut Vec<Value>) -> (r: Result<
    (),
    EvalStacktrace,
>)
    ensures
        match native_apply_g(
            EvalNative::Println,
            old(env)@,
            old(stack).deep_view(),
            old(out).deep_view(),
            0,
        ) {
            EvalResE::Fin { env: e2, stack: s2, out: o2 } => {
                &&& r is Ok
                &&& final(env)@ == e2
                &&& final(stack).deep_view() == s2
                &&& final(out).deep_view() == o2
            },
            EvalResE::Fault { error, spans, env: e2, stack: s2, out: o2 } => {
                &&& r matches Err(st) && st.error.deep_view() == error && st.stack@ == spans
                &&& final(env)@ == e2
                &&& final(stack).deep_view() == s2
                &&& final(out).deep_view() == o2
            },
        },
{
    let n = stack.len();
    if n == 0 {
        return Err(fault(EvalError::PopEmpty));
    }
    proof {
        assert(old(stack).deep_view()[n - 1] == old(stack)@[n - 1].deep_view());
    }
    let v = stack.pop().unwrap();
    out.push(v);
    proof {
        assert(stack.deep_view() =~= old(stack).deep_view().drop_last());
        assert(out.deep_view() =~= old(out).deep_view().push(old(stack).deep_view().last()));
    }
    Ok(())
}


/// Pop a value and apply it: the explicit force native.
pub fn force(env: &mut Env, stack: &mut Vec<Value>, out: &mut Vec<Value>, fuel: u64) -> (r: Result<
    (),
    EvalStacktrace,
>)
    ensures
        match native_apply_g(
            EvalNative::Force,
            old(env)@,
            old(stack).deep_view(),
            old(out).deep_view(),
            fuel as nat,
        ) {
            EvalResE::Fin { env: e2, stack: s2, out: o2 } => {
                &&& r is Ok
                &&& final(env)@ == e2
                &&& final(stack).deep_view() == s2
                &&& final(out).deep_view() == o2
            },
            EvalResE::Fault { error, spans, env: e2, stack: s2, out: o2 } => {
                &&& r matches Err(st) && st.error.deep_view() == error && st.stack@ == spans
                &&& final(env)@ == e2
                &&& final(stack).deep_view() == s2
                &&& final(out).deep_view() == o2
            },
        },
    decreases fuel, 0int,
{
    let n = stack.len();
    if n == 0 {
        return Err(fault(EvalError::PopEmpty));
    }
    if fuel == 0 {
        return Err(fault(EvalError::RecursionLimit));
    }
    proof {
        assert(old(stack).deep_view()[n - 1] == old(stack)@[n - 1].deep_view());
    }
    let v = stack.pop().unwrap();
    proof {
        assert(stack.deep_view() =~= old(stack).deep_view().drop_last());
    }
    apply_value(v, env, stack, out, fuel - 1)
}

/// Apply one value: a fault for an integer or atom, a recursive evaluation
/// of a closure's body in its captured environment, or a native call.
pub fn apply_value(v: Value, env: &mut Env, stack: &mut Vec<Value>, out: &mut Vec<Value>, fuel: u64)
    -> (r: Result<(), EvalStacktrace>)
    ensures
        match apply_g(
            v.deep_view(),
            old(env)@,
            old(stack).deep_view(),
            old(out).deep_view(),
            fuel as nat,
        ) {
            EvalResE::Fin { env: e2, stack: s2, out: o2 } => {
                &&& r is Ok
                &&& final(env)@ == e2
                &&& final(stack).deep_view() == s2
                &&& final(out).deep_view() == o2
            },
            EvalResE::Fault { error, spans, env: e2, stack: s2, out: o2 } => {
                &&& r matches Err(st) && st.error.deep_view() == error && st.stack@ == spans
                &&& final(env)@ == e2
                &&& final(stack).deep_view() == s2
                &&& final(out).deep_view() == o2
            },
        },
    decreases fuel, 1int,
{
    match v {
        Value::Integer(_) => Err(fault(EvalError::InvalidApply("integer".to_owned()))),
        Value::Atom(_) => Err(fault(EvalError::InvalidApply("atom".to_owned()))),
        Value::Thunk { env: tenv, exprs: texprs } => {
            if fuel == 0 {
                return Err(fault(EvalError::RecursionLimit));
            }
            let mut nec_env = tenv;
            eval_exprs(texprs.as_slice(), &mut nec_env, stack, out, fuel - 1)
        },
        Value::BuiltIn(_, n) => match n {
            EvalNative::Inc => inc(env, stack),
            EvalNative::Pop => pop(env, stack),
            EvalNative::Push => push(env, stack),
            EvalNative::Cswap => cswap(env, stack),
            EvalNative::Println => println(env, stack, out),
            EvalNative::Force => force(env, stack, out, fuel),
        },
    }
}

/// Evaluate a sequence of expressions against the given environment,
/// operand stack and output log, within the given depth budget.
#[verifier::loop_isolation(false)]
#[verifier::rlimit(60)]
pub fn eval_exprs(
    exprs: &[Expr],
    env: &mut Env,
    stack: &mut Vec<Value>,
    out: &mut Vec<Value>,
    fuel: u64,
) -> (r: Result<(), EvalStacktrace>)
    ensures
        match eval_g(
            exprs_deep_view(exprs@),
            old(env)@,
            old(stack).deep_view(),
            old(out).deep_view(),
            fuel as nat,
        ) {
            EvalResE::Fin { env: e2, stack: s2, out: o2 } => {
                &&& r is Ok
                &&& final(env)@ == e2
                &&& final(stack).deep_view() == s2
                &&& final(out).deep_view() == o2
            },
            EvalResE::Fault { error, spans, env: e2, stack: s2, out: o2 } => {
                &&& r matches Err(st) && st.error.deep_view() == error && st.stack@ == spans
                &&& final(env)@ == e2
                &&& final(stack).deep_view() == s2
                &&& final(out).deep_view() == o2
            },
        },
    decreases fuel, 2int,
{
    let ghost dv = exprs_deep_view(exprs@);
    let ghost fg = fuel as nat;
    proof {
        lemma_exprs_deep_view(exprs@);
        reveal_strlit("quote");
    }
    let mut i: usize = 0;
    proof {
        assert(dv.skip(0) =~= dv);
    }
    while i < exprs.len()
        invariant
            i <= exprs@.len(),
            eval_g(dv, old(env)@, old(stack).deep_view(), old(out).deep_view(), fg) == eval_g(
                dv.skip(i as int),
                env@,
                stack.deep_view(),
                out.deep_view(),
                fg,
            ),
        decreases exprs@.len() - i,
    {
        let ghost si = dv.skip(i as int);
        proof {
            assert(si[0] == dv[i as int]);
            assert(dv[i as int] == expr_deep_view(exprs@[i as int]));
            assert(si.drop_first() =~= dv.skip(i as int + 1));
        }
        match &exprs[i] {
            Expr::Integer(iv, _) => {
                let ghost pre = stack.deep_view();
                stack.push(Value::Integer(*iv));
                proof {
                    assert(stack.deep_view() =~= pre.push(ValueE::Integer(*iv)));
                }
                i = i + 1;
            },
            Expr::Thunk(es, _) => {
                let ghost pre = stack.deep_view();
                let cap = Value::Thunk { env: env.clone(), exprs: clone_exprs(es) };
                let ghost capg = cap.deep_view();
                stack.push(cap);
                proof {
                    assert(capg == ValueE::Thunk { env: env@, exprs: exprs_deep_view(es@) });
                    assert(stack.deep_view() =~= pre.push(capg));
                }
                i = i + 1;
            },
            Expr::Atom(a, sp) => {
                if str_eq(a.as_str(), "quote") {
                    if i + 1 >= exprs.len() {
                        let mut tr: Vec<Span> = Vec::new();
                        tr.push(sp.start..sp.end);
                        proof {
                            assert(tr@ =~= seq![*sp]);
                        }
                        return Err(EvalStacktrace { stack: tr, error: EvalError::BareQuote });
                    }
                    proof {
                        assert(si[1] == dv[i as int + 1]);
                        assert(dv[i as int + 1] == expr_deep_view(exprs@[i as int + 1]));
                        assert(si.drop_first().drop_first() =~= dv.skip(i as int + 2));
                    }
                    match &exprs[i + 1] {
                        Expr::Integer(iv2, _) => {
                            let ghost pre = stack.deep_view();
                            stack.push(Value::Integer(*iv2));
                            proof {
                                assert(stack.deep_view() =~= pre.push(ValueE::Integer(*iv2)));
                            }
                            i = i + 2;
                        },
                        Expr::Atom(a2, _) => {
                            let ghost pre = stack.deep_view();
                            let ghost a2g = a2@;
                            stack.push(Value::Atom(a2.clone()));
                            proof {
                                assert(stack.deep_view() =~= pre.push(ValueE::Atom(a2g)));
                            }
                            i = i + 2;
                        },
                        Expr::Thunk(_, _) => {
                            let mut tr: Vec<Span> = Vec::new();
                            tr.push(sp.start..sp.end);
                            proof {
                                assert(tr@ =~= seq![*sp]);
                            }
                            return Err(EvalStacktrace {
                                stack: tr,
                                error: EvalError::TypeMismatch(
                                    "quotable".to_owned(),
                                    "thunk".to_owned(),
                                ),
                            });
                        },
                    }
                } else {
                    let looked = match env.get(a.as_str()) {
                        Some(vr) => Some(vr.clone()),
                        None => None,
                    };
                    match looked {
                        None => {
                            let mut tr: Vec<Span> = Vec::new();
                            tr.push(sp.start..sp.end);
                            proof {
                                assert(tr@ =~= seq![*sp]);
                            }
                            return Err(EvalStacktrace {
                                stack: tr,
                                error: EvalError::Unbound(a.clone()),
                            });
                        },
                        Some(v) => {
                            let res = apply_value(v, env, stack, out, fuel);
                            match res {
                                Ok(()) => {
                                    i = i + 1;
                                },
                                Err(st) => {
                                    let ghost spans0 = st.stack@;
                                    let mut st2 = st;
                                    st2.stack.push(sp.start..sp.end);
                                    proof {
                                        assert(st2.stack@ =~= spans0.push(*sp));
                                    }
                                    return Err(st2);
                                },
                            }
                        },
                    }
                }
            },
        }
    }
    proof {
        assert(dv.skip(exprs@.len() as int) =~= Seq::<ExprG>::empty());
    }
    Ok(())
}

/// The evaluator's initial environment, holding the native functions.
pub fn env_with_builtins() -> (r: Env)
    ensures
        r@ == initial_eval_env_g(),
{
    let mut env = Env::new();
    env.insert_mut("inc".to_owned(), Value::BuiltIn("inc", EvalNative::Inc));
    env.insert_mut("pop".to_owned(), Value::BuiltIn("pop", EvalNative::Pop));
    env.insert_mut("push".to_owned(), Value::BuiltIn("push", EvalNative::Push));
    env.insert_mut("force".to_owned(), Value::BuiltIn("force", EvalNative::Force));
    env.insert_mut("cswap".to_owned(), Value::BuiltIn("cswap", EvalNative::Cswap));
    env.insert_mut("println".to_owned(), Value::BuiltIn("println", EvalNative::Println));
    proof {
        assert(env@ =~= initial_eval_env_g());
    }
    env
}

/// Run the reference evaluator on a program: an empty stack, the native
/// bindings, and the standard depth budget. The result is the final
/// operand stack, or the fault with its span trace.
pub fn eval(exprs: &[Expr]) -> (r: Result<Vec<Value>, EvalStacktrace>)
    ensures
        match eval_g(
            exprs_deep_view(exprs@),
            initial_eval_env_g(),
            Seq::empty(),
            Seq::empty(),
            eval_fuel(),
        ) {
            EvalResE::Fin { env: _, stack: s2, out: _ } => r matches Ok(v) && v.deep_view() == s2,
            EvalResE::Fault { error, spans, .. } => r matches Err(st) && st.error.deep_view()
                == error && st.stack@ == spans,
        },
{
    let mut env = env_with_builtins();
    let mut stack: Vec<Value> = Vec::new();
    let mut out: Vec<Value> = Vec::new();
    proof {
        assert(stack.deep_view() =~= Seq::<ValueE>::empty());
        assert(out.deep_view() =~= Seq::<ValueE>::empty());
    }
    match eval_exprs(exprs, &mut env, &mut stack, &mut out, 256) {
        Ok(()) => Ok(stack),
        Err(st) => Err(st),
    }
}

} // verus!
