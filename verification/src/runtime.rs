//! The runtime model: tagged values, the persistent binding environment,
//! and the trampoline that executes a flattened block table.
//!
//! The environment is a persistent singly-linked association chain with
//! structure sharing: cells are reference-counted, so `prepend` and `tail`
//! share the untouched part of the chain instead of copying it. Many
//! closures may hold the same chain node, and a chain node is never mutated
//! after creation.

use vstd::prelude::*;
use std::rc::Rc;
use crate::compiler::{CPSProgram, ExprCPSRef};

verus! {

#[derive(Debug)]
pub struct List<T> {
    head: Link<T>,
}

type Link<T> = Option<Rc<Node<T>>>;

#[derive(Debug)]
struct Node<T> {
    elem: T,
    next: Link<T>,
}

/// Relies on Rc::clone: the clone shares the allocation of the original, so
/// it carries the same value.
#[verifier::external_body]
fn rc_clone<T>(rc: &Rc<T>) -> (r: Rc<T>)
    ensures
        r == *rc,
{
    Rc::clone(rc)
}

/// Relies on Rc::ptr_eq: it returns true only when both arguments point to
/// the same allocation, which then holds one and the same value.
#[verifier::external_body]
fn rc_ptr_eq<T>(a: &Rc<T>, b: &Rc<T>) -> (r: bool)
    ensures
        r ==> *a == *b,
{
    Rc::ptr_eq(a, b)
}

spec fn link_view<T>(l: Link<T>) -> Seq<T>
    decreases l,
{
    match l {
        None => Seq::empty(),
        Some(node) => seq![node.elem] + link_view(node.next),
    }
}

impl<T> View for List<T> {
    type V = Seq<T>;

    closed spec fn view(&self) -> Seq<T> {
        link_view(self.head)
    }
}

fn link_clone<T>(l: &Link<T>) -> (r: Link<T>)
    ensures
        r == *l,
{
    match l {
        None => None,
        Some(rc) => Some(rc_clone(rc)),
    }
}

impl<T> List<T> {
    /// The empty list.
    pub fn new() -> (r: List<T>)
        ensures
            r@ == Seq::<T>::empty(),
    {
        List { head: None }
    }

    /// A new list whose head is `elem` and whose tail shares this chain.
    pub fn prepend(&self, elem: T) -> (r: List<T>)
        ensures
            r@ == seq![elem] + self@,
    {
        let ghost e = elem;
        let node = Node { elem, next: link_clone(&self.head) };
        let r = List { head: Some(Rc::new(node)) };
        proof {
            assert(r@ == seq![e] + self@);
        }
        r
    }

    /// The chain after the first cell; the tail of the empty list is empty.
    pub fn tail(&self) -> (r: List<T>)
        ensures
            self@.len() == 0 ==> r@ == Seq::<T>::empty(),
            self@.len() > 0 ==> r@ == self@.drop_first(),
    {
        match &self.head {
            None => List { head: None },
            Some(node) => {
                let r = List { head: link_clone(&node.next) };
                proof {
                    assert(self@ == seq![node.elem] + link_view(node.next));
                    assert(r@ == self@.drop_first());
                }
                r
            },
        }
    }

    /// The first element, if the list is not empty.
    pub fn head(&self) -> (r: Option<&T>)
        ensures
            match r {
                Some(t) => self@.len() > 0 && *t == self@[0],
                None => self@.len() == 0,
            },
    {
        match &self.head {
            None => None,
            Some(node) => Some(&node.elem),
        }
    }

    /// Whether the list holds no element.
    pub fn is_empty(&self) -> (r: bool)
        ensures
            r == (self@.len() == 0),
    {
        match &self.head {
            None => true,
            Some(node) => {
                proof {
                    assert(self@ == seq![node.elem] + link_view(node.next));
                }
                false
            },
        }
    }

    /// A list sharing this chain's head cell: the same list, not a copy.
    pub fn ptr_copy(&self) -> (r: List<T>)
        ensures
            r == *self,
    {
        List { head: link_clone(&self.head) }
    }

    /// True only when both lists share one chain (or both are empty); equal
    /// contents in distinct allocations may answer false.
    pub fn same_list(&self, l: &List<T>) -> (r: bool)
        ensures
            r ==> self@ == l@,
    {
        match (&self.head, &l.head) {
            (None, None) => true,
            (Some(a), Some(b)) => rc_ptr_eq(a, b),
            _ => false,
        }
    }

    /// An iterator over the chain, sharing it.
    pub fn iter(&self) -> (r: Iter<T>)
        ensures
            r@ == self@,
    {
        Iter { rest: self.ptr_copy() }
    }

    /// The first value `f` maps to `Some`, scanning from the head.
    pub fn find_map<B, F: Fn(&T) -> Option<B>>(&self, f: F) -> (r: Option<B>)
        requires
            forall|t: T| #[trigger] f.requires((&t,)),
        ensures
            match r {
                Some(b) => exists|i: int|
                    0 <= i < self@.len() && #[trigger] f.ensures((&self@[i],), Some(b))
                        && (forall|j: int| 0 <= j < i ==> #[trigger] f.ensures((&self@[j],), None::<B>)),
                None => forall|i: int|
                    0 <= i < self@.len() ==> #[trigger] f.ensures((&self@[i],), None::<B>),
            },
        decreases self@.len(),
    {
        match self.head() {
            None => None,
            Some(h) => {
                if let Some(v) = f(h) {
                    proof {
                        assert(f.ensures((&self@[0],), Some(v)));
                    }
                    Some(v)
                } else {
                    let t = self.tail();
                    let r = t.find_map(f);
                    let ghost rg = r;
                    proof {
                        assert(self@ == seq![self@[0]] + t@);
                        if let Some(b) = rg {
                            let i = choose|i: int|
                                0 <= i < t@.len() && #[trigger] f.ensures((&t@[i],), Some(b))
                                    && (forall|j: int| 0 <= j < i ==> #[trigger] f.ensures((&t@[j],), None::<B>));
                            assert(self@[i + 1] == t@[i]);
                            assert(forall|j: int| 1 <= j < i + 1 ==> #[trigger] self@[j] == t@[j - 1]);
                            assert(f.ensures((&self@[i + 1],), Some(b)));
                        }
                    }
                    r
                }
            },
        }
    }
}

impl<T: Clone> List<T> {
    /// The chain with the first element satisfying `f` removed; the part of
    /// the chain past the removal point is shared, not copied. A chain with
    /// no such element comes back unchanged.
    pub fn filter_first<F: Fn(&T) -> bool>(&self, f: F) -> (r: List<T>)
        requires
            forall|t: T| #[trigger] f.requires((&t,)),
        ensures
            filter_first_removed(self@, r@, f) || filter_first_unchanged(self@, r@, f),
        decreases self@.len(),
    {
        match self.head() {
            None => List::new(),
            Some(h) => {
                if f(h) {
                    let r = self.tail();
                    proof {
                        assert(f.ensures((&self@[0],), true));
                        assert(filter_first_removed_at(self@, r@, f, 0));
                    }
                    r
                } else {
                    let ghost hg = self@[0];
                    let hc = h.clone();
                    let t = self.tail();
                    let r = t.filter_first(f);
                    proof {
                        assert(self@ == seq![self@[0]] + t@);
                        assert(f.ensures((&self@[0],), false));
                    }
                    if t.same_list(&r) {
                        let rr = self.ptr_copy();
                        proof {
                            assert(t@ == r@);
                            if filter_first_removed(t@, r@, f) {
                                let i = choose|i: int| filter_first_removed_at(t@, r@, f, i);
                                assert(r@.len() == t@.len() - 1);
                                assert(false);
                            }
                            assert(filter_first_unchanged(self@, rr@, f));
                        }
                        rr
                    } else {
                        let rr = r.prepend(hc);
                        proof {
                            assert(cloned::<T>(hg, hc));
                            assert(rr@ == seq![hc] + r@);
                            if filter_first_removed(t@, r@, f) {
                                let i = choose|i: int| filter_first_removed_at(t@, r@, f, i);
                                assert(forall|j: int| 0 <= j < i + 1 ==>
                                    #[trigger] f.ensures((&self@[j],), false)) by {
                                    assert(forall|j: int| 1 <= j < i + 1 ==>
                                        #[trigger] self@[j] == t@[j - 1]);
                                }
                                assert(forall|j: int| 1 <= j < i + 1 ==>
                                    cloned::<T>(#[trigger] self@[j], rr@[j])) by {
                                    assert(forall|j: int| 1 <= j < i + 1 ==> #[trigger] self@[j] == t@[j - 1]);
                                    assert(forall|j: int| 1 <= j < i + 1 ==> #[trigger] rr@[j] == r@[j - 1]);
                                }
                                assert(forall|j: int| i + 1 <= j < rr@.len() ==>
                                    #[trigger] rr@[j] == self@[j + 1]) by {
                                    assert(forall|j: int| i + 1 <= j < rr@.len() ==> #[trigger] rr@[j] == r@[j - 1]);
                                    assert(forall|j: int| i <= j < r@.len() ==> #[trigger] r@[j] == t@[j + 1]);
                                    assert(forall|j: int| i + 1 <= j < rr@.len() ==> #[trigger] self@[j + 1] == t@[j]);
                                }
                                assert(filter_first_removed_at(self@, rr@, f, i + 1));
                            } else {
                                assert(forall|j: int| 1 <= j < self@.len() ==>
                                    #[trigger] f.ensures((&self@[j],), false)
                                        && cloned::<T>(self@[j], rr@[j])) by {
                                    assert(forall|j: int| 1 <= j < self@.len() ==> #[trigger] self@[j] == t@[j - 1]);
                                    assert(forall|j: int| 1 <= j < self@.len() ==> #[trigger] rr@[j] == r@[j - 1]);
                                }
                                assert(filter_first_unchanged(self@, rr@, f));
                            }
                        }
                        rr
                    }
                }
            },
        }
    }
}

/// `r` is `s` with the element at `i` removed, `i` being the first index
/// whose element satisfies `f`; elements before `i` may be clones.
pub open spec fn filter_first_removed_at<T: Clone, F: Fn(&T) -> bool>(
    s: Seq<T>,
    r: Seq<T>,
    f: F,
    i: int,
) -> bool {
    &&& 0 <= i < s.len()
    &&& f.ensures((&s[i],), true)
    &&& (forall|j: int| 0 <= j < i ==> #[trigger] f.ensures((&s[j],), false))
    &&& r.len() == s.len() - 1
    &&& (forall|j: int| 0 <= j < i ==> cloned::<T>(s[j], #[trigger] r[j]))
    &&& (forall|j: int| i <= j < r.len() ==> #[trigger] r[j] == s[j + 1])
}

/// Some first match was removed from `s` to give `r`.
pub open spec fn filter_first_removed<T: Clone, F: Fn(&T) -> bool>(s: Seq<T>, r: Seq<T>, f: F) -> bool {
    exists|i: int| filter_first_removed_at(s, r, f, i)
}

/// No element of `s` satisfies `f`, and `r` holds the same elements
/// (possibly clones of them).
pub open spec fn filter_first_unchanged<T: Clone, F: Fn(&T) -> bool>(s: Seq<T>, r: Seq<T>, f: F) -> bool {
    &&& (forall|j: int| 0 <= j < s.len() ==> #[trigger] f.ensures((&s[j],), false))
    &&& r.len() == s.len()
    &&& (forall|j: int| 0 <= j < s.len() ==> cloned::<T>(s[j], #[trigger] r[j]))
}

/// An iterator that walks a shared chain front to back, cloning each element.
pub struct Iter<T> {
    rest: List<T>,
}

impl<T> View for Iter<T> {
    type V = Seq<T>;

    closed spec fn view(&self) -> Seq<T> {
        self.rest@
    }
}

impl<T: Clone> Iter<T> {
    /// The next element of the chain, or `None` at its end.
    pub fn next(&mut self) -> (r: Option<T>)
        ensures
            match r {
                Some(t) => old(self)@.len() > 0 && cloned::<T>(old(self)@[0], t)
                    && final(self)@ == old(self)@.drop_first(),
                None => old(self)@.len() == 0 && final(self)@ == old(self)@,
            },
    {
        let h = match self.rest.head() {
            None => return None,
            Some(h) => h.clone(),
        };
        self.rest = self.rest.tail();
        Some(h)
    }
}


/// The name of a block in the flattened program: an index into the table.
/// The entry block is index zero.
#[derive(Debug, Clone, Copy, PartialEq, Eq, Structural)]
pub struct ThunkRef(pub usize);

/// The closed set of native functions the runtime offers.
#[derive(Debug, Clone, Copy, PartialEq, Eq, Structural)]
pub enum Native {
    Pop,
    Push,
    Inc,
    Println,
}

/// A runtime value: an integer, an atom, a closure over a block, or a
/// native function.
#[derive(Debug)]
pub enum Value {
    Integer(i64),
    Atom(String),
    Thunk { env: ListEnv, fp: ThunkRef },
    BuiltIn(Native),
}

/// One binding of the environment chain.
#[derive(Debug)]
struct Binding {
    name: String,
    value: Value,
}

/// The persistent binding environment: an association chain with the most
/// recent binding first, shared by every closure that captured it.
#[derive(Debug)]
pub struct ListEnv(List<Binding>);

/// The mathematical shape of a runtime value: atom names as character
/// sequences, captured environments as association sequences.
pub ghost enum ValueG {
    Integer(i64),
    Atom(Seq<char>),
    Thunk { env: Seq<(Seq<char>, ValueG)>, fp: int },
    BuiltIn(Native),
}

/// The shape of one value.
pub closed spec fn value_deep_view(v: Value) -> ValueG
    decreases v,
{
    match v {
        Value::Integer(i) => ValueG::Integer(i),
        Value::Atom(s) => ValueG::Atom(s@),
        Value::Thunk { env, fp } => ValueG::Thunk { env: link_deep_view(env.0.head), fp: fp.0 as int },
        Value::BuiltIn(n) => ValueG::BuiltIn(n),
    }
}

/// The shape of an environment chain.
spec fn link_deep_view(l: Link<Binding>) -> Seq<(Seq<char>, ValueG)>
    decreases l,
{
    match l {
        None => Seq::empty(),
        Some(node) => seq![(node.elem.name@, value_deep_view(node.elem.value))]
            + link_deep_view(node.next),
    }
}

impl DeepView for Value {
    type V = ValueG;

    open spec fn deep_view(&self) -> ValueG {
        value_deep_view(*self)
    }
}

/// The shapes of a sequence of bindings, elementwise.
spec fn bindings_deep_view(s: Seq<Binding>) -> Seq<(Seq<char>, ValueG)>
    decreases s,
{
    if s.len() == 0 {
        Seq::empty()
    } else {
        seq![(s[0].name@, value_deep_view(s[0].value))] + bindings_deep_view(s.drop_first())
    }
}

proof fn lemma_bindings_deep_view(s: Seq<Binding>)
    ensures
        bindings_deep_view(s).len() == s.len(),
        forall|k: int| 0 <= k < s.len() ==> bindings_deep_view(s)[k]
            == (#[trigger] s[k].name@, value_deep_view(s[k].value)),
    decreases s,
{
    if s.len() > 0 {
        lemma_bindings_deep_view(s.drop_first());
        assert forall|k: int| 0 <= k < s.len() implies bindings_deep_view(s)[k]
            == (#[trigger] s[k].name@, value_deep_view(s[k].value)) by {
            if k > 0 {
                assert(s.drop_first()[k - 1] == s[k]);
                assert(bindings_deep_view(s)[k] == bindings_deep_view(s.drop_first())[k - 1]);
            }
        }
    }
}

/// The chain shape is the elementwise shape of the chain's bindings.
proof fn lemma_link_deep_view(l: &Link<Binding>)
    ensures
        link_deep_view(*l) == bindings_deep_view(link_view(*l)),
    decreases l,
{
    match l {
        Some(node) => {
            lemma_link_deep_view(&node.next);
            assert(link_view(*l) == seq![node.elem] + link_view(node.next));
            assert(link_view(*l).drop_first() =~= link_view(node.next));
            assert(link_view(*l).len() > 0);
            assert(bindings_deep_view(link_view(*l))
                == seq![(node.elem.name@, value_deep_view(node.elem.value))]
                    + bindings_deep_view(link_view(node.next)));
        },
        None => {
            assert(link_deep_view(*l) =~= bindings_deep_view(link_view(*l)));
        },
    }
}

impl View for ListEnv {
    type V = Seq<(Seq<char>, ValueG)>;

    closed spec fn view(&self) -> Seq<(Seq<char>, ValueG)> {
        link_deep_view(self.0.head)
    }
}

impl Value {
    /// A structural copy; closures share their captured environment chain.
    fn clone_value(&self) -> (r: Value)
        ensures
            r == *self,
    {
        match self {
            Value::Integer(i) => Value::Integer(*i),
            Value::Atom(s) => Value::Atom(s.clone()),
            Value::Thunk { env, fp } => Value::Thunk { env: env.clone(), fp: *fp },
            Value::BuiltIn(n) => Value::BuiltIn(*n),
        }
    }

    /// The atom's name, for a value that is an atom.
    pub fn get_name(&self) -> (r: Option<&str>)
        ensures
            match r {
                Some(n) => self is Atom && self.deep_view() == ValueG::Atom(n@),
                None => !(self is Atom),
            },
    {
        match self {
            Value::Integer(_) => None,
            Value::Atom(s) => Some(s.as_str()),
            Value::Thunk { .. } => None,
            Value::BuiltIn(_) => None,
        }
    }

    /// The integer, for a value that is an integer.
    pub fn get_integer(&self) -> (r: Option<i64>)
        ensures
            match r {
                Some(i) => *self == Value::Integer(i),
                None => !(self is Integer),
            },
    {
        match self {
            Value::Integer(i) => Some(*i),
            Value::Atom(_) => None,
            Value::Thunk { .. } => None,
            Value::BuiltIn(_) => None,
        }
    }
}

impl Clone for Value {
    /// The clone is the same value; a closure's environment is shared.
    fn clone(&self) -> (r: Self)
        ensures
            r == *self,
    {
        self.clone_value()
    }
}

impl PartialEq for Value {
    /// Equality by tag and contents; two closures compare equal only when
    /// they reference the same block and share one environment chain, so
    /// equal closures are interchangeable, but distinct chains with equal
    /// contents may compare unequal.
    fn eq(&self, other: &Self) -> bool {
        match (self, other) {
            (Value::Integer(i), Value::Integer(j)) => *i == *j,
            (Value::Atom(a), Value::Atom(b)) => *a == *b,
            (Value::Thunk { env: e1, fp: f1 }, Value::Thunk { env: e2, fp: f2 }) => {
                f1.0 == f2.0 && e1.0.same_list(&e2.0)
            },
            (Value::BuiltIn(m), Value::BuiltIn(n)) => *m == *n,
            _ => false,
        }
    }
}

impl vstd::std_specs::cmp::PartialEqSpecImpl for Value {
    open spec fn obeys_eq_spec() -> bool {
        false
    }

    open spec fn eq_spec(&self, other: &Self) -> bool {
        self.deep_view() == other.deep_view()
    }
}

impl Clone for Binding {
    fn clone(&self) -> (r: Self)
        ensures
            r == *self,
    {
        Binding { name: self.name.clone(), value: self.value.clone() }
    }
}

impl Clone for ListEnv {
    /// The clone shares the chain: it observes exactly the same bindings,
    /// also after the original is extended.
    fn clone(&self) -> (r: Self)
        ensures
            r == *self,
    {
        ListEnv(self.0.ptr_copy())
    }
}

impl PartialEq for ListEnv {
    /// Environments compare equal only when they share one chain.
    fn eq(&self, other: &Self) -> bool {
        self.0.same_list(&other.0)
    }
}

impl vstd::std_specs::cmp::PartialEqSpecImpl for ListEnv {
    open spec fn obeys_eq_spec() -> bool {
        false
    }

    open spec fn eq_spec(&self, other: &Self) -> bool {
        self@ == other@
    }
}

/// Relies on str's PartialEq: equality of the two character sequences.
#[verifier::external_body]
pub(crate) fn str_eq(a: &str, b: &str) -> (r: bool)
    ensures
        r == (a@ == b@),
{
    a == b
}

/// The first value bound to `name`, scanning the chain from its head.
pub open spec fn env_lookup_g(env: Seq<(Seq<char>, ValueG)>, name: Seq<char>) -> Option<ValueG>
    decreases env.len(),
{
    if env.len() == 0 {
        None
    } else if env[0].0 == name {
        Some(env[0].1)
    } else {
        env_lookup_g(env.drop_first(), name)
    }
}

/// The chain with the first binding of `name` removed, and nothing else.
pub open spec fn env_remove_first_g(
    env: Seq<(Seq<char>, ValueG)>,
    name: Seq<char>,
) -> Seq<(Seq<char>, ValueG)>
    decreases env.len(),
{
    if env.len() == 0 {
        Seq::empty()
    } else if env[0].0 == name {
        env.drop_first()
    } else {
        seq![env[0]] + env_remove_first_g(env.drop_first(), name)
    }
}

/// Insertion: any existing binding of `name` is removed, then the new
/// binding is put in front.
pub open spec fn env_insert_g(
    env: Seq<(Seq<char>, ValueG)>,
    name: Seq<char>,
    v: ValueG,
) -> Seq<(Seq<char>, ValueG)> {
    seq![(name, v)] + env_remove_first_g(env, name)
}

proof fn lemma_lookup_some(s: Seq<Binding>, name: Seq<char>, i: int)
    requires
        0 <= i < s.len(),
        s[i].name@ == name,
        forall|j: int| 0 <= j < i ==> (#[trigger] s[j].name@) != name,
    ensures
        env_lookup_g(bindings_deep_view(s), name) == Some(value_deep_view(s[i].value)),
    decreases i,
{
    lemma_bindings_deep_view(s);
    if i == 0 {
    } else {
        assert(s[0].name@ != name);
        lemma_bindings_deep_view(s.drop_first());
        assert(bindings_deep_view(s).drop_first() =~= bindings_deep_view(s.drop_first()));
        assert(s.drop_first()[i - 1] == s[i]);
        assert(forall|j: int| 0 <= j < i - 1 ==> (#[trigger] s.drop_first()[j].name@) != name) by {
            assert(forall|j: int| 0 <= j < i - 1 ==> s.drop_first()[j] == s[j + 1]);
        }
        lemma_lookup_some(s.drop_first(), name, i - 1);
    }
}

proof fn lemma_lookup_none(s: Seq<Binding>, name: Seq<char>)
    requires
        forall|j: int| 0 <= j < s.len() ==> (#[trigger] s[j].name@) != name,
    ensures
        env_lookup_g(bindings_deep_view(s), name) is None,
    decreases s.len(),
{
    lemma_bindings_deep_view(s);
    if s.len() > 0 {
        assert(bindings_deep_view(s).drop_first() =~= bindings_deep_view(s.drop_first()));
        assert(forall|j: int| 0 <= j < s.drop_first().len() ==> (#[trigger] s.drop_first()[j].name@) != name)
            by {
            assert(forall|j: int| 0 <= j < s.drop_first().len() ==> s.drop_first()[j] == s[j + 1]);
        }
        lemma_lookup_none(s.drop_first(), name);
    }
}

proof fn lemma_remove_first_match(s: Seq<Binding>, r: Seq<Binding>, name: Seq<char>, i: int)
    requires
        0 <= i < s.len(),
        s[i].name@ == name,
        forall|j: int| 0 <= j < i ==> (#[trigger] s[j].name@) != name,
        r.len() == s.len() - 1,
        forall|j: int| 0 <= j < i ==> #[trigger] r[j] == s[j],
        forall|j: int| i <= j < r.len() ==> #[trigger] r[j] == s[j + 1],
    ensures
        bindings_deep_view(r) == env_remove_first_g(bindings_deep_view(s), name),
    decreases i,
{
    lemma_bindings_deep_view(s);
    lemma_bindings_deep_view(r);
    if i == 0 {
        assert(bindings_deep_view(s).drop_first() =~= bindings_deep_view(s.drop_first()));
        assert(r =~= s.drop_first());
        assert(bindings_deep_view(r) =~= env_remove_first_g(bindings_deep_view(s), name));
    } else {
        assert(s[0].name@ != name);
        assert(r[0] == s[0]);
        lemma_remove_first_match(s.drop_first(), r.drop_first(), name, i - 1);
        assert(bindings_deep_view(s).drop_first() =~= bindings_deep_view(s.drop_first()));
        assert(bindings_deep_view(r).drop_first() =~= bindings_deep_view(r.drop_first()));
        assert(bindings_deep_view(r)
            =~= seq![bindings_deep_view(r)[0]] + bindings_deep_view(r.drop_first()));
        assert(env_remove_first_g(bindings_deep_view(s), name)
            == seq![bindings_deep_view(s)[0]]
                + env_remove_first_g(bindings_deep_view(s).drop_first(), name));
        assert(bindings_deep_view(r) =~= env_remove_first_g(bindings_deep_view(s), name));
    }
}

proof fn lemma_remove_first_no_match(s: Seq<Binding>, name: Seq<char>)
    requires
        forall|j: int| 0 <= j < s.len() ==> (#[trigger] s[j].name@) != name,
    ensures
        env_remove_first_g(bindings_deep_view(s), name) == bindings_deep_view(s),
    decreases s.len(),
{
    lemma_bindings_deep_view(s);
    if s.len() > 0 {
        assert(forall|j: int| 0 <= j < s.drop_first().len() ==> (#[trigger] s.drop_first()[j].name@) != name)
            by {
            assert(forall|j: int| 0 <= j < s.drop_first().len() ==> s.drop_first()[j] == s[j + 1]);
        }
        lemma_remove_first_no_match(s.drop_first(), name);
        assert(bindings_deep_view(s).drop_first() =~= bindings_deep_view(s.drop_first()));
        assert(env_remove_first_g(bindings_deep_view(s), name)
            =~= seq![bindings_deep_view(s)[0]] + bindings_deep_view(s.drop_first()));
        assert(env_remove_first_g(bindings_deep_view(s), name) =~= bindings_deep_view(s));
    }
}

impl ListEnv {
    /// The empty environment.
    pub fn new() -> (r: Self)
        ensures
            r@ == Seq::<(Seq<char>, ValueG)>::empty(),
    {
        let r = ListEnv(List::new());
        proof {
            lemma_link_deep_view(&r.0.head);
            assert(r@ =~= Seq::<(Seq<char>, ValueG)>::empty());
        }
        r
    }

    /// Bind `key` to `val`: the first existing binding of `key` anywhere in
    /// the chain is removed, the untouched part of the chain is shared, and
    /// the new binding is put in front. Chains previously captured by
    /// closures are never mutated and keep observing the old binding.
    pub fn insert(&mut self, key: String, val: Value)
        ensures
            final(self)@ == env_insert_g(old(self)@, key@, val.deep_view()),
    {
        let ghost s0 = self.0@;
        let ghost keyg = key@;
        let keyref = &key;
        let pred = |b: &Binding| -> (r: bool)
            ensures
                r == (b.name@ == keyref@),
            {
                str_eq(b.name.as_str(), keyref.as_str())
            };
        let ghost predg = pred;
        let filtered = self.0.filter_first(pred);
        let ghost fs = filtered@;
        proof {
            lemma_link_deep_view(&old(self).0.head);
            lemma_bindings_deep_view(s0);
            lemma_bindings_deep_view(fs);
            if filter_first_removed(s0, fs, predg) {
                let i = choose|i: int| filter_first_removed_at(s0, fs, predg, i);
                assert(s0[i].name@ == keyg);
                assert forall|j: int| 0 <= j < i implies (#[trigger] s0[j].name@) != keyg by {
                    assert(predg.ensures((&s0[j],), false));
                }
                assert(forall|j: int| 0 <= j < i ==> #[trigger] fs[j] == s0[j]) by {
                    assert(forall|j: int| 0 <= j < i ==> cloned::<Binding>(s0[j], #[trigger] fs[j]));
                }
                lemma_remove_first_match(s0, fs, keyg, i);
            } else {
                assert forall|j: int| 0 <= j < s0.len() implies (#[trigger] s0[j].name@) != keyg by {
                    assert(predg.ensures((&s0[j],), false));
                }
                assert(forall|j: int| 0 <= j < s0.len() ==> #[trigger] fs[j] == s0[j]) by {
                    assert(forall|j: int| 0 <= j < s0.len() ==> cloned::<Binding>(s0[j], #[trigger] fs[j]));
                }
                assert(fs =~= s0);
                lemma_remove_first_no_match(s0, keyg);
            }
            assert(bindings_deep_view(fs) == env_remove_first_g(bindings_deep_view(s0), keyg));
        }
        let nb = Binding { name: key, value: val };
        let ghost nbg = nb;
        let nl = filtered.prepend(nb);
        proof {
            lemma_link_deep_view(&nl.head);
            assert(nl@ == seq![nbg] + fs);
            lemma_bindings_deep_view(nl@);
            assert(nl@.drop_first() =~= fs);
            assert(bindings_deep_view(nl@)
                == seq![(keyg, value_deep_view(nbg.value))] + bindings_deep_view(fs));
        }
        self.0 = nl;
    }

    /// The value bound to `key`: the first binding in the chain wins.
    pub fn get(&self, key: &str) -> (r: Option<Value>)
        ensures
            match r {
                Some(v) => env_lookup_g(self@, key@) == Some(v.deep_view()),
                None => env_lookup_g(self@, key@) is None,
            },
    {
        let ghost s0 = self.0@;
        let pred = |b: &Binding| -> (r: Option<Value>)
            ensures
                r matches Some(v) ==> b.name@ == key@ && v == b.value,
                r is None ==> b.name@ != key@,
            {
                if str_eq(b.name.as_str(), key) {
                    Some(b.value.clone())
                } else {
                    None
                }
            };
        let ghost predg = pred;
        let r = self.0.find_map(pred);
        let ghost rg = r;
        proof {
            lemma_link_deep_view(&self.0.head);
            if let Some(v) = rg {
                let i = choose|i: int|
                    0 <= i < s0.len() && #[trigger] predg.ensures((&s0[i],), Some(v))
                        && (forall|j: int| 0 <= j < i ==> #[trigger] predg.ensures((&s0[j],), None::<Value>));
                assert(s0[i].name@ == key@ && v == s0[i].value);
                assert forall|j: int| 0 <= j < i implies (#[trigger] s0[j].name@) != key@ by {
                    assert(predg.ensures((&s0[j],), None::<Value>));
                }
                lemma_lookup_some(s0, key@, i);
            } else {
                assert forall|j: int| 0 <= j < s0.len() implies (#[trigger] s0[j].name@) != key@ by {
                    assert(predg.ensures((&s0[j],), None::<Value>));
                }
                lemma_lookup_none(s0, key@);
            }
        }
        r
    }
}

/// A fatal runtime condition; each aborts the run it occurs in.
#[derive(Debug, Clone, PartialEq)]
pub enum RuntimeError {
    /// A value was needed but the operand stack was empty.
    PopEmpty,
    /// A binding or lookup name was not an atom.
    NotAName,
    /// The named atom has no binding in the environment.
    Unbound(String),
    /// The native increment found a non-integer.
    NotAnInteger,
    /// A force was applied to a value that is neither a closure nor a
    /// native function.
    InvalidApply,
    /// After a native call, the saved continuation was not a closure.
    InvalidContinuation,
    /// A block reference does not resolve in the table: an internal
    /// invariant violation, unreachable for tables the flattener builds.
    DanglingBlockRef,
    /// A block ran past its last instruction without a control transfer: an
    /// internal invariant violation, unreachable for transformed programs.
    BlockFellOff,
}

/// The shape of a fatal condition, with names as character sequences.
pub ghost enum RuntimeErrorG {
    PopEmpty,
    NotAName,
    Unbound(Seq<char>),
    NotAnInteger,
    InvalidApply,
    InvalidContinuation,
    DanglingBlockRef,
    BlockFellOff,
}

impl DeepView for RuntimeError {
    type V = RuntimeErrorG;

    open spec fn deep_view(&self) -> RuntimeErrorG {
        match self {
            RuntimeError::PopEmpty => RuntimeErrorG::PopEmpty,
            RuntimeError::NotAName => RuntimeErrorG::NotAName,
            RuntimeError::Unbound(n) => RuntimeErrorG::Unbound(n@),
            RuntimeError::NotAnInteger => RuntimeErrorG::NotAnInteger,
            RuntimeError::InvalidApply => RuntimeErrorG::InvalidApply,
            RuntimeError::InvalidContinuation => RuntimeErrorG::InvalidContinuation,
            RuntimeError::DanglingBlockRef => RuntimeErrorG::DanglingBlockRef,
            RuntimeError::BlockFellOff => RuntimeErrorG::BlockFellOff,
        }
    }
}

/// The operand stack: one mutable value sequence shared by all blocks.
pub type Stack = Vec<Value>;

/// Incrementing wraps around at the top of the integer range.
pub open spec fn wrap_inc(i: i64) -> i64 {
    if i == i64::MAX {
        i64::MIN
    } else {
        (i + 1) as i64
    }
}

/// What one native function does to the environment, the operand stack and
/// the output log: the new triple, or the fatal condition, which leaves all
/// three unchanged.
pub open spec fn native_step_g(
    n: Native,
    env: Seq<(Seq<char>, ValueG)>,
    stack: Seq<ValueG>,
    out: Seq<ValueG>,
) -> Result<(Seq<(Seq<char>, ValueG)>, Seq<ValueG>, Seq<ValueG>), RuntimeErrorG> {
    match n {
        Native::Pop => {
            if stack.len() == 0 {
                Err(RuntimeErrorG::PopEmpty)
            } else if !(stack.last() is Atom) {
                Err(RuntimeErrorG::NotAName)
            } else if stack.len() == 1 {
                Err(RuntimeErrorG::PopEmpty)
            } else {
                Ok((
                    env_insert_g(env, stack.last()->Atom_0, stack[stack.len() - 2]),
                    stack.drop_last().drop_last(),
                    out,
                ))
            }
        },
        Native::Push => {
            if stack.len() == 0 {
                Err(RuntimeErrorG::PopEmpty)
            } else if !(stack.last() is Atom) {
                Err(RuntimeErrorG::NotAName)
            } else {
                match env_lookup_g(env, stack.last()->Atom_0) {
                    Some(v) => Ok((env, stack.drop_last().push(v), out)),
                    None => Err(RuntimeErrorG::Unbound(stack.last()->Atom_0)),
                }
            }
        },
        Native::Inc => {
            if stack.len() == 0 {
                Err(RuntimeErrorG::PopEmpty)
            } else {
                match stack.last() {
                    ValueG::Integer(i) => Ok((
                        env,
                        stack.drop_last().push(ValueG::Integer(wrap_inc(i))),
                        out,
                    )),
                    _ => Err(RuntimeErrorG::NotAnInteger),
                }
            }
        },
        Native::Println => {
            if stack.len() == 0 {
                Err(RuntimeErrorG::PopEmpty)
            } else {
                Ok((env, stack.drop_last(), out.push(stack.last())))
            }
        },
    }
}

/// Pop a name, then a value, and bind the value to the name; shadowing
/// follows the environment's insertion rule. On a fatal condition nothing
/// is changed.
pub fn builtin_pop(env: &mut ListEnv, stack: &mut Stack) -> (r: Result<(), RuntimeError>)
    ensures
        match native_step_g(Native::Pop, old(env)@, old(stack).deep_view(), Seq::empty()) {
            Ok((e2, s2, _)) => {
                &&& r is Ok
                &&& final(env)@ == e2
                &&& final(stack).deep_view() == s2
            },
            Err(eg) => {
                &&& r matches Err(e) && e.deep_view() == eg
                &&& final(env)@ == old(env)@
                &&& final(stack).deep_view() == old(stack).deep_view()
            },
        },
{
    let n = stack.len();
    if n == 0 {
        return Err(RuntimeError::PopEmpty);
    }
    proof {
        assert(old(stack).deep_view()[n - 1] == old(stack)@[n - 1].deep_view());
    }
    if !matches!(&stack[n - 1], Value::Atom(_)) {
        return Err(RuntimeError::NotAName);
    }
    if n == 1 {
        return Err(RuntimeError::PopEmpty);
    }
    let namev = stack.pop().unwrap();
    let value = stack.pop().unwrap();
    proof {
        assert(final(stack)@ =~= old(stack)@.drop_last().drop_last());
        assert(final(stack).deep_view() =~= old(stack).deep_view().drop_last().drop_last());
        assert(old(stack).deep_view()[n - 2] == old(stack)@[n - 2].deep_view());
    }
    match namev {
        Value::Atom(name) => {
            let ghost nameg = name@;
            env.insert(name, value);
            proof {
                assert(old(stack).deep_view().last() == ValueG::Atom(nameg));
            }
            Ok(())
        },
        _ => {
            proof {
                assert(false);
            }
            Err(RuntimeError::NotAName)
        },
    }
}

/// Pop a name and push the value bound to it; an unbound name is fatal and
/// changes nothing.
pub fn builtin_push(env: &mut ListEnv, stack: &mut Stack) -> (r: Result<(), RuntimeError>)
    ensures
        match native_step_g(Native::Push, old(env)@, old(stack).deep_view(), Seq::empty()) {
            Ok((e2, s2, _)) => {
                &&& r is Ok
                &&& final(env)@ == e2
                &&& final(stack).deep_view() == s2
            },
            Err(eg) => {
                &&& r matches Err(e) && e.deep_view() == eg
                &&& final(env)@ == old(env)@
                &&& final(stack).deep_view() == old(stack).deep_view()
            },
        },
{
    let n = stack.len();
    if n == 0 {
        return Err(RuntimeError::PopEmpty);
    }
    proof {
        assert(old(stack).deep_view()[n - 1] == old(stack)@[n - 1].deep_view());
    }
    let name_is_atom = matches!(&stack[n - 1], Value::Atom(_));
    if !name_is_atom {
        return Err(RuntimeError::NotAName);
    }
    let looked = match &stack[n - 1] {
        Value::Atom(name) => env.get(name.as_str()),
        _ => None,
    };
    match looked {
        Some(v) => {
            let ghost vg = v.deep_view();
            let namev = stack.pop();
            stack.push(v);
            proof {
                assert(final(stack)@ =~= old(stack)@.drop_last().push(final(stack)@.last()));
                assert(final(stack).deep_view() =~= old(stack).deep_view().drop_last().push(vg));
            }
            Ok(())
        },
        None => {
            let name = match &stack[n - 1] {
                Value::Atom(name) => name.clone(),
                _ => String::new(),
            };
            Err(RuntimeError::Unbound(name))
        },
    }
}

/// Pop an integer and push its successor; the step past the largest integer
/// wraps to the smallest.
pub fn builtin_inc(env: &mut ListEnv, stack: &mut Stack) -> (r: Result<(), RuntimeError>)
    ensures
        match native_step_g(Native::Inc, old(env)@, old(stack).deep_view(), Seq::empty()) {
            Ok((e2, s2, _)) => {
                &&& r is Ok
                &&& final(env)@ == e2
                &&& final(stack).deep_view() == s2
            },
            Err(eg) => {
                &&& r matches Err(e) && e.deep_view() == eg
                &&& final(env)@ == old(env)@
                &&& final(stack).deep_view() == old(stack).deep_view()
            },
        },
{
    let n = stack.len();
    if n == 0 {
        return Err(RuntimeError::PopEmpty);
    }
    proof {
        assert(old(stack).deep_view()[n - 1] == old(stack)@[n - 1].deep_view());
    }
    let i = match &stack[n - 1] {
        Value::Integer(i) => *i,
        _ => {
            return Err(RuntimeError::NotAnInteger);
        },
    };
    let next = if i == i64::MAX {
        i64::MIN
    } else {
        i + 1
    };
    let _ = stack.pop();
    stack.push(Value::Integer(next));
    proof {
        assert(final(stack)@ =~= old(stack)@.drop_last().push(Value::Integer(next)));
        assert(final(stack).deep_view() =~= old(stack).deep_view().drop_last().push(
            ValueG::Integer(wrap_inc(i)),
        ));
    }
    Ok(())
}

/// Pop one value and append it to the output log: the print native.
pub fn builtin_println(env: &mut ListEnv, stack: &mut Stack, out: &mut Vec<Value>) -> (r: Result<
    (),
    RuntimeError,
>)
    ensures
        match native_step_g(Native::Println, old(env)@, old(stack).deep_view(), old(out).deep_view()) {
            Ok((e2, s2, o2)) => {
                &&& r is Ok
                &&& final(env)@ == e2
                &&& final(stack).deep_view() == s2
                &&& final(out).deep_view() == o2
            },
            Err(eg) => {
                &&& r matches Err(e) && e.deep_view() == eg
                &&& final(env)@ == old(env)@
                &&& final(stack).deep_view() == old(stack).deep_view()
                &&& final(out).deep_view() == old(out).deep_view()
            },
        },
{
    let n = stack.len();
    if n == 0 {
        return Err(RuntimeError::PopEmpty);
    }
    proof {
        assert(old(stack).deep_view()[n - 1] == old(stack)@[n - 1].deep_view());
    }
    let v = stack.pop().unwrap();
    out.push(v);
    proof {
        assert(final(stack).deep_view() =~= old(stack).deep_view().drop_last());
        assert(final(out).deep_view() =~= old(out).deep_view().push(old(stack).deep_view().last()));
    }
    Ok(())
}

/// Run the given native against the environment, stack and output log.
pub fn run_native(n: Native, env: &mut ListEnv, stack: &mut Stack, out: &mut Vec<Value>) -> (r:
    Result<(), RuntimeError>)
    ensures
        match native_step_g(n, old(env)@, old(stack).deep_view(), old(out).deep_view()) {
            Ok((e2, s2, o2)) => {
                &&& r is Ok
                &&& final(env)@ == e2
                &&& final(stack).deep_view() == s2
                &&& final(out).deep_view() == o2
            },
            Err(eg) => {
                &&& r matches Err(e) && e.deep_view() == eg
                &&& final(env)@ == old(env)@
                &&& final(stack).deep_view() == old(stack).deep_view()
                &&& final(out).deep_view() == old(out).deep_view()
            },
        },
{
    match n {
        Native::Pop => builtin_pop(env, stack),
        Native::Push => builtin_push(env, stack),
        Native::Inc => builtin_inc(env, stack),
        Native::Println => builtin_println(env, stack, out),
    }
}

/// The bindings the runtime starts with: the four native functions, under
/// their surface names.
pub open spec fn initial_env_g() -> Seq<(Seq<char>, ValueG)> {
    seq![
        ("println"@, ValueG::BuiltIn(Native::Println)),
        ("inc"@, ValueG::BuiltIn(Native::Inc)),
        ("push"@, ValueG::BuiltIn(Native::Push)),
        ("pop"@, ValueG::BuiltIn(Native::Pop)),
    ]
}

/// The initial environment, holding the native functions.
pub fn make_env() -> (r: ListEnv)
    ensures
        r@ == initial_env_g(),
{
    proof {
        reveal_strlit("pop");
        reveal_strlit("push");
        reveal_strlit("inc");
        reveal_strlit("println");
    }
    let mut env = ListEnv::new();
    env.insert("pop".to_owned(), Value::BuiltIn(Native::Pop));
    proof {
        assert(env@ =~= seq![("pop"@, ValueG::BuiltIn(Native::Pop))]);
    }
    env.insert("push".to_owned(), Value::BuiltIn(Native::Push));
    proof {
        reveal_strlit("pop");
        reveal_strlit("push");
        reveal_strlit("inc");
        reveal_strlit("println");
        assert("push"@.len() == 4 && "pop"@.len() == 3 && "inc"@.len() == 3 && "println"@.len() == 7);
        assert("inc"@[0] == 'i' && "pop"@[0] == 'p');
        reveal_with_fuel(env_remove_first_g, 6);
        assert("push"@ != "pop"@);
        assert(env@ =~= seq![
            ("push"@, ValueG::BuiltIn(Native::Push)),
            ("pop"@, ValueG::BuiltIn(Native::Pop)),
        ]);
    }
    env.insert("inc".to_owned(), Value::BuiltIn(Native::Inc));
    proof {
        reveal_with_fuel(env_remove_first_g, 6);
        assert("inc"@ != "push"@ && "inc"@ != "pop"@);
        assert(env@ =~= seq![
            ("inc"@, ValueG::BuiltIn(Native::Inc)),
            ("push"@, ValueG::BuiltIn(Native::Push)),
            ("pop"@, ValueG::BuiltIn(Native::Pop)),
        ]);
    }
    env.insert("println".to_owned(), Value::BuiltIn(Native::Println));
    proof {
        reveal_with_fuel(env_remove_first_g, 6);
        assert("println"@ != "inc"@ && "println"@ != "push"@ && "println"@ != "pop"@);
        assert(env@ =~= initial_env_g());
    }
    env
}



/// The trampoline's only control state: the block to run and the
/// environment to run it in. Replacing the frame is the only control
/// transfer; exactly one frame is live at a time.
pub struct Frame {
    pub tr: ThunkRef,
    pub env: ListEnv,
}

/// What a continuation-passing force does: hand control to a new frame, or
/// abort. `env`, `stack` and `out` are the values after the attempt; on a
/// handover `env` is the environment of the frame taking over.
pub ghost enum ForceCcG {
    Go { tr: int, env: Seq<(Seq<char>, ValueG)>, stack: Seq<ValueG>, out: Seq<ValueG> },
    Fail { err: RuntimeErrorG, env: Seq<(Seq<char>, ValueG)>, stack: Seq<ValueG>, out: Seq<ValueG> },
}

/// A force with an explicit continuation: pop the continuation, then the
/// callee. A closure callee gets the continuation pushed back for its own
/// binding prologue; a native callee runs at once, after which control goes
/// to the continuation, whose captured environment replaces the current one.
pub open spec fn force_cc_g(
    env: Seq<(Seq<char>, ValueG)>,
    stack: Seq<ValueG>,
    out: Seq<ValueG>,
) -> ForceCcG {
    if stack.len() < 2 {
        ForceCcG::Fail { err: RuntimeErrorG::PopEmpty, env, stack, out }
    } else {
        let cc = stack.last();
        let th = stack[stack.len() - 2];
        let rest = stack.drop_last().drop_last();
        match th {
            ValueG::Thunk { env: te, fp } => ForceCcG::Go { tr: fp, env: te, stack: rest.push(cc), out },
            ValueG::BuiltIn(n) => match native_step_g(n, env, rest, out) {
                Ok((env2, stack2, out2)) => match cc {
                    ValueG::Thunk { env: ce, fp: cf } => ForceCcG::Go {
                        tr: cf,
                        env: ce,
                        stack: stack2,
                        out: out2,
                    },
                    _ => ForceCcG::Fail {
                        err: RuntimeErrorG::InvalidContinuation,
                        env: env2,
                        stack: stack2,
                        out: out2,
                    },
                },
                Err(e) => ForceCcG::Fail { err: e, env, stack: rest, out },
            },
            _ => ForceCcG::Fail { err: RuntimeErrorG::InvalidApply, env, stack: rest, out },
        }
    }
}

/// A bare force: pop the continuation and hand control to it without
/// pushing anything, the tail-call return to the caller's continuation.
pub open spec fn force_cc_bare_g(stack: Seq<ValueG>, out: Seq<ValueG>) -> ForceCcG {
    if stack.len() == 0 {
        ForceCcG::Fail { err: RuntimeErrorG::PopEmpty, env: Seq::empty(), stack, out }
    } else {
        match stack.last() {
            ValueG::Thunk { env: te, fp } => ForceCcG::Go {
                tr: fp,
                env: te,
                stack: stack.drop_last(),
                out,
            },
            _ => ForceCcG::Fail {
                err: RuntimeErrorG::InvalidApply,
                env: Seq::empty(),
                stack: stack.drop_last(),
                out,
            },
        }
    }
}

/// Perform a continuation-passing force against the operand stack and the
/// current frame; the frame handed back replaces the current one.
pub fn builtin_force_cc(stack: &mut Stack, cur_frame: &mut Frame, out: &mut Vec<Value>) -> (r:
    Result<Frame, RuntimeError>)
    ensures
        final(cur_frame).tr == old(cur_frame).tr,
        match force_cc_g(old(cur_frame).env@, old(stack).deep_view(), old(out).deep_view()) {
            ForceCcG::Go { tr, env, stack: s2, out: o2 } => {
                &&& r matches Ok(f) && f.tr.0 == tr && f.env@ == env
                &&& final(stack).deep_view() == s2
                &&& final(out).deep_view() == o2
            },
            ForceCcG::Fail { err, env, stack: s2, out: o2 } => {
                &&& r matches Err(e) && e.deep_view() == err
                &&& final(stack).deep_view() == s2
                &&& final(out).deep_view() == o2
            },
        },
{
    let n = stack.len();
    if n < 2 {
        return Err(RuntimeError::PopEmpty);
    }
    proof {
        assert(old(stack).deep_view()[n - 1] == old(stack)@[n - 1].deep_view());
        assert(old(stack).deep_view()[n - 2] == old(stack)@[n - 2].deep_view());
    }
    let cc = stack.pop().unwrap();
    let th = stack.pop().unwrap();
    let ghost ccg = cc.deep_view();
    proof {
        assert(stack@ =~= old(stack)@.drop_last().drop_last());
        assert(stack.deep_view() =~= old(stack).deep_view().drop_last().drop_last());
    }
    match th {
        Value::Thunk { env, fp } => {
            stack.push(cc);
            proof {
                assert(stack.deep_view() =~= old(stack).deep_view().drop_last().drop_last().push(ccg));
            }
            Ok(Frame { tr: fp, env })
        },
        Value::BuiltIn(ntv) => {
            let res = run_native(ntv, &mut cur_frame.env, stack, out);
            match res {
                Err(e) => Err(e),
                Ok(()) => match cc {
                    Value::Thunk { env: ce, fp: cf } => Ok(Frame { tr: cf, env: ce }),
                    _ => Err(RuntimeError::InvalidContinuation),
                },
            }
        },
        _ => Err(RuntimeError::InvalidApply),
    }
}

/// Perform a bare force: the popped continuation becomes the frame.
pub fn builtin_force_cc_bare(stack: &mut Stack) -> (r: Result<Frame, RuntimeError>)
    ensures
        match force_cc_bare_g(old(stack).deep_view(), Seq::empty()) {
            ForceCcG::Go { tr, env, stack: s2, out: _ } => {
                &&& r matches Ok(f) && f.tr.0 == tr && f.env@ == env
                &&& final(stack).deep_view() == s2
            },
            ForceCcG::Fail { err, env: _, stack: s2, out: _ } => {
                &&& r matches Err(e) && e.deep_view() == err
                &&& final(stack).deep_view() == s2
            },
        },
{
    let n = stack.len();
    if n == 0 {
        return Err(RuntimeError::PopEmpty);
    }
    proof {
        assert(old(stack).deep_view()[n - 1] == old(stack)@[n - 1].deep_view());
    }
    let cc = stack.pop().unwrap();
    proof {
        assert(final(stack).deep_view() =~= old(stack).deep_view().drop_last());
    }
    match cc {
        Value::Thunk { env, fp } => Ok(Frame { tr: fp, env }),
        _ => Err(RuntimeError::InvalidApply),
    }
}


/// The whole machine state between two instructions: the current block and
/// instruction offset, the frame's environment, the operand stack and the
/// output log.
#[verifier::ext_equal]
pub ghost struct StateG {
    pub tr: int,
    pub ip: int,
    pub env: Seq<(Seq<char>, ValueG)>,
    pub stack: Seq<ValueG>,
    pub out: Seq<ValueG>,
}

/// One instruction's outcome: the next state, normal termination, or a
/// fatal condition with the state at the moment of the abort.
pub ghost enum StepG {
    Next(StateG),
    Done(StateG),
    Fail(RuntimeErrorG, StateG),
}

/// Execute the single instruction the state points at. Literals push;
/// a block reference pushes a closure over the current environment without
/// transferring control; `Pop`/`Push` run the binding natives; the two
/// force forms replace the frame; `Terminate` ends the run.
pub open spec fn step_g(prog: Seq<Seq<ExprCPSRef>>, st: StateG) -> StepG {
    if !(0 <= st.tr < prog.len()) {
        StepG::Fail(RuntimeErrorG::DanglingBlockRef, st)
    } else if !(0 <= st.ip < prog[st.tr].len()) {
        StepG::Fail(RuntimeErrorG::BlockFellOff, st)
    } else {
        match prog[st.tr][st.ip] {
            ExprCPSRef::IntegerLiteral(i) => StepG::Next(StateG {
                ip: st.ip + 1,
                stack: st.stack.push(ValueG::Integer(i)),
                ..st
            }),
            ExprCPSRef::AtomLiteral(a) => StepG::Next(StateG {
                ip: st.ip + 1,
                stack: st.stack.push(ValueG::Atom(a@)),
                ..st
            }),
            ExprCPSRef::ThunkRef(t) => StepG::Next(StateG {
                ip: st.ip + 1,
                stack: st.stack.push(ValueG::Thunk { env: st.env, fp: t.0 as int }),
                ..st
            }),
            ExprCPSRef::Pop => match native_step_g(Native::Pop, st.env, st.stack, st.out) {
                Ok((e2, s2, o2)) => StepG::Next(StateG { ip: st.ip + 1, env: e2, stack: s2, out: o2, ..st }),
                Err(e) => StepG::Fail(e, st),
            },
            ExprCPSRef::Push => match native_step_g(Native::Push, st.env, st.stack, st.out) {
                Ok((e2, s2, o2)) => StepG::Next(StateG { ip: st.ip + 1, env: e2, stack: s2, out: o2, ..st }),
                Err(e) => StepG::Fail(e, st),
            },
            ExprCPSRef::Terminate => StepG::Done(st),
            ExprCPSRef::ForceByCC => match force_cc_g(st.env, st.stack, st.out) {
                ForceCcG::Go { tr, env, stack, out } => StepG::Next(StateG { tr, ip: 0, env, stack, out }),
                ForceCcG::Fail { err, env, stack, out } => StepG::Fail(err, StateG { env, stack, out, ..st }),
            },
            ExprCPSRef::ForceByCCBare => match force_cc_bare_g(st.stack, st.out) {
                ForceCcG::Go { tr, env, stack, out } => StepG::Next(StateG { tr, ip: 0, env, stack, out }),
                ForceCcG::Fail { err, env: _, stack, out } => StepG::Fail(err, StateG { stack, out, ..st }),
            },
        }
    }
}

/// A whole run's outcome within a step budget.
pub ghost enum RunG {
    Done(StateG),
    Fail(RuntimeErrorG, StateG),
    Out(StateG),
}

/// Iterate the step function until termination, a fatal condition, or the
/// end of the budget.
pub open spec fn run_g(prog: Seq<Seq<ExprCPSRef>>, st: StateG, fuel: nat) -> RunG
    decreases fuel,
{
    if fuel == 0 {
        RunG::Out(st)
    } else {
        match step_g(prog, st) {
            StepG::Next(s2) => run_g(prog, s2, (fuel - 1) as nat),
            StepG::Done(s) => RunG::Done(s),
            StepG::Fail(e, s) => RunG::Fail(e, s),
        }
    }
}

/// The machine state the trampoline starts a program in: the entry block,
/// the native bindings, and empty stacks.
pub open spec fn initial_state_g() -> StateG {
    StateG {
        tr: 0,
        ip: 0,
        env: initial_env_g(),
        stack: Seq::empty(),
        out: Seq::empty(),
    }
}

/// How a run ended: normal termination with the final operand stack, a
/// fatal condition, or an exhausted step budget.
#[derive(Debug)]
pub enum RunOutcome {
    Done(Vec<Value>),
    Fail(RuntimeError),
    OutOfSteps,
}

/// The state of the running trampoline, as the specification sees it.
pub open spec fn state_g(frame: Frame, ip: int, stack: Vec<Value>, out: Vec<Value>) -> StateG {
    StateG {
        tr: frame.tr.0 as int,
        ip,
        env: frame.env@,
        stack: stack.deep_view(),
        out: out.deep_view(),
    }
}

/// Run the flattened program on the trampoline, starting from the entry
/// block with the native bindings, for at most `max_steps` instructions.
/// The dispatch loop never recurses: control transfer only replaces the
/// one live frame, so the host call stack stays flat however deep the
/// program's own calls nest. Returns how the run ended together with the
/// output log, which on a fatal condition keeps everything printed before.
pub fn run_program(prog: &CPSProgram, max_steps: usize) -> (r: (RunOutcome, Vec<Value>))
    ensures
        match run_g(prog.deep_view(), initial_state_g(), max_steps as nat) {
            RunG::Done(s) => r.0 matches RunOutcome::Done(stack) && stack.deep_view() == s.stack
                && r.1.deep_view() == s.out,
            RunG::Fail(e, s) => r.0 matches RunOutcome::Fail(err) && err.deep_view() == e
                && r.1.deep_view() == s.out,
            RunG::Out(s) => r.0 is OutOfSteps && r.1.deep_view() == s.out,
        },
{
    let ghost pg = prog.deep_view();
    let mut cur_frame = Frame { tr: ThunkRef(0), env: make_env() };
    let mut ip: usize = 0;
    let mut stack: Vec<Value> = Vec::new();
    let mut out: Vec<Value> = Vec::new();
    let mut steps: usize = 0;
    proof {
        assert(state_g(cur_frame, ip as int, stack, out) =~= initial_state_g());
    }
    while steps < max_steps
        invariant
            steps <= max_steps,
            run_g(pg, initial_state_g(), max_steps as nat)
                == run_g(pg, state_g(cur_frame, ip as int, stack, out), (max_steps - steps) as nat),
            pg == prog.deep_view(),
        decreases max_steps - steps,
    {
        let ghost st0 = state_g(cur_frame, ip as int, stack, out);
        let b = cur_frame.tr.0;
        if b >= prog.len() {
            proof {
                assert(step_g(pg, st0) == StepG::Fail(RuntimeErrorG::DanglingBlockRef, st0));
            }
            return (RunOutcome::Fail(RuntimeError::DanglingBlockRef), out);
        }
        proof {
            assert(pg[b as int] == prog@[b as int].deep_view());
        }
        if ip >= prog[b].len() {
            proof {
                assert(step_g(pg, st0) == StepG::Fail(RuntimeErrorG::BlockFellOff, st0));
            }
            return (RunOutcome::Fail(RuntimeError::BlockFellOff), out);
        }
        proof {
            assert(pg[b as int][ip as int] == prog@[b as int]@[ip as int]);
        }
        let ins = &prog[b][ip];
        match ins {
            ExprCPSRef::IntegerLiteral(i) => {
                stack.push(Value::Integer(*i));
                ip = ip + 1;
                proof {
                    assert(stack.deep_view() =~= st0.stack.push(ValueG::Integer(*i)));
                    assert(state_g(cur_frame, ip as int, stack, out)
                        == StateG { ip: st0.ip + 1, stack: st0.stack.push(ValueG::Integer(*i)), ..st0 });
                }
            },
            ExprCPSRef::AtomLiteral(a) => {
                let av = a.clone();
                stack.push(Value::Atom(av));
                ip = ip + 1;
                proof {
                    assert(stack.deep_view() =~= st0.stack.push(ValueG::Atom(a@)));
                    assert(state_g(cur_frame, ip as int, stack, out)
                        == StateG { ip: st0.ip + 1, stack: st0.stack.push(ValueG::Atom(a@)), ..st0 });
                }
            },
            ExprCPSRef::ThunkRef(t) => {
                let cenv = cur_frame.env.clone();
                stack.push(Value::Thunk { env: cenv, fp: *t });
                ip = ip + 1;
                proof {
                    assert(stack.deep_view()
                        =~= st0.stack.push(ValueG::Thunk { env: st0.env, fp: t.0 as int }));
                    assert(state_g(cur_frame, ip as int, stack, out)
                        == StateG {
                        ip: st0.ip + 1,
                        stack: st0.stack.push(ValueG::Thunk { env: st0.env, fp: t.0 as int }),
                        ..st0
                    });
                }
            },
            ExprCPSRef::Pop => {
                let res = builtin_pop(&mut cur_frame.env, &mut stack);
                match res {
                    Ok(()) => {
                        ip = ip + 1;
                    },
                    Err(e) => {
                        proof {
                            assert(step_g(pg, st0) == StepG::Fail(e.deep_view(), st0));
                        }
                        return (RunOutcome::Fail(e), out);
                    },
                }
            },
            ExprCPSRef::Push => {
                let res = builtin_push(&mut cur_frame.env, &mut stack);
                match res {
                    Ok(()) => {
                        ip = ip + 1;
                    },
                    Err(e) => {
                        proof {
                            assert(step_g(pg, st0) == StepG::Fail(e.deep_view(), st0));
                        }
                        return (RunOutcome::Fail(e), out);
                    },
                }
            },
            ExprCPSRef::Terminate => {
                proof {
                    assert(step_g(pg, st0) == StepG::Done(st0));
                }
                return (RunOutcome::Done(stack), out);
            },
            ExprCPSRef::ForceByCC => {
                let res = builtin_force_cc(&mut stack, &mut cur_frame, &mut out);
                match res {
                    Ok(nf) => {
                        cur_frame = nf;
                        ip = 0;
                    },
                    Err(e) => {
                        return (RunOutcome::Fail(e), out);
                    },
                }
            },
            ExprCPSRef::ForceByCCBare => {
                let res = builtin_force_cc_bare(&mut stack);
                match res {
                    Ok(nf) => {
                        cur_frame = nf;
                        ip = 0;
                    },
                    Err(e) => {
                        return (RunOutcome::Fail(e), out);
                    },
                }
            },
        }
        steps = steps + 1;
    }
    (RunOutcome::OutOfSteps, out)
}


/// The chain invariant: at most one live binding per name.
pub open spec fn env_wf(env: Seq<(Seq<char>, ValueG)>) -> bool {
    forall|i: int, j: int| 0 <= i < j < env.len() ==> (#[trigger] env[i]).0 != (#[trigger] env[j]).0
}

/// Looking up a name after removing it finds nothing new: removal deletes
/// the first binding and touches nothing else.
proof fn lemma_remove_first_props(env: Seq<(Seq<char>, ValueG)>, name: Seq<char>)
    ensures
        forall|k: int| 0 <= k < env_remove_first_g(env, name).len() ==> exists|j: int|
            0 <= j < env.len() && #[trigger] env_remove_first_g(env, name)[k] == env[j],
        env_wf(env) ==> forall|k: int| 0 <= k < env_remove_first_g(env, name).len()
            ==> (#[trigger] env_remove_first_g(env, name)[k]).0 != name,
        env_wf(env) ==> env_wf(env_remove_first_g(env, name)),
        forall|m: Seq<char>| m != name ==> #[trigger] env_lookup_g(env_remove_first_g(env, name), m)
            == env_lookup_g(env, m),
    decreases env.len(),
{
    let r = env_remove_first_g(env, name);
    if env.len() == 0 {
    } else if env[0].0 == name {
        assert forall|k: int| 0 <= k < r.len() implies exists|j: int|
            0 <= j < env.len() && #[trigger] r[k] == env[j] by {
            assert(r[k] == env[k + 1]);
        }
        if env_wf(env) {
            assert forall|k: int| 0 <= k < r.len() implies (#[trigger] r[k]).0 != name by {
                assert(r[k] == env[k + 1]);
                assert(env[0].0 != env[k + 1].0);
            }
            assert(env_wf(r)) by {
                assert forall|i: int, j: int| 0 <= i < j < r.len() implies (#[trigger] r[i]).0
                    != (#[trigger] r[j]).0 by {
                    assert(r[i] == env[i + 1] && r[j] == env[j + 1]);
                }
            }
        }
        assert forall|m: Seq<char>| m != name implies #[trigger] env_lookup_g(r, m)
            == env_lookup_g(env, m) by {
            assert(env.drop_first() == r);
        }
    } else {
        lemma_remove_first_props(env.drop_first(), name);
        let rt = env_remove_first_g(env.drop_first(), name);
        assert(r == seq![env[0]] + rt);
        assert(r.drop_first() =~= rt);
        assert forall|k: int| 0 <= k < r.len() implies exists|j: int|
            0 <= j < env.len() && #[trigger] r[k] == env[j] by {
            if k == 0 {
                assert(r[0] == env[0]);
            } else {
                assert(r[k] == rt[k - 1]);
                let j = choose|j: int| 0 <= j < env.drop_first().len() && rt[k - 1]
                    == env.drop_first()[j];
                assert(r[k] == env[j + 1]);
            }
        }
        if env_wf(env) {
            assert(env_wf(env.drop_first())) by {
                assert forall|i: int, j: int| 0 <= i < j < env.drop_first().len() implies (
                #[trigger] env.drop_first()[i]).0 != (#[trigger] env.drop_first()[j]).0 by {
                    assert(env.drop_first()[i] == env[i + 1] && env.drop_first()[j] == env[j + 1]);
                }
            }
            assert forall|k: int| 0 <= k < r.len() implies (#[trigger] r[k]).0 != name by {
                if k > 0 {
                    assert(r[k] == rt[k - 1]);
                }
            }
            assert(env_wf(r)) by {
                assert forall|i: int, j: int| 0 <= i < j < r.len() implies (#[trigger] r[i]).0
                    != (#[trigger] r[j]).0 by {
                    if i == 0 {
                        let jj = choose|jj: int| 0 <= jj < env.drop_first().len() && rt[j - 1]
                            == env.drop_first()[jj];
                        assert(r[j] == env[jj + 1]);
                    } else {
                        assert(r[i] == rt[i - 1] && r[j] == rt[j - 1]);
                    }
                }
            }
        }
        assert forall|m: Seq<char>| m != name implies #[trigger] env_lookup_g(r, m)
            == env_lookup_g(env, m) by {
            if env[0].0 == m {
                assert(r[0] == env[0]);
                assert(env_lookup_g(r, m) == Some(r[0].1));
            } else {
                assert(env_lookup_g(r, m) == env_lookup_g(r.drop_first(), m));
                assert(env_lookup_g(env, m) == env_lookup_g(env.drop_first(), m));
            }
        }
    }
}

/// Insertion keeps the chain invariant: one live binding per name.
pub proof fn lemma_env_insert_wf(env: Seq<(Seq<char>, ValueG)>, name: Seq<char>, v: ValueG)
    requires
        env_wf(env),
    ensures
        env_wf(env_insert_g(env, name, v)),
{
    lemma_remove_first_props(env, name);
    let rt = env_remove_first_g(env, name);
    let r = env_insert_g(env, name, v);
    assert(r.drop_first() =~= rt);
    assert forall|i: int, j: int| 0 <= i < j < r.len() implies (#[trigger] r[i]).0
        != (#[trigger] r[j]).0 by {
        if i == 0 {
            assert(r[j] == rt[j - 1]);
            assert(rt[j - 1].0 != name);
        } else {
            assert(r[i] == rt[i - 1] && r[j] == rt[j - 1]);
        }
    }
}

/// The empty environment and the initial environment satisfy the chain
/// invariant.
pub proof fn lemma_initial_env_wf()
    ensures
        env_wf(Seq::<(Seq<char>, ValueG)>::empty()),
        env_wf(initial_env_g()),
{
    reveal_strlit("pop");
    reveal_strlit("push");
    reveal_strlit("inc");
    reveal_strlit("println");
    assert("push"@.len() == 4 && "pop"@.len() == 3 && "inc"@.len() == 3 && "println"@.len() == 7);
    assert("inc"@[0] == 'i' && "pop"@[0] == 'p');
    assert forall|i: int, j: int| 0 <= i < j < initial_env_g().len() implies (
    #[trigger] initial_env_g()[i]).0 != (#[trigger] initial_env_g()[j]).0 by {
    }
}

/// Shadowing: inserting `(name, v2)` into a well-formed chain that binds
/// `(name, v1)` gives a chain where `name` means `v2`, where no binding of
/// `name` but the new one is reachable, and where every other name keeps
/// its value. The old chain itself is untouched: an environment cloned
/// before the insertion still observes `v1`, because a clone shares the
/// chain and insertion only builds a new head.
pub proof fn lemma_env_shadowing(
    env: Seq<(Seq<char>, ValueG)>,
    name: Seq<char>,
    v1: ValueG,
    v2: ValueG,
)
    requires
        env_wf(env),
        env_lookup_g(env, name) == Some(v1),
    ensures
        env_lookup_g(env_insert_g(env, name, v2), name) == Some(v2),
        forall|k: int| 1 <= k < env_insert_g(env, name, v2).len()
            ==> (#[trigger] env_insert_g(env, name, v2)[k]).0 != name,
        forall|m: Seq<char>| m != name ==> #[trigger] env_lookup_g(env_insert_g(env, name, v2), m)
            == env_lookup_g(env, m),
        env_wf(env_insert_g(env, name, v2)),
        env_lookup_g(env, name) == Some(v1),
{
    lemma_remove_first_props(env, name);
    lemma_env_insert_wf(env, name, v2);
    let r = env_insert_g(env, name, v2);
    let rt = env_remove_first_g(env, name);
    assert(r.drop_first() =~= rt);
    assert forall|k: int| 1 <= k < r.len() implies (#[trigger] r[k]).0 != name by {
        assert(r[k] == rt[k - 1]);
    }
    assert forall|m: Seq<char>| m != name implies #[trigger] env_lookup_g(r, m)
        == env_lookup_g(env, m) by {
        assert(env_lookup_g(r, m) == env_lookup_g(rt, m));
    }
}

} // verus!
