use frospy::runtime::{List, ListEnv, Native, Value};

#[test]
fn test_env() {
    let mut env = ListEnv::new();
    assert_eq!(None, env.get("test"));
    env.insert("test".to_string(), Value::Integer(1));
    assert_eq!(Some(Value::Integer(1)), env.get("test"));
}

// Shadowing: a new binding hides the old one, but an environment cloned
// before the insertion still observes the old value through the shared
// chain.
#[test]
fn shadowing_keeps_cloned_chains() {
    let mut env = ListEnv::new();
    env.insert("x".to_string(), Value::Integer(1));
    let old = env.clone();
    env.insert("x".to_string(), Value::Integer(2));
    assert_eq!(Some(Value::Integer(2)), env.get("x"));
    assert_eq!(Some(Value::Integer(1)), old.get("x"));
}

#[test]
fn insert_leaves_other_names_alone() {
    let mut env = ListEnv::new();
    env.insert("a".to_string(), Value::Integer(10));
    env.insert("b".to_string(), Value::Integer(20));
    env.insert("a".to_string(), Value::Integer(30));
    assert_eq!(Some(Value::Integer(30)), env.get("a"));
    assert_eq!(Some(Value::Integer(20)), env.get("b"));
    assert_eq!(None, env.get("c"));
}

#[test]
fn make_env_binds_the_natives() {
    let env = frospy::runtime::make_env();
    assert_eq!(Some(Value::BuiltIn(Native::Inc)), env.get("inc"));
    assert_eq!(Some(Value::BuiltIn(Native::Pop)), env.get("pop"));
    assert_eq!(Some(Value::BuiltIn(Native::Push)), env.get("push"));
    assert_eq!(Some(Value::BuiltIn(Native::Println)), env.get("println"));
    assert_eq!(None, env.get("force"));
}

#[test]
fn list_prepend_tail_head() {
    let l: List<i64> = List::new();
    assert!(l.is_empty());
    assert!(l.head().is_none());
    let l1 = l.prepend(1);
    let l2 = l1.prepend(2);
    assert_eq!(Some(&2), l2.head());
    assert_eq!(Some(&1), l2.tail().head());
    assert!(!l2.is_empty());
    assert!(l2.tail().tail().is_empty());
    // the tail shares the original chain
    assert!(l2.tail().same_list(&l1));
    assert!(l1.same_list(&l1.ptr_copy()));
    assert!(!l2.same_list(&l1));
}

#[test]
fn list_iter_walks_front_to_back() {
    let l: List<i64> = List::new().prepend(3).prepend(2).prepend(1);
    let mut it = l.iter();
    assert_eq!(Some(1), it.next());
    assert_eq!(Some(2), it.next());
    assert_eq!(Some(3), it.next());
    assert_eq!(None, it.next());
}

#[test]
fn list_find_map_and_filter_first() {
    let l: List<i64> = List::new().prepend(3).prepend(2).prepend(1);
    let found = l.find_map(|x: &i64| if *x % 2 == 0 { Some(*x * 10) } else { None });
    assert_eq!(Some(20), found);
    let none = l.find_map(|x: &i64| if *x > 5 { Some(*x) } else { None });
    assert_eq!(None, none);

    let removed = l.filter_first(|x: &i64| *x == 2);
    assert_eq!(Some(&1), removed.head());
    assert_eq!(Some(&3), removed.tail().head());
    assert!(removed.tail().tail().is_empty());

    let untouched = l.filter_first(|x: &i64| *x == 9);
    assert_eq!(Some(&1), untouched.head());
    assert_eq!(Some(&2), untouched.tail().head());
    assert_eq!(Some(&3), untouched.tail().tail().head());
    // nothing removed: the chain is shared, not copied
    assert!(untouched.same_list(&l));
}
