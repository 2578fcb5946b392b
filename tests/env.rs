use lisp::{Lenv, Lookup, Lval};

#[test]
fn lenv_nests_properly() {
    let mut env1 = Lenv::new();
    env1.push(Lookup::new());
    env1.insert("abc", Lval::Num(1));
    env1.insert("def", Lval::Num(2));

    {
        let mut env2 = env1.clone();
        env2.push(Lookup::new());
        env2.insert("abc", Lval::Num(3));
        env2.insert("ghi", Lval::Num(4));

        assert_eq!(env2.get("def").unwrap().to_owned(), Lval::Num(2));
        assert_eq!(env2.get("abc").unwrap().to_owned(), Lval::Num(3));
    }

    assert_eq!(env1.get("abc").unwrap().to_owned(), Lval::Num(1));
    assert_eq!(env1.get("def").unwrap().to_owned(), Lval::Num(2));
    assert_eq!(env1.get("ghi"), None);
}

#[test]
fn lenv_inserts_last() {
    let mut env = Lenv::new();
    env.push(Lookup::new());
    env.insert("abc", Lval::Num(1));
    env.insert_last("def", Lval::Num(2));

    env.push(Lookup::new());
    env.insert("abc", Lval::Num(3));
    env.insert_last("jkl", Lval::Num(5));

    assert_eq!(env.get("def").unwrap().to_owned(), Lval::Num(2));
    assert_eq!(env.get("abc").unwrap().to_owned(), Lval::Num(3));
    assert_eq!(env.get("jkl").unwrap().to_owned(), Lval::Num(5));

    env.pop();

    assert_eq!(env.get("jkl").unwrap().to_owned(), Lval::Num(5));
    assert_eq!(env.get("abc").unwrap().to_owned(), Lval::Num(1));
}

#[test]
fn frames_are_walked_from_the_innermost() {
    let mut env = Lenv::new();
    assert!(env.peek().is_none());
    assert!(env.pop().is_none());
    env.push(Lookup::new());
    env.insert("a", Lval::Num(1));
    env.push(Lookup::new());
    env.peek_mut().unwrap().insert(String::from("b"), Lval::Num(2));
    assert_eq!(env.get("b"), Some(Lval::Num(2)));
    let mut walk = env.iter();
    let inner = walk.next().unwrap();
    assert_eq!(inner.get(&String::from("b")), Some(Lval::Num(2)));
    let outer = walk.next().unwrap();
    assert_eq!(outer.get(&String::from("a")), Some(Lval::Num(1)));
    assert!(walk.next().is_none());
    let popped = env.pop().unwrap();
    assert_eq!(popped.get(&String::from("b")), Some(Lval::Num(2)));
    assert_eq!(env.get("b"), None);
}

#[test]
fn insert_replaces_a_binding_in_the_same_frame() {
    let mut env = Lenv::new();
    env.insert("ignored", Lval::Num(1));
    assert_eq!(env.get("ignored"), None);
    env.push(Lookup::new());
    env.insert("a", Lval::Num(1));
    env.insert("a", Lval::Num(2));
    assert_eq!(env.get("a"), Some(Lval::Num(2)));
    assert_eq!(env.peek().unwrap().entries.len(), 1);
}
