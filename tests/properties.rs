use lisp::eval::{call, eval};
use lisp::{init_env, parse, to_err, to_lambda, Lenv, LerrType, Lerr, Llambda, Lookup, Lval};

fn sym(s: &str) -> Lval {
    Lval::Sym(String::from(s))
}

fn num(n: i64) -> Lval {
    Lval::Num(n)
}

fn run(env: &mut Lenv, text: &str) -> Lval {
    let tree = parse(text).unwrap();
    eval(env, tree)
}

fn kind(v: &Lval) -> LerrType {
    to_err(v).unwrap().etype
}

fn lambda_ab_sum() -> Lval {
    Lval::Sexpr(vec![
        sym("\\"),
        Lval::Qexpr(vec![sym("a"), sym("b")]),
        Lval::Qexpr(vec![sym("+"), sym("a"), sym("b")]),
    ])
}

#[test]
fn sum_folds_from_the_left() {
    let env = &mut init_env();
    assert_eq!(run(env, "(+ 1 2 3)"), num(6));
    assert_eq!(run(env, "(- 10 1 2 3)"), num(4));
    assert_eq!(run(env, "(* 2 3 4)"), num(24));
    assert_eq!(run(env, "(/ 100 5 2)"), num(10));
    assert_eq!(run(env, "+ 1 2"), num(3));
}

#[test]
fn arithmetic_wraps_and_truncates() {
    let env = &mut init_env();
    assert_eq!(run(env, "(+ 9223372036854775807 1)"), num(i64::MIN));
    assert_eq!(run(env, "(/ 7 2)"), num(3));
    assert_eq!(run(env, "(/ -7 2)"), num(-3));
    assert_eq!(run(env, "(- -9223372036854775808)"), num(i64::MIN));
    assert_eq!(run(env, "(/ -9223372036854775808 -1)"), num(i64::MIN));
}

#[test]
fn division_by_zero_is_checked_at_each_step() {
    let env = &mut init_env();
    assert_eq!(kind(&run(env, "(/ 1 0)")), LerrType::DivZero);
    assert_eq!(kind(&run(env, "(/ 6 3 0)")), LerrType::DivZero);
    assert_eq!(kind(&run(env, "(/ 6 0 3)")), LerrType::DivZero);
    assert_eq!(run(env, "(/ 0 3)"), num(0));
}

#[test]
fn unary_minus_negates_and_unary_plus_is_identity() {
    let env = &mut init_env();
    assert_eq!(run(env, "(- 5)"), num(-5));
    assert_eq!(run(env, "(+ 5)"), num(5));
    assert_eq!(run(env, "(* 5)"), num(5));
    assert_eq!(run(env, "(/ 5)"), num(5));
}

#[test]
fn arithmetic_rejects_non_numbers() {
    let env = &mut init_env();
    assert_eq!(kind(&run(env, "(+ 1 {2})")), LerrType::BadNum);
    assert_eq!(
        kind(&lisp::builtin::builtin_add(env, vec![])),
        LerrType::IncorrectParamCount
    );
}

#[test]
fn head_tail_and_join_on_lists() {
    let env = &mut init_env();
    assert_eq!(run(env, "(head {1 2 3})"), Lval::Qexpr(vec![num(1)]));
    assert_eq!(kind(&run(env, "(head {})")), LerrType::EmptyList);
    assert_eq!(kind(&run(env, "(head 1)")), LerrType::WrongType);
    assert_eq!(run(env, "(tail {1 2 3})"), Lval::Qexpr(vec![num(2), num(3)]));
    assert_eq!(kind(&run(env, "(tail {})")), LerrType::EmptyList);
    assert_eq!(
        run(env, "(join {1} {2 3})"),
        Lval::Qexpr(vec![num(1), num(2), num(3)])
    );
    assert_eq!(
        run(env, "(join {1} {} {2} {3})"),
        Lval::Qexpr(vec![num(1), num(2), num(3)])
    );
    assert_eq!(kind(&run(env, "(join {1})")), LerrType::IncorrectParamCount);
    assert_eq!(kind(&run(env, "(join {1} 2)")), LerrType::WrongType);
    assert_eq!(run(env, "(list 1 (+ 1 1))"), Lval::Qexpr(vec![num(1), num(2)]));
}

#[test]
fn eval_runs_quoted_lists() {
    let env = &mut init_env();
    assert_eq!(run(env, "(eval {+ 1 2})"), num(3));
    assert_eq!(run(env, "(eval 5)"), num(5));
    assert_eq!(run(env, "(eval (head {(+ 1 2) 9}))"), num(3));
    assert_eq!(kind(&run(env, "(eval {1} {2})")), LerrType::IncorrectParamCount);
}

#[test]
fn lambdas_apply_whole_and_curried() {
    let env = &mut init_env();
    let whole = Lval::Sexpr(vec![lambda_ab_sum(), num(2), num(3)]);
    assert_eq!(eval(env, whole), num(5));

    let partial = Lval::Sexpr(vec![lambda_ab_sum(), num(2)]);
    let intermediate = eval(env, partial.clone());
    assert!(to_lambda(&intermediate).is_some());
    assert!(lisp::to_num(&intermediate).is_none());

    let curried = Lval::Sexpr(vec![partial, num(3)]);
    assert_eq!(eval(env, curried), num(5));
}

#[test]
fn lambda_errors() {
    let env = &mut init_env();
    let too_many = Lval::Sexpr(vec![lambda_ab_sum(), num(1), num(2), num(3)]);
    assert_eq!(kind(&eval(env, too_many)), LerrType::IncorrectParamCount);
    let bad_params = Lval::Sexpr(vec![
        sym("\\"),
        Lval::Qexpr(vec![num(1)]),
        Lval::Qexpr(vec![]),
    ]);
    assert_eq!(kind(&eval(env, bad_params)), LerrType::WrongType);
    let not_lists = Lval::Sexpr(vec![sym("\\"), num(1), Lval::Qexpr(vec![])]);
    assert_eq!(kind(&eval(env, not_lists)), LerrType::WrongType);
    let one_operand = Lval::Sexpr(vec![sym("\\"), Lval::Qexpr(vec![])]);
    assert_eq!(kind(&eval(env, one_operand)), LerrType::IncorrectParamCount);
}

#[test]
fn variadic_marker_collects_the_rest() {
    let env = &mut init_env();
    let f = Llambda::new(
        vec![String::from("x"), String::from(":"), String::from("rest")],
        vec![sym("join"), Lval::Sexpr(vec![sym("list"), sym("x")]), sym("rest")],
    );
    assert_eq!(
        call(env, f.clone(), vec![num(1), num(2), num(3)]),
        Lval::Qexpr(vec![num(1), num(2), num(3)])
    );
    let g = Llambda::new(
        vec![String::from(":"), String::from("a"), String::from("b")],
        vec![sym("a")],
    );
    assert_eq!(kind(&call(env, g, vec![num(1)])), LerrType::IncorrectParamCount);
    let waiting = call(env, f, vec![num(1)]);
    assert!(to_lambda(&waiting).is_some());
}

#[test]
fn def_persists_after_nested_scope() {
    let env = &mut init_env();
    assert_eq!(run(env, "(def {x} 10)"), Lval::Sexpr(vec![]));
    env.push(Lookup::new());
    assert_eq!(run(env, "x"), num(10));
    assert_eq!(run(env, "(def {y} 20)"), Lval::Sexpr(vec![]));
    env.pop();
    assert_eq!(run(env, "x"), num(10));
    assert_eq!(run(env, "y"), num(20));
}

#[test]
fn def_commits_nothing_on_error() {
    let env = &mut init_env();
    assert_eq!(kind(&run(env, "(def {a b} 1)")), LerrType::IncorrectParamCount);
    assert_eq!(kind(&run(env, "a")), LerrType::UnboundSymbol);
    assert_eq!(kind(&run(env, "(def 1 2)")), LerrType::WrongType);
    assert_eq!(kind(&run(env, "(def {a})")), LerrType::IncorrectParamCount);
}

#[test]
fn reduced_values_evaluate_to_themselves() {
    let env = &mut init_env();
    assert_eq!(eval(env, num(42)), num(42));
    let err = Lval::Error(Lerr::new(LerrType::DivZero, String::from("earlier")));
    assert_eq!(kind(&eval(env, err)), LerrType::DivZero);
    assert_eq!(
        eval(env, Lval::Qexpr(vec![sym("nope")])),
        Lval::Qexpr(vec![sym("nope")])
    );
}

#[test]
fn unbound_symbol_is_an_error_value() {
    let env = &mut init_env();
    assert_eq!(kind(&eval(env, sym("undefined"))), LerrType::UnboundSymbol);
    assert_eq!(kind(&run(env, "(+ 1 undefined)")), LerrType::UnboundSymbol);
}

#[test]
fn first_error_wins() {
    let env = &mut init_env();
    assert_eq!(kind(&run(env, "(+ (/ 1 0) (head {}))")), LerrType::DivZero);
    assert_eq!(kind(&run(env, "((die) undefined)")), LerrType::UnboundSymbol);
    assert_eq!(kind(&run(env, "(die 1)")), LerrType::Interrupt);
}

#[test]
fn runaway_recursion_stops_with_an_interrupt() {
    let env = &mut init_env();
    let f = Lval::Sexpr(vec![
        sym("def"),
        Lval::Qexpr(vec![sym("f")]),
        Lval::Sexpr(vec![
            sym("\\"),
            Lval::Qexpr(vec![sym("x")]),
            Lval::Qexpr(vec![sym("f"), sym("x")]),
        ]),
    ]);
    assert_eq!(eval(env, f), Lval::Sexpr(vec![]));
    assert_eq!(kind(&run(env, "(f 1)")), LerrType::Interrupt);
}

#[test]
fn error_messages_name_the_call() {
    let env = &mut init_env();
    let e = to_err(&run(env, "(head {1} {2})")).unwrap();
    assert_eq!(e.message, "Function head needed 1 arg but was given 2");
    assert_eq!(e.description(), "Incorrect Number of Params passed to function");
    let e = to_err(&run(env, "nothing")).unwrap();
    assert_eq!(e.message, "nothing has not been defined");
}

#[test]
fn builtins_compare_equal_and_lambdas_ignore_frames() {
    assert_eq!(Lval::Fun(lisp::Lfun::Add), Lval::Fun(lisp::Lfun::Head));
    assert_ne!(Lval::Fun(lisp::Lfun::Add), num(1));
    let env = &mut init_env();
    let f = Llambda::new(
        vec![String::from("a"), String::from("b")],
        vec![sym("a")],
    );
    let bound = call(env, f.clone(), vec![num(1)]);
    let other = call(env, f, vec![num(2)]);
    assert_eq!(bound, other);
    assert_ne!(Lval::Sexpr(vec![num(1)]), Lval::Qexpr(vec![num(1)]));
}
