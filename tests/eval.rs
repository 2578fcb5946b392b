use lisp::eval::{call, eval};
use lisp::{init_env, to_err, to_lambda, LerrType, Lfun, Llambda, Lval};

fn sym(s: &str) -> Lval {
    Lval::Sym(String::from(s))
}

#[test]
fn it_handles_singular_numbers() {
    let env = &mut init_env();
    assert_eq!(eval(env, Lval::Num(1)), Lval::Num(1));
    assert_eq!(eval(env, Lval::Sexpr(vec![Lval::Num(1)])), Lval::Num(1));
}

#[test]
fn it_handles_singular_symbols() {
    let env = &mut init_env();
    assert_eq!(eval(env, sym("+")), Lval::Fun(Lfun::Add));
    assert_eq!(eval(env, Lval::Sexpr(vec![sym("*")])), Lval::Fun(Lfun::Mul));
}

#[test]
fn it_handles_empty_expressions() {
    let env = &mut init_env();
    assert_eq!(eval(env, Lval::Sexpr(vec![])), Lval::Sexpr(vec![]));
    assert_eq!(
        eval(env, Lval::Sexpr(vec![Lval::Sexpr(vec![Lval::Sexpr(vec![])])])),
        Lval::Sexpr(vec![])
    );
}

#[test]
fn it_uses_operators_properly() {
    let env = &mut init_env();
    assert_eq!(
        eval(env, Lval::Sexpr(vec![sym("+"), Lval::Num(1), Lval::Num(1)])),
        Lval::Num(2)
    );
    assert_eq!(
        to_err(&eval(env, Lval::Sexpr(vec![sym("+"), sym("+"), Lval::Num(1)])))
            .unwrap()
            .etype,
        LerrType::BadNum
    );
    assert_eq!(
        to_err(&eval(
            env,
            Lval::Sexpr(vec![Lval::Num(1), Lval::Num(1), Lval::Num(1)])
        ))
        .unwrap()
        .etype,
        LerrType::BadOp
    );
}

#[test]
fn it_handles_nested_sexpressions() {
    let env = &mut init_env();
    assert_eq!(
        eval(
            env,
            Lval::Sexpr(vec![
                sym("+"),
                Lval::Num(1),
                Lval::Sexpr(vec![sym("+"), Lval::Num(1), Lval::Num(1)]),
            ])
        ),
        Lval::Num(3)
    );
}

#[test]
fn it_handles_lambdas() {
    let env = &mut init_env();
    let lambda = Llambda::new(
        vec![String::from("a")],
        vec![sym("+"), sym("a"), sym("a")],
    );
    assert_eq!(call(env, lambda, vec![Lval::Num(5)]), Lval::Num(10));

    let lambda = Llambda::new(
        vec![String::from("a"), String::from("b")],
        vec![sym("*"), sym("b"), sym("a")],
    );
    let new_lambda = call(env, lambda, vec![Lval::Num(15)]);
    assert_eq!(
        call(env, to_lambda(&new_lambda).unwrap(), vec![Lval::Num(5)]),
        Lval::Num(75)
    );
}
