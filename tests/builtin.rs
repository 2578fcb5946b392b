use lisp::builtin::{
    builtin_def, builtin_head, builtin_join, builtin_lambda, builtin_list, builtin_tail,
};
use lisp::eval::{builtin_eval, eval};
use lisp::{init_env, to_err, to_lambda, LerrType, Lfun, Lval};

fn sym(s: &str) -> Lval {
    Lval::Sym(String::from(s))
}

fn sample() -> Lval {
    Lval::Qexpr(vec![
        sym("+"),
        Lval::Num(1),
        Lval::Sexpr(vec![sym("+"), Lval::Num(1), Lval::Num(1)]),
    ])
}

#[test]
fn it_correctly_uses_head() {
    let env = &mut init_env();
    let expr = sample();
    assert_eq!(builtin_head(env, vec![expr.clone()]), Lval::Qexpr(vec![sym("+")]));
    assert_eq!(
        to_err(&builtin_head(env, vec![])).unwrap().etype,
        LerrType::IncorrectParamCount
    );
    assert_eq!(
        to_err(&builtin_head(env, vec![sym("+")])).unwrap().etype,
        LerrType::WrongType
    );
    assert_eq!(
        to_err(&builtin_head(env, vec![Lval::Qexpr(vec![])])).unwrap().etype,
        LerrType::EmptyList
    );
}

#[test]
fn it_correctly_uses_tail() {
    let env = &mut init_env();
    let expr = sample();
    assert_eq!(
        builtin_tail(env, vec![expr.clone()]),
        Lval::Qexpr(vec![
            Lval::Num(1),
            Lval::Sexpr(vec![sym("+"), Lval::Num(1), Lval::Num(1)]),
        ])
    );
    assert_eq!(
        to_err(&builtin_tail(env, vec![])).unwrap().etype,
        LerrType::IncorrectParamCount
    );
    assert_eq!(
        to_err(&builtin_tail(env, vec![sym("+")])).unwrap().etype,
        LerrType::WrongType
    );
    assert_eq!(
        to_err(&builtin_tail(env, vec![Lval::Qexpr(vec![])])).unwrap().etype,
        LerrType::EmptyList
    );
}

#[test]
fn it_correctly_uses_list() {
    let env = &mut init_env();
    let expr = vec![
        sym("+"),
        Lval::Num(1),
        Lval::Sexpr(vec![sym("+"), Lval::Num(1), Lval::Num(1)]),
    ];
    assert_eq!(
        builtin_list(env, expr.clone()),
        Lval::Qexpr(vec![
            sym("+"),
            Lval::Num(1),
            Lval::Sexpr(vec![sym("+"), Lval::Num(1), Lval::Num(1)]),
        ])
    );
    assert_eq!(
        builtin_list(env, vec![sym("+"), Lval::Num(1), Lval::Num(1)]),
        Lval::Qexpr(vec![sym("+"), Lval::Num(1), Lval::Num(1)])
    );
    assert_eq!(builtin_list(env, vec![]), Lval::Qexpr(vec![]));
    assert_eq!(builtin_list(env, vec![sym("+")]), Lval::Qexpr(vec![sym("+")]));
    assert_eq!(
        builtin_list(env, vec![Lval::Sexpr(vec![])]),
        Lval::Qexpr(vec![Lval::Sexpr(vec![])])
    );
}

#[test]
fn it_correctly_uses_eval() {
    let env = &mut init_env();
    let expr = sample();
    assert_eq!(builtin_eval(env, vec![expr.clone()]), Lval::Num(3));
    assert_eq!(
        to_err(&builtin_eval(env, vec![expr.clone(), expr.clone()])).unwrap().etype,
        LerrType::IncorrectParamCount
    );
    assert_eq!(
        to_err(&builtin_eval(env, vec![])).unwrap().etype,
        LerrType::IncorrectParamCount
    );
    assert_eq!(builtin_eval(env, vec![sym("-")]), Lval::Fun(Lfun::Sub));
    assert_eq!(
        builtin_eval(env, vec![Lval::Sexpr(vec![sym("-")])]),
        Lval::Fun(Lfun::Sub)
    );
    assert_eq!(builtin_eval(env, vec![Lval::Qexpr(vec![])]), Lval::Sexpr(vec![]));
}

#[test]
fn it_correctly_uses_join() {
    let env = &mut init_env();
    let expr = sample();
    assert_eq!(
        builtin_join(env, vec![expr.clone(), expr.clone()]),
        Lval::Qexpr(vec![
            sym("+"),
            Lval::Num(1),
            Lval::Sexpr(vec![sym("+"), Lval::Num(1), Lval::Num(1)]),
            sym("+"),
            Lval::Num(1),
            Lval::Sexpr(vec![sym("+"), Lval::Num(1), Lval::Num(1)]),
        ])
    );
    assert_eq!(
        to_err(&builtin_join(env, vec![expr.clone()])).unwrap().etype,
        LerrType::IncorrectParamCount
    );
    assert_eq!(
        to_err(&builtin_join(env, vec![])).unwrap().etype,
        LerrType::IncorrectParamCount
    );
    assert_eq!(
        to_err(&builtin_join(env, vec![expr.clone(), sym("+")])).unwrap().etype,
        LerrType::WrongType
    );
    assert_eq!(
        builtin_join(env, vec![expr.clone(), Lval::Qexpr(vec![])]),
        Lval::Qexpr(vec![
            sym("+"),
            Lval::Num(1),
            Lval::Sexpr(vec![sym("+"), Lval::Num(1), Lval::Num(1)]),
        ])
    );
}

#[test]
fn it_correctly_uses_define() {
    let env = &mut init_env();
    assert_eq!(
        builtin_def(
            env,
            vec![
                Lval::Qexpr(vec![sym("a"), sym("b"), sym("c")]),
                Lval::Num(1),
                sym("+"),
                Lval::Sexpr(vec![]),
            ]
        ),
        Lval::Sexpr(vec![])
    );
    assert_eq!(eval(env, sym("a")), Lval::Num(1));
    assert_eq!(eval(env, sym("b")), sym("+"));
    assert_eq!(eval(env, sym("c")), Lval::Sexpr(vec![]));
    assert_eq!(
        to_err(&builtin_def(
            env,
            vec![Lval::Qexpr(vec![sym("a"), sym("b"), sym("c")])]
        ))
        .unwrap()
        .etype,
        LerrType::IncorrectParamCount
    );
    assert_eq!(
        to_err(&builtin_def(
            env,
            vec![
                Lval::Qexpr(vec![sym("a"), sym("b")]),
                Lval::Num(1),
                sym("+"),
                sym("+"),
            ]
        ))
        .unwrap()
        .etype,
        LerrType::IncorrectParamCount
    );
    assert_eq!(
        to_err(&builtin_def(
            env,
            vec![Lval::Qexpr(vec![Lval::Num(1)]), Lval::Num(1)]
        ))
        .unwrap()
        .etype,
        LerrType::WrongType
    );
}

#[test]
fn it_correctly_uses_lambda() {
    let env = &mut init_env();
    assert!(to_lambda(&builtin_lambda(
        env,
        vec![
            Lval::Qexpr(vec![sym("a"), sym("b")]),
            Lval::Qexpr(vec![sym("+"), sym("a"), sym("b")]),
        ]
    ))
    .is_some());

    let expr = Lval::Sexpr(vec![
        Lval::Sexpr(vec![
            sym("\\"),
            Lval::Qexpr(vec![sym("a"), sym("b")]),
            Lval::Qexpr(vec![sym("+"), sym("a"), sym("b")]),
        ]),
        Lval::Num(2),
        Lval::Num(2),
    ]);
    assert_eq!(eval(env, expr), Lval::Num(4));
}
