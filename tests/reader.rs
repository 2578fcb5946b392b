use lisp::{parse, Lval, SyntaxError};

fn sym(s: &str) -> Lval {
    Lval::Sym(String::from(s))
}

fn one(text: &str) -> Lval {
    match parse(text).unwrap() {
        Lval::Sexpr(mut items) => {
            assert_eq!(items.len(), 1);
            items.pop().unwrap()
        }
        other => panic!("not an s-expression: {:?}", other),
    }
}

#[test]
fn it_parses_numbers() {
    assert_eq!(one("1"), Lval::Num(1));
    assert!(parse("1.000001-1").is_err());
    assert_eq!(
        parse("123E-02").unwrap(),
        Lval::Sexpr(vec![Lval::Num(123), sym("E"), Lval::Num(-2)])
    );
    assert_eq!(one("-12302"), Lval::Num(-12302));
    assert_eq!(one("  \t1"), Lval::Num(1));
}

#[test]
fn it_parses_all_symbols() {
    assert_eq!(one("+"), sym("+"));
    assert_eq!(one("\t-"), sym("-"));
    assert_eq!(one("  *"), sym("*"));
    assert_eq!(one("\n/"), sym("/"));
}

#[test]
fn it_parses_sexpr() {
    assert_eq!(
        one(
            "(* 1
             2 3)"
        ),
        Lval::Sexpr(vec![sym("*"), Lval::Num(1), Lval::Num(2), Lval::Num(3)])
    );
}

#[test]
fn it_parses_qexpr() {
    assert_eq!(
        one(
            "{* 1
             2 3}"
        ),
        Lval::Qexpr(vec![sym("*"), Lval::Num(1), Lval::Num(2), Lval::Num(3)])
    );
}

#[test]
fn it_parses_an_expression() {
    assert_eq!(
        one(
            "(* 1
             2 3)"
        ),
        Lval::Sexpr(vec![sym("*"), Lval::Num(1), Lval::Num(2), Lval::Num(3)])
    );
    assert_eq!(
        one(
            "(* 1
             2 (* 1
          2 3))"
        ),
        Lval::Sexpr(vec![
            sym("*"),
            Lval::Num(1),
            Lval::Num(2),
            Lval::Sexpr(vec![sym("*"), Lval::Num(1), Lval::Num(2), Lval::Num(3)]),
        ])
    );
    assert_eq!(
        parse(
            "9 (* 1
             2 (* 1
          2 3))"
        )
        .unwrap(),
        Lval::Sexpr(vec![
            Lval::Num(9),
            Lval::Sexpr(vec![
                sym("*"),
                Lval::Num(1),
                Lval::Num(2),
                Lval::Sexpr(vec![sym("*"), Lval::Num(1), Lval::Num(2), Lval::Num(3)]),
            ]),
        ])
    );
}

#[test]
fn it_parses_expressions() {
    assert_eq!(
        parse(
            "* 9 (* 1
             2 (* 1
          2 3))"
        )
        .unwrap(),
        Lval::Sexpr(vec![
            sym("*"),
            Lval::Num(9),
            Lval::Sexpr(vec![
                sym("*"),
                Lval::Num(1),
                Lval::Num(2),
                Lval::Sexpr(vec![sym("*"), Lval::Num(1), Lval::Num(2), Lval::Num(3)]),
            ]),
        ])
    );
}

#[test]
fn reader_edge_cases() {
    assert_eq!(parse("").unwrap(), Lval::Sexpr(vec![]));
    assert_eq!(parse("  \n ").unwrap(), Lval::Sexpr(vec![]));
    assert_eq!(parse("()").unwrap(), Lval::Sexpr(vec![Lval::Sexpr(vec![])]));
    assert_eq!(one("+5"), Lval::Num(5));
    assert_eq!(
        parse("- 5").unwrap(),
        Lval::Sexpr(vec![sym("-"), Lval::Num(5)])
    );
    assert_eq!(parse("12abc").unwrap(), Lval::Sexpr(vec![Lval::Num(12), sym("abc")]));
    assert_eq!(one("head"), sym("head"));
    assert_eq!(one("-9223372036854775808"), Lval::Num(i64::MIN));
    assert_eq!(one("9223372036854775807"), Lval::Num(i64::MAX));
}

#[test]
fn reader_errors() {
    assert_eq!(parse("(1 2"), Err(SyntaxError::Unexpected(4)));
    assert_eq!(parse("1)"), Err(SyntaxError::Unexpected(1)));
    assert_eq!(parse("{1 2)"), Err(SyntaxError::Unexpected(4)));
    assert_eq!(parse("a.b"), Err(SyntaxError::Unexpected(1)));
    assert_eq!(parse("\\"), Err(SyntaxError::Unexpected(0)));
    assert_eq!(parse("é"), Err(SyntaxError::Unexpected(0)));
    assert_eq!(
        parse("(+ 9223372036854775808)"),
        Err(SyntaxError::NumberOutOfRange(3))
    );
    assert_eq!(
        parse("-9223372036854775809"),
        Err(SyntaxError::NumberOutOfRange(0))
    );
}
