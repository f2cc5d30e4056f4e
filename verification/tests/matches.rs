use kind2::{KindParser, Match, Src, Term};

fn mt_var(name: &str) -> Term {
    Term::Var { nam: name.to_string() }
}

fn mt_lam(name: &str, bod: Term) -> Term {
    Term::Lam { nam: name.to_string(), bod: Box::new(bod) }
}

fn mt_app(fun: Term, arg: Term) -> Term {
    Term::App { fun: Box::new(fun), arg: Box::new(arg) }
}

fn mt_ins(val: Term) -> Term {
    Term::Ins { val: Box::new(val) }
}

fn mt_core(source: &str) -> Term {
    let mut parser = KindParser::new(source);
    let mut term = parser.parse_term(0, &im::HashMap::new()).unwrap();
    assert!(term.has_match());
    term.desugar();
    assert!(!term.has_match());
    term.clean()
}

#[test]
fn parse_match_keeps_its_parts() {
    let source = "match x { succ: a zero: b }";
    let mut parser = KindParser::new(source);
    let term = parser.parse_term(3, &im::HashMap::new()).unwrap();
    assert!(parser.is_eof());
    let src = |ini: u64, end: u64, val: Term| Term::Src {
        src: Src::new(3, ini, end),
        val: Box::new(val),
    };
    let expected = src(
        0,
        27,
        Term::Mch {
            mch: Box::new(Match {
                name: "x".to_string(),
                expr: mt_var("x"),
                cses: vec![
                    ("succ".to_string(), src(16, 17, mt_var("a"))),
                    ("zero".to_string(), src(24, 25, mt_var("b"))),
                ],
                moti: None,
            }),
        },
    );
    assert_eq!(term, expected);
}

#[test]
fn parse_match_with_scrutinee_and_motive() {
    assert_eq!(
        mt_core("match x = (f y) { a: 1 }: U60"),
        mt_app(
            mt_app(mt_ins(mt_app(mt_var("f"), mt_var("y"))), mt_lam("x", Term::U60)),
            Term::Num { val: 1 }
        )
    );
}

#[test]
fn parse_match_without_cases() {
    assert_eq!(mt_core("match x {}"), mt_app(mt_ins(mt_var("x")), Term::Met {}));
}

#[test]
fn parse_match_nested_in_a_case() {
    assert_eq!(
        mt_core("match x { a: match y { b: 1 } c: 2 }"),
        mt_app(
            mt_app(
                mt_app(mt_ins(mt_var("x")), Term::Met {}),
                mt_app(mt_app(mt_ins(mt_var("y")), Term::Met {}), Term::Num { val: 1 })
            ),
            Term::Num { val: 2 }
        )
    );
}

#[test]
fn parse_match_ends_at_its_brace_without_motive() {
    let mut parser = KindParser::new("match x {}   rest");
    let term = parser.parse_term(0, &im::HashMap::new()).unwrap();
    assert_eq!(parser.index(), 10);
    match term {
        Term::Src { src, .. } => assert_eq!((src.ini, src.end), (0, 10)),
        other => panic!("no span: {:?}", other),
    }
    let mut parser = KindParser::new("match x {}  : U60 rest");
    parser.parse_term(0, &im::HashMap::new()).unwrap();
    assert_eq!(parser.index(), 17);
}

#[test]
fn parse_match_errors() {
    let mut parser = KindParser::new("match x { a 1 }");
    let err = parser.parse_term(0, &im::HashMap::new()).unwrap_err();
    assert_eq!((err.index, err.expected.as_str()), (12, ":"));
    let mut parser = KindParser::new("match x { a: 1");
    let err = parser.parse_term(0, &im::HashMap::new()).unwrap_err();
    assert_eq!((err.index, err.expected.as_str()), (14, "name"));
    let mut parser = KindParser::new("match x a: 1 }");
    let err = parser.parse_term(0, &im::HashMap::new()).unwrap_err();
    assert_eq!((err.index, err.expected.as_str()), (8, "{"));
    let mut parser = KindParser::new("match { a: 1 }");
    let err = parser.parse_term(0, &im::HashMap::new()).unwrap_err();
    assert_eq!((err.index, err.expected.as_str()), (6, "name"));
}

#[test]
fn def_match_on_first_argument_is_linearized_and_desugared() {
    let mut parser = KindParser::new("f x k = match x { a: k b: x }");
    let (name, term) = parser.parse_def(0, &im::HashMap::new()).unwrap();
    assert_eq!(name, "f");
    assert!(!term.has_match());
    let val = match term {
        Term::Ann { val, .. } => val.clean(),
        other => panic!("not an annotation: {:?}", other),
    };
    let expected = mt_lam(
        "x",
        mt_app(
            mt_app(mt_app(mt_ins(mt_var("x")), Term::Met {}), mt_lam("k", mt_var("k"))),
            mt_lam("k", mt_var("x")),
        ),
    );
    assert_eq!(val, expected);
}

#[test]
fn def_match_on_another_name_is_bound_outside() {
    let mut parser = KindParser::new("f x k = match y { a: k }");
    let (_, term) = parser.parse_def(0, &im::HashMap::new()).unwrap();
    let val = match term {
        Term::Ann { val, .. } => val.clean(),
        other => panic!("not an annotation: {:?}", other),
    };
    let expected = mt_lam(
        "x",
        mt_lam("k", mt_app(mt_app(mt_ins(mt_var("y")), Term::Met {}), mt_var("k"))),
    );
    assert_eq!(val, expected);
}

#[test]
fn def_type_with_match_is_desugared() {
    let mut parser = KindParser::new("f : match x { a: U60 } = 1");
    let (_, term) = parser.parse_def(0, &im::HashMap::new()).unwrap();
    assert!(!term.has_match());
}
