use kind2::{KindParser, Oper, ParseError, Src, Term};

fn pr_var(name: &str) -> Term {
    Term::Var { nam: name.to_string() }
}

fn pr_app(fun: Term, arg: Term) -> Term {
    Term::App { fun: Box::new(fun), arg: Box::new(arg) }
}

fn pr_src(ini: u64, end: u64, val: Term) -> Term {
    Term::Src { src: Src::new(7, ini, end), val: Box::new(val) }
}

fn pr_uses(list: Vec<(&str, &str)>) -> im::HashMap<String, String> {
    let mut uses = im::HashMap::new();
    for (key, value) in list {
        uses.insert(key.to_string(), value.to_string());
    }
    uses
}

fn pr_parse(source: &str) -> Term {
    let mut parser = KindParser::new(source);
    let term = parser.parse_term(7, &im::HashMap::new()).unwrap();
    assert_eq!(parser.index(), source.trim_end().len());
    term.clean()
}

fn pr_fail(source: &str) -> ParseError {
    let mut parser = KindParser::new(source);
    let err = parser.parse_term(7, &im::HashMap::new()).unwrap_err();
    assert_eq!(parser.index(), err.index);
    let place = highlight_error::highlight_error(err.index, err.index + 1, source);
    let message = match &err.info {
        None => format!(
            "\x1b[1mPARSE_ERROR\n- expected: \x1b[0m{}\x1b[1m\n- detected:\n\x1b[0m{}",
            err.expected, place
        ),
        Some(info) => format!(
            "\x1b[1mPARSE_ERROR\n- information: \x1b[0m{}\x1b[1m\n- expected: \x1b[0m{}\x1b[1m\n- detected:\n\x1b[0m{}\x1b[1m\n ",
            info, err.expected, place
        ),
    };
    assert_eq!(err.message, message);
    err
}

#[test]
fn parse_forall() {
    assert_eq!(
        pr_parse("∀(x: *) x"),
        Term::All { nam: "x".to_string(), inp: Box::new(Term::Uni), bod: Box::new(pr_var("x")) }
    );
}

#[test]
fn parse_lambda_application() {
    assert_eq!(
        pr_parse("λx (x y)"),
        Term::Lam { nam: "x".to_string(), bod: Box::new(pr_app(pr_var("x"), pr_var("y"))) }
    );
}

#[test]
fn parse_nested_application() {
    assert_eq!(pr_parse("((f x) y)"), pr_app(pr_app(pr_var("f"), pr_var("x")), pr_var("y")));
}

#[test]
fn parse_annotation() {
    assert_eq!(
        pr_parse("{x : U60}"),
        Term::Ann { chk: false, val: Box::new(pr_var("x")), typ: Box::new(Term::U60) }
    );
}

#[test]
fn parse_self_type_and_instantiate() {
    assert_eq!(
        pr_parse("$(self: T) ~self"),
        Term::Slf {
            nam: "self".to_string(),
            typ: Box::new(pr_var("T")),
            bod: Box::new(Term::Ins { val: Box::new(pr_var("self")) }),
        }
    );
}

#[test]
fn parse_atoms() {
    assert_eq!(pr_parse("*"), Term::Uni);
    assert_eq!(pr_parse("U60"), Term::U60);
    assert_eq!(pr_parse("42"), Term::Num { val: 42 });
    assert_eq!(pr_parse("0x10"), Term::Num { val: 16 });
    assert_eq!(pr_parse("?hole"), Term::Hol { nam: "hole".to_string() });
    assert_eq!(pr_parse("_"), Term::Met {});
    assert_eq!(pr_parse("'a'"), Term::Num { val: 97 });
    assert_eq!(pr_parse("'λ'"), Term::Num { val: 955 });
    assert_eq!(pr_parse("\"hi λ\""), Term::Txt { txt: "hi λ".to_string() });
    assert_eq!(pr_parse("Foo.bar"), pr_var("Foo.bar"));
}

#[test]
fn parse_binary_operators() {
    let cases = [
        ("+", Oper::Add),
        ("-", Oper::Sub),
        ("*", Oper::Mul),
        ("/", Oper::Div),
        ("%", Oper::Mod),
        ("==", Oper::Eq),
        ("!=", Oper::Ne),
        ("<", Oper::Lt),
        (">", Oper::Gt),
        ("<=", Oper::Lte),
        (">=", Oper::Gte),
        ("&", Oper::And),
        ("|", Oper::Or),
        ("^", Oper::Xor),
        ("<<", Oper::Lsh),
        (">>", Oper::Rsh),
    ];
    for (text, opr) in cases {
        let source = format!("({} 1 x)", text);
        assert_eq!(
            pr_parse(&source),
            Term::Op2 { opr, fst: Box::new(Term::Num { val: 1 }), snd: Box::new(pr_var("x")) }
        );
    }
}

#[test]
fn parse_switch() {
    assert_eq!(
        pr_parse("switch n = (f x) { 0: k; +: n-1 }: U60"),
        Term::Swi {
            nam: "n".to_string(),
            x: Box::new(pr_app(pr_var("f"), pr_var("x"))),
            z: Box::new(pr_var("k")),
            s: Box::new(pr_var("n-1")),
            p: Box::new(Term::U60),
        }
    );
    assert_eq!(
        pr_parse("switch n = n {0: k; +: k}: *"),
        Term::Swi {
            nam: "n".to_string(),
            x: Box::new(pr_var("n")),
            z: Box::new(pr_var("k")),
            s: Box::new(pr_var("k")),
            p: Box::new(Term::Uni),
        }
    );
}

#[test]
fn parse_let_and_use() {
    assert_eq!(
        pr_parse("let x = 1 (x x)"),
        Term::Let {
            nam: "x".to_string(),
            val: Box::new(Term::Num { val: 1 }),
            bod: Box::new(pr_app(pr_var("x"), pr_var("x"))),
        }
    );
    assert_eq!(
        pr_parse("use y = * y"),
        Term::Use { nam: "y".to_string(), val: Box::new(Term::Uni), bod: Box::new(pr_var("y")) }
    );
    // without the space after the keyword it is a variable
    assert_eq!(pr_parse("let"), pr_var("let"));
}

#[test]
fn parse_skips_comments_between_tokens() {
    let source = "// lead\nλx // binder\n ( x // fun\n y ) // done\n";
    let mut parser = KindParser::new(source);
    let term = parser.parse_term(7, &im::HashMap::new()).unwrap();
    assert_eq!(
        term.clean(),
        Term::Lam { nam: "x".to_string(), bod: Box::new(pr_app(pr_var("x"), pr_var("y"))) }
    );
    // the term ends at its closing parenthesis; the comment after it stays
    assert_eq!(parser.index(), 38);
    parser.skip_trivia();
    assert!(parser.is_eof());
}

#[test]
fn parse_term_records_byte_spans() {
    let source = " λx (x y)";
    let mut parser = KindParser::new(source);
    let term = parser.parse_term(7, &im::HashMap::new()).unwrap();
    // `λ` takes two bytes: the lambda runs from 1 to 10, its body from 5
    let expected = pr_src(
        1,
        10,
        Term::Lam {
            nam: "x".to_string(),
            bod: Box::new(pr_src(
                5,
                10,
                pr_app(pr_src(6, 7, pr_var("x")), pr_src(8, 9, pr_var("y"))),
            )),
        },
    );
    assert_eq!(term, expected);
    assert_eq!(parser.index(), 10);
}

#[test]
fn parse_term_resolves_variables_through_aliases() {
    let uses = pr_uses(vec![("Bar", "Foo.Bar"), ("x", "Lib.x")]);
    let mut parser = KindParser::new("(Bar (x y))");
    let term = parser.parse_term(0, &uses).unwrap().clean();
    assert_eq!(term, pr_app(pr_var("Foo.Bar"), pr_app(pr_var("Lib.x"), pr_var("y"))));
    // binders and holes keep the name as written
    let mut parser = KindParser::new("λx ?x");
    let term = parser.parse_term(0, &uses).unwrap().clean();
    assert_eq!(
        term,
        Term::Lam { nam: "x".to_string(), bod: Box::new(Term::Hol { nam: "x".to_string() }) }
    );
}

#[test]
fn parse_term_leaves_the_rest_of_the_input() {
    let mut parser = KindParser::new("x y");
    assert_eq!(parser.parse_term(0, &im::HashMap::new()).unwrap().clean(), pr_var("x"));
    assert_eq!(parser.index(), 1);
    assert_eq!(parser.parse_term(0, &im::HashMap::new()).unwrap().clean(), pr_var("y"));
    assert!(parser.is_eof());
}

#[test]
fn parse_errors_name_the_missing_token() {
    let err = pr_fail("∀ x");
    assert_eq!((err.index, err.expected.as_str()), (4, "("));
    let err = pr_fail("∀(x *) x");
    assert_eq!((err.index, err.expected.as_str()), (6, ":"));
    let err = pr_fail("λ");
    assert_eq!((err.index, err.expected.as_str()), (2, "name"));
    let err = pr_fail("(f x");
    assert_eq!((err.index, err.expected.as_str()), (4, ")"));
    let err = pr_fail("(f x y)");
    assert_eq!((err.index, err.expected.as_str()), (5, ")"));
    let err = pr_fail("{x U60}");
    assert_eq!((err.index, err.expected.as_str()), (3, ":"));
    let err = pr_fail("{x: U60");
    assert_eq!((err.index, err.expected.as_str()), (7, "}"));
    let err = pr_fail("");
    assert_eq!((err.index, err.expected.as_str()), (0, "name"));
    let err = pr_fail("  )");
    assert_eq!((err.index, err.expected.as_str()), (2, "name"));
    let err = pr_fail("(= 1 2)");
    assert_eq!((err.index, err.expected.as_str()), (1, "=="));
    let err = pr_fail("(! 1 2)");
    assert_eq!((err.index, err.expected.as_str()), (1, "!="));
    let err = pr_fail("switch n = n {1: k; +: k}: *");
    assert_eq!((err.index, err.expected.as_str()), (14, "0"));
    let err = pr_fail("switch n = n {0: k +: k}: *");
    assert_eq!((err.index, err.expected.as_str()), (19, ";"));
    let err = pr_fail("switch n = n {0: k; +: k} *");
    assert_eq!((err.index, err.expected.as_str()), (26, ":"));
    let err = pr_fail("let x 1 x");
    assert_eq!((err.index, err.expected.as_str()), (6, "="));
    let err = pr_fail("'ab'");
    assert_eq!((err.index, err.expected.as_str()), (2, "'"));
    let err = pr_fail("\"abc");
    assert_eq!((err.index, err.expected.as_str()), (4, "\""));
    let err = pr_fail("99999999999999999999");
    assert_eq!((err.index, err.expected.as_str()), (20, "integer"));
    assert_eq!(err.info.as_deref(), Some("number too large to fit in target type"));
    let err = pr_fail("'\\q'");
    assert_eq!((err.index, err.expected.as_str()), (3, "\\q"));
    assert_eq!(err.info, None);
}

#[test]
fn parse_oper_reads_the_longest_operator() {
    let mut parser = KindParser::new("<<=");
    assert_eq!(parser.parse_oper(), Ok(Oper::Lsh));
    assert_eq!(parser.index(), 2);
    let mut parser = KindParser::new("<x");
    assert_eq!(parser.parse_oper(), Ok(Oper::Lt));
    assert_eq!(parser.index(), 1);
    let mut parser = KindParser::new("x");
    let err = parser.parse_oper().unwrap_err();
    assert_eq!((err.index, err.expected.as_str()), (0, "operator"));
    let mut parser = KindParser::new("");
    let err = parser.parse_oper().unwrap_err();
    assert_eq!((err.index, err.expected.as_str()), (0, "operator"));
}
