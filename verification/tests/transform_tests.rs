use marwood::cell::Cell;
use marwood::transform::Transform;

fn sym(s: &str) -> Cell {
    Cell::symbol(s)
}

fn num(n: i64) -> Cell {
    Cell::Number(n)
}

fn list(items: Vec<Cell>) -> Cell {
    Cell::new_list(items)
}

#[test]
fn error_on_bad_form() {
    assert!(Transform::try_new(&list(vec![sym("define-syntax")])).is_err());
    assert!(Transform::try_new(&list(vec![sym("define-syntax"), num(100)])).is_err());
    assert!(Transform::try_new(&list(vec![
        sym("define-syntax"),
        list(vec![sym("quote"), Cell::Nil])
    ]))
    .is_err());
    assert!(Transform::try_new(&list(vec![
        sym("define-syntax"),
        sym("let"),
        sym("not-a-list")
    ]))
    .is_err());
    assert!(Transform::try_new(&list(vec![
        sym("define-syntax"),
        sym("let"),
        list(vec![
            sym("syntax-rules"),
            list(vec![num(1), num(2), num(3)]),
            list(vec![])
        ])
    ]))
    .is_err());
    // (define-syntax begin (not-expected-rules () [(begin exp ...) ((lambda () exp ...))]))
    assert!(Transform::try_new(&list(vec![
        sym("define-syntax"),
        sym("begin"),
        list(vec![
            sym("not-expected-rules"),
            list(vec![]),
            list(vec![
                list(vec![sym("begin"), sym("exp"), sym("...")]),
                list(vec![list(vec![
                    sym("lambda"),
                    list(vec![]),
                    sym("exp"),
                    sym("...")
                ])])
            ])
        ])
    ]))
    .is_err());
}

/// A `(define-syntax NAME (syntax-rules () [PATTERN TEMPLATE]))` form.
fn define_syntax(name: &str, pattern: Cell, template: Cell) -> Cell {
    list(vec![
        sym("define-syntax"),
        sym(name),
        list(vec![
            sym("syntax-rules"),
            list(vec![]),
            list(vec![pattern, template]),
        ]),
    ])
}

#[test]
fn bad_pattern_syntax() {
    // variable reuse: (_ exp exp)
    assert!(Transform::try_new(&define_syntax(
        "bad",
        list(vec![sym("_"), sym("exp"), sym("exp")]),
        list(vec![])
    ))
    .is_err());

    // variable reuse across the dot: (_ exp . exp)
    assert!(Transform::try_new(&define_syntax(
        "bad",
        Cell::new_pair(sym("_"), Cell::new_pair(sym("exp"), sym("exp"))),
        list(vec![])
    ))
    .is_err());

    // nested variable reuse: (_ (exp) exp)
    assert!(Transform::try_new(&define_syntax(
        "bad",
        list(vec![sym("_"), list(vec![sym("exp")]), sym("exp")]),
        list(vec![])
    ))
    .is_err());

    // double ellipsis: (_ foo ... bar ...)
    assert!(Transform::try_new(&define_syntax(
        "bad",
        list(vec![sym("_"), sym("foo"), sym("..."), sym("bar"), sym("...")]),
        list(vec![])
    ))
    .is_err());

    // ellipsis out of place: (_ (... foo))
    assert!(Transform::try_new(&define_syntax(
        "bad",
        list(vec![sym("_"), list(vec![sym("..."), sym("foo")])]),
        list(vec![])
    ))
    .is_err());

    // ellipsis last in an improper list: (_ foo . ...)
    assert!(Transform::try_new(&define_syntax(
        "bad",
        Cell::new_pair(sym("_"), Cell::new_pair(sym("foo"), sym("..."))),
        list(vec![])
    ))
    .is_err());
}

/// The `(begin ...)` transformer over `((lambda () exp ...))`, with the
/// given ellipsis form spliced in after `syntax-rules`.
fn begin_transform(extra: Vec<Cell>) -> Cell {
    let mut form = vec![sym("syntax-rules")];
    form.extend(extra);
    form.push(list(vec![
        list(vec![sym("begin"), sym("exp"), sym("...")]),
        list(vec![list(vec![
            sym("lambda"),
            list(vec![]),
            sym("exp"),
            sym("..."),
        ])]),
    ]));
    list(vec![sym("define-syntax"), sym("begin"), list(form)])
}

#[test]
fn alternative_ellipsis_form() {
    let transform = Transform::try_new(&begin_transform(vec![
        sym("___"),
        list(vec![sym("bar"), sym("baz")]),
    ]))
    .unwrap();
    assert_eq!(transform.ellipsis(), &sym("___"));
    assert_eq!(transform.literals(), &vec![sym("bar"), sym("baz")]);
}

#[test]
fn literals() {
    let transform =
        Transform::try_new(&begin_transform(vec![list(vec![sym("bar"), sym("baz")])])).unwrap();
    assert_eq!(transform.keyword(), &sym("begin"));
    assert_eq!(transform.literals(), &vec![sym("bar"), sym("baz")]);
    assert!(transform.is_literal(&sym("bar")));
    assert!(transform.is_literal(&sym("baz")));
    assert!(Transform::try_new(&list(vec![
        sym("define-syntax"),
        sym("let"),
        list(vec![
            sym("syntax-rules"),
            list(vec![num(1), num(2), num(3)]),
            list(vec![])
        ])
    ]))
    .is_err());
}

#[test]
fn single_pattern_variable() {
    let transform = Transform::try_new(&define_syntax(
        "bind-zero",
        list(vec![sym("_"), sym("a")]),
        list(vec![sym("define"), sym("a"), num(0)]),
    ))
    .unwrap();
    assert_eq!(
        transform.transform(&list(vec![sym("bind-zero"), sym("b")])),
        Ok(list(vec![sym("define"), sym("b"), num(0)]))
    );
}

#[test]
fn nested_pattern_variables() {
    let transform = Transform::try_new(&define_syntax(
        "add-nested",
        list(vec![sym("_"), list(vec![sym("x")]), list(vec![sym("y")])]),
        list(vec![sym("+"), sym("x"), sym("y")]),
    ))
    .unwrap();
    assert_eq!(
        transform.transform(&list(vec![
            sym("add-nested"),
            list(vec![num(10)]),
            list(vec![num(20)])
        ])),
        Ok(list(vec![sym("+"), num(10), num(20)]))
    );
}

#[test]
fn single_variable_expansion() {
    let transform = Transform::try_new(&define_syntax(
        "sum",
        list(vec![sym("sum"), sym("*a"), sym("...")]),
        list(vec![sym("+"), sym("*a"), sym("...")]),
    ))
    .unwrap();
    assert_eq!(
        transform.transform(&list(vec![sym("sum")])),
        Ok(list(vec![sym("+")]))
    );
    assert_eq!(
        transform.transform(&list(vec![sym("sum"), num(10)])),
        Ok(list(vec![sym("+"), num(10)]))
    );
    assert_eq!(
        transform.transform(&list(vec![sym("sum"), num(10), num(20)])),
        Ok(list(vec![sym("+"), num(10), num(20)]))
    );
}

#[test]
fn begin_macro() {
    let transform = Transform::try_new(&begin_transform(vec![list(vec![])])).unwrap();
    assert_eq!(transform.keyword(), &sym("begin"));
}

#[test]
fn when_macro() {
    // (define-syntax when (syntax-rules ()
    //   [(when test result1 result2 ...) (if test (begin result1 result2 ...))]))
    let transform = Transform::try_new(&define_syntax(
        "when",
        list(vec![
            sym("when"),
            sym("test"),
            sym("result1"),
            sym("result2"),
            sym("..."),
        ]),
        list(vec![
            sym("if"),
            sym("test"),
            list(vec![
                sym("begin"),
                sym("result1"),
                sym("result2"),
                sym("..."),
            ]),
        ]),
    ));
    assert!(transform.is_ok());
}

#[test]
fn and_macro() {
    // (define-syntax and (syntax-rules ()
    //   [(and) #t] [(and test) test]
    //   [(and test1 test2 ...) (if test1 (and test2 ...) #f)]))
    let transform = Transform::try_new(&list(vec![
        sym("define-syntax"),
        sym("and"),
        list(vec![
            sym("syntax-rules"),
            list(vec![]),
            list(vec![list(vec![sym("and")]), Cell::Bool(true)]),
            list(vec![list(vec![sym("and"), sym("test")]), sym("test")]),
            list(vec![
                list(vec![sym("and"), sym("test1"), sym("test2"), sym("...")]),
                list(vec![
                    sym("if"),
                    sym("test1"),
                    list(vec![sym("and"), sym("test2"), sym("...")]),
                    Cell::Bool(false),
                ]),
            ]),
        ]),
    ]));
    assert!(transform.is_ok());
}

#[test]
fn or_macro() {
    // (define-syntax or (syntax-rules ()
    //   [(or) #f] [(or test) test]
    //   [(or test1 test2 ...) (let ((x test1)) (if x x (or test2 ...)))]))
    let transform = Transform::try_new(&list(vec![
        sym("define-syntax"),
        sym("or"),
        list(vec![
            sym("syntax-rules"),
            list(vec![]),
            list(vec![list(vec![sym("or")]), Cell::Bool(false)]),
            list(vec![list(vec![sym("or"), sym("test")]), sym("test")]),
            list(vec![
                list(vec![sym("or"), sym("test1"), sym("test2"), sym("...")]),
                list(vec![
                    sym("let"),
                    list(vec![list(vec![sym("x"), sym("test1")])]),
                    list(vec![
                        sym("if"),
                        sym("x"),
                        sym("x"),
                        list(vec![sym("or"), sym("test2"), sym("...")]),
                    ]),
                ]),
            ]),
        ]),
    ]));
    assert!(transform.is_ok());
}

#[test]
fn trivial_let_macro() {
    // (define-syntax let (syntax-rules ()
    //   [(let ((name val) ...) body1 body2 ...)
    //    ((lambda (name ...) body1 body2 ...) val ...)]))
    let transform = Transform::try_new(&define_syntax(
        "let",
        list(vec![
            sym("let"),
            list(vec![
                list(vec![sym("name"), sym("val")]),
                sym("..."),
            ]),
            sym("body1"),
            sym("body2"),
            sym("..."),
        ]),
        list(vec![
            list(vec![
                sym("lambda"),
                list(vec![sym("name"), sym("...")]),
                sym("body1"),
                sym("body2"),
                sym("..."),
            ]),
            sym("val"),
            sym("..."),
        ]),
    ));
    assert!(transform.is_ok());
}

#[test]
fn no_rule_matches() {
    let transform = Transform::try_new(&define_syntax(
        "pairs-only",
        list(vec![sym("_"), list(vec![sym("x")])]),
        sym("x"),
    ))
    .unwrap();
    assert!(transform
        .transform(&list(vec![sym("pairs-only"), num(1), num(2)]))
        .is_err());
}
