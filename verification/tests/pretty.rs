use generic_symbolic_expressions::parser::parse_str;
use generic_symbolic_expressions::Sexp;

fn pretty_of(text: &str) -> String {
    parse_str(text).unwrap().pretty()
}

#[test]
fn scalars_and_empty() {
    assert_eq!(Sexp::Symbol("a b".into()).pretty(), "\"a b\"");
    assert_eq!(Sexp::Symbol("a".into()).pretty(), "a");
    assert_eq!(Sexp::String("a".into()).pretty(), "\"a\"");
    assert_eq!(Sexp::Empty.pretty(), "");
    assert_eq!(Sexp::List(vec![]).pretty(), "()");
}

#[test]
fn short_items_stay_on_the_line() {
    assert_eq!(pretty_of("(a b c)"), "(a b c)");
    assert_eq!(pretty_of("(a (b) c)"), "(a (b) c)");
    assert_eq!(pretty_of("((a))"), "((a))");
}

#[test]
fn the_budget_counts_items_not_places() {
    // two inlineable items: the first two items stay, whatever they are
    assert_eq!(pretty_of("(a (b c) d)"), "(a (b c)\n  d)");
    // one inlineable item
    assert_eq!(pretty_of("(a (b c) (d e))"), "(a\n  (b c)\n  (d e))");
    // none: one item stays all the same
    assert_eq!(pretty_of("((a b) (c d))"), "((a b)\n  (c d))");
    assert_eq!(pretty_of("(() ())"), "(()\n  ())");
}

#[test]
fn depth_starts_again_on_the_opening_line() {
    assert_eq!(
        pretty_of("(a (b c) (d (e f) (g h)))"),
        "(a\n  (b c)\n  (d\n    (e f)\n    (g h)))"
    );
    assert_eq!(
        pretty_of("((a (b c) (d e)) x)"),
        "((a\n  (b c)\n  (d e))\n  x)"
    );
}

#[test]
fn what_is_written_is_read_back() {
    for text in [
        "(a (b c) (d (e f) (g h)))",
        "(module X (layer F.Cu) (pad 1 smd (size 1.2 1.2)) (descr \"\") (\"a b\"))",
        "((()) () (a))",
        "x",
        "\"x y\"",
        "",
    ] {
        let e = parse_str(text).unwrap();
        assert_eq!(parse_str(&e.pretty()).unwrap(), e);
    }
    let built = Sexp::List(vec![
        Sexp::String("s".into()),
        Sexp::List(vec![Sexp::Symbol("a b".into()), Sexp::String("".into())]),
    ]);
    assert_eq!(built.pretty(), "(\"s\"\n  (\"a b\" \"\"))");
    assert_eq!(
        parse_str(&built.pretty()).unwrap(),
        parse_str("(s (\"a b\" \"\"))").unwrap()
    );
}

#[test]
fn kicad_module() {
    assert_eq!(
        pretty_of("(module X (layer F.Cu) (pad 1 smd))"),
        "(module X\n  (layer F.Cu)\n  (pad 1 smd))"
    );
}

#[test]
fn empty_items_take_a_place() {
    // the budget counts the two tokens: the empty item is the second on
    // the opening line, and the third item starts a line
    let e = Sexp::List(vec![Sexp::Symbol("a".into()), Sexp::Empty, Sexp::Symbol("b".into())]);
    assert_eq!(e.pretty(), "(a \n  b)");
}

#[test]
fn empty_items_are_not_counted() {
    // nothing is counted: one item stays, and the second starts a line
    let e = Sexp::List(vec![Sexp::Empty, Sexp::Empty]);
    assert_eq!(e.pretty(), "(\n)");
    let e = Sexp::List(vec![Sexp::Empty, Sexp::Symbol("a".into())]);
    assert_eq!(e.pretty(), "(\n  a)");
    let e = Sexp::List(vec![Sexp::Symbol("a".into()), Sexp::Empty]);
    assert_eq!(e.pretty(), "(a\n)");
}

#[test]
fn deep_nesting_does_not_use_the_call_stack() {
    let depth = 100_000;
    let mut e = Sexp::List(vec![]);
    for _ in 1..depth {
        e = Sexp::List(vec![e]);
    }
    let text = e.pretty();
    assert_eq!(text.len(), 2 * depth);
    assert!(text[..depth].bytes().all(|b| b == b'('));
    assert!(text[depth..].bytes().all(|b| b == b')'));
    // take the expression apart level by level: dropping it whole would
    // recurse as deep as it is nested
    loop {
        match e {
            Sexp::List(mut v) => match v.pop() {
                Some(inner) => e = inner,
                None => break,
            },
            _ => break,
        }
    }
}
