use generic_symbolic_expressions::encode_string;
use generic_symbolic_expressions::formatter::{CompactFormatter, Formatter, Rules};
use generic_symbolic_expressions::parser::parse_str;
use generic_symbolic_expressions::ser::{
    to_string, to_string_with_formatter, to_string_with_rules, to_vec, to_vec_with_formatter,
    to_vec_with_rules, Serializer,
};
use generic_symbolic_expressions::text::{chars_of, integer_text};
use generic_symbolic_expressions::{Sexp, SexpError};

#[test]
fn quoting() {
    assert_eq!(encode_string("hello world"), "\"hello world\"");
    assert_eq!(encode_string("hello"), "hello");
    assert_eq!(encode_string(&encode_string("hello")), "hello");
    assert_eq!(encode_string(""), "\"\"");
    for special in [" ", "(", ")", "\t", "{", "}", "%"] {
        let token = format!("a{}b", special);
        assert_eq!(encode_string(&token), format!("\"{}\"", token));
    }
    // nothing is escaped, and a quote or a line feed alone forces no quotes
    assert_eq!(encode_string("a\"b"), "a\"b");
    assert_eq!(encode_string("a\"b c"), "\"a\"b c\"");
    assert_eq!(encode_string("a\nb"), "a\nb");
    assert_eq!(encode_string("é"), "é");
}

#[test]
fn empty_input() {
    assert_eq!(parse_str("").unwrap(), Sexp::Empty);
    assert_eq!(to_string(&Sexp::Empty).unwrap(), "");
    assert_eq!(Sexp::default(), Sexp::Empty);
    assert_ne!(parse_str("()").unwrap(), Sexp::Empty);
}

#[test]
fn compact_round_trip_example() {
    let text = "(module X (layer F.Cu))";
    let tree = parse_str(text).unwrap();
    assert_eq!(
        tree,
        Sexp::List(vec![
            Sexp::Symbol("module".into()),
            Sexp::Symbol("X".into()),
            Sexp::List(vec![Sexp::Symbol("layer".into()), Sexp::Symbol("F.Cu".into())]),
        ])
    );
    assert_eq!(to_string(&tree).unwrap(), text);
}

#[test]
fn text_that_is_not_canonical_is_normalized() {
    assert_eq!(to_string(&parse_str("(a  b)").unwrap()).unwrap(), "(a b)");
    assert_eq!(to_string(&parse_str(" \t( a \t b\r\n) ").unwrap()).unwrap(), "(a b)");
    assert_eq!(to_string(&parse_str("(a\tb)").unwrap()).unwrap(), "(\"a\tb\")");
    assert_eq!(to_string(&parse_str("a b").unwrap()).unwrap(), "a");
    assert_eq!(to_string(&parse_str("(a)(b)").unwrap()).unwrap(), "(a)");
}

fn parse_fault(text: &str) -> (String, usize, usize) {
    match parse_str(text) {
        Err(SexpError::Parse(pe)) => (pe.message().clone(), pe.line(), pe.col()),
        other => panic!("no parse error: {:?}", other),
    }
}

#[test]
fn malformed_input() {
    assert_eq!(parse_fault("("), ("End of file reached".to_string(), 1, 2));
    assert_eq!(parse_fault(")"), ("Unexpected )".to_string(), 1, 1));
    assert_eq!(parse_fault("\"hello"), ("End of file reached".to_string(), 1, 7));
    assert_eq!(parse_fault("\"hello\n\n\n    "), ("End of file reached".to_string(), 4, 5));
    assert_eq!(parse_fault("   "), ("End of file reached".to_string(), 1, 4));
    assert_eq!(parse_fault("(a\n (b\n  )"), ("End of file reached".to_string(), 3, 4));
    assert_eq!(parse_fault("(a \"b\\\")"), ("End of file reached".to_string(), 1, 9));
    assert_eq!(parse_fault("  )"), ("Unexpected )".to_string(), 1, 3));
}

#[test]
fn white_space_before_the_expression() {
    assert_eq!(
        parse_str("\n(a)").unwrap(),
        Sexp::List(vec![Sexp::Symbol("a".into())])
    );
    assert_eq!(
        parse_str(" \t\r\n  (a)").unwrap(),
        Sexp::List(vec![Sexp::Symbol("a".into())])
    );
    assert_eq!(parse_str("\r\n\"a b\"").unwrap(), Sexp::Symbol("a b".into()));
    assert_eq!(parse_str("\n\nabc def").unwrap(), Sexp::Symbol("abc".into()));
    // nothing but white space
    assert_eq!(parse_fault("\n"), ("End of file reached".to_string(), 2, 1));
    assert_eq!(parse_fault(" \r\n\t"), ("End of file reached".to_string(), 2, 2));
    assert_eq!(parse_fault("\n\n )"), ("Unexpected )".to_string(), 3, 2));
}

#[test]
fn a_list_that_starts_a_line_is_read_back() {
    let mut rules = Rules::new();
    rules.insert("b", 1);
    let tree = parse_str("(b)").unwrap();
    let text = to_string_with_rules(&tree, rules).unwrap();
    assert_eq!(text, "\n  (b)");
    assert_eq!(parse_str(&text).unwrap(), tree);
    let mut rules = Rules::new();
    rules.insert("module", 0);
    rules.insert("layer", 2);
    let tree = parse_str("(module X (layer F.Cu) (layer (layer B.Cu)))").unwrap();
    let text = to_string_with_rules(&tree, rules).unwrap();
    assert_eq!(text, "\n(module X\n    (layer F.Cu)\n    (layer\n    (layer B.Cu)))");
    assert_eq!(parse_str(&text).unwrap(), tree);
}

#[test]
fn tokens() {
    assert_eq!(parse_str("ab\"cd\"").unwrap(), Sexp::Symbol("ab".into()));
    assert_eq!(
        parse_str("(ab\"c d\"e)").unwrap(),
        Sexp::List(vec![
            Sexp::Symbol("ab".into()),
            Sexp::Symbol("c d".into()),
            Sexp::Symbol("e".into())
        ])
    );
    assert_eq!(parse_str("a\tb").unwrap(), Sexp::Symbol("a\tb".into()));
    assert_eq!(parse_str("\na").unwrap(), Sexp::Symbol("a".into()));
    assert_eq!(parse_str("\"a\\\\\"b\"").unwrap(), Sexp::Symbol("a\\\\\"b".into()));
    assert_eq!(parse_str("\"a\\b\"c").unwrap(), Sexp::Symbol("a\\b".into()));
    assert_eq!(parse_str("é(").unwrap(), Sexp::Symbol("é".into()));
}

#[test]
fn strings_are_always_quoted() {
    let e = Sexp::List(vec![Sexp::String("a".into()), Sexp::Symbol("a".into())]);
    assert_eq!(to_string(&e).unwrap(), "(\"a\" a)");
    assert_eq!(
        parse_str("(\"a\" a)").unwrap(),
        Sexp::List(vec![Sexp::Symbol("a".into()), Sexp::Symbol("a".into())])
    );
    assert_eq!(e.to_string(), "(\"a\" a)");
    assert_eq!(Sexp::Symbol("a b".into()).to_string(), "a b");
    assert_eq!(to_string(&Sexp::Symbol("a b".into())).unwrap(), "\"a b\"");
}

#[test]
fn rules_layout() {
    let mut rules = Rules::new();
    assert_eq!(rules.insert("b", 2), None);
    assert_eq!(rules.insert("c", 0), None);
    assert_eq!(rules.insert("d", -3), None);
    assert_eq!(rules.insert("e", 1), None);
    assert_eq!(rules.insert("e", 1), Some(1));
    assert_eq!(rules.get("b"), Some(2));
    assert_eq!(rules.get("z"), None);
    assert!(rules.contains_key("d"));
    let tree = parse_str("(a (b x) (c) (d) y (z (e)) ((b)) (\"b\"))").unwrap();
    assert_eq!(
        to_string_with_rules(&tree, rules).unwrap(),
        "(a\n    (b x)\n(c)\n(d) y (z\n  (e)) (\n    (b))\n    (b))"
    );
    // a `String` at the head starts no line
    let mut rules = Rules::new();
    rules.insert("b", 1);
    let e = Sexp::List(vec![
        Sexp::Symbol("a".into()),
        Sexp::List(vec![Sexp::String("b".into())]),
    ]);
    assert_eq!(to_string_with_rules(&e, rules).unwrap(), "(a (\"b\"))");
    assert_eq!(to_string_with_rules(&e, Rules::new()).unwrap(), "(a (\"b\"))");
}

#[test]
fn bytes() {
    let tree = parse_str("(a \"é b\")").unwrap();
    assert_eq!(to_vec(&tree).unwrap(), "(a \"é b\")".as_bytes().to_vec());
    assert_eq!(
        to_vec_with_formatter(&tree, CompactFormatter).unwrap(),
        "(a \"é b\")".as_bytes().to_vec()
    );
    let mut rules = Rules::new();
    rules.insert("a", 1);
    assert_eq!(
        to_vec_with_rules(&tree, rules).unwrap(),
        "\n  (a \"é b\")".as_bytes().to_vec()
    );
    assert_eq!(to_string_with_formatter(&tree, CompactFormatter).unwrap(), "(a \"é b\")");
}

#[test]
fn serializer_goes_on_after_what_was_written() {
    let mut ser = Serializer::new("x=".to_string());
    ser.serialize(&parse_str("(a b)").unwrap()).unwrap();
    ser.serialize_str("c d").unwrap();
    ser.serialize_str("e").unwrap();
    assert_eq!(ser.into_inner(), "x=(a b)\"c d\"e");
    let mut rules = Rules::new();
    rules.insert("a", 1);
    let mut ser = Serializer::new_rules(String::new(), rules);
    ser.serialize(&parse_str("(a b)").unwrap()).unwrap();
    assert_eq!(ser.into_inner(), "\n  (a b)");
}

#[test]
fn formatter_methods() {
    let mut out = String::new();
    let mut f = CompactFormatter;
    f.open(&mut out, None).unwrap();
    f.element(&mut out, &Sexp::Empty).unwrap();
    f.close(&mut out).unwrap();
    assert_eq!(out, "( )");
}

#[test]
fn characters_and_numbers() {
    assert_eq!(chars_of("aé"), vec!['a', 'é']);
    assert_eq!(integer_text(0), "0");
    assert_eq!(integer_text(-120), "-120");
    assert_eq!(integer_text(i64::MIN), "-9223372036854775808");
    assert_eq!(integer_text(i64::MAX), "9223372036854775807");
}
