use generic_symbolic_expressions::codec::{decode, encode};
use generic_symbolic_expressions::fitting::{encode_fitting, value_fits};
use generic_symbolic_expressions::parser::parse_str;
use generic_symbolic_expressions::ser::to_string;
use generic_symbolic_expressions::value::{Payload, Shape, Value};
use generic_symbolic_expressions::Sexp;

fn field(name: &str, shape: Shape) -> (String, Shape) {
    (name.to_string(), shape)
}

fn foo() -> Shape {
    Shape::Record(
        "Foo".to_string(),
        vec![field("world", Shape::Text), field("mars", Shape::Integer)],
    )
}

fn opt() -> Shape {
    Shape::Record(
        "Foo".to_string(),
        vec![
            field("world", Shape::Integer),
            field("bar", Shape::Optional(Box::new(Shape::Integer))),
        ],
    )
}

fn point() -> Shape {
    Shape::Tuple("Point".to_string(), vec![Shape::Integer, Shape::Integer])
}

fn shape() -> Shape {
    Shape::Enum(
        "Shape".to_string(),
        vec![
            ("Dot".to_string(), Payload::Unit),
            ("Circle".to_string(), Payload::Newtype(Shape::Integer)),
            ("Line".to_string(), Payload::Tuple(vec![point(), point()])),
            (
                "Label".to_string(),
                Payload::Record(vec![
                    field("text", Shape::Text),
                    field("at", Shape::Optional(Box::new(point()))),
                ]),
            ),
        ],
    )
}

fn drawing() -> Shape {
    Shape::Record(
        "Drawing".to_string(),
        vec![
            field("title", Shape::Text),
            field("visible", Shape::Boolean),
            field("shapes", Shape::Sequence(Box::new(shape()))),
        ],
    )
}

fn named(name: &str, value: Value) -> (String, Value) {
    (name.to_string(), value)
}

fn text(s: &str) -> Value {
    Value::Text(s.to_string())
}

fn pt(x: i64, y: i64) -> Value {
    Value::Tuple("Point".to_string(), vec![Value::Integer(x), Value::Integer(y)])
}

fn read(text: &str, shape: &Shape) -> Result<Value, (String, String)> {
    match decode(parse_str(text).unwrap(), shape) {
        Ok(v) => Ok(v),
        Err(e) => Err((e.path().clone(), e.message().clone())),
    }
}

fn fault(text: &str, shape: &Shape) -> (String, String) {
    read(text, shape).unwrap_err()
}

fn at(path: &str, message: &str) -> (String, String) {
    (path.to_string(), message.to_string())
}

#[test]
fn record_round_trip() {
    let tree = parse_str("(foo (world bar) (mars 42))").unwrap();
    let value = decode(tree.clone(), &foo()).unwrap();
    assert_eq!(
        value,
        Value::Record(
            "Foo".to_string(),
            vec![named("world", text("bar")), named("mars", Value::Integer(42))]
        )
    );
    assert_eq!(encode(&value), tree);
}

#[test]
fn head_without_case_fields_with_case() {
    assert_eq!(
        read("(FOO (mars 42) (world bar))", &foo()),
        read("(foo (world bar) (mars 42))", &foo())
    );
    assert_eq!(fault("(bar (world x))", &foo()), at("", "expecting name foo got bar"));
    assert_eq!(
        fault("(foo (World bar) (mars 1))", &foo()),
        at("world", "missing field world")
    );
}

#[test]
fn optional_field() {
    let value = read("(foo (world 3))", &opt()).unwrap();
    assert_eq!(
        value,
        Value::Record(
            "Foo".to_string(),
            vec![named("world", Value::Integer(3)), named("bar", Value::Absent)]
        )
    );
    assert_eq!(to_string(&encode(&value)).unwrap(), "(foo (world 3))");
    let value = read("(foo (bar 4) (world 3))", &opt()).unwrap();
    assert_eq!(
        value,
        Value::Record(
            "Foo".to_string(),
            vec![
                named("world", Value::Integer(3)),
                named("bar", Value::Present(Box::new(Value::Integer(4))))
            ]
        )
    );
    assert_eq!(to_string(&encode(&value)).unwrap(), "(foo (world 3) (bar 4))");
}

#[test]
fn empty_is_none() {
    let shape = Shape::Sequence(Box::new(Shape::Optional(Box::new(Shape::Integer))));
    let tree = Sexp::List(vec![Sexp::Symbol("1".into()), Sexp::Empty]);
    let value = decode(tree.clone(), &shape).unwrap();
    assert_eq!(
        value,
        Value::Sequence(vec![
            Value::Present(Box::new(Value::Integer(1))),
            Value::Absent
        ])
    );
    assert_eq!(encode(&value), tree);
    assert_eq!(
        decode(Sexp::Empty, &Shape::Optional(Box::new(Shape::Text))).unwrap(),
        Value::Absent
    );
    assert_eq!(encode(&Value::Absent), Sexp::Empty);
}

#[test]
fn unknown_variant() {
    assert_eq!(fault("nope", &shape()), at("", "unknown variant nope in Shape"));
    assert_eq!(fault("(nope 1)", &shape()), at("", "unknown variant nope in Shape"));
}

#[test]
fn variants() {
    let texts = [
        "Dot",
        "(Circle 3)",
        "(Line (Point 0 1) (Point -2 3))",
        "(Label (text \"a b\") (at (Point 1 1)))",
        "(Label (text c))",
    ];
    let values = vec![
        Value::UnitVariant("Dot".to_string()),
        Value::NewtypeVariant("Circle".to_string(), Box::new(Value::Integer(3))),
        Value::TupleVariant("Line".to_string(), vec![pt(0, 1), pt(-2, 3)]),
        Value::RecordVariant(
            "Label".to_string(),
            vec![
                named("text", text("a b")),
                named("at", Value::Present(Box::new(pt(1, 1)))),
            ],
        ),
        Value::RecordVariant(
            "Label".to_string(),
            vec![named("text", text("c")), named("at", Value::Absent)],
        ),
    ];
    for (t, v) in texts.iter().zip(values.iter()) {
        assert_eq!(&read(t, &shape()).unwrap(), v);
        assert_eq!(&to_string(&encode(v)).unwrap(), t);
        assert_eq!(&decode(encode(v), &shape()).unwrap(), v);
    }
    assert_eq!(read("dot", &shape()).unwrap(), values[0]);
    assert_eq!(read("(DOT)", &shape()).unwrap(), values[0]);
    assert_eq!(read("(circle 3)", &shape()).unwrap(), values[1]);
    assert_eq!(
        fault("(dot 1)", &shape()),
        at("", "wrong number of elements in variant Dot")
    );
    assert_eq!(
        fault("circle", &shape()),
        at("", "wrong number of elements in variant Circle")
    );
    assert_eq!(
        fault("(line (point 1 2))", &shape()),
        at("", "wrong number of elements in variant Line")
    );
    assert_eq!(
        fault("(line (point 1 2) (point 1 x))", &shape()),
        at("1.1", "expecting an integer, got x")
    );
    assert_eq!(
        fault("(label (at (point 1)) (text a))", &shape()),
        at("at", "wrong number of elements for tuple struct Point")
    );
    assert_eq!(fault("(label)", &shape()), at("text", "missing field text"));
}

#[test]
fn nested_values() {
    let text_in = "(drawing (title \"my drawing\") (visible true) (shapes (Dot (Circle 2) \
                   (Label (text x)))))";
    let value = read(text_in, &drawing()).unwrap();
    assert_eq!(
        value,
        Value::Record(
            "Drawing".to_string(),
            vec![
                named("title", text("my drawing")),
                named("visible", Value::Boolean(true)),
                named(
                    "shapes",
                    Value::Sequence(vec![
                        Value::UnitVariant("Dot".to_string()),
                        Value::NewtypeVariant("Circle".to_string(), Box::new(Value::Integer(2))),
                        Value::RecordVariant(
                            "Label".to_string(),
                            vec![named("text", text("x")), named("at", Value::Absent)]
                        ),
                    ])
                ),
            ]
        )
    );
    assert_eq!(to_string(&encode(&value)).unwrap(), text_in);
    assert_eq!(decode(encode(&value), &drawing()).unwrap(), value);
}

#[test]
fn the_first_fault_in_reading_order_is_reported() {
    // the value of a field is read as soon as the field is met
    assert_eq!(
        fault("(foo (mars x) bad (mars 2))", &foo()),
        at("mars", "expecting an integer, got x")
    );
    assert_eq!(
        fault("(foo bad (mars x))", &foo()),
        at("", "expecting a field, got bad")
    );
    assert_eq!(
        fault("(foo (mars 1) (mars x))", &foo()),
        at("", "duplicate field mars")
    );
    // a missing field is known only at the end
    assert_eq!(
        fault("(foo (mars x))", &foo()),
        at("mars", "expecting an integer, got x")
    );
    assert_eq!(fault("(foo (mars 1))", &foo()), at("world", "missing field world"));
    assert_eq!(fault("(foo)", &foo()), at("world", "missing field world"));
    // depth first
    assert_eq!(
        fault(
            "(drawing (shapes (Dot (Circle x) (Nope))) (visible maybe))",
            &drawing()
        ),
        at("shapes", "expecting an integer, got x")
    );
    assert_eq!(
        fault(
            "(drawing (visible maybe) (shapes (Dot (Circle x) (Nope))))",
            &drawing()
        ),
        at("visible", "expecting true or false, got maybe")
    );
    assert_eq!(
        fault(
            "(drawing (shapes ((Label (at (Point 1 (2))) (text)))))",
            &drawing()
        ),
        at("shapes.at.1", "expecting a string, got (2)")
    );
}

#[test]
fn unknown_fields_are_dropped() {
    let value = read("(foo (venus (a b)) (world w) (mars 1) (pluto 2))", &foo()).unwrap();
    assert_eq!(to_string(&encode(&value)).unwrap(), "(foo (world w) (mars 1))");
}

#[test]
fn tuple_struct() {
    assert_eq!(read("(point 1 2)", &point()).unwrap(), pt(1, 2));
    assert_eq!(to_string(&encode(&pt(1, 2))).unwrap(), "(Point 1 2)");
    assert_eq!(
        fault("(point 1)", &point()),
        at("", "wrong number of elements for tuple struct Point")
    );
    assert_eq!(
        fault("(point 1 b)", &point()),
        at("1", "expecting an integer, got b")
    );
    assert_eq!(
        fault("(point a b)", &point()),
        at("0", "expecting an integer, got a")
    );
    assert_eq!(fault("(line 1 2)", &point()), at("", "expecting name point got line"));
}

#[test]
fn scalars_and_sequences() {
    assert_eq!(read("a", &Shape::Text).unwrap(), text("a"));
    assert_eq!(
        decode(Sexp::String("a b".into()), &Shape::Text).unwrap(),
        text("a b")
    );
    assert_eq!(read("-12", &Shape::Integer).unwrap(), Value::Integer(-12));
    assert_eq!(read("false", &Shape::Boolean).unwrap(), Value::Boolean(false));
    assert_eq!(fault("False", &Shape::Boolean), at("", "expecting true or false, got False"));
    assert_eq!(fault("(a)", &Shape::Text), at("", "expecting a string, got (a)"));
    let list = Shape::Sequence(Box::new(Shape::Integer));
    assert_eq!(
        read("(3 1 2)", &list).unwrap(),
        Value::Sequence(vec![Value::Integer(3), Value::Integer(1), Value::Integer(2)])
    );
    assert_eq!(read("()", &list).unwrap(), Value::Sequence(vec![]));
    assert_eq!(fault("(3 x 2 y)", &list), at("", "expecting an integer, got x"));
    assert_eq!(fault("3", &list), at("", "expecting a list, got 3"));
    assert_eq!(encode(&Value::Boolean(true)), Sexp::Symbol("true".into()));
    assert_eq!(encode(&Value::Integer(i64::MIN)), Sexp::Symbol(i64::MIN.to_string()));
    assert_eq!(
        to_string(&encode(&Value::Sequence(vec![text("a b"), text("")]))).unwrap(),
        "(\"a b\" \"\")"
    );
}

#[test]
fn values_that_fit() {
    let good = Value::Record(
        "Foo".to_string(),
        vec![named("world", text("bar")), named("mars", Value::Integer(42))],
    );
    assert!(value_fits(&good, &foo()));
    let tree = encode_fitting(&good, &foo()).unwrap();
    assert_eq!(decode(tree, &foo()).unwrap(), good);
    // another name, another order, a missing field, a value of another shape
    let other_name = Value::Record(
        "foo".to_string(),
        vec![named("world", text("bar")), named("mars", Value::Integer(42))],
    );
    assert!(!value_fits(&other_name, &foo()));
    let other_order = Value::Record(
        "Foo".to_string(),
        vec![named("mars", Value::Integer(42)), named("world", text("bar"))],
    );
    assert!(!value_fits(&other_order, &foo()));
    let short = Value::Record("Foo".to_string(), vec![named("world", text("bar"))]);
    assert!(!value_fits(&short, &foo()));
    let wrong = Value::Record(
        "Foo".to_string(),
        vec![named("world", Value::Integer(1)), named("mars", Value::Integer(42))],
    );
    assert!(!value_fits(&wrong, &foo()));
    assert_eq!(encode_fitting(&wrong, &foo()), None);
    assert!(!value_fits(&text("a"), &foo()));
    // fields whose names do not differ
    let twice = Shape::Record(
        "T".to_string(),
        vec![field("a", Shape::Text), field("a", Shape::Text)],
    );
    let v = Value::Record("T".to_string(), vec![named("a", text("x")), named("a", text("y"))]);
    assert!(!value_fits(&v, &twice));
    // optional values
    let maybe = Shape::Optional(Box::new(Shape::Optional(Box::new(Shape::Text))));
    assert!(value_fits(&Value::Absent, &maybe));
    assert!(value_fits(
        &Value::Present(Box::new(Value::Present(Box::new(text("a"))))),
        &maybe
    ));
    // a present value that holds the absent one is written as nothing
    assert!(!value_fits(&Value::Present(Box::new(Value::Absent)), &maybe));
    assert!(!value_fits(&text("a"), &maybe));
    // sequences and tuples
    let list = Shape::Sequence(Box::new(Shape::Integer));
    assert!(value_fits(&Value::Sequence(vec![]), &list));
    assert!(value_fits(
        &Value::Sequence(vec![Value::Integer(1), Value::Integer(2)]),
        &list
    ));
    assert!(!value_fits(
        &Value::Sequence(vec![Value::Integer(1), text("2")]),
        &list
    ));
    assert!(value_fits(&pt(1, 2), &point()));
    assert!(!value_fits(
        &Value::Tuple("Point".to_string(), vec![Value::Integer(1)]),
        &point()
    ));
    assert!(!value_fits(
        &Value::Tuple("point".to_string(), vec![Value::Integer(1), Value::Integer(2)]),
        &point()
    ));
    // variants
    assert!(value_fits(&Value::UnitVariant("Dot".to_string()), &shape()));
    assert!(!value_fits(&Value::UnitVariant("dot".to_string()), &shape()));
    assert!(!value_fits(&Value::UnitVariant("Circle".to_string()), &shape()));
    assert!(!value_fits(&Value::UnitVariant("Nope".to_string()), &shape()));
    assert!(value_fits(
        &Value::NewtypeVariant("Circle".to_string(), Box::new(Value::Integer(3))),
        &shape()
    ));
    assert!(value_fits(
        &Value::TupleVariant("Line".to_string(), vec![pt(0, 1), pt(2, 3)]),
        &shape()
    ));
    assert!(!value_fits(
        &Value::TupleVariant("Line".to_string(), vec![pt(0, 1)]),
        &shape()
    ));
    assert!(value_fits(
        &Value::RecordVariant(
            "Label".to_string(),
            vec![named("text", text("c")), named("at", Value::Absent)]
        ),
        &shape()
    ));
    // a variant that stands behind one of the same name but for the case
    let shadowed = Shape::Enum(
        "E".to_string(),
        vec![("a".to_string(), Payload::Unit), ("A".to_string(), Payload::Unit)],
    );
    assert!(value_fits(&Value::UnitVariant("a".to_string()), &shadowed));
    assert!(!value_fits(&Value::UnitVariant("A".to_string()), &shadowed));
    assert_eq!(
        decode(encode(&Value::UnitVariant("A".to_string())), &shadowed).unwrap(),
        Value::UnitVariant("a".to_string())
    );
}
