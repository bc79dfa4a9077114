use generic_symbolic_expressions::decode::{
    decode_bool, decode_enum, decode_fields, decode_i64, decode_option, decode_required,
    decode_seq, decode_string, decode_struct, decode_tuple_struct, decode_unit, variant_newtype,
    variant_struct, variant_tuple, variant_unit, DecodeError,
};
use generic_symbolic_expressions::encode::{
    encode_bool, encode_i64, encode_seq, encode_struct, encode_struct_variant, encode_text,
    encode_tuple_struct, encode_unit, encode_unit_variant, encode_variant,
};
use generic_symbolic_expressions::parser::parse_str;
use generic_symbolic_expressions::ser::to_string;
use generic_symbolic_expressions::Sexp;

#[derive(Debug, PartialEq)]
struct Foo {
    world: String,
    mars: i64,
}

fn decode_foo(exp: Sexp) -> Result<Foo, DecodeError> {
    let mut fields = decode_struct(exp, "Foo", &["world", "mars"])?;
    let mars = fields.pop().unwrap();
    let world = fields.pop().unwrap();
    let world = decode_required(world, "world")
        .and_then(decode_string)
        .map_err(|e| e.within("world"))?;
    let mars = decode_required(mars, "mars")
        .and_then(decode_i64)
        .map_err(|e| e.within("mars"))?;
    Ok(Foo { world, mars })
}

fn encode_foo(foo: &Foo) -> Sexp {
    encode_struct(
        "Foo",
        vec![
            ("world", Some(encode_text(&foo.world))),
            ("mars", Some(encode_i64(foo.mars))),
        ],
    )
}

#[derive(Debug, PartialEq)]
struct Opt {
    world: i64,
    bar: Option<i64>,
}

fn decode_opt(exp: Sexp) -> Result<Opt, DecodeError> {
    let mut fields = decode_struct(exp, "Foo", &["world", "bar"])?;
    let bar = fields.pop().unwrap();
    let world = fields.pop().unwrap();
    let world = decode_required(world, "world")
        .and_then(decode_i64)
        .map_err(|e| e.within("world"))?;
    let bar = match decode_option(bar) {
        Some(e) => Some(decode_i64(e).map_err(|e| e.within("bar"))?),
        None => None,
    };
    Ok(Opt { world, bar })
}

fn encode_opt(opt: &Opt) -> Sexp {
    encode_struct(
        "Foo",
        vec![
            ("world", Some(encode_i64(opt.world))),
            ("bar", opt.bar.map(encode_i64)),
        ],
    )
}

#[derive(Debug, PartialEq)]
enum Shape {
    Dot,
    Circle(i64),
    Rect(i64, i64),
    Label { text: String },
}

const SHAPES: [&str; 4] = ["Dot", "Circle", "Rect", "Label"];

fn decode_shape(exp: Sexp) -> Result<Shape, DecodeError> {
    let (at, payload) = decode_enum(exp, "Shape", &SHAPES)?;
    match at {
        0 => {
            variant_unit(&payload, "Dot")?;
            Ok(Shape::Dot)
        }
        1 => Ok(Shape::Circle(decode_i64(variant_newtype(payload, "Circle")?)?)),
        2 => {
            let mut items = variant_tuple(payload, "Rect", 2)?;
            let h = decode_i64(items.pop().unwrap())?;
            let w = decode_i64(items.pop().unwrap())?;
            Ok(Shape::Rect(w, h))
        }
        _ => {
            let mut fields = variant_struct(payload, &["text"])?;
            let text = decode_required(fields.pop().unwrap(), "text")
                .and_then(decode_string)
                .map_err(|e| e.within("text"))?;
            Ok(Shape::Label { text })
        }
    }
}

fn encode_shape(shape: &Shape) -> Sexp {
    match shape {
        Shape::Dot => encode_unit_variant("Dot"),
        Shape::Circle(r) => encode_variant("Circle", vec![encode_i64(*r)]),
        Shape::Rect(w, h) => encode_variant("Rect", vec![encode_i64(*w), encode_i64(*h)]),
        Shape::Label { text } => {
            encode_struct_variant("Label", vec![("text", Some(encode_text(text)))])
        }
    }
}

#[test]
fn record_decodes_and_encodes_back() {
    let tree = parse_str("(foo (world bar) (mars 42))").unwrap();
    let foo = decode_foo(tree.clone()).unwrap();
    assert_eq!(
        foo,
        Foo {
            world: "bar".to_string(),
            mars: 42
        }
    );
    assert_eq!(encode_foo(&foo), tree);
    assert_eq!(to_string(&encode_foo(&foo)).unwrap(), "(foo (world bar) (mars 42))");
}

#[test]
fn record_head_is_matched_without_case() {
    let upper = decode_foo(parse_str("(FOO (world bar) (mars 42))").unwrap()).unwrap();
    let lower = decode_foo(parse_str("(foo (world bar) (mars 42))").unwrap()).unwrap();
    assert_eq!(upper, lower);
    let wrong = decode_foo(parse_str("(bar (world x))").unwrap()).unwrap_err();
    assert_eq!(wrong.message(), "expecting name foo got bar");
    assert_eq!(wrong.path(), "");
}

#[test]
fn record_fields_are_matched_with_case() {
    let err = decode_foo(parse_str("(foo (World bar) (mars 42))").unwrap()).unwrap_err();
    assert_eq!(err.message(), "missing field world");
    assert_eq!(err.path(), "world");
}

#[test]
fn missing_optional_field_is_none() {
    let opt = decode_opt(parse_str("(foo (world 3))").unwrap()).unwrap();
    assert_eq!(opt, Opt { world: 3, bar: None });
    assert_eq!(to_string(&encode_opt(&opt)).unwrap(), "(foo (world 3))");
    let full = decode_opt(parse_str("(foo (bar 4) (world 3))").unwrap()).unwrap();
    assert_eq!(
        full,
        Opt {
            world: 3,
            bar: Some(4)
        }
    );
    assert_eq!(to_string(&encode_opt(&full)).unwrap(), "(foo (world 3) (bar 4))");
}

#[test]
fn missing_required_field_is_named() {
    let err = decode_foo(parse_str("(foo (world bar))").unwrap()).unwrap_err();
    assert_eq!(err.message(), "missing field mars");
    assert_eq!(err.path(), "mars");
}

#[test]
fn unknown_fields_are_skipped() {
    let foo = decode_foo(parse_str("(foo (venus 1) (world bar) (pluto (a b)) (mars 42))").unwrap())
        .unwrap();
    assert_eq!(
        foo,
        Foo {
            world: "bar".to_string(),
            mars: 42
        }
    );
    assert_eq!(to_string(&encode_foo(&foo)).unwrap(), "(foo (world bar) (mars 42))");
}

#[test]
fn malformed_fields_are_faults() {
    let err = decode_foo(parse_str("(foo (world bar baz) (mars 42))").unwrap()).unwrap_err();
    assert_eq!(err.message(), "expecting a field, got (world bar baz)");
    let err = decode_foo(parse_str("(foo world (mars 42))").unwrap()).unwrap_err();
    assert_eq!(err.message(), "expecting a field, got world");
    let err = decode_foo(parse_str("(foo ((a) b) (mars 42))").unwrap()).unwrap_err();
    assert_eq!(err.message(), "expecting a field, got ((a) b)");
    let err = decode_foo(parse_str("(foo (mars 1) (mars 2))").unwrap()).unwrap_err();
    assert_eq!(err.message(), "duplicate field mars");
    let err = decode_foo(parse_str("()").unwrap()).unwrap_err();
    assert_eq!(err.message(), "missing struct name Foo");
    let err = decode_foo(parse_str("((a) (mars 2))").unwrap()).unwrap_err();
    assert_eq!(err.message(), "expecting a name, got (a)");
    let err = decode_foo(parse_str("foo").unwrap()).unwrap_err();
    assert_eq!(err.message(), "expecting a list, got foo");
}

#[test]
fn first_fault_wins() {
    let err = decode_foo(parse_str("(foo (mars 1) bad (mars 2))").unwrap()).unwrap_err();
    assert_eq!(err.message(), "expecting a field, got bad");
    let err = decode_foo(parse_str("(foo (mars 1) (mars 2) bad)").unwrap()).unwrap_err();
    assert_eq!(err.message(), "duplicate field mars");
}

#[test]
fn scalar_faults_carry_the_field_path() {
    let err = decode_foo(parse_str("(foo (world bar) (mars x1))").unwrap()).unwrap_err();
    assert_eq!(err.message(), "expecting an integer, got x1");
    assert_eq!(err.path(), "mars");
    let nested = err.within("outer");
    assert_eq!(nested.path(), "outer.mars");
    assert_eq!(nested.message(), "expecting an integer, got x1");
}

#[test]
fn unknown_variant_is_an_error() {
    let err = decode_shape(parse_str("nope").unwrap()).unwrap_err();
    assert_eq!(err.message(), "unknown variant nope in Shape");
    let err = decode_shape(parse_str("(nope 1)").unwrap()).unwrap_err();
    assert_eq!(err.message(), "unknown variant nope in Shape");
}

#[test]
fn variants_decode_by_shape() {
    assert_eq!(decode_shape(parse_str("dot").unwrap()).unwrap(), Shape::Dot);
    assert_eq!(decode_shape(parse_str("DOT").unwrap()).unwrap(), Shape::Dot);
    assert_eq!(decode_shape(parse_str("(dot)").unwrap()).unwrap(), Shape::Dot);
    assert_eq!(
        decode_shape(parse_str("(Circle 3)").unwrap()).unwrap(),
        Shape::Circle(3)
    );
    assert_eq!(
        decode_shape(parse_str("(rect 3 -4)").unwrap()).unwrap(),
        Shape::Rect(3, -4)
    );
    assert_eq!(
        decode_shape(parse_str("(label (text \"hi there\"))").unwrap()).unwrap(),
        Shape::Label {
            text: "hi there".to_string()
        }
    );
}

#[test]
fn variant_payload_faults() {
    let err = decode_shape(parse_str("(dot 1)").unwrap()).unwrap_err();
    assert_eq!(err.message(), "wrong number of elements in variant Dot");
    let err = decode_shape(parse_str("(circle)").unwrap()).unwrap_err();
    assert_eq!(err.message(), "wrong number of elements in variant Circle");
    let err = decode_shape(parse_str("(circle 1 2)").unwrap()).unwrap_err();
    assert_eq!(err.message(), "wrong number of elements in variant Circle");
    let err = decode_shape(parse_str("(rect 1)").unwrap()).unwrap_err();
    assert_eq!(err.message(), "wrong number of elements in variant Rect");
    let err = decode_shape(parse_str("circle").unwrap()).unwrap_err();
    assert_eq!(err.message(), "wrong number of elements in variant Circle");
    let err = decode_shape(parse_str("()").unwrap()).unwrap_err();
    assert_eq!(err.message(), "expecting a variant of Shape, got ()");
    let err = decode_shape(Sexp::Empty).unwrap_err();
    assert_eq!(err.message(), "expecting a variant of Shape, got ");
    let err = decode_shape(parse_str("((a) 1)").unwrap()).unwrap_err();
    assert_eq!(err.message(), "expecting a name, got (a)");
}

#[test]
fn variants_encode_and_decode_back() {
    let shapes = vec![
        Shape::Dot,
        Shape::Circle(-7),
        Shape::Rect(1, 2),
        Shape::Label {
            text: "a b".to_string(),
        },
    ];
    let texts = ["Dot", "(Circle -7)", "(Rect 1 2)", "(Label (text \"a b\"))"];
    for (shape, text) in shapes.iter().zip(texts.iter()) {
        let tree = encode_shape(shape);
        assert_eq!(&to_string(&tree).unwrap(), text);
        assert_eq!(&decode_shape(tree).unwrap(), shape);
    }
}

#[test]
fn tuple_struct_is_positional() {
    let items = decode_tuple_struct(parse_str("(point 1 2)").unwrap(), "Point", 2).unwrap();
    assert_eq!(items, vec![Sexp::Symbol("1".into()), Sexp::Symbol("2".into())]);
    let err = decode_tuple_struct(parse_str("(point 1)").unwrap(), "Point", 2).unwrap_err();
    assert_eq!(err.message(), "wrong number of elements for tuple struct Point");
    let err = decode_tuple_struct(parse_str("()").unwrap(), "Point", 2).unwrap_err();
    assert_eq!(err.message(), "wrong number of elements for tuple struct Point");
    let err = decode_tuple_struct(parse_str("(line 1 2)").unwrap(), "Point", 2).unwrap_err();
    assert_eq!(err.message(), "expecting name point got line");
    let err = decode_tuple_struct(parse_str("point").unwrap(), "Point", 2).unwrap_err();
    assert_eq!(err.message(), "expecting a list, got point");
    let err =
        decode_tuple_struct(parse_str("(p 1)").unwrap(), "Point", usize::MAX).unwrap_err();
    assert_eq!(err.message(), "wrong number of elements for tuple struct Point");
    let back = encode_tuple_struct("Point", items);
    assert_eq!(to_string(&back).unwrap(), "(Point 1 2)");
    assert_eq!(
        decode_tuple_struct(back, "point", 2).unwrap(),
        vec![Sexp::Symbol("1".into()), Sexp::Symbol("2".into())]
    );
}

#[test]
fn sequence_keeps_order() {
    let items = decode_seq(parse_str("(c a b)").unwrap()).unwrap();
    let texts: Vec<String> = items.into_iter().map(|e| decode_string(e).unwrap()).collect();
    assert_eq!(texts, vec!["c", "a", "b"]);
    assert_eq!(decode_seq(parse_str("()").unwrap()).unwrap(), vec![]);
    let err = decode_seq(parse_str("a").unwrap()).unwrap_err();
    assert_eq!(err.message(), "expecting a list, got a");
    let back = encode_seq(vec![encode_text("c"), encode_text("a b")]);
    assert_eq!(to_string(&back).unwrap(), "(c \"a b\")");
}

#[test]
fn scalars() {
    assert_eq!(decode_string(Sexp::Symbol("a".into())).unwrap(), "a");
    assert_eq!(decode_string(Sexp::String("a".into())).unwrap(), "a");
    assert_eq!(
        decode_string(parse_str("(a)").unwrap()).unwrap_err().message(),
        "expecting a string, got (a)"
    );
    assert_eq!(decode_i64(Sexp::Symbol("42".into())).unwrap(), 42);
    assert_eq!(decode_i64(Sexp::String("-42".into())).unwrap(), -42);
    assert_eq!(decode_i64(Sexp::Symbol("+7".into())).unwrap(), 7);
    assert_eq!(decode_i64(Sexp::Symbol("007".into())).unwrap(), 7);
    assert_eq!(decode_i64(Sexp::Symbol("-0".into())).unwrap(), 0);
    assert_eq!(
        decode_i64(Sexp::Symbol("9223372036854775807".into())).unwrap(),
        i64::MAX
    );
    assert_eq!(
        decode_i64(Sexp::Symbol("-9223372036854775808".into())).unwrap(),
        i64::MIN
    );
    for bad in ["", "+", "-", "--1", "+-1", "1 ", " 1", "1_0", "1.0", "0x10", "9223372036854775808", "-9223372036854775809", "١"] {
        let err = decode_i64(Sexp::Symbol(bad.into())).unwrap_err();
        assert_eq!(err.message(), &format!("expecting an integer, got {}", bad));
    }
    assert_eq!(decode_bool(Sexp::Symbol("true".into())).unwrap(), true);
    assert_eq!(decode_bool(Sexp::Symbol("false".into())).unwrap(), false);
    assert_eq!(
        decode_bool(Sexp::Symbol("True".into())).unwrap_err().message(),
        "expecting true or false, got True"
    );
    assert_eq!(
        decode_bool(Sexp::Empty).unwrap_err().message(),
        "expecting a string, got "
    );
    assert!(decode_unit(&Sexp::Empty).is_ok());
    assert_eq!(
        decode_unit(&Sexp::Symbol("a".into())).unwrap_err().message(),
        "expecting unit, got a"
    );
    assert_eq!(encode_unit(), Sexp::Empty);
    assert_eq!(encode_bool(true), Sexp::Symbol("true".into()));
    assert_eq!(encode_bool(false), Sexp::Symbol("false".into()));
    assert_eq!(decode_bool(encode_bool(true)).unwrap(), true);
    assert_eq!(decode_bool(encode_bool(false)).unwrap(), false);
    for n in [0, 1, -1, 9, 10, -10, 42, 1234567890, i64::MAX, i64::MIN] {
        assert_eq!(encode_i64(n), Sexp::Symbol(n.to_string()));
        assert_eq!(decode_i64(encode_i64(n)).unwrap(), n);
    }
}

#[test]
fn options() {
    assert_eq!(decode_option(None), None);
    assert_eq!(decode_option(Some(Sexp::Empty)), None);
    assert_eq!(
        decode_option(Some(Sexp::Symbol("a".into()))),
        Some(Sexp::Symbol("a".into()))
    );
    assert_eq!(decode_option(Some(Sexp::List(vec![]))), Some(Sexp::List(vec![])));
}

#[test]
fn fields_without_a_head() {
    let items = decode_seq(parse_str("((b 2) (a 1) (c 3))").unwrap()).unwrap();
    let found = decode_fields(items, &["a", "b", "z"]).unwrap();
    assert_eq!(
        found,
        vec![
            Some(Sexp::Symbol("1".into())),
            Some(Sexp::Symbol("2".into())),
            None
        ]
    );
    assert_eq!(decode_fields(vec![], &[]).unwrap(), vec![]);
}

#[test]
fn lower_case_is_unicode() {
    let items = decode_tuple_struct(parse_str("(ÉCOLE 1)").unwrap(), "école", 1).unwrap();
    assert_eq!(items, vec![Sexp::Symbol("1".into())]);
    let tree = encode_struct("ÉCOLE", vec![("a", Some(encode_i64(1)))]);
    assert_eq!(to_string(&tree).unwrap(), "(école (a 1))");
}
