use generic_symbolic_expressions::builder::IntoSexp;
use generic_symbolic_expressions::iteratom::{from_sexp, FromSexp, IterAtom};
use generic_symbolic_expressions::parser::parse_str;
use generic_symbolic_expressions::{Sexp, SexpError};

fn message<T: std::fmt::Debug>(r: Result<T, SexpError>) -> String {
    match r {
        Err(SexpError::Other(m)) => m,
        other => panic!("no message: {:?}", other),
    }
}

fn sym(s: &str) -> Sexp {
    Sexp::Symbol(s.to_string())
}

#[test]
fn kinds() {
    assert!(sym("a").is_string());
    assert!(!Sexp::String("a".into()).is_string());
    assert!(!Sexp::Empty.is_string());
    assert!(Sexp::List(vec![]).is_list());
    assert!(!sym("a").is_list());
}

#[test]
fn list_and_string() {
    let l = parse_str("(a b)").unwrap();
    assert_eq!(l.list().unwrap(), &vec![sym("a"), sym("b")]);
    assert_eq!(message(sym("a").list()), "not a list: a");
    assert_eq!(sym("a").string().unwrap(), "a");
    assert_eq!(sym("a").s().unwrap(), "a");
    assert_eq!(message(l.string()), "not a string: (a b)");
    assert_eq!(message(l.s()), "not a string: (a b)");
    assert_eq!(message(Sexp::String("a".into()).s()), "not a string: \"a\"");
    assert_eq!(message(Sexp::Empty.s()), "not a string: ");
    assert_eq!(l.list_name().unwrap(), "a");
    assert_eq!(message(sym("a").list_name()), "not a list: a");
    assert_eq!(message(parse_str("((a) b)").unwrap().list_name()), "not a string: (a)");
}

#[test]
fn taking() {
    let mut l = parse_str("(a b)").unwrap();
    assert_eq!(l.take_list().unwrap(), vec![sym("a"), sym("b")]);
    assert_eq!(l, Sexp::Empty);
    let mut s = sym("a");
    assert_eq!(message(s.take_list()), "Not a list: a");
    assert_eq!(s, Sexp::Empty);
    let mut s = sym("a");
    assert_eq!(s.take_string().unwrap(), "a");
    assert_eq!(s, Sexp::Empty);
    let mut l = parse_str("(a b)").unwrap();
    assert_eq!(message(l.take_string()), "Not a string: (a b)");
    assert_eq!(l, Sexp::Empty);
}

#[test]
fn numbers() {
    assert_eq!(sym("42").i().unwrap(), 42);
    assert_eq!(sym("-42").i().unwrap(), -42);
    assert_eq!(sym("+42").i().unwrap(), 42);
    assert!(matches!(sym("4 2").i(), Err(SexpError::Int(_))));
    assert!(matches!(sym("").i(), Err(SexpError::Int(_))));
    assert!(matches!(sym("9223372036854775808").i(), Err(SexpError::Int(_))));
    assert_eq!(message(Sexp::List(vec![]).i()), "not a list: ()".replace("list", "string"));
}

#[test]
fn named_values() {
    let p = parse_str("(d 42)").unwrap();
    assert_eq!(p.named_value("d").unwrap(), &sym("42"));
    assert_eq!(p.named_value_i("d").unwrap(), 42);
    assert_eq!(p.named_value_s("d").unwrap(), "42");
    assert_eq!(p.named_value_string("d").unwrap(), "42");
    assert_eq!(message(p.named_value("e")), "list (d 42) doesn't start with e, but with d");
    assert_eq!(message(parse_str("(d 1 2)").unwrap().named_value("d")), "list d is not a named_value");
    assert_eq!(message(parse_str("()").unwrap().named_value("d")), "list d is not a named_value");
    assert_eq!(message(sym("d").named_value("d")), "not a list: d");
    assert_eq!(message(parse_str("((d) 1)").unwrap().named_value("d")), "not a string: (d)");
    assert_eq!(message(parse_str("(d (1))").unwrap().named_value_s("d")), "not a string: (1)");
    assert_eq!(message(parse_str("(d (1))").unwrap().named_value_i("d")), "not a string: (1)");
    assert!(matches!(
        parse_str("(d x)").unwrap().named_value_i("d"),
        Err(SexpError::Int(_))
    ));
}

#[test]
fn slices() {
    let l = parse_str("(a b c)").unwrap();
    assert_eq!(l.slice_atom("a").unwrap(), &[sym("b"), sym("c")]);
    assert_eq!(message(l.slice_atom("b")), "list (a b c) doesn't start with b, but with a");
    assert_eq!(message(sym("a").slice_atom("a")), "not a list: a");
    assert_eq!(l.slice_atom_num("a", 2).unwrap(), &[sym("b"), sym("c")]);
    assert_eq!(
        message(l.slice_atom_num("a", 3)),
        "list (a) doesn't have 3 elements but 2"
    );
    assert_eq!(
        message(l.slice_atom_num("a", usize::MAX)),
        format!("list (a) doesn't have {} elements but 2", usize::MAX)
    );
    assert_eq!(
        message(l.slice_atom_num("b", 2)),
        "list doesn't start with b, but with a"
    );
    assert_eq!(parse_str("(a)").unwrap().slice_atom_num("a", 0).unwrap(), &[]);
}

struct Pair(i64, i64);

impl FromSexp for Pair {
    fn from_sexp(s: &Sexp) -> Result<Pair, SexpError> {
        let mut i = IterAtom::new(s, "pair")?;
        let a = i.i("a")?;
        let b = i.i("b")?;
        i.close(Pair(a, b))
    }
}

impl IntoSexp for Pair {
    fn into_sexp(&self) -> Sexp {
        let mut e = Sexp::start("pair");
        e.push(self.0);
        e.push(self.1);
        e
    }
}

#[test]
fn iterating() {
    let s = parse_str("(a 1 x (n 2) (m y) (pair 3 4) (p (pair 5 6)) (pair 7 8) (pair 9 10))").unwrap();
    let mut i = IterAtom::new(&s, "a").unwrap();
    assert_eq!(i.i("one").unwrap(), 1);
    assert_eq!(i.s("x").unwrap(), "x");
    assert_eq!(i.i_in_list("n").unwrap(), 2);
    assert_eq!(i.s_in_list("m").unwrap(), "y");
    let p: Pair = i.t("pair").unwrap();
    assert_eq!((p.0, p.1), (3, 4));
    let p: Pair = i.t_in_list("p").unwrap();
    assert_eq!((p.0, p.1), (5, 6));
    let rest: Vec<Pair> = i.vec().unwrap();
    assert_eq!(rest.len(), 2);
    assert_eq!((rest[1].0, rest[1].1), (9, 10));
    assert_eq!(message(i.i("more")), "missing more field in a");
    assert_eq!(i.close(5).unwrap(), 5);
}

#[test]
fn iterating_faults() {
    let s = parse_str("(a b)").unwrap();
    assert_eq!(
        message(IterAtom::new(&s, "b").map(|_| ())),
        "list (a b) doesn't start with b, but with a"
    );
    assert_eq!(
        message(IterAtom::new(&Sexp::List(vec![]), "b").map(|_| ())),
        "missing first element b in list ()"
    );
    assert_eq!(message(IterAtom::new(&sym("a"), "a").map(|_| ())), "not a list: a");
    assert_eq!(
        message(IterAtom::new_nameless(&sym("a"), "a").map(|_| ())),
        "not a list: a"
    );
    let mut i = IterAtom::new(&s, "a").unwrap();
    assert_eq!(message(i.close(1)), "Unexpected b in a");
    assert_eq!(i.close(1).unwrap(), 1);
    let mut i = IterAtom::new_nameless(&s, "top").unwrap();
    assert_eq!(i.s("first").unwrap(), "a");
    assert_eq!(i.s("second").unwrap(), "b");
    assert_eq!(message(i.s("third")), "missing third field in top");
    let bad = parse_str("(l (pair 1 2) (pair x 2) (pair 3 4))").unwrap();
    let mut i = IterAtom::new(&bad, "l").unwrap();
    assert!(matches!(i.vec::<Pair>(), Err(SexpError::Int(_))));
    let p: Pair = i.t("last").unwrap();
    assert_eq!((p.0, p.1), (3, 4));
}

#[test]
fn maybe() {
    let s = parse_str("(a 1 x lit (n 2) (m y) (pair 3 4) z)").unwrap();
    let mut i = IterAtom::new(&s, "a").unwrap();
    assert_eq!(i.maybe_s_in_list("m"), None);
    assert_eq!(i.maybe_i_in_list("n"), None);
    assert!(i.maybe_t::<Pair>().is_none());
    assert_eq!(i.maybe_i(), Some(1));
    assert_eq!(i.maybe_i(), None);
    assert_eq!(i.maybe_literal_s("lit"), None);
    assert_eq!(i.maybe_s(), Some("x".to_string()));
    assert_eq!(i.maybe_literal_s("lit"), Some("lit".to_string()));
    assert_eq!(i.maybe_s(), None);
    assert_eq!(i.maybe_i_in_list("m"), None);
    assert_eq!(i.maybe_i_in_list("n"), Some(2));
    assert_eq!(i.maybe_s_in_list("n"), None);
    assert_eq!(i.maybe_s_in_list("m"), Some("y".to_string()));
    let p = i.maybe_t::<Pair>().unwrap();
    assert_eq!((p.0, p.1), (3, 4));
    assert_eq!(i.maybe_s(), Some("z".to_string()));
    assert_eq!(i.maybe_s(), None);
    assert_eq!(i.maybe_i(), None);
    assert!(i.maybe_t::<Pair>().is_none());
}

#[test]
fn building() {
    let mut e = Sexp::start("a");
    e.push("b");
    e.push(String::from("c"));
    e.push(&String::from("d"));
    e.push(-5i64);
    e.push(vec![sym("x")]);
    e.push(("k", sym("v")));
    e.push(("n", &7u8));
    e.push(Sexp::String("s".into()));
    assert_eq!(e.to_string(), "(a b c d -5 (x) (k v) (n 7) \"s\")");
    assert_eq!(Sexp::new_empty(), Sexp::Empty);
    assert_eq!(Sexp::new_string(1.5), sym("1.5"));
    assert_eq!(Sexp::new_list(vec![sym("a")]), Sexp::List(vec![sym("a")]));
    assert_eq!(Sexp::new_named("a", 7), parse_str("(a 7)").unwrap());
    assert_eq!(
        Sexp::new_named_list("a", |v| {
            v.push(sym("b"));
            v.push(sym("c"))
        }),
        parse_str("(a b c)").unwrap()
    );
    assert_eq!(Sexp::new_named_sexp("p", &Pair(1, 2)), parse_str("(p (pair 1 2))").unwrap());
    assert_eq!(Sexp::from(&Pair(1, 2)), parse_str("(pair 1 2)").unwrap());
    let p: Pair = from_sexp(&Sexp::from(&Pair(1, 2))).unwrap();
    assert_eq!((p.0, p.1), (1, 2));
    let copy = e.clone();
    assert_eq!(copy, e);
}

#[test]
fn errors_from_their_causes() {
    let e: SexpError = std::io::Error::new(std::io::ErrorKind::Other, "gone").into();
    assert!(matches!(e, SexpError::Io(_)));
    let e: SexpError = String::from_utf8(vec![0xff]).unwrap_err().into();
    assert!(matches!(e, SexpError::FromUtf8(_)));
    let e: SexpError = "x".parse::<f64>().unwrap_err().into();
    assert!(matches!(e, SexpError::Float(_)));
    let e: SexpError = "x".parse::<i64>().unwrap_err().into();
    assert!(matches!(e, SexpError::Int(_)));
    let e: SexpError = String::from("why").into();
    assert_eq!(message::<()>(Err(e)), "why");
    let e: SexpError = "why not".into();
    assert_eq!(message::<()>(Err(e)), "why not");
    match generic_symbolic_expressions::parse_error::<()>(3, 4, "bad".to_string()) {
        Err(SexpError::Parse(pe)) => {
            assert_eq!((pe.line(), pe.col(), pe.message().as_str()), (3, 4, "bad"));
            assert_eq!(
                format!("{:?}", pe),
                "ParseError { msg: \"bad\", line: 3, col: 4 }"
            );
        }
        other => panic!("no parse error: {:?}", other),
    }
}
