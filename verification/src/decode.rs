//! From a symbolic expression to the parts of a typed value.
//!
//! The type that is asked for decides how an expression is read: as a
//! token, a sequence, a record, a tuple struct, a variant of an enum or an
//! optional value. Each function here reads one of these shapes and hands
//! back the parts, still as expressions, for the caller to read on. The
//! first fault ends the reading.

use crate::sexp::{display, trees, Sexp, Tree};
use crate::text::{integer_value, lowercase, parse_i64, same_text, to_lowercase};
use vstd::prelude::*;

verus! {

/// What a decode error says: where in the value the fault is, as the names
/// of the fields that lead to it with dots between them, and what it is.
pub ghost struct DecodeErrorView {
    pub path: Seq<char>,
    pub message: Seq<char>,
}

/// An expression that has not the shape that was asked for.
#[derive(Debug)]
pub struct DecodeError {
    path: String,
    message: String,
}

impl View for DecodeError {
    type V = DecodeErrorView;

    closed spec fn view(&self) -> DecodeErrorView {
        DecodeErrorView { path: self.path@, message: self.message@ }
    }
}

/// The path of a fault in the field `field`, where the path inside the
/// field is `inner`.
pub open spec fn path_in(field: Seq<char>, inner: Seq<char>) -> Seq<char> {
    if inner.len() == 0 {
        field
    } else {
        field + seq!['.'] + inner
    }
}

/// The result is an error at the top of the value, with this message.
pub open spec fn fails<T>(r: Result<T, DecodeError>, message: Seq<char>) -> bool {
    r matches Err(e) && e@ == (DecodeErrorView { path: Seq::empty(), message: message })
}

/// The values of the expressions that are there.
pub open spec fn option_trees(s: Seq<Option<Sexp>>) -> Seq<Option<Tree>> {
    Seq::new(
        s.len(),
        |i: int|
            match s[i] {
                Some(e) => Some(e@),
                None => None,
            },
    )
}

/// The texts of the names.
pub open spec fn names(s: Seq<&str>) -> Seq<Seq<char>> {
    Seq::new(s.len(), |i: int| s[i]@)
}

impl DecodeError {
    /// An error at the top of the value.
    pub fn new(message: String) -> (e: DecodeError)
        ensures
            e@ == (DecodeErrorView { path: Seq::empty(), message: message@ }),
    {
        DecodeError { path: String::new(), message: message }
    }

    /// The error for a value that holds the faulty one in its field
    /// `field`.
    pub fn within(self, field: &str) -> (e: DecodeError)
        ensures
            e@ == (DecodeErrorView { path: path_in(field@, self@.path), message: self@.message }),
    {
        let mut path = String::from_str(field);
        if !self.path.as_str().is_empty() {
            path.append(".");
            path.append(self.path.as_str());
            proof {
                reveal_strlit(".");
                assert("."@ =~= seq!['.']);
            }
        }
        DecodeError { path: path, message: self.message }
    }

    /// Where the fault is.
    pub fn path(&self) -> (p: &String)
        ensures
            p@ == self@.path,
    {
        &self.path
    }

    /// What the fault is.
    pub fn message(&self) -> (m: &String)
        ensures
            m@ == self@.message,
    {
        &self.message
    }
}

/// The message for an expression that is no token.
pub open spec fn not_a_token(t: Tree) -> Seq<char> {
    "expecting a string, got "@ + display(t)
}

/// The message for a token that is no integer.
pub open spec fn not_an_integer(s: Seq<char>) -> Seq<char> {
    "expecting an integer, got "@ + s
}

/// The message for a token that is neither `true` nor `false`.
pub open spec fn not_a_bool(s: Seq<char>) -> Seq<char> {
    "expecting true or false, got "@ + s
}

/// The message for an expression that is not `Empty`.
pub open spec fn not_unit(t: Tree) -> Seq<char> {
    "expecting unit, got "@ + display(t)
}

/// The message for an expression that is no list.
pub open spec fn not_a_sequence(t: Tree) -> Seq<char> {
    "expecting a list, got "@ + display(t)
}

/// The message for a list without the name of its type.
pub open spec fn missing_name(name: Seq<char>) -> Seq<char> {
    "missing struct name "@ + name
}

/// The message for a list whose first item is no `Symbol`.
pub open spec fn name_not_symbol(t: Tree) -> Seq<char> {
    "expecting a name, got "@ + display(t)
}

/// The message for a list that starts with another name than that of the
/// type; both names are in lower case.
pub open spec fn wrong_name(want: Seq<char>, found: Seq<char>) -> Seq<char> {
    "expecting name "@ + want + " got "@ + found
}

/// The message for a tuple struct with another number of items than the
/// type has.
pub open spec fn wrong_arity(name: Seq<char>) -> Seq<char> {
    "wrong number of elements for tuple struct "@ + name
}

/// The message for an item of a record that is no pair of a name and a
/// value.
pub open spec fn not_a_field(t: Tree) -> Seq<char> {
    "expecting a field, got "@ + display(t)
}

/// The message for a field that stands twice in a record.
pub open spec fn duplicate_field(field: Seq<char>) -> Seq<char> {
    "duplicate field "@ + field
}

/// The message for a field that a record has to have and has not.
pub open spec fn missing_field(field: Seq<char>) -> Seq<char> {
    "missing field "@ + field
}

/// The message for an expression that names no variant of the enum.
pub open spec fn unknown_variant(found: Seq<char>, name: Seq<char>) -> Seq<char> {
    "unknown variant "@ + found + " in "@ + name
}

/// The message for an expression that cannot be a variant at all.
pub open spec fn not_a_variant(t: Tree, name: Seq<char>) -> Seq<char> {
    "expecting a variant of "@ + name + ", got "@ + display(t)
}

/// The message for a variant with another number of items than it has to
/// have.
pub open spec fn wrong_payload(name: Seq<char>) -> Seq<char> {
    "wrong number of elements in variant "@ + name
}

fn fault<T>(prefix: &str, detail: &str) -> (r: Result<T, DecodeError>)
    ensures
        fails(r, prefix@ + detail@),
{
    let mut m = String::from_str(prefix);
    m.append(detail);
    Err(DecodeError::new(m))
}

fn fault_at<T>(prefix: &str, subject: &Sexp) -> (r: Result<T, DecodeError>)
    ensures
        fails(r, prefix@ + display(subject@)),
{
    let shown = subject.to_string();
    fault(prefix, shown.as_str())
}

/// The text of a token: of a `Symbol` or of a `String`, the same.
pub open spec fn token_text(t: Tree) -> Option<Seq<char>> {
    match t {
        Tree::Sym(s) => Some(s),
        Tree::Str(s) => Some(s),
        _ => None,
    }
}

/// Reads a token as text.
pub fn decode_string(exp: Sexp) -> (r: Result<String, DecodeError>)
    ensures
        match token_text(exp@) {
            Some(s) => r matches Ok(text) && text@ == s,
            None => fails(r, not_a_token(exp@)),
        },
{
    match exp {
        Sexp::Symbol(s) => Ok(s),
        Sexp::String(s) => Ok(s),
        other => fault_at("expecting a string, got ", &other),
    }
}

/// Reads a token as an integer: decimal digits, with at most one sign
/// before them.
pub fn decode_i64(exp: Sexp) -> (r: Result<i64, DecodeError>)
    ensures
        match token_text(exp@) {
            Some(s) => match integer_value(s) {
                Some(v) => if i64::MIN <= v <= i64::MAX {
                    r == Ok::<i64, DecodeError>(v as i64)
                } else {
                    fails(r, not_an_integer(s))
                },
                None => fails(r, not_an_integer(s)),
            },
            None => fails(r, not_a_token(exp@)),
        },
{
    match decode_string(exp) {
        Ok(s) => match parse_i64(s.as_str()) {
            Ok(i) => Ok(i),
            Err(_) => fault("expecting an integer, got ", s.as_str()),
        },
        Err(e) => Err(e),
    }
}

/// Reads a token as a truth value: `true` or `false`, in lower case.
pub fn decode_bool(exp: Sexp) -> (r: Result<bool, DecodeError>)
    ensures
        match token_text(exp@) {
            Some(s) => if s == "true"@ {
                r == Ok::<bool, DecodeError>(true)
            } else if s == "false"@ {
                r == Ok::<bool, DecodeError>(false)
            } else {
                fails(r, not_a_bool(s))
            },
            None => fails(r, not_a_token(exp@)),
        },
{
    match decode_string(exp) {
        Ok(s) => {
            if same_text(s.as_str(), "true") {
                Ok(true)
            } else if same_text(s.as_str(), "false") {
                Ok(false)
            } else {
                fault("expecting true or false, got ", s.as_str())
            }
        },
        Err(e) => Err(e),
    }
}

/// Reads the empty expression as the value without parts.
pub fn decode_unit(exp: &Sexp) -> (r: Result<(), DecodeError>)
    ensures
        exp@ is Empty ==> r is Ok,
        !(exp@ is Empty) ==> fails(r, not_unit(exp@)),
{
    match exp {
        Sexp::Empty => Ok(()),
        _ => fault_at("expecting unit, got ", exp),
    }
}

/// Reads a list as a sequence: its items, in order.
pub fn decode_seq(exp: Sexp) -> (r: Result<Vec<Sexp>, DecodeError>)
    ensures
        match exp {
            Sexp::List(v) => r == Ok::<Vec<Sexp>, DecodeError>(v),
            _ => fails(r, not_a_sequence(exp@)),
        },
{
    match exp {
        Sexp::List(v) => Ok(v),
        other => fault_at("expecting a list, got ", &other),
    }
}

/// Reads what may be absent: a value that is not there, or `Empty`, is
/// none; any other expression is there.
pub fn decode_option(exp: Option<Sexp>) -> (r: Option<Sexp>)
    ensures
        match exp {
            Some(e) => if e@ is Empty {
                r is None
            } else {
                r == Some(e)
            },
            None => r is None,
        },
{
    match exp {
        Some(Sexp::Empty) => None,
        Some(e) => Some(e),
        None => None,
    }
}

/// What a record has in the place of a field that it has to have: the
/// value, or the error that names the field.
pub fn decode_required(exp: Option<Sexp>, field: &str) -> (r: Result<Sexp, DecodeError>)
    ensures
        match exp {
            Some(e) => r == Ok::<Sexp, DecodeError>(e),
            None => fails(r, missing_field(field@)),
        },
{
    match exp {
        Some(e) => Ok(e),
        None => fault("missing field ", field),
    }
}

/// Holds the name at the head of a list against the name of the type,
/// both in lower case.
pub fn match_lowered(want: &str, found: &str) -> (r: Result<(), DecodeError>)
    ensures
        want@ == found@ ==> r is Ok,
        want@ != found@ ==> fails(r, wrong_name(want@, found@)),
{
    if same_text(want, found) {
        Ok(())
    } else {
        let mut m = String::from_str("expecting name ");
        m.append(want);
        m.append(" got ");
        m.append(found);
        Err(DecodeError::new(m))
    }
}

/// Whether two names are the same but for the case of their letters.
pub open spec fn same_name(a: Seq<char>, b: Seq<char>) -> bool {
    lowercase(a) == lowercase(b)
}

/// Holds the first item of a list against the name of a type.
fn check_head(head: &Sexp, name: &str) -> (r: Result<(), DecodeError>)
    ensures
        match head@ {
            Tree::Sym(found) => if same_name(name@, found) {
                r is Ok
            } else {
                fails(r, wrong_name(lowercase(name@), lowercase(found)))
            },
            _ => fails(r, name_not_symbol(head@)),
        },
{
    match head {
        Sexp::Symbol(found) => {
            let name2 = to_lowercase(found.as_str());
            let name = to_lowercase(name);
            match_lowered(name.as_str(), name2.as_str())
        },
        _ => fault_at("expecting a name, got ", head),
    }
}

/// The first place from `from` on at which `key` stands among `fields`.
pub open spec fn index_of(fields: Seq<Seq<char>>, key: Seq<char>, from: int) -> Option<int>
    decreases fields.len() - from,
{
    if from < 0 || from >= fields.len() {
        None
    } else if fields[from] == key {
        Some(from)
    } else {
        index_of(fields, key, from + 1)
    }
}

/// A place that `index_of` gives is a place among the names, from `from`
/// on.
pub proof fn lemma_index_of_in_range(fields: Seq<Seq<char>>, key: Seq<char>, from: int)
    requires
        0 <= from,
    ensures
        index_of(fields, key, from) matches Some(j) ==> from <= j < fields.len() && fields[j]
            == key,
    decreases fields.len() - from,
{
    if from < fields.len() && fields[from] != key {
        lemma_index_of_in_range(fields, key, from + 1);
    }
}

/// The first place at which `key` stands among the names.
pub fn find_name(fields: &[&str], key: &str) -> (r: Option<usize>)
    ensures
        match index_of(names(fields@), key@, 0) {
            Some(j) => r matches Some(at) && at == j && 0 <= j < fields@.len(),
            None => r is None,
        },
{
    let mut i: usize = 0;
    while i < fields.len()
        invariant
            i <= fields.len(),
            index_of(names(fields@), key@, 0) == index_of(names(fields@), key@, i as int),
        decreases fields.len() - i,
    {
        assert(names(fields@)[i as int] == fields@[i as int]@);
        if same_text(fields[i], key) {
            return Some(i);
        }
        i = i + 1;
    }
    None
}

/// A pair of a name and a value: a list of two items, the first of them a
/// `Symbol`.
pub open spec fn is_field(t: Tree) -> bool {
    t matches Tree::List(l) && l.len() == 2 && l[0] is Sym
}

/// Reads an item of a record as a field: a pair `(name value)`. The
/// result are the name and the value.
pub fn decode_field(item: Sexp) -> (r: Result<(String, Sexp), DecodeError>)
    ensures
        is_field(item@) ==> (r matches Ok(field) && field.0@ == item@->List_0[0]->Sym_0
            && field.1@ == item@->List_0[1]),
        !is_field(item@) ==> fails(r, not_a_field(item@)),
{
    let ghost tree = item@;
    match item {
        Sexp::List(mut both) => {
            assert(trees(both@).len() == both.len());
            if both.len() != 2 {
                return fault_at("expecting a field, got ", &Sexp::List(both));
            }
            assert(trees(both@)[0] == both@[0]@);
            assert(trees(both@)[1] == both@[1]@);
            let value = both.pop().unwrap();
            let key = both.pop().unwrap();
            match key {
                Sexp::Symbol(name) => Ok((name, value)),
                other => {
                    both.push(other);
                    both.push(value);
                    assert(trees(both@) =~= tree->List_0);
                    fault_at("expecting a field, got ", &Sexp::List(both))
                },
            }
        },
        other => fault_at("expecting a field, got ", &other),
    }
}

/// The values of the fields of a record, read from the first `n` of the
/// items that follow its name: for each name of `fields` the value that
/// stands with it, if there is one. An item that is no pair of a name and
/// a value is a fault, and so is a name of `fields` that stands twice; a
/// name that is not among `fields` is passed over with its value.
pub open spec fn fields_read(items: Seq<Tree>, n: nat, fields: Seq<Seq<char>>) -> Result<
    Seq<Option<Tree>>,
    Seq<char>,
>
    decreases n,
{
    if n == 0 || n > items.len() {
        Ok(Seq::new(fields.len(), |j: int| None))
    } else {
        match fields_read(items, (n - 1) as nat, fields) {
            Err(m) => Err(m),
            Ok(found) => {
                let item = items[n - 1];
                if !is_field(item) {
                    Err(not_a_field(item))
                } else {
                    let key = item->List_0[0]->Sym_0;
                    match index_of(fields, key, 0) {
                        None => Ok(found),
                        Some(j) => if found[j] is Some {
                            Err(duplicate_field(key))
                        } else {
                            Ok(found.update(j, Some(item->List_0[1])))
                        },
                    }
                }
            },
        }
    }
}

/// A fault among the first items of a record is the fault of the record.
pub proof fn lemma_fields_fault_stays(items: Seq<Tree>, k: nat, n: nat, fields: Seq<Seq<char>>)
    requires
        k <= n <= items.len(),
        fields_read(items, k, fields) is Err,
    ensures
        fields_read(items, n, fields) == fields_read(items, k, fields),
    decreases n,
{
    if k < n {
        lemma_fields_fault_stays(items, k, (n - 1) as nat, fields);
    }
}

/// Whether `r` is the values `read`, or the error with the message `read`.
pub open spec fn is_fields(r: Result<Vec<Option<Sexp>>, DecodeError>, read: Result<
    Seq<Option<Tree>>,
    Seq<char>,
>) -> bool {
    match read {
        Ok(found) => r matches Ok(values) && option_trees(values@) == found,
        Err(m) => fails(r, m),
    }
}

/// Reads the items of `items` from the place `from` on as the fields of a
/// record.
fn collect_fields(items: Vec<Sexp>, from: usize, fields: &[&str]) -> (r: Result<
    Vec<Option<Sexp>>,
    DecodeError,
>)
    requires
        from <= items.len(),
    ensures
        is_fields(
            r,
            fields_read(
                trees(items@).subrange(from as int, items.len() as int),
                (items.len() - from) as nat,
                names(fields@),
            ),
        ),
{
    let mut left = items;
    let ghost all = trees(items@).subrange(from as int, items.len() as int);
    let ghost wanted = names(fields@);
    let mut found: Vec<Option<Sexp>> = Vec::new();
    let mut k: usize = 0;
    while k < fields.len()
        invariant
            k <= fields.len(),
            found.len() == k,
            forall|j: int| 0 <= j < k ==> found@[j] is None,
        decreases fields.len() - k,
    {
        found.push(None);
        k = k + 1;
    }
    assert(option_trees(found@) =~= Seq::new(wanted.len(), |j: int| None::<Tree>));
    let mut i: usize = from;
    let n = left.len();
    while i < n
        invariant
            from <= i <= n,
            n == left.len(),
            n == items.len(),
            wanted == names(fields@),
            all == trees(items@).subrange(from as int, items.len() as int),
            forall|j: int| i <= j < n ==> left@[j]@ == #[trigger] all[j - from],
            found.len() == fields@.len(),
            fields_read(all, (i - from) as nat, wanted) == Ok::<Seq<Option<Tree>>, Seq<char>>(
                option_trees(found@),
            ),
        decreases n - i,
    {
        let mut item = Sexp::Empty;
        std::mem::swap(&mut item, &mut left[i]);
        assert(item@ == all[i - from]);
        proof {
            if fields_read(all, (i - from + 1) as nat, wanted) is Err {
                lemma_fields_fault_stays(all, (i - from + 1) as nat, (n - from) as nat, wanted);
            }
        }
        let (name, value) = match decode_field(item) {
            Ok(field) => field,
            Err(e) => {
                return Err(e);
            },
        };
        match find_name(fields, name.as_str()) {
            None => {},
            Some(j) => {
                if found[j].is_some() {
                    return fault("duplicate field ", name.as_str());
                }
                let ghost before = option_trees(found@);
                found[j] = Some(value);
                assert(option_trees(found@) =~= before.update(j as int, Some(value@)));
            },
        }
        i = i + 1;
    }
    Ok(found)
}

/// Reads expressions as the fields of a record: each has to be a pair
/// `(name value)`. The result holds, for each name of `fields` and in
/// their order, the value that stands with the name, if there is one.
/// Pairs with a name that is not among `fields` are passed over.
pub fn decode_fields(items: Vec<Sexp>, fields: &[&str]) -> (r: Result<
    Vec<Option<Sexp>>,
    DecodeError,
>)
    ensures
        is_fields(r, fields_read(trees(items@), items@.len(), names(fields@))),
{
    assert(trees(items@).subrange(0, items.len() as int) =~= trees(items@));
    collect_fields(items, 0, fields)
}

/// The items that follow the name in a list that is read as the record
/// `name`, or the message that says why the list is none.
pub open spec fn record_items(t: Tree, name: Seq<char>) -> Result<Seq<Tree>, Seq<char>> {
    match t {
        Tree::List(l) => if l.len() == 0 {
            Err(missing_name(name))
        } else {
            match l[0] {
                Tree::Sym(found) => if same_name(name, found) {
                    Ok(l.subrange(1, l.len() as int))
                } else {
                    Err(wrong_name(lowercase(name), lowercase(found)))
                },
                _ => Err(name_not_symbol(l[0])),
            }
        },
        _ => Err(not_a_sequence(t)),
    }
}

/// What reading a list as the record `name` gives.
pub open spec fn struct_read(t: Tree, name: Seq<char>, fields: Seq<Seq<char>>) -> Result<
    Seq<Option<Tree>>,
    Seq<char>,
> {
    match t {
        Tree::List(l) => if l.len() == 0 {
            Err(missing_name(name))
        } else {
            match l[0] {
                Tree::Sym(found) => if same_name(name, found) {
                    fields_read(l.subrange(1, l.len() as int), (l.len() - 1) as nat, fields)
                } else {
                    Err(wrong_name(lowercase(name), lowercase(found)))
                },
                _ => Err(name_not_symbol(l[0])),
            }
        },
        _ => Err(not_a_sequence(t)),
    }
}

/// Reads a list as a record: the first item has to be a `Symbol` that is
/// the name of the type but for the case of its letters, and each other
/// item a pair `(field value)`. The result holds, for each name of
/// `fields` and in their order, the value of that field, if the list has
/// it. Fields that are not among `fields` are passed over.
pub fn decode_struct(exp: Sexp, name: &str, fields: &[&str]) -> (r: Result<
    Vec<Option<Sexp>>,
    DecodeError,
>)
    ensures
        is_fields(r, struct_read(exp@, name@, names(fields@))),
{
    match exp {
        Sexp::List(v) => {
            assert(trees(v@).len() == v.len());
            if v.len() < 1 {
                return fault("missing struct name ", name);
            }
            assert(trees(v@)[0] == v@[0]@);
            match check_head(&v[0], name) {
                Ok(_) => collect_fields(v, 1, fields),
                Err(e) => Err(e),
            }
        },
        other => fault_at("expecting a list, got ", &other),
    }
}

/// Reads the head of a record: the list has to start with a `Symbol` that
/// is the name of the type but for the case of its letters. The result
/// are the items after the name.
pub fn decode_record_head(exp: Sexp, name: &str) -> (r: Result<Vec<Sexp>, DecodeError>)
    ensures
        is_items(r, record_items(exp@, name@)),
{
    match exp {
        Sexp::List(v) => {
            assert(trees(v@).len() == v.len());
            if v.len() < 1 {
                return fault("missing struct name ", name);
            }
            assert(trees(v@)[0] == v@[0]@);
            match check_head(&v[0], name) {
                Ok(_) => {
                    let mut v = v;
                    let ghost whole = v@;
                    v.remove(0);
                    assert(trees(v@) =~= trees(whole).subrange(1, whole.len() as int));
                    Ok(v)
                },
                Err(e) => Err(e),
            }
        },
        other => fault_at("expecting a list, got ", &other),
    }
}

/// What reading a list as the tuple struct `name` of `len` items gives:
/// the items after the name.
pub open spec fn tuple_read(t: Tree, name: Seq<char>, len: nat) -> Result<Seq<Tree>, Seq<char>> {
    match t {
        Tree::List(l) => if l.len() != len + 1 {
            Err(wrong_arity(name))
        } else {
            match l[0] {
                Tree::Sym(found) => if same_name(name, found) {
                    Ok(l.subrange(1, l.len() as int))
                } else {
                    Err(wrong_name(lowercase(name), lowercase(found)))
                },
                _ => Err(name_not_symbol(l[0])),
            }
        },
        _ => Err(not_a_sequence(t)),
    }
}

/// Whether `r` is the expressions `read`, or the error with the message
/// `read`.
pub open spec fn is_items(r: Result<Vec<Sexp>, DecodeError>, read: Result<
    Seq<Tree>,
    Seq<char>,
>) -> bool {
    match read {
        Ok(items) => r matches Ok(values) && trees(values@) == items,
        Err(m) => fails(r, m),
    }
}

/// Reads a list as a tuple struct: it has to hold the name of the type,
/// but for the case of its letters, and `len` items after it, which are
/// the result.
pub fn decode_tuple_struct(exp: Sexp, name: &str, len: usize) -> (r: Result<
    Vec<Sexp>,
    DecodeError,
>)
    ensures
        is_items(r, tuple_read(exp@, name@, len as nat)),
{
    match exp {
        Sexp::List(v) => {
            assert(trees(v@).len() == v.len());
            if len == usize::MAX || v.len() != len + 1 {
                return fault("wrong number of elements for tuple struct ", name);
            }
            assert(trees(v@)[0] == v@[0]@);
            match check_head(&v[0], name) {
                Ok(_) => {
                    let mut v = v;
                    let ghost whole = v@;
                    v.remove(0);
                    assert(trees(v@) =~= trees(whole).subrange(1, whole.len() as int));
                    Ok(v)
                },
                Err(e) => Err(e),
            }
        },
        other => fault_at("expecting a list, got ", &other),
    }
}

/// The names in lower case.
pub open spec fn lowered(s: Seq<Seq<char>>) -> Seq<Seq<char>> {
    Seq::new(s.len(), |i: int| lowercase(s[i]))
}

/// The texts of the strings.
pub open spec fn string_texts(s: Seq<String>) -> Seq<Seq<char>> {
    Seq::new(s.len(), |i: int| s[i]@)
}

/// The first place at which `key` stands among the texts.
pub fn find_text(texts: &Vec<String>, key: &str) -> (r: Option<usize>)
    ensures
        match index_of(string_texts(texts@), key@, 0) {
            Some(j) => r matches Some(at) && at == j && 0 <= j < texts@.len(),
            None => r is None,
        },
{
    let mut i: usize = 0;
    while i < texts.len()
        invariant
            i <= texts.len(),
            index_of(string_texts(texts@), key@, 0) == index_of(
                string_texts(texts@),
                key@,
                i as int,
            ),
        decreases texts.len() - i,
    {
        assert(string_texts(texts@)[i as int] == texts@[i as int]@);
        if same_text(texts[i].as_str(), key) {
            return Some(i);
        }
        i = i + 1;
    }
    None
}

/// The variant that a name stands for: the first of `variants` that is
/// the name but for the case of its letters.
pub open spec fn variant_of(variants: Seq<Seq<char>>, head: Seq<char>) -> Option<int> {
    index_of(lowered(variants), lowercase(head), 0)
}

/// The place of the variant that the name `head` stands for: of the first
/// of `variants` that is the name but for the case of its letters.
pub fn variant_index(head: &str, variants: &[&str]) -> (r: Option<usize>)
    ensures
        match variant_of(names(variants@), head@) {
            Some(i) => r matches Some(at) && at == i && 0 <= i < variants@.len(),
            None => r is None,
        },
{
    let mut lower: Vec<String> = Vec::new();
    let mut i: usize = 0;
    while i < variants.len()
        invariant
            i <= variants.len(),
            lower.len() == i,
            forall|j: int| 0 <= j < i ==> lower@[j]@ == lowercase(variants@[j]@),
        decreases variants.len() - i,
    {
        lower.push(to_lowercase(variants[i]));
        i = i + 1;
    }
    assert(string_texts(lower@) =~= lowered(names(variants@)));
    let found = to_lowercase(head);
    find_text(&lower, found.as_str())
}

/// The variant that the name `head` stands for, or the error that says
/// that the enum `name` has none of that name.
fn find_variant(head: &str, name: &str, variants: &[&str]) -> (r: Result<usize, DecodeError>)
    ensures
        match variant_of(names(variants@), head@) {
            Some(i) => r matches Ok(at) && at == i && 0 <= i < variants@.len(),
            None => fails(r, unknown_variant(head@, name@)),
        },
{
    match variant_index(head, variants) {
        Some(i) => Ok(i),
        None => {
            let mut m = String::from_str("unknown variant ");
            m.append(head);
            m.append(" in ");
            m.append(name);
            Err(DecodeError::new(m))
        },
    }
}

/// What reading an expression as a variant of the enum `name` gives: the
/// place of the variant among `variants`, and the items of its payload.
pub open spec fn enum_read(t: Tree, name: Seq<char>, variants: Seq<Seq<char>>) -> Result<
    (int, Seq<Tree>),
    Seq<char>,
> {
    match t {
        Tree::Sym(head) => match variant_of(variants, head) {
            Some(i) => Ok((i, Seq::empty())),
            None => Err(unknown_variant(head, name)),
        },
        Tree::List(l) => if l.len() == 0 {
            Err(not_a_variant(t, name))
        } else {
            match l[0] {
                Tree::Sym(head) => match variant_of(variants, head) {
                    Some(i) => Ok((i, l.subrange(1, l.len() as int))),
                    None => Err(unknown_variant(head, name)),
                },
                _ => Err(name_not_symbol(l[0])),
            }
        },
        _ => Err(not_a_variant(t, name)),
    }
}

/// A variant that is read is one of the variants.
pub proof fn lemma_enum_read_in_range(t: Tree, name: Seq<char>, variants: Seq<Seq<char>>)
    ensures
        enum_read(t, name, variants) matches Ok(found) ==> 0 <= found.0 < variants.len(),
{
    match t {
        Tree::Sym(head) => {
            lemma_index_of_in_range(lowered(variants), lowercase(head), 0);
        },
        Tree::List(l) => {
            if l.len() > 0 {
                match l[0] {
                    Tree::Sym(head) => {
                        lemma_index_of_in_range(lowered(variants), lowercase(head), 0);
                    },
                    _ => {},
                }
            }
        },
        _ => {},
    }
}

/// Whether `r` is the variant `read`, or the error with the message
/// `read`.
pub open spec fn is_variant(r: Result<(usize, Vec<Sexp>), DecodeError>, read: Result<
    (int, Seq<Tree>),
    Seq<char>,
>) -> bool {
    match read {
        Ok(found) => r matches Ok(variant) && variant.0 == found.0 && trees(variant.1@)
            == found.1,
        Err(m) => fails(r, m),
    }
}

/// Reads an expression as a variant of an enum. A `Symbol` is a variant
/// without payload; a list is a variant whose name is its first item and
/// whose payload are the items after it. The name stands for the first of
/// `variants` that it is but for the case of its letters. The result is
/// the place of that variant among `variants`, and the payload.
pub fn decode_enum(exp: Sexp, name: &str, variants: &[&str]) -> (r: Result<
    (usize, Vec<Sexp>),
    DecodeError,
>)
    ensures
        is_variant(r, enum_read(exp@, name@, names(variants@))),
        r matches Ok((at, items)) ==> at < variants@.len(),
{
    match exp {
        Sexp::Symbol(head) => match find_variant(head.as_str(), name, variants) {
            Ok(i) => {
                let items: Vec<Sexp> = Vec::new();
                assert(trees(items@) =~= Seq::<Tree>::empty());
                Ok((i, items))
            },
            Err(e) => Err(e),
        },
        Sexp::List(v) => {
            assert(trees(v@).len() == v.len());
            if v.len() == 0 {
                return not_a_variant_fault(&Sexp::List(v), name);
            }
            assert(trees(v@)[0] == v@[0]@);
            match &v[0] {
                Sexp::Symbol(head) => match find_variant(head.as_str(), name, variants) {
                    Ok(i) => {
                        let mut v = v;
                        let ghost whole = v@;
                        v.remove(0);
                        assert(trees(v@) =~= trees(whole).subrange(1, whole.len() as int));
                        Ok((i, v))
                    },
                    Err(e) => Err(e),
                },
                other => fault_at("expecting a name, got ", other),
            }
        },
        other => not_a_variant_fault(&other, name),
    }
}

fn not_a_variant_fault<T>(exp: &Sexp, name: &str) -> (r: Result<T, DecodeError>)
    ensures
        fails(r, not_a_variant(exp@, name@)),
{
    let mut m = String::from_str("expecting a variant of ");
    m.append(name);
    m.append(", got ");
    m.append(exp.to_string().as_str());
    Err(DecodeError::new(m))
}

/// The payload of a variant that has none: no item may follow the name.
pub fn variant_unit(payload: &Vec<Sexp>, name: &str) -> (r: Result<(), DecodeError>)
    ensures
        payload@.len() == 0 ==> r is Ok,
        payload@.len() != 0 ==> fails(r, wrong_payload(name@)),
{
    if payload.len() == 0 {
        Ok(())
    } else {
        fault("wrong number of elements in variant ", name)
    }
}

/// The payload of a variant that wraps one value: the one item that
/// follows the name.
pub fn variant_newtype(payload: Vec<Sexp>, name: &str) -> (r: Result<Sexp, DecodeError>)
    ensures
        payload@.len() == 1 ==> r == Ok::<Sexp, DecodeError>(payload@[0]),
        payload@.len() != 1 ==> fails(r, wrong_payload(name@)),
{
    let mut payload = payload;
    if payload.len() == 1 {
        Ok(payload.pop().unwrap())
    } else {
        fault("wrong number of elements in variant ", name)
    }
}

/// The payload of a variant that holds `len` values: the items that
/// follow the name, which have to be as many.
pub fn variant_tuple(payload: Vec<Sexp>, name: &str, len: usize) -> (r: Result<
    Vec<Sexp>,
    DecodeError,
>)
    ensures
        payload@.len() == len ==> r == Ok::<Vec<Sexp>, DecodeError>(payload),
        payload@.len() != len ==> fails(r, wrong_payload(name@)),
{
    if payload.len() == len {
        Ok(payload)
    } else {
        fault("wrong number of elements in variant ", name)
    }
}

/// The payload of a variant with named fields: the items that follow the
/// name, read as the fields of a record.
pub fn variant_struct(payload: Vec<Sexp>, fields: &[&str]) -> (r: Result<
    Vec<Option<Sexp>>,
    DecodeError,
>)
    ensures
        is_fields(r, fields_read(trees(payload@), payload@.len(), names(fields@))),
{
    decode_fields(payload, fields)
}

} // verus!
