//! From a symbolic expression to text.

use crate::error::SexpError;
use crate::formatter::{
    break_depth, head_of, indentation, CompactFormatter, Formatter, Rules, RulesFormatter,
};
use crate::sexp::{lemma_item_smaller, trees, Sexp, Tree};
use crate::text::{encode_string, encoded, push_char, quoted};
use vstd::prelude::*;

verus! {

/// An expression as the layout `f` writes it. A `Symbol` is quoted where
/// it has to be, a `String` always, and `Empty` is written as nothing.
pub open spec fn rendered<F: Formatter>(f: F, t: Tree) -> Seq<char>
    decreases t,
{
    match t {
        Tree::Str(s) => quoted(s),
        Tree::Sym(s) => encoded(s),
        Tree::List(l) => rendered_items(f, l, l.len()) + f.close_text(),
        Tree::Empty => Seq::empty(),
    }
}

/// The opening of the list `l` and its first `n` items, as the layout `f`
/// writes them.
pub open spec fn rendered_items<F: Formatter>(f: F, l: Seq<Tree>, n: nat) -> Seq<char>
    decreases l, n,
{
    if n == 0 || n > l.len() {
        f.open_text(None)
    } else if n == 1 {
        f.open_text(Some(l[0])) + rendered(f, l[0])
    } else {
        rendered_items(f, l, (n - 1) as nat) + f.element_text(l[n - 1]) + rendered(f, l[n - 1])
    }
}

/// An expression on one line.
pub open spec fn compact(t: Tree) -> Seq<char> {
    rendered(CompactFormatter, t)
}

/// What the layout by rules writes where a list with this first item
/// opens: a line feed and two spaces for each step of the depth that the
/// table holds for the item, then `(`; or `(` alone.
pub open spec fn rules_open(table: Map<Seq<char>, i64>, head: Option<Tree>) -> Seq<char> {
    match break_depth(table, head) {
        Some(depth) => seq!['\n'] + indentation(seq![' ', ' '], depth as int) + seq!['('],
        None => seq!['('],
    }
}

/// What the layout by rules writes before an item that is not the first:
/// nothing before a list that starts a line of its own, and a space before
/// anything else.
pub open spec fn rules_separator(table: Map<Seq<char>, i64>, value: Tree) -> Seq<char> {
    if break_depth(table, head_of(value)) is Some {
        Seq::empty()
    } else {
        seq![' ']
    }
}

/// An expression in the layout by rules.
pub open spec fn rules_text(table: Map<Seq<char>, i64>, t: Tree) -> Seq<char>
    decreases t,
{
    match t {
        Tree::Str(s) => quoted(s),
        Tree::Sym(s) => encoded(s),
        Tree::List(l) => rules_items(table, l, l.len()) + seq![')'],
        Tree::Empty => Seq::empty(),
    }
}

/// The opening of the list `l` and its first `n` items in the layout by
/// rules.
pub open spec fn rules_items(table: Map<Seq<char>, i64>, l: Seq<Tree>, n: nat) -> Seq<char>
    decreases l, n,
{
    if n == 0 || n > l.len() {
        seq!['(']
    } else if n == 1 {
        rules_open(table, Some(l[0])) + rules_text(table, l[0])
    } else {
        rules_items(table, l, (n - 1) as nat) + rules_separator(table, l[n - 1]) + rules_text(
            table,
            l[n - 1],
        )
    }
}

/// A layout by rules that indents by two spaces writes an expression as
/// `rules_text` says.
pub proof fn lemma_rules_rendered(f: RulesFormatter, t: Tree)
    requires
        f.indent() == seq![' ', ' '],
    ensures
        rendered(f, t) == rules_text(f.table(), t),
    decreases t,
{
    match t {
        Tree::List(l) => {
            lemma_rules_rendered_items(f, l, l.len());
        },
        _ => {},
    }
}

/// A layout by rules that indents by two spaces writes the start of a list
/// as `rules_items` says.
pub proof fn lemma_rules_rendered_items(f: RulesFormatter, l: Seq<Tree>, n: nat)
    requires
        f.indent() == seq![' ', ' '],
    ensures
        rendered_items(f, l, n) == rules_items(f.table(), l, n),
    decreases l, n,
{
    if n == 1 && n <= l.len() {
        lemma_rules_rendered(f, l[0]);
    } else if 1 < n <= l.len() {
        lemma_rules_rendered_items(f, l, (n - 1) as nat);
        lemma_rules_rendered(f, l[n - 1]);
    }
}

/// A text under construction, and the layout that it is written in.
pub struct Serializer<F: Formatter> {
    writer: String,
    formatter: F,
}

impl Serializer<CompactFormatter> {
    /// A serializer that goes on after `writer`, in the compact layout.
    pub fn new(writer: String) -> (ser: Self)
        ensures
            ser.text() == writer@,
            ser.layout() == CompactFormatter,
    {
        Serializer::with_formatter(writer, CompactFormatter)
    }
}

impl Serializer<RulesFormatter> {
    /// A serializer that goes on after `writer`, in the layout by `rules`.
    pub fn new_rules(writer: String, rules: Rules) -> (ser: Self)
        ensures
            ser.text() == writer@,
            ser.layout().indent() == seq![' ', ' '],
            ser.layout().table() == rules@,
    {
        Serializer::with_formatter(writer, RulesFormatter::new(rules))
    }
}

impl<F: Formatter> Serializer<F> {
    /// What has been written so far.
    pub closed spec fn text(&self) -> Seq<char> {
        self.writer@
    }

    /// The layout.
    pub closed spec fn layout(&self) -> F {
        self.formatter
    }

    /// A serializer that goes on after `writer`, in the given layout.
    pub fn with_formatter(writer: String, formatter: F) -> (ser: Self)
        ensures
            ser.text() == writer@,
            ser.layout() == formatter,
    {
        Serializer { writer: writer, formatter: formatter }
    }

    /// The text that was written.
    pub fn into_inner(self) -> (s: String)
        ensures
            s@ == self.text(),
    {
        self.writer
    }

    /// Writes one token, quoted where it has to be.
    pub fn serialize_str(&mut self, value: &str) -> (r: Result<(), SexpError>)
        ensures
            r is Ok,
            final(self).layout() == old(self).layout(),
            final(self).text() == old(self).text() + encoded(value@),
    {
        let token = encode_string(value);
        self.writer.append(token.as_str());
        Ok(())
    }

    /// Writes one expression.
    pub fn serialize(&mut self, value: &Sexp) -> (r: Result<(), SexpError>)
        ensures
            r is Ok,
            final(self).layout() == old(self).layout(),
            final(self).text() == old(self).text() + rendered(old(self).layout(), value@),
        decreases value,
    {
        match value {
            Sexp::String(s) => {
                push_char(&mut self.writer, '"');
                self.writer.append(s.as_str());
                push_char(&mut self.writer, '"');
                assert(self.writer@ =~= old(self).writer@ + quoted(s@));
                Ok(())
            },
            Sexp::Symbol(s) => self.serialize_str(s.as_str()),
            Sexp::List(list) => {
                let ghost l = trees(list@);
                let ghost f = self.formatter;
                if list.len() == 0 {
                    match self.formatter.open(&mut self.writer, None) {
                        Ok(_) => {},
                        Err(e) => {
                            return Err(e);
                        },
                    }
                } else {
                    let mut i: usize = 0;
                    while i < list.len()
                        invariant
                            i <= list.len(),
                            0 < list.len(),
                            *value == Sexp::List(*list),
                            l == trees(list@),
                            self.formatter == f,
                            f == old(self).formatter,
                            i == 0 ==> self.writer@ == old(self).writer@,
                            i > 0 ==> self.writer@ == old(self).writer@ + rendered_items(
                                f,
                                l,
                                i as nat,
                            ),
                        decreases list.len() - i,
                    {
                        let v = &list[i];
                        proof {
                            lemma_item_smaller(value, i as int);
                            assert(l[i as int] == v@);
                        }
                        let written = if i == 0 {
                            self.formatter.open(&mut self.writer, Some(v))
                        } else {
                            self.formatter.element(&mut self.writer, v)
                        };
                        match written {
                            Ok(_) => {},
                            Err(e) => {
                                return Err(e);
                            },
                        }
                        match self.serialize(v) {
                            Ok(_) => {},
                            Err(e) => {
                                return Err(e);
                            },
                        }
                        assert(self.writer@ =~= old(self).writer@ + rendered_items(
                            f,
                            l,
                            (i + 1) as nat,
                        ));
                        i = i + 1;
                    }
                }
                self.formatter.close(&mut self.writer)
            },
            Sexp::Empty => Ok(()),
        }
    }
}

/// The expression as text, on one line.
pub fn to_string(value: &Sexp) -> (r: Result<String, SexpError>)
    ensures
        r matches Ok(s) && s@ == compact(value@),
{
    to_string_with_formatter(value, CompactFormatter)
}

/// The expression as text, in the layout by `rules`: a list whose first
/// item is a `Symbol` of the table starts on a new line, after twice as
/// many spaces as the table says.
pub fn to_string_with_rules(value: &Sexp, rules: Rules) -> (r: Result<String, SexpError>)
    ensures
        r matches Ok(s) && s@ == rules_text(rules@, value@),
{
    let mut ser = Serializer::new_rules(String::new(), rules);
    let ghost f = ser.formatter;
    proof {
        lemma_rules_rendered(f, value@);
    }
    match ser.serialize(value) {
        Ok(_) => Ok(ser.writer),
        Err(e) => Err(e),
    }
}

/// The expression as text, in the given layout.
pub fn to_string_with_formatter<F: Formatter>(value: &Sexp, formatter: F) -> (r: Result<
    String,
    SexpError,
>)
    ensures
        r matches Ok(s) && s@ == rendered(formatter, value@),
{
    let mut ser = Serializer::with_formatter(String::new(), formatter);
    match ser.serialize(value) {
        Ok(_) => Ok(ser.writer),
        Err(e) => Err(e),
    }
}

/// The expression as UTF-8 bytes, on one line.
pub fn to_vec(value: &Sexp) -> (r: Result<Vec<u8>, SexpError>)
    ensures
        r matches Ok(v) && v@ == vstd::utf8::encode_utf8(compact(value@)),
{
    match to_string(value) {
        Ok(s) => Ok(s.as_str().as_bytes_vec()),
        Err(e) => Err(e),
    }
}

/// The expression as UTF-8 bytes, in the layout by `rules`.
pub fn to_vec_with_rules(value: &Sexp, rules: Rules) -> (r: Result<Vec<u8>, SexpError>)
    ensures
        r matches Ok(v) && v@ == vstd::utf8::encode_utf8(rules_text(rules@, value@)),
{
    match to_string_with_rules(value, rules) {
        Ok(s) => Ok(s.as_str().as_bytes_vec()),
        Err(e) => Err(e),
    }
}

/// The expression as UTF-8 bytes, in the given layout.
pub fn to_vec_with_formatter<F: Formatter>(value: &Sexp, formatter: F) -> (r: Result<
    Vec<u8>,
    SexpError,
>)
    ensures
        r matches Ok(v) && v@ == vstd::utf8::encode_utf8(rendered(formatter, value@)),
{
    match to_string_with_formatter(value, formatter) {
        Ok(s) => Ok(s.as_str().as_bytes_vec()),
        Err(e) => Err(e),
    }
}

} // verus!
