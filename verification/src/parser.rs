//! From text to a symbolic expression.
//!
//! The grammar:
//!
//! ```text
//! sexp          := space* ( list | quoted-string | bare-string )
//! list          := '(' ( space | sexp )* ')' space*
//! quoted-string := '"' char* '"'
//! bare-string   := one or more chars up to a space, '(', ')', CR, LF or '"'
//! ```
//!
//! White space is a space, a tab, a carriage return or a line feed, before
//! an expression as between the items of a list. In a quoted string a
//! backslash keeps the quote that follows it from
//! closing the string; both stay in the token.

use crate::error::{parse_error, ParseErrorView, SexpError};
use crate::sexp::{trees, Sexp, Tree};
use crate::text::{chars_of, push_char};
use vstd::prelude::*;

verus! {

/// Why a text is no symbolic expression.
pub ghost enum Fault {
    /// The text ended where a token or a `)` had to follow.
    EndOfFile,
    /// A `)` stands where an expression had to start.
    UnexpectedCloseParen,
}

/// What reading one expression gives: its tree and the place after it, or
/// a fault and its place.
pub ghost enum Parsed {
    Done { tree: Tree, next: int },
    Failed { at: int, fault: Fault },
}

/// The message of a fault.
pub open spec fn fault_message(fault: Fault) -> Seq<char> {
    match fault {
        Fault::EndOfFile => "End of file reached"@,
        Fault::UnexpectedCloseParen => "Unexpected )"@,
    }
}

/// The line of the place `pos` in `text`, counted from 1: one more than
/// the number of line feeds before it.
pub open spec fn line_of(text: Seq<char>, pos: int) -> nat
    decreases pos,
{
    if pos <= 0 {
        1
    } else if text[pos - 1] == '\n' {
        line_of(text, pos - 1) + 1
    } else {
        line_of(text, pos - 1)
    }
}

/// The column of the place `pos` in `text`, counted from 1: one more than
/// the number of characters between it and the start of its line.
pub open spec fn col_of(text: Seq<char>, pos: int) -> nat
    decreases pos,
{
    if pos <= 0 {
        1
    } else if text[pos - 1] == '\n' {
        1
    } else {
        col_of(text, pos - 1) + 1
    }
}

/// What a parse error says of a fault at the place `at`.
pub open spec fn fault_view(text: Seq<char>, at: int, fault: Fault) -> ParseErrorView {
    ParseErrorView { msg: fault_message(fault), line: line_of(text, at), col: col_of(text, at) }
}

/// White space: what may stand before an expression and between the items
/// of a list.
pub open spec fn is_list_space(c: char) -> bool {
    c == ' ' || c == '\t' || c == '\r' || c == '\n'
}

/// The characters that end a bare token.
pub open spec fn ends_bare(c: char) -> bool {
    c == ' ' || c == '(' || c == ')' || c == '\r' || c == '\n' || c == '"'
}

/// The first place from `pos` on that holds no white space.
pub open spec fn skip_spaces(text: Seq<char>, pos: int) -> int
    decreases text.len() - pos,
{
    if 0 <= pos < text.len() && is_list_space(text[pos]) {
        skip_spaces(text, pos + 1)
    } else {
        pos
    }
}

/// The end of the bare token that starts at `pos`.
pub open spec fn bare_end(text: Seq<char>, pos: int) -> int
    decreases text.len() - pos,
{
    if 0 <= pos < text.len() && !ends_bare(text[pos]) {
        bare_end(text, pos + 1)
    } else {
        pos
    }
}

/// The place of the quote that closes a quoted token whose inside goes on
/// at `pos`, or the end of the text if none does. `escaped` says whether
/// the character before `pos` was a backslash.
pub open spec fn quoted_end(text: Seq<char>, pos: int, escaped: bool) -> int
    decreases text.len() - pos,
{
    if 0 <= pos < text.len() && !(text[pos] == '"' && !escaped) {
        quoted_end(text, pos + 1, text[pos] == '\\')
    } else {
        pos
    }
}

/// Reads the quoted token whose opening quote stands before `pos`.
pub open spec fn parse_quoted(text: Seq<char>, pos: int) -> Parsed {
    let end = quoted_end(text, pos, false);
    if end < text.len() {
        Parsed::Done { tree: Tree::Sym(text.subrange(pos, end)), next: end + 1 }
    } else {
        Parsed::Failed { at: text.len() as int, fault: Fault::EndOfFile }
    }
}

/// Reads the bare token that starts at `pos`.
pub open spec fn parse_bare(text: Seq<char>, pos: int) -> Parsed {
    let end = bare_end(text, pos);
    Parsed::Done { tree: Tree::Sym(text.subrange(pos, end)), next: end }
}

/// Reads one expression from `pos` on.
pub open spec fn parse_at(text: Seq<char>, pos: int) -> Parsed
    decreases text.len() - pos, 0nat,
{
    let p = skip_spaces(text, pos);
    if !(0 <= pos <= p < text.len()) {
        Parsed::Failed { at: p, fault: Fault::EndOfFile }
    } else if text[p] == '(' {
        parse_items(text, p + 1, Seq::empty())
    } else if text[p] == '"' {
        parse_quoted(text, p + 1)
    } else if text[p] == ')' {
        Parsed::Failed { at: p, fault: Fault::UnexpectedCloseParen }
    } else {
        parse_bare(text, p)
    }
}

/// Reads the rest of a list from `pos` on; `items` are the items read so
/// far. An item that was read ends after the place where it starts, as
/// `lemma_parse_at_bounds` shows; the test for it is there for the
/// recursion to end, and its other branch is never taken.
pub open spec fn parse_items(text: Seq<char>, pos: int, items: Seq<Tree>) -> Parsed
    decreases text.len() - pos, 1nat,
{
    if !(0 <= pos < text.len()) {
        Parsed::Failed { at: pos, fault: Fault::EndOfFile }
    } else if text[pos] == ')' {
        Parsed::Done { tree: Tree::List(items), next: skip_spaces(text, pos + 1) }
    } else if is_list_space(text[pos]) {
        parse_items(text, pos + 1, items)
    } else {
        match parse_at(text, pos) {
            Parsed::Done { tree, next } => {
                if pos < next <= text.len() {
                    parse_items(text, next, items.push(tree))
                } else {
                    Parsed::Failed { at: pos, fault: Fault::EndOfFile }
                }
            },
            Parsed::Failed { at, fault } => Parsed::Failed { at, fault },
        }
    }
}

/// What reading a whole text gives. An empty text holds the empty
/// expression; otherwise the text holds the first expression that can be
/// read after the white space at its start, and what follows that
/// expression is not looked at. A text of nothing but white space is the
/// fault `EndOfFile`.
pub open spec fn parse_text(text: Seq<char>) -> Result<Tree, ParseErrorView> {
    if text.len() == 0 {
        Ok(Tree::Empty)
    } else {
        match parse_at(text, 0) {
            Parsed::Done { tree, next } => Ok(tree),
            Parsed::Failed { at, fault } => Err(fault_view(text, at, fault)),
        }
    }
}

/// Skipping white space moves forward, and not past the end.
pub proof fn lemma_skip_spaces_bounds(text: Seq<char>, pos: int)
    requires
        0 <= pos <= text.len(),
    ensures
        pos <= skip_spaces(text, pos) <= text.len(),
    decreases text.len() - pos,
{
    if pos < text.len() && is_list_space(text[pos]) {
        lemma_skip_spaces_bounds(text, pos + 1);
    }
}

/// A bare token ends at or after its start, and not past the end.
pub proof fn lemma_bare_end_bounds(text: Seq<char>, pos: int)
    requires
        0 <= pos <= text.len(),
    ensures
        pos <= bare_end(text, pos) <= text.len(),
    decreases text.len() - pos,
{
    if pos < text.len() && !ends_bare(text[pos]) {
        lemma_bare_end_bounds(text, pos + 1);
    }
}

/// A quoted token ends at or after the place its inside starts, and not
/// past the end.
pub proof fn lemma_quoted_end_bounds(text: Seq<char>, pos: int, escaped: bool)
    requires
        0 <= pos <= text.len(),
    ensures
        pos <= quoted_end(text, pos, escaped) <= text.len(),
    decreases text.len() - pos,
{
    if pos < text.len() && !(text[pos] == '"' && !escaped) {
        lemma_quoted_end_bounds(text, pos + 1, text[pos] == '\\');
    }
}

/// The line and the column of a place are at most one more than the place.
pub proof fn lemma_line_col_bounds(text: Seq<char>, pos: int)
    requires
        0 <= pos,
    ensures
        1 <= line_of(text, pos) <= pos + 1,
        1 <= col_of(text, pos) <= pos + 1,
    decreases pos,
{
    if pos > 0 {
        lemma_line_col_bounds(text, pos - 1);
    }
}

/// An expression that was read ends after the place where reading began,
/// and not past the end of the text.
pub proof fn lemma_parse_at_bounds(text: Seq<char>, pos: int)
    requires
        0 <= pos < text.len(),
        !is_list_space(text[pos]),
    ensures
        parse_at(text, pos) matches Parsed::Done { tree, next } ==> pos < next <= text.len(),
    decreases text.len() - pos, 0nat,
{
    let p = skip_spaces(text, pos);
    if p < text.len() {
        if text[p] == '(' {
            lemma_parse_items_bounds(text, p + 1, Seq::empty());
        } else if text[p] == '"' {
            lemma_quoted_end_bounds(text, p + 1, false);
        } else if text[p] != ')' {
            lemma_bare_end_bounds(text, p + 1);
        }
    }
}

/// A list that was read ends after the place where reading went on, and
/// not past the end of the text.
pub proof fn lemma_parse_items_bounds(text: Seq<char>, pos: int, items: Seq<Tree>)
    requires
        0 <= pos <= text.len(),
    ensures
        parse_items(text, pos, items) matches Parsed::Done { tree, next } ==> pos < next
            <= text.len(),
    decreases text.len() - pos, 1nat,
{
    if pos < text.len() {
        if text[pos] == ')' {
            lemma_skip_spaces_bounds(text, pos + 1);
        } else if is_list_space(text[pos]) {
            lemma_parse_items_bounds(text, pos + 1, items);
        } else {
            lemma_parse_at_bounds(text, pos);
            match parse_at(text, pos) {
                Parsed::Done { tree, next } => {
                    lemma_parse_items_bounds(text, next, items.push(tree));
                },
                _ => {},
            }
        }
    }
}

/// The state of a parser: the text, and how far it has been read.
struct Parser {
    data: Vec<char>,
    position: usize,
    line: usize,
    line_position: usize,
}

impl Parser {
    /// The place is inside the text or at its end, and line and column are
    /// those of the place.
    spec fn wf(&self) -> bool {
        &&& self.position <= self.data.len()
        &&& self.data.len() < usize::MAX
        &&& self.line + 1 == line_of(self.data@, self.position as int)
        &&& self.line_position + 1 == col_of(self.data@, self.position as int)
    }

    /// What an error reports at the place the parser is at, for this fault.
    spec fn here(&self, fault: Fault) -> ParseErrorView {
        fault_view(self.data@, self.position as int, fault)
    }

    /// The same text, read up to `pos`.
    spec fn moved_to(&self, from: &Parser, pos: int) -> bool {
        &&& self.wf()
        &&& self.data@ == from.data@
        &&& self.position == pos
    }

    fn parse_error<T>(&self, msg: &str) -> (r: Result<T, SexpError>)
        requires
            self.wf(),
        ensures
            r matches Err(SexpError::Parse(pe)) && pe@ == (ParseErrorView {
                msg: msg@,
                line: line_of(self.data@, self.position as int),
                col: col_of(self.data@, self.position as int),
            }),
    {
        proof {
            lemma_line_col_bounds(self.data@, self.position as int);
        }
        parse_error(self.line + 1, self.line_position + 1, String::from_str(msg))
    }

    fn eof(&self) -> (b: bool)
        ensures
            b == (self.position >= self.data.len()),
    {
        self.position >= self.data.len()
    }

    fn fail_on_eof(&self) -> (r: Result<(), SexpError>)
        requires
            self.wf(),
        ensures
            self.position < self.data.len() ==> r is Ok,
            self.position >= self.data.len() ==> (r matches Err(SexpError::Parse(pe)) && pe@
                == self.here(Fault::EndOfFile)),
    {
        if self.eof() {
            return self.parse_error("End of file reached");
        }
        Ok(())
    }

    fn peek(&self) -> (r: Result<char, SexpError>)
        requires
            self.wf(),
        ensures
            self.position < self.data.len() ==> r == Ok::<char, SexpError>(
                self.data@[self.position as int],
            ),
            self.position >= self.data.len() ==> (r matches Err(SexpError::Parse(pe)) && pe@
                == self.here(Fault::EndOfFile)),
    {
        match self.fail_on_eof() {
            Ok(_) => Ok(self.data[self.position]),
            Err(e) => Err(e),
        }
    }

    fn inc(&mut self)
        requires
            old(self).wf(),
            old(self).position < old(self).data.len(),
        ensures
            final(self).moved_to(old(self), old(self).position + 1),
    {
        proof {
            lemma_line_col_bounds(self.data@, self.position as int);
        }
        let c = self.data[self.position];
        self.position += 1;
        self.line_position += 1;
        if c == '\n' {
            self.line += 1;
            self.line_position = 0;
        }
    }

    fn get(&mut self) -> (r: Result<char, SexpError>)
        requires
            old(self).wf(),
        ensures
            old(self).position < old(self).data.len() ==> r == Ok::<char, SexpError>(
                old(self).data@[old(self).position as int],
            ) && final(self).moved_to(old(self), old(self).position + 1),
            old(self).position >= old(self).data.len() ==> (r matches Err(SexpError::Parse(pe))
                && pe@ == old(self).here(Fault::EndOfFile)) && *final(self) == *old(self),
    {
        match self.fail_on_eof() {
            Ok(_) => {
                let c = self.data[self.position];
                self.inc();
                Ok(c)
            },
            Err(e) => Err(e),
        }
    }

    fn eat_space(&mut self)
        requires
            old(self).wf(),
        ensures
            final(self).moved_to(
                old(self),
                skip_spaces(old(self).data@, old(self).position as int),
            ),
    {
        while !self.eof()
            invariant
                self.wf(),
                self.data@ == old(self).data@,
                old(self).position <= self.position,
                skip_spaces(old(self).data@, old(self).position as int) == skip_spaces(
                    self.data@,
                    self.position as int,
                ),
            ensures
                self.position == skip_spaces(old(self).data@, old(self).position as int),
            decreases self.data.len() - self.position,
        {
            let c = self.data[self.position];
            if c == ' ' || c == '\t' || c == '\r' || c == '\n' {
                self.inc();
                continue ;
            }
            break ;
        }
    }

    fn eat_char(&mut self, c: char) -> (r: Result<(), SexpError>)
        requires
            old(self).wf(),
        ensures
            old(self).position < old(self).data.len() && old(self).data@[old(
                self,
            ).position as int] == c ==> r is Ok && final(self).moved_to(
                old(self),
                old(self).position + 1,
            ),
            old(self).position >= old(self).data.len() ==> (r matches Err(SexpError::Parse(pe))
                && pe@ == old(self).here(Fault::EndOfFile)) && *final(self) == *old(self),
            old(self).position < old(self).data.len() && old(self).data@[old(
                self,
            ).position as int] != c ==> (r matches Err(SexpError::Parse(pe)) && pe@
                == mismatch_view(old(self).data@, old(self).position + 1, c))
                && final(self).moved_to(old(self), old(self).position + 1),
    {
        match self.get() {
            Ok(c2) => {
                if c != c2 {
                    let mut msg = String::from_str("expected ");
                    push_char(&mut msg, c);
                    msg.append(" got ");
                    push_char(&mut msg, c2);
                    self.parse_error(msg.as_str())
                } else {
                    Ok(())
                }
            },
            Err(e) => Err(e),
        }
    }
}

/// What an error reports where the character `want` was asked for and the
/// character before `next` was found in its place.
pub open spec fn mismatch_view(text: Seq<char>, next: int, want: char) -> ParseErrorView {
    ParseErrorView {
        msg: ("expected "@.push(want) + " got "@).push(text[next - 1]),
        line: line_of(text, next),
        col: col_of(text, next),
    }
}

/// Whether the outcome `r` of an executable parser, which stopped at
/// `parser`, is what `parsed` says.
spec fn agrees(parsed: Parsed, from: &Parser, r: Result<Sexp, SexpError>, parser: &Parser) -> bool {
    match parsed {
        Parsed::Done { tree, next } => r matches Ok(e) && e@ == tree && parser.moved_to(from, next),
        Parsed::Failed { at, fault } => r matches Err(SexpError::Parse(pe)) && pe@ == fault_view(
            from.data@,
            at,
            fault,
        ) && parser.moved_to(from, at),
    }
}

fn parse_bare_string(parser: &mut Parser) -> (r: Result<Sexp, SexpError>)
    requires
        old(parser).wf(),
    ensures
        agrees(
            parse_bare(old(parser).data@, old(parser).position as int),
            old(parser),
            r,
            final(parser),
        ),
{
    let mut s = String::new();
    let ghost start = parser.position as int;
    let ghost text = parser.data@;
    assert(text.subrange(start, start) =~= Seq::<char>::empty());
    while !parser.eof()
        invariant
            parser.moved_to(old(parser), parser.position as int),
            text == parser.data@,
            start == old(parser).position,
            start <= parser.position,
            s@ == text.subrange(start, parser.position as int),
            bare_end(text, start) == bare_end(text, parser.position as int),
        ensures
            parser.position == bare_end(text, start),
        decreases parser.data.len() - parser.position,
    {
        let c = match parser.peek() {
            Ok(c) => c,
            Err(e) => {
                return Err(e);
            },
        };
        if c == ' ' || c == '(' || c == ')' || c == '\r' || c == '\n' || c == '"' {
            break ;
        }
        push_char(&mut s, c);
        assert(text.subrange(start, parser.position + 1) =~= text.subrange(
            start,
            parser.position as int,
        ).push(c));
        parser.inc()
    }
    Ok(Sexp::Symbol(s))
}

fn parse_quoted_string(parser: &mut Parser) -> (r: Result<Sexp, SexpError>)
    requires
        old(parser).wf(),
        old(parser).position < old(parser).data.len(),
        old(parser).data@[old(parser).position as int] == '"',
    ensures
        agrees(
            parse_quoted(old(parser).data@, old(parser).position + 1),
            old(parser),
            r,
            final(parser),
        ),
{
    let mut s = String::new();
    let ghost text = parser.data@;
    let ghost start = parser.position + 1;
    match parser.eat_char('"') {
        Ok(_) => {},
        Err(e) => {
            return Err(e);
        },
    }
    let mut escape = false;
    assert(text.subrange(start, start) =~= Seq::<char>::empty());
    while !parser.eof()
        invariant
            parser.moved_to(old(parser), parser.position as int),
            text == parser.data@,
            start == old(parser).position + 1,
            start <= parser.position,
            s@ == text.subrange(start, parser.position as int),
            quoted_end(text, start, false) == quoted_end(text, parser.position as int, escape),
        ensures
            parser.position == quoted_end(text, start, false),
            parser.position < parser.data.len() ==> parser.data@[parser.position as int] == '"',
        decreases parser.data.len() - parser.position,
    {
        let c = match parser.peek() {
            Ok(c) => c,
            Err(e) => {
                return Err(e);
            },
        };
        if c == '\\' {
            escape = true;
        } else if c == '"' {
            if !escape {
                break ;
            } else {
                escape = false;
            }
        } else {
            escape = false;
        }
        push_char(&mut s, c);
        assert(text.subrange(start, parser.position + 1) =~= text.subrange(
            start,
            parser.position as int,
        ).push(c));
        parser.inc()
    }
    match parser.eat_char('"') {
        Ok(_) => Ok(Sexp::Symbol(s)),
        Err(e) => Err(e),
    }
}

fn parse_list(parser: &mut Parser) -> (r: Result<Sexp, SexpError>)
    requires
        old(parser).wf(),
        old(parser).position < old(parser).data.len(),
        old(parser).data@[old(parser).position as int] == '(',
    ensures
        agrees(
            parse_items(old(parser).data@, old(parser).position + 1, Seq::empty()),
            old(parser),
            r,
            final(parser),
        ),
    decreases old(parser).data.len() - old(parser).position, 0nat,
{
    let ghost text = parser.data@;
    let ghost start = parser.position + 1;
    match parser.eat_char('(') {
        Ok(_) => {},
        Err(e) => {
            return Err(e);
        },
    }
    let mut v: Vec<Sexp> = Vec::new();
    assert(trees(v@) =~= Seq::<Tree>::empty());
    while !parser.eof()
        invariant
            parser.moved_to(old(parser), parser.position as int),
            text == parser.data@,
            start == old(parser).position + 1,
            start <= parser.position,
            parse_items(text, start, Seq::empty()) == parse_items(
                text,
                parser.position as int,
                trees(v@),
            ),
        ensures
            parser.position < parser.data.len() ==> parser.data@[parser.position as int] == ')',
        decreases parser.data.len() - parser.position,
    {
        let c = match parser.peek() {
            Ok(c) => c,
            Err(e) => {
                return Err(e);
            },
        };
        if c == ')' {
            break ;
        } else if c == ' ' || c == '\t' || c == '\r' || c == '\n' {
            parser.inc()
        } else {
            let ghost before = parser.position as int;
            proof {
                lemma_parse_at_bounds(text, before);
            }
            let s = match parse(parser) {
                Ok(s) => s,
                Err(e) => {
                    return Err(e);
                },
            };
            let ghost items = trees(v@);
            v.push(s);
            assert(trees(v@) =~= items.push(v@.last()@));
        }
    }
    match parser.eat_char(')') {
        Ok(_) => {},
        Err(e) => {
            return Err(e);
        },
    }
    parser.eat_space();
    Ok(Sexp::List(v))
}

fn parse(parser: &mut Parser) -> (r: Result<Sexp, SexpError>)
    requires
        old(parser).wf(),
    ensures
        agrees(
            parse_at(old(parser).data@, old(parser).position as int),
            old(parser),
            r,
            final(parser),
        ),
    decreases old(parser).data.len() - old(parser).position, 1nat,
{
    proof {
        lemma_skip_spaces_bounds(parser.data@, parser.position as int);
    }
    parser.eat_space();
    let c = match parser.peek() {
        Ok(c) => c,
        Err(e) => {
            return Err(e);
        },
    };
    if c == '(' {
        parse_list(parser)
    } else if c == '"' {
        parse_quoted_string(parser)
    } else if c == ')' {
        parser.parse_error("Unexpected )")
    } else {
        parse_bare_string(parser)
    }
}

/// Reads a text as a symbolic expression.
///
/// An empty text gives `Empty`. Any other text gives the first expression
/// that it holds, every token of it as a `Symbol`, and what follows that
/// expression is not read. Where the text ends inside a list or a quoted
/// token, or holds nothing but white space, the error says
/// `End of file reached`;
/// where a `)` stands in place of an expression, it says `Unexpected )`.
/// Either error carries the line and the column of the fault.
pub fn parse_str(sexp: &str) -> (r: Result<Sexp, SexpError>)
    ensures
        match parse_text(sexp@) {
            Ok(tree) => r matches Ok(e) && e@ == tree,
            Err(fault) => r matches Err(SexpError::Parse(pe)) && pe@ == fault,
        },
{
    if sexp.is_empty() {
        return Ok(Sexp::default());
    }
    let mut data = chars_of(sexp);
    // A vector never holds `usize::MAX` items: that this one takes one
    // more shows that every place in the text can be counted.
    let ghost text = data@;
    data.push(' ');
    assert(data.len() == text.len() + 1);
    data.pop();
    assert(data@ =~= sexp@);
    let mut parser = Parser { data: data, position: 0, line: 0, line_position: 0 };
    parse(&mut parser)
}

} // verus!
