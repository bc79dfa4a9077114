//! Reading back what was written: a layout that adds nothing but
//! separators between the items of a list is read back as the expression
//! that was written, and a text in canonical form is written back as it
//! was read.

use crate::error::ParseErrorView;
use crate::formatter::{break_depth, indentation, CompactFormatter, Formatter};
use crate::pretty::{
    inline_budget, item_level, pretty_items, pretty_text, separator, spacing,
};
use crate::parser::{
    bare_end, ends_bare, is_list_space, parse_at, parse_items,
    parse_text, quoted_end, skip_spaces, Parsed,
};
use crate::ser::{
    compact, rendered, rendered_items, rules_items, rules_open, rules_separator, rules_text,
};
use crate::sexp::Tree;
use crate::text::{encoded, needs_quotes, quoted};
use vstd::prelude::*;

verus! {

/// A token that can stand between quotes: each quote in it follows a
/// backslash, and it does not end in a backslash.
pub open spec fn quotable(s: Seq<char>) -> bool {
    &&& forall|i: int| 0 <= i < s.len() && #[trigger] s[i] == '"' ==> i > 0 && s[i - 1] == '\\'
    &&& s.len() > 0 ==> s.last() != '\\'
}

/// A token that is read back as it is when it is written bare: it holds
/// no character that ends a bare token.
pub open spec fn bare_safe(s: Seq<char>) -> bool {
    forall|i: int| 0 <= i < s.len() ==> !ends_bare(#[trigger] s[i])
}

/// A `Symbol` that is read back as it is: quotable where it is written
/// quoted, safe where it is written bare.
pub open spec fn token_reads_back(s: Seq<char>) -> bool {
    if needs_quotes(s) {
        quotable(s)
    } else {
        bare_safe(s)
    }
}

/// An expression whose text can be read back: its tokens can, and `Empty`
/// stands nowhere in it.
pub open spec fn readable(t: Tree) -> bool
    decreases t,
{
    match t {
        Tree::Str(s) => quotable(s),
        Tree::Sym(s) => token_reads_back(s),
        Tree::List(l) => forall|i: int| 0 <= i < l.len() ==> readable(#[trigger] l[i]),
        Tree::Empty => false,
    }
}

/// Each item of a readable list is readable.
proof fn lemma_item_readable(l: Seq<Tree>, i: int)
    requires
        readable(Tree::List(l)),
        0 <= i < l.len(),
    ensures
        readable(l[i]),
{
    let t = Tree::List(l);
    assert(t->List_0 == l);
    assert(readable(t) == (forall|j: int| 0 <= j < l.len() ==> readable(#[trigger] l[j])));
}

/// The expression that a parser gives for the text of `t`: `t` with each
/// `String` turned into a `Symbol`.
pub open spec fn as_read(t: Tree) -> Tree
    decreases t,
{
    match t {
        Tree::Str(s) => Tree::Sym(s),
        Tree::Sym(s) => Tree::Sym(s),
        Tree::List(l) => Tree::List(as_read_items(l, l.len())),
        Tree::Empty => Tree::Empty,
    }
}

/// The first `n` items of `l`, each as a parser gives it.
pub open spec fn as_read_items(l: Seq<Tree>, n: nat) -> Seq<Tree>
    decreases l, n,
{
    if n == 0 || n > l.len() {
        Seq::empty()
    } else {
        as_read_items(l, (n - 1) as nat).push(as_read(l[n - 1]))
    }
}

/// An expression as a parser gives it: no `String` in it, and `Empty`
/// nowhere but at the top.
pub open spec fn parsed_form(t: Tree) -> bool {
    t is Empty || (readable(t) && as_read(t) == t)
}

/// A text in canonical form: the compact text of an expression as a parser
/// gives it. Its tokens are quoted exactly where they have to be, one
/// space stands between two items of a list, and nothing else is in it.
pub open spec fn is_canonical(text: Seq<char>) -> bool {
    exists|t: Tree| parsed_form(t) && text == #[trigger] compact(t)
}

/// A layout: what is written where a list with a given first item opens,
/// before an item that is not the first, and where a list closes.
pub ghost struct Layout {
    pub open: spec_fn(Option<Tree>) -> Seq<char>,
    pub element: spec_fn(Tree) -> Seq<char>,
    pub close: Seq<char>,
}

/// An expression in a layout.
pub open spec fn laid_out(y: Layout, t: Tree) -> Seq<char>
    decreases t,
{
    match t {
        Tree::Str(s) => quoted(s),
        Tree::Sym(s) => encoded(s),
        Tree::List(l) => laid_items(y, l, l.len()) + y.close,
        Tree::Empty => Seq::empty(),
    }
}

/// The opening of the list `l` and its first `n` items in a layout.
pub open spec fn laid_items(y: Layout, l: Seq<Tree>, n: nat) -> Seq<char>
    decreases l, n,
{
    if n == 0 || n > l.len() {
        (y.open)(None)
    } else if n == 1 {
        (y.open)(Some(l[0])) + laid_out(y, l[0])
    } else {
        laid_items(y, l, (n - 1) as nat) + (y.element)(l[n - 1]) + laid_out(y, l[n - 1])
    }
}

/// The layout of a formatter.
pub open spec fn layout_of<F: Formatter>(f: F) -> Layout {
    Layout {
        open: |head: Option<Tree>| f.open_text(head),
        element: |value: Tree| f.element_text(value),
        close: f.close_text(),
    }
}

/// The layout by the rules of a table.
pub open spec fn rules_layout(table: Map<Seq<char>, i64>) -> Layout {
    Layout {
        open: |head: Option<Tree>| rules_open(table, head),
        element: |value: Tree| rules_separator(table, value),
        close: seq![')'],
    }
}

/// A character that separates items and ends a bare token: a space, a
/// carriage return or a line feed.
pub open spec fn is_separator(c: char) -> bool {
    c == ' ' || c == '\r' || c == '\n'
}

/// A text of separators.
pub open spec fn separators(s: Seq<char>) -> bool {
    forall|i: int| 0 <= i < s.len() ==> is_separator(#[trigger] s[i])
}

/// A layout that adds nothing but separators: a list opens with
/// separators and `(`, closes with `)`, and before an item that is not
/// the first stand separators, at least one of them before a token.
pub open spec fn only_separates(y: Layout) -> bool {
    &&& y.close == seq![')']
    &&& forall|head: Option<Tree>|
        (#[trigger] (y.open)(head)).len() > 0 && (y.open)(head).last() == '(' && separators(
            (y.open)(head).drop_last(),
        )
    &&& forall|value: Tree|
        separators(#[trigger] (y.element)(value)) && (!(value is List) ==> (y.element)(
            value,
        ).len() > 0)
}

/// The separators of a text: nothing for a token, and for a list what
/// stands before each of its items, with the separators of the item.
pub ghost enum Spaces {
    Token,
    List(Seq<(Seq<char>, Spaces)>),
}

/// What stands before the item `i` of a list.
pub open spec fn gap(g: Spaces, i: int) -> Seq<char> {
    g->List_0[i].0
}

/// The separators of the item `i` of a list.
pub open spec fn within(g: Spaces, i: int) -> Spaces {
    g->List_0[i].1
}

/// Separators that fit an expression: each list has them for each of its
/// items, and at least one before a token that is not the first item.
pub open spec fn well_spaced(g: Spaces, t: Tree) -> bool
    decreases t,
{
    match t {
        Tree::List(l) => g is List && g->List_0.len() == l.len() && (forall|i: int|
            0 <= i < l.len() ==> separators(#[trigger] gap(g, i)) && (i > 0 && !(l[i] is List)
                ==> gap(g, i).len() > 0) && well_spaced(within(g, i), l[i])),
        _ => true,
    }
}

/// An expression with the given separators, from its first character that
/// is no separator on.
pub open spec fn kernel(g: Spaces, t: Tree) -> Seq<char>
    decreases t, 0nat,
{
    match t {
        Tree::Str(s) => quoted(s),
        Tree::Sym(s) => encoded(s),
        Tree::List(l) => seq!['('] + inner(g, l, l.len()) + seq![')'],
        Tree::Empty => Seq::empty(),
    }
}

/// The first `k` items of a list, with what stands before each.
pub open spec fn inner(g: Spaces, l: Seq<Tree>, k: nat) -> Seq<char>
    decreases l, k,
{
    if k == 0 || k > l.len() {
        Seq::empty()
    } else {
        inner(g, l, (k - 1) as nat) + gap(g, k - 1) + kernel(within(g, k - 1), l[k - 1])
    }
}

proof fn lemma_quoted_scan(text: Seq<char>, start: int, s: Seq<char>, pos: int)
    requires
        quotable(s),
        0 <= start,
        start + s.len() < text.len(),
        text.subrange(start, start + s.len()) == s,
        text[start + s.len()] == '"',
        start <= pos <= start + s.len(),
    ensures
        quoted_end(text, pos, pos > start && text[pos - 1] == '\\') == start + s.len(),
    decreases start + s.len() - pos,
{
    if pos < start + s.len() {
        assert(text[pos] == s[pos - start]);
        if pos > start {
            assert(text[pos - 1] == s[pos - 1 - start]);
        }
        lemma_quoted_scan(text, start, s, pos + 1);
    } else if s.len() > 0 {
        assert(text[pos - 1] == s[pos - 1 - start]);
    }
}

proof fn lemma_bare_scan(text: Seq<char>, start: int, s: Seq<char>, pos: int)
    requires
        bare_safe(s),
        0 <= start,
        start + s.len() <= text.len(),
        text.subrange(start, start + s.len()) == s,
        start + s.len() == text.len() || ends_bare(text[start + s.len()]),
        start <= pos <= start + s.len(),
    ensures
        bare_end(text, pos) == start + s.len(),
    decreases start + s.len() - pos,
{
    if pos < start + s.len() {
        assert(text[pos] == s[pos - start]);
        lemma_bare_scan(text, start, s, pos + 1);
    }
}

/// Skipping white space does not go past a character that is none.
proof fn lemma_skip_spaces_stops(text: Seq<char>, pos: int, stop: int)
    requires
        0 <= pos <= stop < text.len(),
        !is_list_space(text[stop]),
    ensures
        pos <= skip_spaces(text, pos) <= stop,
    decreases stop - pos,
{
    if pos < stop && is_list_space(text[pos]) {
        lemma_skip_spaces_stops(text, pos + 1, stop);
    }
}

/// The kernel of a readable expression is not empty, and its first
/// character starts an expression: it is no space and no `)`; it is `(`
/// exactly for a list.
proof fn lemma_first_char(g: Spaces, t: Tree)
    requires
        readable(t),
    ensures
        kernel(g, t).len() > 0,
        !is_list_space(kernel(g, t)[0]),
        kernel(g, t)[0] != ')',
        kernel(g, t)[0] == '(' <==> t is List,
        kernel(g, t)[0] != '"' && kernel(g, t)[0] != '(' ==> t is Sym && kernel(g, t) == t->Sym_0
            && bare_safe(t->Sym_0),
        kernel(g, t)[0] == '"' ==> (t is Sym || t is Str) && kernel(g, t) == quoted(
            if t is Sym {
                t->Sym_0
            } else {
                t->Str_0
            },
        ) && quotable(
            if t is Sym {
                t->Sym_0
            } else {
                t->Str_0
            },
        ),
{
    match t {
        Tree::Sym(s) => {
            if !needs_quotes(s) {
                assert(!ends_bare(s[0]));
            }
        },
        _ => {},
    }
}

/// Where the item `k` of the list `l` starts in the kernel of the list,
/// after what stands before it.
pub open spec fn item_start(g: Spaces, l: Seq<Tree>, k: nat) -> int {
    (1 + inner(g, l, k).len() + gap(g, k as int).len()) as int
}

/// What stands in the kernel of a list around its item `k`: the items
/// before it, then separators, then the kernel of the item.
proof fn lemma_inner_parts(g: Spaces, l: Seq<Tree>, k: nat, j: nat)
    requires
        well_spaced(g, Tree::List(l)),
        k < j <= l.len(),
    ensures
        item_start(g, l, k) + kernel(within(g, k as int), l[k as int]).len() == 1 + inner(
            g,
            l,
            (k + 1) as nat,
        ).len(),
        1 + inner(g, l, (k + 1) as nat).len() <= 1 + inner(g, l, j).len(),
        forall|i: int|
            1 + inner(g, l, k).len() <= i < item_start(g, l, k) ==> is_separator(
                #[trigger] (seq!['('] + inner(g, l, j))[i],
            ),
        (seq!['('] + inner(g, l, j)).subrange(
            item_start(g, l, k),
            item_start(g, l, k) + kernel(within(g, k as int), l[k as int]).len(),
        ) == kernel(within(g, k as int), l[k as int]),
    decreases j,
{
    let whole = seq!['('] + inner(g, l, j);
    let c = kernel(within(g, k as int), l[k as int]);
    if j == k + 1 {
        let a = inner(g, l, k);
        let sep = gap(g, k as int);
        assert(inner(g, l, j) =~= a + sep + c);
        assert forall|i: int| 1 + a.len() <= i < item_start(g, l, k) implies is_separator(
            #[trigger] whole[i],
        ) by {
            assert(whole[i] == sep[i - 1 - a.len()]);
        }
        assert(whole.subrange(item_start(g, l, k), item_start(g, l, k) + c.len()) =~= c);
    } else {
        lemma_inner_parts(g, l, k, (j - 1) as nat);
        let before = seq!['('] + inner(g, l, (j - 1) as nat);
        assert(inner(g, l, j) =~= inner(g, l, (j - 1) as nat) + gap(g, j - 1) + kernel(
            within(g, j - 1),
            l[j - 1],
        ));
        assert forall|i: int|
            1 + inner(g, l, k).len() <= i < item_start(g, l, k) implies is_separator(
            #[trigger] whole[i],
        ) by {
            assert(whole[i] == before[i]);
        }
        assert(whole.subrange(item_start(g, l, k), item_start(g, l, k) + c.len())
            =~= before.subrange(item_start(g, l, k), item_start(g, l, k) + c.len()));
    }
}

/// Where the parser stands after an expression that ended at `end`: after
/// the white space that follows it if it is a list, and at `end` otherwise.
pub open spec fn place_after(text: Seq<char>, t: Tree, end: int) -> int {
    if t is List {
        skip_spaces(text, end)
    } else {
        end
    }
}

/// Where the kernel of a readable expression stands in a text, and the end
/// of the text or a character that ends a bare token follows it, the
/// parser reads the expression back from there.
pub proof fn lemma_read_back(g: Spaces, text: Seq<char>, pos: int, t: Tree)
    requires
        well_spaced(g, t),
        readable(t),
        0 <= pos,
        pos + kernel(g, t).len() <= text.len(),
        text.subrange(pos, pos + kernel(g, t).len()) == kernel(g, t),
        pos + kernel(g, t).len() == text.len() || ends_bare(text[pos + kernel(g, t).len()]),
    ensures
        parse_at(text, pos) == (Parsed::Done {
            tree: as_read(t),
            next: place_after(text, t, pos + kernel(g, t).len()),
        }),
    decreases t, 0nat, 0nat,
{
    let c = kernel(g, t);
    lemma_first_char(g, t);
    assert(text[pos] == c[0]);
    assert(skip_spaces(text, pos) == pos);
    if c[0] == '(' {
        let l = t->List_0;
        lemma_read_items(g, text, pos, l, 0, pos + 1);
    } else if c[0] == '"' {
        let s = if t is Sym {
            t->Sym_0
        } else {
            t->Str_0
        };
        assert(text.subrange(pos + 1, pos + 1 + s.len()) =~= s) by {
            assert forall|i: int| 0 <= i < s.len() implies text[pos + 1 + i] == s[i] by {
                assert(text[pos + 1 + i] == c[1 + i]);
            }
        }
        assert(text[pos + 1 + s.len()] == c[1 + s.len() as int]);
        lemma_quoted_scan(text, pos + 1, s, pos + 1);
    } else {
        let s = t->Sym_0;
        lemma_bare_scan(text, pos, s, pos);
    }
}

/// The parser reads the rest of a list back: it stands at `p`, at the
/// item `k` of the list `l` or among the separators before it, with the
/// items before that one read; the kernel of the list starts at `pos`.
pub proof fn lemma_read_items(g: Spaces, text: Seq<char>, pos: int, l: Seq<Tree>, k: nat, p: int)
    requires
        well_spaced(g, Tree::List(l)),
        readable(Tree::List(l)),
        0 <= pos,
        pos + kernel(g, Tree::List(l)).len() <= text.len(),
        text.subrange(pos, pos + kernel(g, Tree::List(l)).len()) == kernel(g, Tree::List(l)),
        k <= l.len(),
        pos + 1 + inner(g, l, k).len() <= p,
        k < l.len() ==> p <= pos + item_start(g, l, k),
        k == l.len() ==> p == pos + 1 + inner(g, l, k).len(),
    ensures
        parse_items(text, p, as_read_items(l, k)) == (Parsed::Done {
            tree: as_read(Tree::List(l)),
            next: skip_spaces(text, pos + kernel(g, Tree::List(l)).len()),
        }),
    decreases l, l.len() - k, pos + item_start(g, l, k) - p,
{
    let n = l.len();
    let whole = kernel(g, Tree::List(l));
    let all = seq!['('] + inner(g, l, n);
    assert(whole =~= all + seq![')']);
    if k == n {
        assert(text[p] == whole[p - pos]);
    } else {
        lemma_inner_parts(g, l, k, n);
        let item = l[k as int];
        let sub = within(g, k as int);
        let c = kernel(sub, item);
        let start = pos + item_start(g, l, k);
        assert(readable(item));
        assert(separators(gap(g, k as int)) && well_spaced(sub, item));
        lemma_first_char(sub, item);
        if p != start {
            // a separator stands before the item
            assert(text[p] == whole[p - pos]);
            assert(whole[p - pos] == all[p - pos]);
            lemma_read_items(g, text, pos, l, k, p + 1);
        } else {
            assert(text.subrange(p, p + c.len()) =~= c) by {
                assert forall|i: int| 0 <= i < c.len() implies text[p + i] == c[i] by {
                    assert(text[p + i] == whole[p - pos + i]);
                    assert(whole[p - pos + i] == all[p - pos + i]);
                    assert(all.subrange(item_start(g, l, k), item_start(g, l, k) + c.len())[i]
                        == all[item_start(g, l, k) + i]);
                }
            }
            let end = p + c.len();
            assert(text[end] == whole[end - pos]);
            if k + 1 < n {
                lemma_inner_parts(g, l, (k + 1) as nat, n);
                let next_item = l[k as int + 1];
                let next_sub = within(g, k as int + 1);
                assert(separators(gap(g, k as int + 1)) && (!(next_item is List) ==> gap(
                    g,
                    k as int + 1,
                ).len() > 0));
                lemma_first_char(next_sub, next_item);
                let c2 = kernel(next_sub, next_item);
                let start2 = pos + item_start(g, l, (k + 1) as nat);
                assert(text[start2] == c2[0]) by {
                    assert(text[start2] == whole[start2 - pos]);
                    assert(whole[start2 - pos] == all[start2 - pos]);
                    assert(all.subrange(
                        item_start(g, l, (k + 1) as nat),
                        item_start(g, l, (k + 1) as nat) + c2.len(),
                    )[0] == all[item_start(g, l, (k + 1) as nat)]);
                }
                if end < start2 {
                    assert(whole[end - pos] == all[end - pos]);
                    assert(is_separator(all[end - pos]));
                }
                // a separator follows the item, or the `(` of the next one
                lemma_skip_spaces_stops(text, end, start2);
            } else {
                assert(text[end] == ')');
                assert(skip_spaces(text, end) == end);
            }
            assert(text[p] == c[0]);
            lemma_read_back(sub, text, p, item);
            let next = place_after(text, item, end);
            assert(as_read_items(l, (k + 1) as nat) == as_read_items(l, k).push(as_read(item)));
            lemma_read_items(g, text, pos, l, (k + 1) as nat, next);
        }
    }
}

/// White space before a place that holds none is skipped up to that
/// place.
proof fn lemma_skip_spaces_to(text: Seq<char>, pos: int, stop: int)
    requires
        0 <= pos <= stop < text.len(),
        forall|i: int| pos <= i < stop ==> is_list_space(#[trigger] text[i]),
        !is_list_space(text[stop]),
    ensures
        skip_spaces(text, pos) == stop,
    decreases stop - pos,
{
    if pos < stop {
        assert(is_list_space(text[pos]));
        lemma_skip_spaces_to(text, pos + 1, stop);
    }
}

/// A readable expression that is written after separators, with
/// separators inside that fit it, is read back as the expression, with
/// each `String` of it read as a `Symbol`.
pub proof fn lemma_spaced_reads_back(before: Seq<char>, g: Spaces, t: Tree)
    requires
        separators(before),
        well_spaced(g, t),
        readable(t),
    ensures
        parse_text(before + kernel(g, t)) == Ok::<Tree, ParseErrorView>(as_read(t)),
{
    let c = kernel(g, t);
    let text = before + c;
    let q = before.len() as int;
    lemma_first_char(g, t);
    assert(text[q] == c[0]);
    assert forall|i: int| 0 <= i < q implies is_list_space(#[trigger] text[i]) by {
        assert(text[i] == before[i]);
        assert(is_separator(before[i]));
    }
    lemma_skip_spaces_to(text, 0, q);
    assert(skip_spaces(text, q) == q);
    assert(text.subrange(q, q + c.len()) =~= c);
    lemma_read_back(g, text, q, t);
    assert(parse_at(text, 0) == parse_at(text, q));
}

/// The first item of a list, if it has one.
pub open spec fn first_of(l: Seq<Tree>) -> Option<Tree> {
    if l.len() == 0 {
        None
    } else {
        Some(l[0])
    }
}

/// The separators that a layout writes before the `(` of a list; nothing
/// for what is no list.
pub open spec fn lead(y: Layout, t: Tree) -> Seq<char> {
    match t {
        Tree::List(l) => (y.open)(first_of(l)).drop_last(),
        _ => Seq::empty(),
    }
}

/// The separators that a layout writes in an expression.
pub open spec fn layout_spaces(y: Layout, t: Tree) -> Spaces
    decreases t,
{
    match t {
        Tree::List(l) => Spaces::List(
            Seq::new(
                l.len(),
                |i: int|
                    if 0 <= i < l.len() {
                        (
                            if i == 0 {
                                lead(y, l[i])
                            } else {
                                (y.element)(l[i]) + lead(y, l[i])
                            },
                            layout_spaces(y, l[i]),
                        )
                    } else {
                        (Seq::empty(), Spaces::Token)
                    },
            ),
        ),
        _ => Spaces::Token,
    }
}

/// An expression in a layout is what the layout leads it with, and then
/// its kernel with the separators of the layout, which fit it.
proof fn lemma_layout_kernel(y: Layout, t: Tree)
    requires
        only_separates(y),
    ensures
        laid_out(y, t) == lead(y, t) + kernel(layout_spaces(y, t), t),
        well_spaced(layout_spaces(y, t), t),
    decreases t, 1nat,
{
    match t {
        Tree::List(l) => {
            lemma_layout_inner(y, l, l.len());
            let open = (y.open)(first_of(l));
            assert(open =~= open.drop_last() + seq!['(']);
            assert(laid_out(y, t) =~= lead(y, t) + kernel(layout_spaces(y, t), t));
            let g = layout_spaces(y, t);
            assert forall|i: int| 0 <= i < l.len() implies separators(#[trigger] gap(g, i)) && (i
                > 0 && !(l[i] is List) ==> gap(g, i).len() > 0) && well_spaced(
                within(g, i),
                l[i],
            ) by {
                lemma_layout_kernel(y, l[i]);
                let e = (y.element)(l[i]);
                let d = lead(y, l[i]);
                assert(separators(d));
                if i > 0 {
                    assert forall|k: int| 0 <= k < (e + d).len() implies is_separator(
                        #[trigger] (e + d)[k],
                    ) by {
                        if k < e.len() {
                            assert((e + d)[k] == e[k]);
                        } else {
                            assert((e + d)[k] == d[k - e.len()]);
                        }
                    }
                }
            }
        },
        _ => {
            assert(laid_out(y, t) =~= lead(y, t) + kernel(layout_spaces(y, t), t));
        },
    }
}

proof fn lemma_layout_inner(y: Layout, l: Seq<Tree>, k: nat)
    requires
        only_separates(y),
        k <= l.len(),
    ensures
        laid_items(y, l, k) == (if k == 0 {
            (y.open)(None)
        } else {
            (y.open)(Some(l[0])) + inner(layout_spaces(y, Tree::List(l)), l, k)
        }),
    decreases l, k,
{
    let g = layout_spaces(y, Tree::List(l));
    if k == 1 {
        lemma_layout_kernel(y, l[0]);
        assert(inner(g, l, 0) =~= Seq::<char>::empty());
        assert(inner(g, l, 1) =~= lead(y, l[0]) + kernel(layout_spaces(y, l[0]), l[0]));
    } else if k > 1 {
        lemma_layout_inner(y, l, (k - 1) as nat);
        lemma_layout_kernel(y, l[k - 1]);
        assert(laid_items(y, l, k) =~= (y.open)(Some(l[0])) + inner(g, l, k));
    }
}

/// What a layout that adds nothing but separators writes for an
/// expression is read back as the expression, with each `String` of it
/// read as a `Symbol`: for every readable expression, and for `Empty`.
pub proof fn lemma_layout_reads_back(y: Layout, t: Tree)
    requires
        only_separates(y),
        readable(t) || t is Empty,
    ensures
        parse_text(laid_out(y, t)) == Ok::<Tree, ParseErrorView>(as_read(t)),
{
    if !(t is Empty) {
        lemma_layout_kernel(y, t);
        match t {
            Tree::List(l) => {
                assert(separators((y.open)(first_of(l)).drop_last()));
            },
            _ => {},
        }
        lemma_spaced_reads_back(lead(y, t), layout_spaces(y, t), t);
    }
}

/// A formatter writes what its layout says.
pub proof fn lemma_rendered_laid_out<F: Formatter>(f: F, t: Tree)
    ensures
        rendered(f, t) == laid_out(layout_of(f), t),
    decreases t,
{
    match t {
        Tree::List(l) => {
            lemma_rendered_items_laid_out(f, l, l.len());
        },
        _ => {},
    }
}

proof fn lemma_rendered_items_laid_out<F: Formatter>(f: F, l: Seq<Tree>, n: nat)
    ensures
        rendered_items(f, l, n) == laid_items(layout_of(f), l, n),
    decreases l, n,
{
    if n == 1 && n <= l.len() {
        lemma_rendered_laid_out(f, l[0]);
    } else if 1 < n <= l.len() {
        lemma_rendered_items_laid_out(f, l, (n - 1) as nat);
        lemma_rendered_laid_out(f, l[n - 1]);
    }
}

/// What a formatter writes is read back as the expression that was
/// written, where the formatter adds nothing but separators.
pub proof fn lemma_formatter_reads_back<F: Formatter>(f: F, t: Tree)
    requires
        only_separates(layout_of(f)),
        readable(t) || t is Empty,
    ensures
        parse_text(rendered(f, t)) == Ok::<Tree, ParseErrorView>(as_read(t)),
{
    lemma_rendered_laid_out(f, t);
    lemma_layout_reads_back(layout_of(f), t);
}

/// The compact text of an expression parses to that expression, with each
/// `String` of it read as a `Symbol`: every readable expression, and
/// `Empty`.
pub proof fn lemma_parse_compact(t: Tree)
    requires
        readable(t) || t is Empty,
    ensures
        parse_text(compact(t)) == Ok::<Tree, ParseErrorView>(as_read(t)),
{
    lemma_formatter_reads_back(CompactFormatter, t);
}

/// A text in canonical form is stable: it parses, and the compact text of
/// what it parses to is the text itself.
pub proof fn lemma_canonical_text_round_trip(text: Seq<char>)
    requires
        is_canonical(text),
    ensures
        parse_text(text) matches Ok(t) && compact(t) == text,
{
    let t = choose|t: Tree| parsed_form(t) && text == #[trigger] compact(t);
    lemma_parse_compact(t);
}

proof fn lemma_indentation_separates(n: int)
    ensures
        separators(indentation(seq![' ', ' '], n)),
    decreases n,
{
    if n > 0 {
        lemma_indentation_separates(n - 1);
    }
}

/// The layout by rules writes what `rules_text` says.
pub proof fn lemma_rules_laid_out(table: Map<Seq<char>, i64>, t: Tree)
    ensures
        rules_text(table, t) == laid_out(rules_layout(table), t),
    decreases t,
{
    match t {
        Tree::List(l) => {
            lemma_rules_items_laid_out(table, l, l.len());
        },
        _ => {},
    }
}

proof fn lemma_rules_items_laid_out(table: Map<Seq<char>, i64>, l: Seq<Tree>, n: nat)
    ensures
        rules_items(table, l, n) == laid_items(rules_layout(table), l, n),
    decreases l, n,
{
    if n == 0 || n > l.len() {
        assert(rules_open(table, None) =~= seq!['(']);
    } else if n == 1 {
        lemma_rules_laid_out(table, l[0]);
    } else {
        lemma_rules_items_laid_out(table, l, (n - 1) as nat);
        lemma_rules_laid_out(table, l[n - 1]);
    }
}

/// The text of an expression in the layout by rules parses to that
/// expression, with each `String` of it read as a `Symbol`: every
/// readable expression, and `Empty`.
pub proof fn lemma_parse_rules(table: Map<Seq<char>, i64>, t: Tree)
    requires
        readable(t) || t is Empty,
    ensures
        parse_text(rules_text(table, t)) == Ok::<Tree, ParseErrorView>(as_read(t)),
{
    let y = rules_layout(table);
    assert(only_separates(y)) by {
        assert forall|head: Option<Tree>|
            (#[trigger] (y.open)(head)).len() > 0 && (y.open)(head).last() == '(' && separators(
                (y.open)(head).drop_last(),
            ) by {
            match break_depth(table, head) {
                Some(depth) => {
                    lemma_indentation_separates(depth as int);
                },
                None => {
                    assert((y.open)(head) =~= seq!['(']);
                },
            }
        }
    }
    lemma_rules_laid_out(table, t);
    lemma_layout_reads_back(y, t);
}

/// The separators that the structural layout writes in an expression at
/// the depth `level`.
pub open spec fn pretty_spaces(t: Tree, level: nat) -> Spaces
    decreases t,
{
    match t {
        Tree::List(l) => Spaces::List(
            Seq::new(
                l.len(),
                |i: int|
                    if 0 <= i < l.len() {
                        (
                            separator(i, inline_budget(t)) + spacing(
                                item_level(i, inline_budget(t), level),
                            ),
                            pretty_spaces(l[i], item_level(i, inline_budget(t), level)),
                        )
                    } else {
                        (Seq::empty(), Spaces::Token)
                    },
            ),
        ),
        _ => Spaces::Token,
    }
}

/// A readable expression in the structural layout is its indentation, and
/// then its kernel with the separators of that layout, which fit it.
proof fn lemma_pretty_kernel(t: Tree, level: nat)
    requires
        readable(t),
    ensures
        pretty_text(t, level) == spacing(level) + kernel(pretty_spaces(t, level), t),
        well_spaced(pretty_spaces(t, level), t),
    decreases t, 1nat,
{
    match t {
        Tree::List(l) => {
            let g = pretty_spaces(t, level);
            let budget = inline_budget(t);
            lemma_pretty_inner(l, l.len(), budget, level, g);
            assert(pretty_text(t, level) =~= spacing(level) + kernel(g, t));
            assert forall|i: int| 0 <= i < l.len() implies separators(#[trigger] gap(g, i)) && (i
                > 0 && !(l[i] is List) ==> gap(g, i).len() > 0) && well_spaced(
                within(g, i),
                l[i],
            ) by {
                let lvl = item_level(i, budget, level);
                lemma_pretty_kernel(l[i], lvl);
                lemma_indentation_separates(lvl as int);
                let a = separator(i, budget);
                let b = spacing(lvl);
                assert forall|k: int| 0 <= k < (a + b).len() implies is_separator(
                    #[trigger] (a + b)[k],
                ) by {
                    if k < a.len() {
                        assert((a + b)[k] == a[k]);
                    } else {
                        assert((a + b)[k] == b[k - a.len()]);
                    }
                }
            }
        },
        _ => {
            assert(pretty_text(t, level) =~= spacing(level) + kernel(pretty_spaces(t, level), t));
        },
    }
}

proof fn lemma_pretty_inner(l: Seq<Tree>, k: nat, budget: nat, level: nat, g: Spaces)
    requires
        readable(Tree::List(l)),
        k <= l.len(),
        g is List,
        g->List_0.len() == l.len(),
        forall|i: int|
            0 <= i < l.len() ==> #[trigger] g->List_0[i] == (
                separator(i, budget) + spacing(item_level(i, budget, level)),
                pretty_spaces(l[i], item_level(i, budget, level)),
            ),
    ensures
        pretty_items(l, k, budget, level) == inner(g, l, k),
    decreases l, k,
{
    if k > 0 {
        let item = l[k - 1];
        lemma_item_readable(l, k - 1);
        lemma_pretty_inner(l, (k - 1) as nat, budget, level, g);
        let lvl = item_level(k - 1, budget, level);
        lemma_pretty_kernel(item, lvl);
        assert(g->List_0[k - 1].0 == separator(k - 1, budget) + spacing(lvl));
        assert(pretty_items(l, k, budget, level) =~= inner(g, l, k));
    }
}

/// The text of an expression in the structural layout, at any depth,
/// parses to that expression, with each `String` of it read as a
/// `Symbol`: every readable expression, and `Empty`.
pub proof fn lemma_parse_pretty(t: Tree, level: nat)
    requires
        readable(t) || t is Empty,
    ensures
        parse_text(pretty_text(t, level)) == Ok::<Tree, ParseErrorView>(as_read(t)),
{
    if !(t is Empty) {
        lemma_pretty_kernel(t, level);
        lemma_indentation_separates(level as int);
        lemma_spaced_reads_back(spacing(level), pretty_spaces(t, level), t);
    }
}

} // verus!
