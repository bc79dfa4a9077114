//! The structural layout: for each list, as many items on the opening line
//! as the list has short items, and the others on lines of their own, one
//! step deeper.
//!
//! The traversal keeps its own stack, so that the depth of an expression
//! is not bounded by the call stack.

use crate::formatter::indentation;
use crate::sexp::{trees, Sexp, Tree};
use crate::text::{encode_string, encoded, push_char, quoted};
use vstd::prelude::*;

verus! {

/// An item that can stand on the opening line of its list: a token, or a
/// list of one item. The empty expression is neither.
pub open spec fn inlineable(t: Tree) -> bool {
    match t {
        Tree::Str(_) => true,
        Tree::Sym(_) => true,
        Tree::List(l) => l.len() == 1,
        Tree::Empty => false,
    }
}

/// How many of the first `n` items of `l` are inlineable.
pub open spec fn inline_count(l: Seq<Tree>, n: nat) -> nat
    decreases n,
{
    if n == 0 || n > l.len() {
        0
    } else if inlineable(l[n - 1]) {
        inline_count(l, (n - 1) as nat) + 1
    } else {
        inline_count(l, (n - 1) as nat)
    }
}

/// How many items of a list stand on its opening line: as many as it has
/// inlineable items, and at least one.
pub open spec fn inline_budget(t: Tree) -> nat {
    match t {
        Tree::List(l) => if inline_count(l, l.len()) < 1 {
            1
        } else {
            inline_count(l, l.len())
        },
        _ => 1,
    }
}

/// The indentation of the depth `level`: two spaces for each step.
pub open spec fn spacing(level: nat) -> Seq<char> {
    indentation(seq![' ', ' '], level as int)
}

/// What stands before the item `i` of a list: nothing before the first, a
/// space before one on the opening line, a line feed before the others.
pub open spec fn separator(i: int, budget: nat) -> Seq<char> {
    if i == 0 {
        Seq::empty()
    } else if i < budget {
        seq![' ']
    } else {
        seq!['\n']
    }
}

/// The depth of the item `i` of a list at the depth `level`: none on the
/// opening line, one step more than the list on a line of its own.
pub open spec fn item_level(i: int, budget: nat, level: nat) -> nat {
    if i < budget {
        0
    } else {
        level + 1
    }
}

/// An expression in the structural layout, at the depth `level`. A
/// `Symbol` is quoted where it has to be, a `String` always, and `Empty`
/// is written as nothing, without indentation.
pub open spec fn pretty_text(t: Tree, level: nat) -> Seq<char>
    decreases t,
{
    match t {
        Tree::Str(s) => spacing(level) + quoted(s),
        Tree::Sym(s) => spacing(level) + encoded(s),
        Tree::List(l) => spacing(level) + seq!['('] + pretty_items(
            l,
            l.len(),
            inline_budget(t),
            level,
        ) + seq![')'],
        Tree::Empty => Seq::empty(),
    }
}

/// The first `n` items of the list `l` in the structural layout, where
/// `budget` of them stand on the opening line and the list is at the
/// depth `level`.
pub open spec fn pretty_items(l: Seq<Tree>, n: nat, budget: nat, level: nat) -> Seq<char>
    decreases l, n,
{
    if n == 0 || n > l.len() {
        Seq::empty()
    } else {
        pretty_items(l, (n - 1) as nat, budget, level) + separator(n - 1, budget) + pretty_text(
            l[n - 1],
            item_level(n - 1, budget, level),
        )
    }
}

/// One entry of the work stack: an expression, the depth it is written
/// at, and whether its items have been put on the stack already.
ghost struct Frame {
    level: nat,
    tree: Tree,
    done: bool,
}

spec fn frame_of(e: (usize, &Sexp, bool)) -> Frame {
    Frame { level: e.0 as nat, tree: e.1@, done: e.2 }
}

spec fn frames(s: Seq<(usize, &Sexp, bool)>) -> Seq<Frame> {
    Seq::new(s.len(), |i: int| frame_of(s[i]))
}

spec fn texts(s: Seq<String>) -> Seq<Seq<char>> {
    Seq::new(s.len(), |i: int| s[i]@)
}

/// The last `n` texts of `rets`, last one first, as the items of a list.
spec fn joined(rets: Seq<Seq<char>>, n: nat, budget: nat) -> Seq<char>
    decreases n,
{
    if n == 0 {
        Seq::empty()
    } else {
        joined(rets, (n - 1) as nat, budget) + separator(n - 1, budget) + rets[rets.len() - n]
    }
}

/// A list put together from the texts of its `n` items, which are the
/// last ones of `rets`.
spec fn combined(level: nat, n: nat, budget: nat, rets: Seq<Seq<char>>) -> Seq<char> {
    spacing(level) + seq!['('] + joined(rets, n, budget) + seq![')']
}

/// The texts that are left when the whole work stack has been worked off,
/// or `None` if a list would not find the texts of its items.
spec fn settle(stack: Seq<Frame>, rets: Seq<Seq<char>>) -> Option<Seq<Seq<char>>>
    decreases stack.len(),
{
    if stack.len() == 0 {
        Some(rets)
    } else {
        let top = stack.last();
        let rest = stack.drop_last();
        if top.done && top.tree is List {
            let n = top.tree->List_0.len();
            if rets.len() < n {
                None
            } else {
                settle(
                    rest,
                    rets.take(rets.len() - n).push(
                        combined(top.level, n, inline_budget(top.tree), rets),
                    ),
                )
            }
        } else {
            settle(rest, rets.push(pretty_text(top.tree, top.level)))
        }
    }
}

/// The number of nodes of an expression.
spec fn size(t: Tree) -> nat
    decreases t,
{
    match t {
        Tree::List(l) => 1 + sizes(l, l.len()),
        _ => 1,
    }
}

spec fn sizes(l: Seq<Tree>, n: nat) -> nat
    decreases l, n,
{
    if n == 0 || n > l.len() {
        0
    } else {
        sizes(l, (n - 1) as nat) + size(l[n - 1])
    }
}

/// The steps that the work stack still asks for.
spec fn work(stack: Seq<Frame>) -> nat
    decreases stack.len(),
{
    if stack.len() == 0 {
        0
    } else if stack.last().done {
        work(stack.drop_last()) + 1
    } else {
        work(stack.drop_last()) + 2 * size(stack.last().tree)
    }
}

spec fn item_frame(l: Seq<Tree>, i: int, budget: nat, level: nat) -> Frame {
    Frame { level: item_level(i, budget, level), tree: l[i], done: false }
}

/// The stack `base` with the first `k` items of `l` on top of it.
spec fn with_items(base: Seq<Frame>, l: Seq<Tree>, k: nat, budget: nat, level: nat) -> Seq<Frame>
    decreases k,
{
    if k == 0 {
        base
    } else {
        with_items(base, l, (k - 1) as nat, budget, level).push(
            item_frame(l, k - 1, budget, level),
        )
    }
}

/// The texts of the first `k` items of `l`, the last of them first.
spec fn item_texts(l: Seq<Tree>, k: nat, budget: nat, level: nat) -> Seq<Seq<char>>
    decreases k,
{
    if k == 0 {
        Seq::empty()
    } else {
        seq![pretty_text(l[k - 1], item_level(k - 1, budget, level))] + item_texts(
            l,
            (k - 1) as nat,
            budget,
            level,
        )
    }
}

proof fn lemma_item_texts(l: Seq<Tree>, k: nat, budget: nat, level: nat)
    ensures
        item_texts(l, k, budget, level).len() == k,
        forall|i: int|
            0 <= i < k ==> #[trigger] item_texts(l, k, budget, level)[i] == pretty_text(
                l[k - 1 - i],
                item_level(k - 1 - i, budget, level),
            ),
    decreases k,
{
    if k > 0 {
        lemma_item_texts(l, (k - 1) as nat, budget, level);
    }
}

/// Working off the items on top of a stack leaves their texts.
proof fn lemma_settle_items(
    base: Seq<Frame>,
    l: Seq<Tree>,
    k: nat,
    budget: nat,
    level: nat,
    rets: Seq<Seq<char>>,
)
    ensures
        settle(with_items(base, l, k, budget, level), rets) == settle(
            base,
            rets + item_texts(l, k, budget, level),
        ),
    decreases k,
{
    if k > 0 {
        let below = with_items(base, l, (k - 1) as nat, budget, level);
        let top = item_frame(l, k - 1, budget, level);
        assert(below.push(top).drop_last() =~= below);
        let text = pretty_text(l[k - 1], item_level(k - 1, budget, level));
        lemma_settle_items(base, l, (k - 1) as nat, budget, level, rets.push(text));
        assert(rets.push(text) + item_texts(l, (k - 1) as nat, budget, level) =~= rets
            + item_texts(l, k, budget, level));
    }
}

proof fn lemma_work_items(base: Seq<Frame>, l: Seq<Tree>, k: nat, budget: nat, level: nat)
    requires
        k <= l.len(),
    ensures
        work(with_items(base, l, k, budget, level)) == work(base) + 2 * sizes(l, k),
    decreases k,
{
    if k > 0 {
        let below = with_items(base, l, (k - 1) as nat, budget, level);
        let top = item_frame(l, k - 1, budget, level);
        assert(below.push(top).drop_last() =~= below);
        lemma_work_items(base, l, (k - 1) as nat, budget, level);
    }
}

proof fn lemma_joined_items(
    rets: Seq<Seq<char>>,
    l: Seq<Tree>,
    n: nat,
    j: nat,
    budget: nat,
    level: nat,
)
    requires
        j <= n <= l.len(),
    ensures
        joined(rets + item_texts(l, n, budget, level), j, budget) == pretty_items(
            l,
            j,
            budget,
            level,
        ),
    decreases j,
{
    if j > 0 {
        lemma_joined_items(rets, l, n, (j - 1) as nat, budget, level);
        lemma_item_texts(l, n, budget, level);
    }
}

/// A list whose items have been put on the stack gives the same texts as
/// the list itself.
proof fn lemma_settle_list(rest: Seq<Frame>, t: Tree, level: nat, rets: Seq<Seq<char>>)
    requires
        t is List,
    ensures
        settle(
            with_items(
                rest.push(Frame { level, tree: t, done: true }),
                t->List_0,
                t->List_0.len(),
                inline_budget(t),
                level,
            ),
            rets,
        ) == settle(rest.push(Frame { level, tree: t, done: false }), rets),
{
    let l = t->List_0;
    let n = l.len();
    let budget = inline_budget(t);
    let done = Frame { level, tree: t, done: true };
    let todo = Frame { level, tree: t, done: false };
    lemma_settle_items(rest.push(done), l, n, budget, level, rets);
    let all = rets + item_texts(l, n, budget, level);
    lemma_item_texts(l, n, budget, level);
    lemma_joined_items(rets, l, n, n, budget, level);
    assert(all.take(all.len() - n) =~= rets);
    assert(rest.push(done).drop_last() =~= rest);
    assert(rest.push(todo).drop_last() =~= rest);
    assert(combined(level, n, budget, all) == pretty_text(t, level));
}

/// The indentation of a depth, as a string.
fn get_spacing(level: usize) -> (res: String)
    ensures
        res@ == spacing(level as nat),
{
    let mut res = String::new();
    let mut i: usize = 0;
    while i < level
        invariant
            i <= level,
            res@ == spacing(i as nat),
        decreases level - i,
    {
        push_char(&mut res, ' ');
        push_char(&mut res, ' ');
        assert(res@ =~= spacing(i as nat) + seq![' ', ' ']);
        i = i + 1;
    }
    res
}

impl Sexp {
    /// How many items of this list stand on its opening line; 1 for what
    /// is no list.
    fn how_many_childen_inline(&self) -> (res: usize)
        ensures
            res == inline_budget(self@),
    {
        let minimum: usize = 1;
        let mut res: usize = 0;
        if let Sexp::List(children) = self {
            let ghost l = trees(children@);
            let mut i: usize = 0;
            while i < children.len()
                invariant
                    i <= children.len(),
                    l == trees(children@),
                    res == inline_count(l, i as nat),
                    res <= i,
                decreases children.len() - i,
            {
                assert(l[i as int] == children@[i as int]@);
                match &children[i] {
                    Sexp::List(inner) => {
                        assert(trees(inner@).len() == inner.len());
                        if inner.len() == 1 {
                            res += 1;
                        }
                    },
                    Sexp::Symbol(_) | Sexp::String(_) => res += 1,
                    Sexp::Empty => {},
                }
                i += 1;
            }
        }
        if res < minimum {
            minimum
        } else {
            res
        }
    }

    /// The expression in the structural layout.
    ///
    /// Of each list, as many items stand on the opening line as the list
    /// has items that are tokens or lists of one item, and at least one;
    /// each other item stands on a line of its own, indented by two spaces
    /// more than the line that its list would be indented by.
    pub fn pretty(&self) -> (s: String)
        ensures
            s@ == pretty_text(self@, 0),
    {
        let mut stack: Vec<(usize, &Sexp, bool)> = Vec::new();
        stack.push((0, self, false));
        let mut return_stack: Vec<String> = Vec::new();
        let ghost answer = pretty_text(self@, 0);
        proof {
            let f = frames(stack@);
            assert(f.drop_last() =~= Seq::<Frame>::empty());
            assert(texts(return_stack@) =~= Seq::<Seq<char>>::empty());
            assert(Seq::<Seq<char>>::empty().push(answer) =~= seq![answer]);
            assert(settle(f.drop_last(), seq![answer]) == Some(seq![answer]));
        }
        while stack.len() > 0
            invariant
                settle(frames(stack@), texts(return_stack@)) == Some(seq![answer]),
                forall|k: int| 0 <= k < stack.len() ==> (#[trigger] stack@[k]).0 <= k,
            decreases work(frames(stack@)),
        {
            let ghost before = frames(stack@);
            let ghost rets = texts(return_stack@);
            let (start_level, current, has_recur) = stack.pop().unwrap();
            let ghost rest = frames(stack@);
            let ghost top = Frame { level: start_level as nat, tree: current@, done: has_recur };
            proof {
                assert(before.drop_last() =~= rest);
                assert(before.last() == top);
            }
            if !has_recur {
                stack.push((start_level, current, true));
                let ghost done = Frame { level: start_level as nat, tree: current@, done: true };
                let ghost base = rest.push(done);
                proof {
                    assert(frames(stack@) =~= base);
                    assert(base.drop_last() =~= rest);
                }
                match current {
                    Sexp::List(lists) => {
                        let how_many_inline = current.how_many_childen_inline();
                        let ghost l = trees(lists@);
                        let ghost budget = inline_budget(current@);
                        let mut i: usize = 0;
                        while i < lists.len()
                            invariant
                                i <= lists.len(),
                                l == trees(lists@),
                                how_many_inline == budget,
                                start_level < stack.len(),
                                stack.len() == base.len() + i,
                                frames(stack@) == with_items(
                                    base,
                                    l,
                                    i as nat,
                                    budget,
                                    start_level as nat,
                                ),
                                forall|k: int|
                                    0 <= k < stack.len() ==> (#[trigger] stack@[k]).0 <= k,
                            decreases lists.len() - i,
                        {
                            let new_level = if i < how_many_inline {
                                0
                            } else {
                                start_level + 1
                            };
                            stack.push((new_level, &lists[i], false));
                            i += 1;
                        }
                        proof {
                            lemma_settle_list(rest, current@, start_level as nat, rets);
                            lemma_work_items(base, l, l.len(), budget, start_level as nat);
                            assert(before =~= rest.push(top));
                            assert(current@->List_0 == l);
                            assert(i == l.len());
                            assert(texts(return_stack@) == rets);
                            assert(settle(frames(stack@), texts(return_stack@)) == Some(
                                seq![answer],
                            ));
                        }
                    },
                    _ => {},
                }
            } else {
                match current {
                    Sexp::String(s) => {
                        let mut res = get_spacing(start_level);
                        push_char(&mut res, '"');
                        res.append(s.as_str());
                        push_char(&mut res, '"');
                        return_stack.push(res);
                        proof {
                            assert(res@ =~= pretty_text(current@, start_level as nat));
                            assert(texts(return_stack@) =~= rets.push(res@));
                        }
                    },
                    Sexp::Symbol(s) => {
                        let mut res = get_spacing(start_level);
                        res.append(encode_string(s.as_str()).as_str());
                        return_stack.push(res);
                        proof {
                            assert(texts(return_stack@) =~= rets.push(res@));
                        }
                    },
                    Sexp::List(children) => {
                        let mut res = get_spacing(start_level);
                        push_char(&mut res, '(');
                        let how_many_inline = current.how_many_childen_inline();
                        let ghost budget = inline_budget(current@);
                        let ghost n = children.len() as nat;
                        assert(current@->List_0.len() == n);
                        assert(rets.len() >= n);
                        let mut i: usize = 0;
                        while i < children.len()
                            invariant
                                i <= children.len(),
                                n == children.len(),
                                rets.len() >= n,
                                how_many_inline == budget,
                                texts(return_stack@) == rets.take(rets.len() - i),
                                res@ == spacing(start_level as nat) + seq!['('] + joined(
                                    rets,
                                    i as nat,
                                    budget,
                                ),
                            decreases children.len() - i,
                        {
                            if i > 0 {
                                if i < how_many_inline {
                                    push_char(&mut res, ' ');
                                } else {
                                    push_char(&mut res, '\n');
                                }
                            }
                            assert(texts(return_stack@).len() == return_stack.len());
                            let ghost held = return_stack@;
                            let item = return_stack.pop().unwrap();
                            res.append(item.as_str());
                            proof {
                                assert(item@ == texts(held)[held.len() - 1]);
                                assert(item@ == rets[rets.len() - (i + 1)]);
                                assert(texts(return_stack@) =~= rets.take(rets.len() - (i + 1)));
                                assert(res@ =~= spacing(start_level as nat) + seq!['('] + joined(
                                    rets,
                                    (i + 1) as nat,
                                    budget,
                                ));
                            }
                            i += 1;
                        }
                        push_char(&mut res, ')');
                        return_stack.push(res);
                        proof {
                            assert(res@ =~= combined(start_level as nat, n, budget, rets));
                            assert(texts(return_stack@) =~= rets.take(rets.len() - n).push(res@));
                        }
                    },
                    Sexp::Empty => {
                        let res = String::new();
                        return_stack.push(res);
                        proof {
                            assert(texts(return_stack@) =~= rets.push(res@));
                        }
                    },
                }
            }
        }
        proof {
            assert(texts(return_stack@) == seq![answer]);
            assert(texts(return_stack@)[0] == return_stack@[0]@);
        }
        return_stack.pop().unwrap()
    }
}

} // verus!
