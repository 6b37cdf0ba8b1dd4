//! Program text written back from a tree, and the law that ties it to the
//! parser.

use crate::ast::{parse, past_close, tree_of, Tree, AST};
use crate::operation::Operation;
use vstd::prelude::*;
use vstd::string::StringExecFns;

verus! {

/// The characters of a run of instructions.
pub open spec fn symbols(run: Seq<Operation>) -> Seq<char> {
    run.map_values(|operation: Operation| operation.symbol())
}

impl Tree {
    /// The program text of the tree: each instruction's character, each
    /// loop's body between brackets.
    pub open spec fn text(self) -> Seq<char>
        decreases self,
    {
        match self {
            Tree::Run(run, next) => symbols(run) + next.text(),
            Tree::Loop(body, next) => seq!['['] + body.text() + seq![']'] + next.text(),
            Tree::End => Seq::empty(),
        }
    }
}

/// The character is an instruction or a bracket.
pub open spec fn is_significant(c: char) -> bool {
    Operation::of_symbol(c) is Some || c == '[' || c == ']'
}

/// The text without the characters that the parser passes over.
pub open spec fn significant(text: Seq<char>) -> Seq<char> {
    text.filter(|c: char| is_significant(c))
}

/// With `depth` brackets open at its start, the text closes each of them and
/// each of its own, in order, and closes nothing else.
pub open spec fn closes(text: Seq<char>, depth: nat) -> bool
    decreases text.len(),
{
    if text.len() == 0 {
        depth == 0
    } else if text[0] == '[' {
        closes(text.drop_first(), depth + 1)
    } else if text[0] == ']' {
        depth > 0 && closes(text.drop_first(), (depth - 1) as nat)
    } else {
        closes(text.drop_first(), depth)
    }
}

/// The brackets of the text are properly matched.
pub open spec fn balanced(text: Seq<char>) -> bool {
    closes(text, 0)
}

proof fn lemma_significant_unfold(text: Seq<char>)
    requires
        text.len() > 0,
    ensures
        significant(text) == if is_significant(text[0]) {
            seq![text[0]] + significant(text.drop_first())
        } else {
            significant(text.drop_first())
        },
{
    let keep = |c: char| is_significant(c);
    assert(text =~= seq![text[0]] + text.drop_first());
    text.drop_first().lemma_filter_prepend(text[0], keep);
    if !is_significant(text[0]) {
        assert(Seq::<char>::empty() + significant(text.drop_first()) =~= significant(
            text.drop_first(),
        ));
    }
}

proof fn lemma_significant_empty(text: Seq<char>)
    requires
        text.len() == 0,
    ensures
        significant(text) == Seq::<char>::empty(),
{
    reveal(Seq::filter);
}

/// What is left behind the bracket that closes the level above is closed
/// one level further up.
proof fn lemma_closes_past_close(text: Seq<char>, inner: nat, outer: nat)
    requires
        closes(text, inner + 1 + outer),
    ensures
        closes(past_close(text, inner), outer),
    decreases text.len(),
{
    if text.len() > 0 {
        let rest = text.drop_first();
        if text[0] == '[' {
            lemma_closes_past_close(rest, inner + 1, outer);
        } else if text[0] == ']' {
            if inner > 0 {
                lemma_closes_past_close(rest, (inner - 1) as nat, outer);
            }
        } else {
            lemma_closes_past_close(rest, inner, outer);
        }
    }
}

/// The text of a tree with a run in front.
proof fn lemma_text_prefixed(run: Seq<Operation>, next: Tree)
    ensures
        crate::ast::prefixed(run, next).text() == symbols(run) + next.text(),
{
    if run.len() == 0 {
        assert(symbols(run) + next.text() =~= next.text());
    }
}

/// The text of the tree that the parser builds, level by level: at the top
/// level it is the significant part of the whole text; inside a loop, it is
/// the significant part up to the bracket that closes the loop.
proof fn lemma_text_of_tree(text: Seq<char>, run: Seq<Operation>, depth: nat)
    requires
        closes(text, depth),
    ensures
        depth == 0 ==> tree_of(text, run).text() == symbols(run) + significant(text),
        depth > 0 ==> closes(past_close(text, 0), (depth - 1) as nat),
        depth > 0 ==> tree_of(text, run).text() + seq![']'] + significant(past_close(text, 0))
            == symbols(run) + significant(text),
    decreases text.len(),
{
    lemma_text_prefixed(run, Tree::End);
    if text.len() == 0 {
        lemma_significant_empty(text);
        assert(symbols(run) + Seq::<char>::empty() =~= symbols(run));
        assert(Tree::End.text() =~= Seq::<char>::empty());
    } else {
        let rest = text.drop_first();
        lemma_significant_unfold(text);
        if depth > 0 {
            lemma_closes_past_close(text, 0, (depth - 1) as nat);
        }
        match Operation::of_symbol(text[0]) {
            Some(operation) => {
                lemma_text_of_tree(rest, run.push(operation), depth);
                assert(symbols(run.push(operation)) =~= symbols(run) + seq![text[0]]);
                assert(symbols(run) + (seq![text[0]] + significant(rest)) =~= symbols(run) + seq![
                    text[0],
                ] + significant(rest));
            },
            None => if text[0] == '[' {
                let body = tree_of(rest, Seq::empty());
                let behind = past_close(rest, 0);
                let next = tree_of(behind, Seq::empty());
                crate::ast::lemma_past_close_shorter(rest, 0);
                crate::ast::lemma_past_close_twice(rest, 0, 0);
                lemma_text_of_tree(rest, Seq::empty(), depth + 1);
                lemma_text_of_tree(behind, Seq::empty(), depth);
                lemma_text_prefixed(run, Tree::Loop(Box::new(body), Box::new(next)));
                let empty = symbols(Seq::empty());
                assert(empty =~= Seq::<char>::empty());
                assert(body.text() + seq![']'] + significant(behind) =~= significant(rest));
                if depth == 0 {
                    assert(next.text() =~= significant(behind));
                    assert(symbols(run) + (seq!['['] + body.text() + seq![']'] + next.text())
                        =~= symbols(run) + (seq!['['] + significant(rest)));
                } else {
                    let after = past_close(behind, 0);
                    assert(next.text() + seq![']'] + significant(after) =~= significant(behind));
                    assert(symbols(run) + (seq!['['] + body.text() + seq![']'] + next.text())
                        + seq![']'] + significant(after) =~= symbols(run) + (seq!['[']
                        + significant(rest)));
                }
            } else if text[0] == ']' {
                assert(symbols(run) + Tree::End.text() + seq![']'] + significant(rest)
                    =~= symbols(run) + (seq![']'] + significant(rest)));
            } else {
                lemma_text_of_tree(rest, run, depth);
            },
        }
    }
}

/// Parsing a text whose brackets are properly matched and writing the tree
/// back gives the text without the characters that the parser passes over.
pub proof fn lemma_round_trip(text: Seq<char>)
    requires
        balanced(text),
    ensures
        parse(text).text() == significant(text),
{
    lemma_text_of_tree(text, Seq::empty(), 0);
    assert(symbols(Seq::empty()) + significant(text) =~= significant(text));
}

/// A text made of instructions and properly matched brackets alone is
/// written back unchanged.
pub proof fn lemma_round_trip_exact(text: Seq<char>)
    requires
        balanced(text),
        forall|i: int| 0 <= i < text.len() ==> is_significant(#[trigger] text[i]),
    ensures
        parse(text).text() == text,
{
    lemma_round_trip(text);
    lemma_all_significant(text);
}

proof fn lemma_all_significant(text: Seq<char>)
    requires
        forall|i: int| 0 <= i < text.len() ==> is_significant(#[trigger] text[i]),
    ensures
        significant(text) == text,
    decreases text.len(),
{
    if text.len() == 0 {
        lemma_significant_empty(text);
        assert(text =~= Seq::<char>::empty());
    } else {
        lemma_significant_unfold(text);
        lemma_all_significant(text.drop_first());
        assert(seq![text[0]] + text.drop_first() =~= text);
    }
}

impl AST {
    /// Appends the program text of the tree to `out`.
    fn write_to(&self, out: &mut String)
        ensures
            final(out)@ == old(out)@ + self@.text(),
        decreases self,
    {
        match self {
            AST::Instructions(operations, next) => {
                let mut i: usize = 0;
                while i < operations.len()
                    invariant
                        i <= operations.len(),
                        out@ == old(out)@ + symbols(operations@.take(i as int)),
                    decreases operations.len() - i,
                {
                    out.append(operations[i].as_str());
                    proof {
                        let done = operations@.take(i as int);
                        assert(operations@.take(i + 1) =~= done.push(operations@[i as int]));
                        assert(symbols(done.push(operations@[i as int])) =~= symbols(done) + seq![
                            operations@[i as int].symbol(),
                        ]);
                    }
                    i += 1;
                }
                assert(operations@.take(i as int) =~= operations@);
                next.write_to(out);
                assert(out@ =~= old(out)@ + self@.text());
            },
            AST::Loop(body, next) => {
                proof {
                    reveal_strlit("[");
                    reveal_strlit("]");
                }
                out.append("[");
                body.write_to(out);
                out.append("]");
                next.write_to(out);
                assert(out@ =~= old(out)@ + self@.text());
            },
            AST::EOF => {
                assert(out@ =~= old(out)@ + self@.text());
            },
        }
    }

    /// The program text of the tree.
    pub fn to_string(&self) -> (text: String)
        ensures
            text@ == self@.text(),
    {
        let mut text = String::new();
        self.write_to(&mut text);
        assert(text@ =~= self@.text());
        text
    }
}

} // verus!
