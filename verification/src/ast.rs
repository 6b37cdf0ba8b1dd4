//! The program tree and the parser that builds it from program text.

use crate::operation::Operation;
use std::str::Chars;
use vstd::prelude::*;
use vstd::std_specs::iter::IteratorSpec;

verus! {

/// A program as a tree: runs of instructions and loops, each followed by
/// what comes after it, down to the end marker.
#[derive(Debug, PartialEq)]
pub enum AST {
    Instructions(Vec<Operation>, Box<AST>),
    Loop(Box<AST>, Box<AST>),
    EOF,
}

/// The mathematical form of a program tree.
pub enum Tree {
    /// Instructions to execute in order, then the rest of the program.
    Run(Seq<Operation>, Box<Tree>),
    /// A loop body, then the rest of the program.
    Loop(Box<Tree>, Box<Tree>),
    /// Nothing is left to execute.
    End,
}

impl View for AST {
    type V = Tree;

    open spec fn view(&self) -> Tree
        decreases self,
    {
        match self {
            AST::Instructions(operations, next) => Tree::Run(operations@, Box::new((**next)@)),
            AST::Loop(body, next) => Tree::Loop(Box::new((**body)@), Box::new((**next)@)),
            AST::EOF => Tree::End,
        }
    }
}

impl Tree {
    /// No run in the tree is empty.
    pub open spec fn runs_nonempty(self) -> bool
        decreases self,
    {
        match self {
            Tree::Run(operations, next) => operations.len() > 0 && next.runs_nonempty(),
            Tree::Loop(body, next) => body.runs_nonempty() && next.runs_nonempty(),
            Tree::End => true,
        }
    }
}

/// `run` followed by `next`, without a node for an empty run.
pub open spec fn prefixed(run: Seq<Operation>, next: Tree) -> Tree {
    if run.len() == 0 {
        next
    } else {
        Tree::Run(run, Box::new(next))
    }
}

/// What is left of `text` behind the `]` that closes the level `depth`
/// levels above the start of `text`: the first `]` that has, counting from
/// the start, `depth` more `]` than `[` before it. Empty if there is none.
pub open spec fn past_close(text: Seq<char>, depth: nat) -> Seq<char>
    decreases text.len(),
{
    if text.len() == 0 {
        text
    } else if text[0] == '[' {
        past_close(text.drop_first(), depth + 1)
    } else if text[0] == ']' {
        if depth == 0 {
            text.drop_first()
        } else {
            past_close(text.drop_first(), (depth - 1) as nat)
        }
    } else {
        past_close(text.drop_first(), depth)
    }
}

/// `past_close` hands back a part of its argument.
pub proof fn lemma_past_close_shorter(text: Seq<char>, depth: nat)
    ensures
        past_close(text, depth).len() <= text.len(),
    decreases text.len(),
{
    if text.len() > 0 {
        if text[0] == '[' {
            lemma_past_close_shorter(text.drop_first(), depth + 1);
        } else if text[0] == ']' {
            if depth > 0 {
                lemma_past_close_shorter(text.drop_first(), (depth - 1) as nat);
            }
        } else {
            lemma_past_close_shorter(text.drop_first(), depth);
        }
    }
}

/// Closing `inner + 1` levels and then `outer` more closes them all at once.
pub proof fn lemma_past_close_twice(text: Seq<char>, inner: nat, outer: nat)
    ensures
        past_close(past_close(text, inner), outer) == past_close(text, inner + 1 + outer),
    decreases text.len(),
{
    if text.len() > 0 {
        let rest = text.drop_first();
        if text[0] == '[' {
            lemma_past_close_twice(rest, inner + 1, outer);
        } else if text[0] == ']' {
            if inner > 0 {
                lemma_past_close_twice(rest, (inner - 1) as nat, outer);
            }
        } else {
            lemma_past_close_twice(rest, inner, outer);
        }
    }
}

/// The tree for `text` up to its end or to the first `]` that closes nothing
/// opened in `text`, with the instructions of `run` in front.
///
/// Instructions gather into one run until a `[`. The loop's body is the tree
/// for the text behind the `[`, and the loop is followed by the tree for the
/// text behind the matching `]`. Characters that are neither instructions
/// nor brackets are passed over.
pub open spec fn tree_of(text: Seq<char>, run: Seq<Operation>) -> Tree
    decreases text.len(),
{
    if text.len() == 0 {
        prefixed(run, Tree::End)
    } else {
        let rest = text.drop_first();
        match Operation::of_symbol(text[0]) {
            Some(operation) => tree_of(rest, run.push(operation)),
            None => if text[0] == '[' {
                proof {
                    lemma_past_close_shorter(rest, 0);
                }
                prefixed(
                    run,
                    Tree::Loop(
                        Box::new(tree_of(rest, Seq::empty())),
                        Box::new(tree_of(past_close(rest, 0), Seq::empty())),
                    ),
                )
            } else if text[0] == ']' {
                prefixed(run, Tree::End)
            } else {
                tree_of(rest, run)
            },
        }
    }
}

/// The tree of a whole program text.
pub open spec fn parse(text: Seq<char>) -> Tree {
    tree_of(text, Seq::empty())
}

/// The empty text is the end marker alone.
pub proof fn lemma_parse_empty()
    ensures
        parse(Seq::empty()) == Tree::End,
{
}

/// The text of one instruction is a run of that instruction, followed by the
/// end marker.
pub proof fn lemma_parse_single(operation: Operation)
    ensures
        parse(seq![operation.symbol()]) == Tree::Run(seq![operation], Box::new(Tree::End)),
{
    let text = seq![operation.symbol()];
    let run = Seq::<Operation>::empty().push(operation);
    assert(Operation::of_symbol(text[0]) == Some(operation));
    assert(text.drop_first().len() == 0);
    assert(tree_of(text.drop_first(), run) == prefixed(run, Tree::End));
    assert(run =~= seq![operation]);
}

/// The parser never builds an empty run.
pub proof fn lemma_tree_of_runs_nonempty(text: Seq<char>, run: Seq<Operation>)
    ensures
        tree_of(text, run).runs_nonempty(),
    decreases text.len(),
{
    reveal_with_fuel(Tree::runs_nonempty, 2);
    if text.len() > 0 {
        let rest = text.drop_first();
        match Operation::of_symbol(text[0]) {
            Some(operation) => lemma_tree_of_runs_nonempty(rest, run.push(operation)),
            None => if text[0] == '[' {
                lemma_past_close_shorter(rest, 0);
                lemma_tree_of_runs_nonempty(rest, Seq::empty());
                lemma_tree_of_runs_nonempty(past_close(rest, 0), Seq::empty());
            } else if text[0] != ']' {
                lemma_tree_of_runs_nonempty(rest, run);
            },
        }
    }
}

impl AST {
    /// Puts a run in front of a tree, unless the run is empty.
    pub fn box_if_not_empty(ops: Vec<Operation>, ast: AST) -> (tree: AST)
        ensures
            tree@ == prefixed(ops@, ast@),
    {
        if ops.len() != 0 {
            AST::Instructions(ops, Box::new(ast))
        } else {
            ast
        }
    }

    /// Parses one level of the program. The flag says that the text ran out
    /// before a closing bracket was met, so that nothing is left to parse.
    fn parse_level(program: &mut Chars) -> (parsed: (AST, bool))
        requires
            (*old(program)).decrease() is Some,
        ensures
            parsed.0@ == parse((*old(program)).remaining()),
            parsed.0@.runs_nonempty(),
            (*final(program)).remaining() == past_close((*old(program)).remaining(), 0),
            (*final(program)).decrease() is Some,
            parsed.1 ==> (*final(program)).remaining().len() == 0,
            !parsed.1 ==> (*final(program)).decrease()->0 < (*old(program)).decrease()->0,
        decreases (*old(program)).decrease()->0,
    {
        broadcast use vstd::string::group_string_axioms;

        let ghost start = (*program).remaining();
        let mut operations_vec: Vec<Operation> = Vec::new();
        let mut exhausted = false;
        proof {
            lemma_tree_of_runs_nonempty(start, Seq::empty());
        }
        loop
            invariant_except_break
                tree_of((*program).remaining(), operations_vec@) == parse(start),
                past_close((*program).remaining(), 0) == past_close(start, 0),
                (*program).decrease()->0 <= (*old(program)).decrease()->0,
                !exhausted,
            invariant
                start == (*old(program)).remaining(),
                parse(start).runs_nonempty(),
                (*program).decrease() is Some,
            ensures
                prefixed(operations_vec@, Tree::End) == parse(start),
                (*program).remaining() == past_close(start, 0),
                exhausted ==> (*program).remaining().len() == 0,
                !exhausted ==> (*program).decrease()->0 < (*old(program)).decrease()->0,
            decreases (*program).decrease()->0,
        {
            let ghost text = (*program).remaining();
            match program.next() {
                None => {
                    exhausted = true;
                    break ;
                },
                Some(instr) => {
                    if let Some(operation) = Operation::from(instr) {
                        operations_vec.push(operation);
                    } else if instr == '[' {
                        proof {
                            lemma_past_close_twice(text.drop_first(), 0, 0);
                        }
                        let (body, body_exhausted) = AST::parse_level(program);
                        let (next, next_exhausted) = if body_exhausted {
                            (AST::EOF, true)
                        } else {
                            AST::parse_level(program)
                        };
                        let whole = AST::Loop(Box::new(body), Box::new(next));
                        assert(tree_of(text, operations_vec@) == prefixed(operations_vec@, whole@)) by {
                            assert(next@ == parse(past_close(text.drop_first(), 0)));
                            assert(whole@ == Tree::Loop(Box::new(body@), Box::new(next@)));
                        }
                        return (AST::box_if_not_empty(operations_vec, whole), next_exhausted);
                    } else if instr == ']' {
                        break ;
                    }
                },
            }
        }
        (AST::box_if_not_empty(operations_vec, AST::EOF), exhausted)
    }

    /// Parses from the iterator's position up to the end of the text or to
    /// the first `]` that closes nothing opened on the way, and leaves the
    /// iterator behind that `]`.
    ///
    /// The iterator has to come with a measure by which it runs out, as
    /// every iterator from `str::chars` does.
    pub fn from(program: &mut Chars) -> (tree: AST)
        requires
            (*old(program)).decrease() is Some,
        ensures
            tree@ == parse((*old(program)).remaining()),
            tree@.runs_nonempty(),
            (*final(program)).remaining() == past_close((*old(program)).remaining(), 0),
            (*final(program)).decrease() is Some,
    {
        AST::parse_level(program).0
    }

    /// Parses a whole program text.
    pub fn from_string(program: String) -> (tree: AST)
        ensures
            tree@ == parse(program@),
            tree@.runs_nonempty(),
    {
        broadcast use vstd::string::group_string_axioms;

        let mut chars = program.as_str().chars();
        AST::from(&mut chars)
    }
}

} // verus!
