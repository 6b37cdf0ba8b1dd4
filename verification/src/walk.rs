//! A program executed one step at a time, for a caller that feeds input and
//! takes output away between the steps.

use crate::ast::{Tree, AST};
use crate::channels::Channels;
use crate::machine::MachineState;
use crate::operation::Operation;
use crate::semantics::{execute, lemma_budget_never_grows, step, steps, Outcome, World};
use vstd::prelude::*;

verus! {

/// A place in a program: a tree, and how many instructions of the run at its
/// head are done.
pub struct Position {
    pub tree: Tree,
    pub done: nat,
}

impl Position {
    /// The start of a tree.
    pub open spec fn at(tree: Tree) -> Position {
        Position { tree, done: 0 }
    }

    /// What is left to execute from this place.
    pub open spec fn rest(self) -> Tree {
        match self.tree {
            Tree::Run(run, next) => if self.done < run.len() {
                Tree::Run(run.skip(self.done as int), next)
            } else {
                *next
            },
            _ => self.tree,
        }
    }
}

/// What one step leads to.
pub struct Advance {
    /// The places still to go on from, the current one last.
    pub frames: Seq<Position>,
    pub world: World,
    /// The step entered a loop body, which is one repetition.
    pub repeated: bool,
}

/// One step from the last of `frames`.
///
/// In a run, the step executes the next instruction, or goes on behind the
/// run when none is left. At a loop, it looks at the current cell: at zero
/// it goes on behind the loop; otherwise it enters the body and keeps the
/// loop to come back to. At the end marker, it goes back to the frame
/// below. With no frame left, nothing happens.
pub open spec fn advance(frames: Seq<Position>, world: World) -> Advance {
    if frames.len() == 0 {
        Advance { frames, world, repeated: false }
    } else {
        let top = frames.last();
        let below = frames.drop_last();
        match top.tree {
            Tree::Run(run, next) => if top.done < run.len() {
                Advance {
                    frames: below.push(Position { tree: top.tree, done: top.done + 1 }),
                    world: step(run[top.done as int], world),
                    repeated: false,
                }
            } else {
                Advance { frames: below.push(Position::at(*next)), world, repeated: false }
            },
            Tree::Loop(body, next) => if world.tape.current() != 0 {
                Advance { frames: frames.push(Position::at(*body)), world, repeated: true }
            } else {
                Advance { frames: below.push(Position::at(*next)), world, repeated: false }
            },
            Tree::End => Advance { frames: below, world, repeated: false },
        }
    }
}

/// The instruction that the next step executes, if it executes one.
pub open spec fn pending_operation(frames: Seq<Position>) -> Option<Operation> {
    if frames.len() == 0 {
        None
    } else {
        match frames.last().tree {
            Tree::Run(run, next) => if frames.last().done < run.len() {
                Some(run[frames.last().done as int])
            } else {
                None
            },
            _ => None,
        }
    }
}

/// The outcome of executing what is left from each of `frames`, the last
/// one first, with at most `budget` loop repetitions.
pub open spec fn resume(frames: Seq<Position>, world: World, budget: nat) -> Outcome
    decreases frames.len(),
{
    if frames.len() == 0 {
        Outcome { world, budget: Some(budget) }
    } else {
        let top = execute(frames.last().rest(), world, budget);
        match top.budget {
            Some(left) => resume(frames.drop_last(), top.world, left),
            None => top,
        }
    }
}

/// From the start of a tree, what is left is the whole tree.
pub proof fn lemma_resume_from_start(tree: Tree, world: World, budget: nat)
    ensures
        resume(seq![Position::at(tree)], world, budget) == execute(tree, world, budget),
{
    lemma_rest_at_start(tree, world, budget);
    let frames = seq![Position::at(tree)];
    assert(frames.drop_last() =~= Seq::<Position>::empty());
    let top = execute(frames.last().rest(), world, budget);
    if let Some(left) = top.budget {
        assert(resume(frames.drop_last(), top.world, left) == top);
    }
}

/// Executing what is left at the start of a tree is executing the tree.
proof fn lemma_rest_at_start(tree: Tree, world: World, budget: nat)
    ensures
        execute(Position::at(tree).rest(), world, budget) == execute(tree, world, budget),
{
    match tree {
        Tree::Run(run, next) => {
            if run.len() > 0 {
                assert(run.skip(0) =~= run);
            }
        },
        _ => {},
    }
}

/// One step costs one repetition if it enters a loop body and none if not,
/// and leaves the outcome of the execution as it was.
pub proof fn lemma_advance_keeps_outcome(frames: Seq<Position>, world: World, budget: nat)
    requires
        advance(frames, world).repeated ==> budget > 0,
    ensures
        ({
            let next = advance(frames, world);
            let cost: nat = if next.repeated {
                1
            } else {
                0
            };
            resume(next.frames, next.world, (budget - cost) as nat) == resume(
                frames,
                world,
                budget,
            )
        }),
{
    if frames.len() > 0 {
        let top = frames.last();
        let below = frames.drop_last();
        let next = advance(frames, world);
        match top.tree {
            Tree::Run(run, after) => {
                assert(next.frames.drop_last() =~= below);
                if top.done < run.len() {
                    // What is left of the run starts with the instruction
                    // that the step executes.
                    let left = run.skip(top.done as int);
                    assert(left.drop_first() =~= run.skip((top.done + 1) as int));
                    assert(steps(left, world) == steps(left.drop_first(), next.world));
                    assert(execute(next.frames.last().rest(), next.world, budget) == execute(
                        top.rest(),
                        world,
                        budget,
                    ));
                } else {
                    lemma_rest_at_start(*after, world, budget);
                }
            },
            Tree::Loop(body, after) => {
                if world.tape.current() != 0 {
                    // The body once, and then the loop again with what the
                    // body left of the budget.
                    let rest_budget = (budget - 1) as nat;
                    let once = execute(*body, world, rest_budget);
                    assert(next.frames.drop_last() =~= frames);
                    lemma_rest_at_start(*body, world, rest_budget);
                    lemma_budget_never_grows(*body, world, rest_budget);
                    match once.budget {
                        Some(left) => {
                            assert(execute(top.rest(), world, budget) == execute(
                                top.rest(),
                                once.world,
                                left,
                            ));
                            assert(resume(next.frames, world, rest_budget) == resume(
                                frames,
                                once.world,
                                left,
                            ));
                        },
                        None => {
                            assert(execute(top.rest(), world, budget) == once);
                            assert(resume(next.frames, world, rest_budget) == once);
                        },
                    }
                } else {
                    assert(next.frames.drop_last() =~= below);
                    lemma_rest_at_start(*after, world, budget);
                }
            },
            Tree::End => {},
        }
    }
}

/// Where a number of steps leads to, and what they cost.
pub struct Progress {
    pub frames: Seq<Position>,
    pub world: World,
    /// How many of the steps entered a loop body.
    pub repetitions: nat,
}

/// `count` steps from the last of `frames`.
pub open spec fn progress(frames: Seq<Position>, world: World, count: nat) -> Progress
    decreases count,
{
    if count == 0 {
        Progress { frames, world, repetitions: 0 }
    } else {
        let first = advance(frames, world);
        let then = progress(first.frames, first.world, (count - 1) as nat);
        Progress {
            repetitions: then.repetitions + if first.repeated {
                1nat
            } else {
                0nat
            },
            ..then
        }
    }
}

/// Steps that the budget pays for leave the outcome of the execution as it
/// was.
pub proof fn lemma_progress_keeps_outcome(
    frames: Seq<Position>,
    world: World,
    count: nat,
    budget: nat,
)
    requires
        progress(frames, world, count).repetitions <= budget,
    ensures
        ({
            let reached = progress(frames, world, count);
            resume(reached.frames, reached.world, (budget - reached.repetitions) as nat)
                == resume(frames, world, budget)
        }),
    decreases count,
{
    if count > 0 {
        let first = advance(frames, world);
        let cost: nat = if first.repeated {
            1
        } else {
            0
        };
        lemma_advance_keeps_outcome(frames, world, budget);
        lemma_progress_keeps_outcome(
            first.frames,
            first.world,
            (count - 1) as nat,
            (budget - cost) as nat,
        );
    }
}

/// When the steps from the start of a tree leave no frame, they have done
/// what executing the tree does, for the repetitions that they took.
pub proof fn lemma_steps_execute_the_tree(tree: Tree, world: World, count: nat, budget: nat)
    requires
        progress(seq![Position::at(tree)], world, count).frames.len() == 0,
        progress(seq![Position::at(tree)], world, count).repetitions <= budget,
    ensures
        ({
            let reached = progress(seq![Position::at(tree)], world, count);
            execute(tree, world, budget) == (Outcome {
                world: reached.world,
                budget: Some((budget - reached.repetitions) as nat),
            })
        }),
{
    lemma_progress_keeps_outcome(seq![Position::at(tree)], world, count, budget);
    lemma_resume_from_start(tree, world, budget);
}

/// A place in a program that is being executed.
struct Frame<'a> {
    node: &'a AST,
    done: usize,
}

impl<'a> View for Frame<'a> {
    type V = Position;

    closed spec fn view(&self) -> Position {
        Position { tree: (*self.node)@, done: self.done as nat }
    }
}

/// The execution of a program, step by step.
pub struct Walk<'a> {
    frames: Vec<Frame<'a>>,
}

impl<'a> View for Walk<'a> {
    type V = Seq<Position>;

    closed spec fn view(&self) -> Seq<Position> {
        self.frames@.map_values(|frame: Frame<'a>| frame@)
    }
}

impl<'a> Walk<'a> {
    /// An execution at the start of `program`.
    pub fn new(program: &'a AST) -> (walk: Walk<'a>)
        ensures
            walk@ == seq![Position::at(program@)],
    {
        let mut frames: Vec<Frame<'a>> = Vec::new();
        frames.push(Frame { node: program, done: 0 });
        let walk = Walk { frames };
        assert(walk@ =~= seq![Position::at(program@)]);
        walk
    }

    /// Whether the execution has come to the end of the program.
    pub fn is_finished(&self) -> (finished: bool)
        ensures
            finished == (self@.len() == 0),
    {
        self.frames.len() == 0
    }

    /// The instruction that the next step executes, if it executes one.
    pub fn next_operation(&self) -> (operation: Option<Operation>)
        ensures
            operation == pending_operation(self@),
    {
        let count = self.frames.len();
        if count == 0 {
            return None;
        }
        let frame = &self.frames[count - 1];
        match frame.node {
            AST::Instructions(operations, _) => {
                if frame.done < operations.len() {
                    Some(operations[frame.done])
                } else {
                    None
                }
            },
            _ => None,
        }
    }

    /// Whether the next step reads a byte while none is waiting.
    pub fn awaits_input(&self, io: &Channels) -> (awaits: bool)
        ensures
            awaits == (pending_operation(self@) == Some(Operation::Read) && io@.input.len() == 0),
    {
        match self.next_operation() {
            Some(Operation::Read) => !io.has_input(),
            _ => false,
        }
    }

    /// Takes one step, and says whether it entered a loop body.
    pub fn step(&mut self, machine: &mut MachineState, io: &mut Channels) -> (repeated: bool)
        requires
            old(machine)@.valid(),
        ensures
            advance(old(self)@, World { tape: old(machine)@, streams: old(io)@ }) == (Advance {
                frames: final(self)@,
                world: World { tape: final(machine)@, streams: final(io)@ },
                repeated,
            }),
            final(machine)@.valid(),
    {
        let ghost before = self@;
        match self.frames.pop() {
            None => false,
            Some(frame) => {
                assert(self@ =~= before.drop_last());
                assert(frame@ == before.last());
                match frame.node {
                    AST::Instructions(operations, next) => {
                        if frame.done < operations.len() {
                            machine.apply(&operations[frame.done], io);
                            self.frames.push(Frame { node: frame.node, done: frame.done + 1 });
                            assert(self@ =~= before.drop_last().push(
                                Position { tree: before.last().tree, done: before.last().done + 1 },
                            ));
                        } else {
                            self.frames.push(Frame { node: next, done: 0 });
                            assert(self@ =~= before.drop_last().push(Position::at((**next)@)));
                        }
                        false
                    },
                    AST::Loop(body, next) => {
                        if machine.get_current() != 0 {
                            self.frames.push(frame);
                            self.frames.push(Frame { node: body, done: 0 });
                            assert(self@ =~= before.push(Position::at((**body)@)));
                            true
                        } else {
                            self.frames.push(Frame { node: next, done: 0 });
                            assert(self@ =~= before.drop_last().push(Position::at((**next)@)));
                            false
                        }
                    },
                    AST::EOF => false,
                }
            },
        }
    }
}

} // verus!
