//! What a program does: the effect of one instruction, of a run of
//! instructions, and of a whole tree within a budget of loop repetitions.

use crate::ast::Tree;
use crate::channels::Streams;
use crate::machine::Tape;
use crate::operation::Operation;
use vstd::prelude::*;

verus! {

/// Everything that a running program can change.
pub struct World {
    pub tape: Tape,
    pub streams: Streams,
}

/// The world after one instruction.
///
/// Reading without input leaves the cell as it is. The snapshot for the
/// diagnostic channel ends with a line break.
pub open spec fn step(operation: Operation, world: World) -> World {
    match operation {
        Operation::Move(direction) => World { tape: world.tape.moved(direction), ..world },
        Operation::Change(computation) => World { tape: world.tape.changed(computation), ..world },
        Operation::Print => World {
            streams: world.streams.written(world.tape.current()),
            ..world
        },
        Operation::Read => World {
            tape: if world.streams.input.len() > 0 {
                world.tape.stored(world.streams.input[0])
            } else {
                world.tape
            },
            streams: world.streams.consumed(),
        },
        Operation::Debug => World {
            streams: world.streams.reported(world.tape.dump() + seq!['\n']),
            ..world
        },
    }
}

/// The world after the instructions of a run, first to last.
pub open spec fn steps(run: Seq<Operation>, world: World) -> World
    decreases run.len(),
{
    if run.len() == 0 {
        world
    } else {
        steps(run.drop_first(), step(run[0], world))
    }
}

/// How an execution ended.
pub struct Outcome {
    /// The world where the execution stopped.
    pub world: World,
    /// The repetitions still allowed, or `None` if the execution stopped
    /// because a loop wanted one more than the budget allowed.
    pub budget: Option<nat>,
}

/// The outcome of executing a tree with at most `budget` loop repetitions.
///
/// A run executes its instructions and goes on with what follows it. A loop
/// looks at the current cell before each repetition: at zero, the execution
/// goes on with what follows the loop; otherwise the body is executed once
/// more, which costs one repetition of the budget, and the execution stops
/// where no repetition is left.
pub open spec fn execute(tree: Tree, world: World, budget: nat) -> Outcome
    decreases budget, tree,
{
    match tree {
        Tree::Run(run, next) => execute(*next, steps(run, world), budget),
        Tree::Loop(body, next) => if world.tape.current() == 0 {
            execute(*next, world, budget)
        } else if budget == 0 {
            Outcome { world, budget: None }
        } else {
            let once = execute(*body, world, (budget - 1) as nat);
            match once.budget {
                // `lemma_budget_never_grows`: what is left is always below `budget`.
                Some(left) => if left < budget {
                    execute(tree, once.world, left)
                } else {
                    once
                },
                None => once,
            }
        },
        Tree::End => Outcome { world, budget: Some(budget) },
    }
}

/// An execution never hands back more repetitions than it was given.
pub proof fn lemma_budget_never_grows(tree: Tree, world: World, budget: nat)
    ensures
        execute(tree, world, budget).budget matches Some(left) ==> left <= budget,
    decreases budget, tree,
{
    match tree {
        Tree::Run(run, next) => lemma_budget_never_grows(*next, steps(run, world), budget),
        Tree::Loop(body, next) => if world.tape.current() == 0 {
            lemma_budget_never_grows(*next, world, budget);
        } else if budget > 0 {
            let once = execute(*body, world, (budget - 1) as nat);
            lemma_budget_never_grows(*body, world, (budget - 1) as nat);
            if let Some(left) = once.budget {
                lemma_budget_never_grows(tree, once.world, left);
            }
        },
        Tree::End => {},
    }
}

/// A loop whose governing cell reads zero is passed over: no repetition, no
/// change, and the execution goes on behind the loop.
pub proof fn lemma_loop_skipped(body: Tree, next: Tree, world: World, budget: nat)
    requires
        world.tape.current() == 0,
    ensures
        execute(Tree::Loop(Box::new(body), Box::new(next)), world, budget) == execute(
            next,
            world,
            budget,
        ),
{
}

/// The empty loop on a zero cell changes nothing and takes no repetition.
pub proof fn lemma_empty_loop_on_zero(world: World, budget: nat)
    requires
        world.tape.current() == 0,
    ensures
        execute(Tree::Loop(Box::new(Tree::End), Box::new(Tree::End)), world, budget) == (Outcome {
            world,
            budget: Some(budget),
        }),
{
    reveal_with_fuel(execute, 2);
}

/// A loop whose governing cell is not zero executes its body once and then
/// stands before the same loop again, with the cell looked at anew.
pub proof fn lemma_loop_repeated(body: Tree, next: Tree, world: World, budget: nat)
    requires
        world.tape.current() != 0,
        budget > 0,
    ensures
        ({
            let whole = Tree::Loop(Box::new(body), Box::new(next));
            let once = execute(body, world, (budget - 1) as nat);
            execute(whole, world, budget) == match once.budget {
                Some(left) => execute(whole, once.world, left),
                None => once,
            }
        }),
{
    lemma_budget_never_grows(body, world, (budget - 1) as nat);
}

/// An execution that ends within its budget ends in the same world with any
/// larger budget, and hands back what was added.
pub proof fn lemma_budget_to_spare(tree: Tree, world: World, budget: nat, more: nat)
    requires
        execute(tree, world, budget).budget is Some,
    ensures
        execute(tree, world, budget + more) == (Outcome {
            world: execute(tree, world, budget).world,
            budget: Some(execute(tree, world, budget).budget->0 + more),
        }),
    decreases budget, tree,
{
    match tree {
        Tree::Run(run, next) => lemma_budget_to_spare(*next, steps(run, world), budget, more),
        Tree::Loop(body, next) => if world.tape.current() == 0 {
            lemma_budget_to_spare(*next, world, budget, more);
        } else {
            let once = execute(*body, world, (budget - 1) as nat);
            let left = once.budget->0;
            lemma_budget_never_grows(*body, world, (budget - 1) as nat);
            lemma_budget_to_spare(*body, world, (budget - 1) as nat, more);
            lemma_budget_to_spare(tree, once.world, left, more);
        },
        Tree::End => {},
    }
}

/// One instruction leaves the pointer on the tape and takes no cell away.
pub proof fn lemma_step_keeps_tape(operation: Operation, world: World)
    requires
        world.tape.valid(),
    ensures
        step(operation, world).tape.valid(),
        step(operation, world).tape.cells.len() >= world.tape.cells.len(),
{
}

/// A run of instructions leaves the pointer on the tape and takes no cell
/// away.
pub proof fn lemma_steps_keep_tape(run: Seq<Operation>, world: World)
    requires
        world.tape.valid(),
    ensures
        steps(run, world).tape.valid(),
        steps(run, world).tape.cells.len() >= world.tape.cells.len(),
    decreases run.len(),
{
    if run.len() > 0 {
        lemma_step_keeps_tape(run[0], world);
        lemma_steps_keep_tape(run.drop_first(), step(run[0], world));
    }
}

/// Wherever an execution stops, the pointer is on the tape and no cell was
/// taken away.
pub proof fn lemma_execute_keeps_tape(tree: Tree, world: World, budget: nat)
    requires
        world.tape.valid(),
    ensures
        execute(tree, world, budget).world.tape.valid(),
        execute(tree, world, budget).world.tape.cells.len() >= world.tape.cells.len(),
    decreases budget, tree,
{
    match tree {
        Tree::Run(run, next) => {
            lemma_steps_keep_tape(run, world);
            lemma_execute_keeps_tape(*next, steps(run, world), budget);
        },
        Tree::Loop(body, next) => if world.tape.current() == 0 {
            lemma_execute_keeps_tape(*next, world, budget);
        } else if budget > 0 {
            let once = execute(*body, world, (budget - 1) as nat);
            lemma_execute_keeps_tape(*body, world, (budget - 1) as nat);
            if let Some(left) = once.budget {
                if left < budget {
                    lemma_execute_keeps_tape(tree, once.world, left);
                }
            }
        },
        Tree::End => {},
    }
}

} // verus!
