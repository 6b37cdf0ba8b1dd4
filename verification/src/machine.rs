//! The machine: a tape of byte cells and a pointer to the current one.

use crate::ast::AST;
use crate::channels::Channels;
use crate::dump::{append_cell, append_line_break, cells_text, ROW_CELLS};
use crate::operation::{Computation, Direction, Operation};
use crate::semantics::{execute, lemma_budget_never_grows, step, steps, World};
use vstd::prelude::*;

verus! {

/// The mathematical form of the machine.
pub struct Tape {
    /// The index of the current cell.
    pub pointer: nat,
    /// The cells, from the origin to the rightmost one reached so far.
    pub cells: Seq<u8>,
}

impl Tape {
    /// The pointer is on a cell of the tape.
    pub open spec fn valid(self) -> bool {
        self.pointer < self.cells.len()
    }

    /// A single zero cell, with the pointer on it.
    pub open spec fn initial() -> Tape {
        Tape { pointer: 0, cells: seq![0u8] }
    }

    /// The value of the current cell.
    pub open spec fn current(self) -> u8 {
        self.cells[self.pointer as int]
    }

    /// The tape with `value` in the current cell.
    pub open spec fn stored(self, value: u8) -> Tape {
        Tape { cells: self.cells.update(self.pointer as int, value), ..self }
    }

    /// The tape after a move. To the left, the pointer stops at the origin.
    /// To the right, the tape gains a zero cell when the pointer leaves the
    /// last one.
    pub open spec fn moved(self, direction: Direction) -> Tape {
        match direction {
            Direction::Left => if self.pointer == 0 {
                self
            } else {
                Tape { pointer: (self.pointer - 1) as nat, ..self }
            },
            Direction::Right => Tape {
                pointer: self.pointer + 1,
                cells: if self.pointer + 1 == self.cells.len() {
                    self.cells.push(0u8)
                } else {
                    self.cells
                },
            },
        }
    }

    /// The tape after the current cell was changed by one, modulo 256.
    pub open spec fn changed(self, computation: Computation) -> Tape {
        match computation {
            Computation::Add => self.stored(((self.current() + 1) % 256) as u8),
            Computation::Substract => self.stored(((self.current() + 255) % 256) as u8),
        }
    }
}

/// Adding one to a cell at 255 gives 0, and taking one from a cell at 0
/// gives 255.
pub proof fn lemma_change_wraps(tape: Tape)
    requires
        tape.valid(),
    ensures
        tape.current() == 255 ==> tape.changed(Computation::Add).current() == 0,
        tape.current() == 0 ==> tape.changed(Computation::Substract).current() == 255,
        tape.current() < 255 ==> tape.changed(Computation::Add).current() == tape.current() + 1,
        tape.current() > 0 ==> tape.changed(Computation::Substract).current() == tape.current()
            - 1,
{
}

/// A change touches the current cell only, and adding one undoes taking one.
pub proof fn lemma_change_is_local(tape: Tape, computation: Computation)
    requires
        tape.valid(),
    ensures
        tape.changed(computation).pointer == tape.pointer,
        tape.changed(computation).cells.len() == tape.cells.len(),
        forall|i: int|
            0 <= i < tape.cells.len() && i != tape.pointer ==> tape.changed(computation).cells[i]
                == tape.cells[i],
        tape.changed(Computation::Add).changed(Computation::Substract) == tape,
        tape.changed(Computation::Substract).changed(Computation::Add) == tape,
{
    assert(tape.changed(Computation::Add).changed(Computation::Substract).cells =~= tape.cells);
    assert(tape.changed(Computation::Substract).changed(Computation::Add).cells =~= tape.cells);
}

/// A move to the left from the origin changes nothing.
pub proof fn lemma_move_left_at_origin(tape: Tape)
    requires
        tape.pointer == 0,
    ensures
        tape.moved(Direction::Left) == tape,
{
}

/// A move to the right from the last cell adds exactly one zero cell behind
/// the others, which stay as they are; from any other cell it adds none.
pub proof fn lemma_move_right_grows_by_one(tape: Tape)
    requires
        tape.valid(),
    ensures
        tape.moved(Direction::Right).pointer == tape.pointer + 1,
        tape.moved(Direction::Right).valid(),
        tape.pointer + 1 == tape.cells.len() ==> tape.moved(Direction::Right).cells
            == tape.cells.push(0u8),
        tape.pointer + 1 < tape.cells.len() ==> tape.moved(Direction::Right).cells == tape.cells,
        forall|i: int|
            0 <= i < tape.cells.len() ==> tape.moved(Direction::Right).cells[i] == tape.cells[i],
{
}

/// Why a run stopped before the end of the program.
#[derive(Debug, PartialEq, Eq, Clone, Copy, Structural)]
pub enum RunError {
    /// A loop wanted one more repetition than the budget allowed.
    BudgetExhausted,
}

/// The pointer and the tape of a running program.
pub struct MachineState {
    pointer: usize,
    memory: Vec<u8>,
}

impl View for MachineState {
    type V = Tape;

    closed spec fn view(&self) -> Tape {
        Tape { pointer: self.pointer as nat, cells: self.memory@ }
    }
}

impl vstd::std_specs::core::IndexSpecImpl<usize> for MachineState {
    open spec fn index_req(&self, index: &usize) -> bool {
        *index < self@.cells.len()
    }
}

impl std::ops::Index<usize> for MachineState {
    type Output = u8;

    /// The cell at `index`.
    fn index(&self, index: usize) -> (cell: &u8)
        ensures
            *cell == self@.cells[index as int],
    {
        &self.memory[index]
    }
}

impl MachineState {
    /// A machine with one zero cell and the pointer on it.
    pub fn new() -> (machine: MachineState)
        ensures
            machine@ == Tape::initial(),
    {
        let machine = MachineState { pointer: 0, memory: vec![0] };
        assert(machine.memory@ =~= seq![0u8]);
        machine
    }

    /// The index of the current cell.
    pub fn pointer(&self) -> (index: usize)
        ensures
            index == self@.pointer,
    {
        self.pointer
    }

    /// The cells of the tape.
    pub fn memory(&self) -> (cells: &Vec<u8>)
        ensures
            cells@ == self@.cells,
    {
        &self.memory
    }

    /// The value of the current cell.
    pub fn get_current(&self) -> (value: u8)
        requires
            self@.valid(),
        ensures
            value == self@.current(),
    {
        self.memory[self.pointer]
    }

    /// Moves the pointer one cell.
    pub fn pointer_move(&mut self, direction: &Direction)
        requires
            old(self)@.valid(),
        ensures
            final(self)@ == old(self)@.moved(*direction),
            final(self)@.valid(),
    {
        match direction {
            Direction::Left => {
                if self.pointer != 0 {
                    self.pointer -= 1;
                }
            },
            Direction::Right => {
                let length = self.memory.len();
                self.pointer += 1;
                if self.pointer == length {
                    self.memory.push(0u8);
                }
            },
        };
    }

    /// Adds one to the current cell or takes one from it, modulo 256.
    pub fn change(&mut self, operation: &Computation)
        requires
            old(self)@.valid(),
        ensures
            final(self)@ == old(self)@.changed(*operation),
            final(self)@.valid(),
    {
        let pointer = self.pointer;
        match operation {
            Computation::Add => {
                if self.get_current() == 255 {
                    self.memory[pointer] = 0;
                } else {
                    self.memory[pointer] += 1;
                }
            },
            Computation::Substract => {
                if self.get_current() == 0 {
                    self.memory[pointer] = 255;
                } else {
                    self.memory[pointer] -= 1;
                }
            },
        }
    }

    /// The snapshot of the tape: each cell as two hexadecimal digits, the
    /// current cell marked, the cells in rows.
    pub fn to_string(&self) -> (text: String)
        requires
            self@.valid(),
        ensures
            text@ == self@.dump(),
    {
        let mut text = String::new();
        let mut index: usize = 0;
        while index < self.memory.len()
            invariant
                index <= self.memory.len(),
                text@ == cells_text(self@, index as nat),
            decreases self.memory.len() - index,
        {
            append_cell(&mut text, self.memory[index], index == self.pointer);
            index += 1;
            if index % ROW_CELLS == 0 {
                append_line_break(&mut text);
            } else {
                assert(text@ + Seq::<char>::empty() =~= text@);
            }
        }
        text
    }

    /// Prints the current cell.
    pub fn print(&self, io: &mut Channels)
        requires
            self@.valid(),
        ensures
            final(io)@ == old(io)@.written(self@.current()),
    {
        io.write(self.get_current());
    }

    /// Stores the next input byte in the current cell. Without input the
    /// cell keeps its value.
    pub fn read(&mut self, io: &mut Channels)
        requires
            old(self)@.valid(),
        ensures
            final(self)@ == if old(io)@.input.len() > 0 {
                old(self)@.stored(old(io)@.input[0])
            } else {
                old(self)@
            },
            final(self)@.valid(),
            final(io)@ == old(io)@.consumed(),
    {
        if let Some(byte) = io.take() {
            let pointer = self.pointer;
            self.memory[pointer] = byte;
        }
    }

    /// Executes one instruction and hands back the tape.
    pub fn apply(&mut self, instr: &Operation, io: &mut Channels) -> (memory: &Vec<u8>)
        requires
            old(self)@.valid(),
        ensures
            (World { tape: final(self)@, streams: final(io)@ }) == step(
                *instr,
                World { tape: old(self)@, streams: old(io)@ },
            ),
            final(self)@.valid(),
            memory@ == final(self)@.cells,
    {
        match instr {
            Operation::Move(dir) => {
                self.pointer_move(dir);
            },
            Operation::Change(op) => {
                self.change(op);
            },
            Operation::Print => {
                self.print(io);
            },
            Operation::Read => {
                self.read(io);
            },
            Operation::Debug => {
                let mut snapshot = self.to_string();
                append_line_break(&mut snapshot);
                io.report(snapshot.as_str());
            },
        }
        &self.memory
    }

    /// Walks the tree with at most `budget` loop repetitions. Hands back the
    /// repetitions that are left, or `None` where a loop wanted one more.
    fn walk(&mut self, instructions: &AST, io: &mut Channels, budget: u64) -> (left: Option<u64>)
        requires
            old(self)@.valid(),
        ensures
            ({
                let outcome = execute(
                    instructions@,
                    World { tape: old(self)@, streams: old(io)@ },
                    budget as nat,
                );
                &&& final(self)@ == outcome.world.tape
                &&& final(io)@ == outcome.world.streams
                &&& match left {
                    Some(rest) => outcome.budget == Some(rest as nat),
                    None => outcome.budget is None,
                }
            }),
            final(self)@.valid(),
            left matches Some(rest) ==> rest <= budget,
        decreases budget, instructions,
    {
        let ghost start = World { tape: self@, streams: io@ };
        match instructions {
            AST::Instructions(operations, next) => {
                let mut done: usize = 0;
                assert(operations@.skip(0) =~= operations@);
                while done < operations.len()
                    invariant
                        done <= operations.len(),
                        self@.valid(),
                        steps(operations@.skip(done as int), World { tape: self@, streams: io@ })
                            == steps(operations@, start),
                    decreases operations.len() - done,
                {
                    assert(operations@.skip(done as int).drop_first() =~= operations@.skip(
                        done + 1,
                    ));
                    self.apply(&operations[done], io);
                    done += 1;
                }
                self.walk(next, io, budget)
            },
            AST::Loop(body, next) => {
                let mut remaining = budget;
                while self.get_current() != 0
                    invariant
                        self@.valid(),
                        remaining <= budget,
                        start == (World { tape: old(self)@, streams: old(io)@ }),
                        instructions@ == crate::ast::Tree::Loop(Box::new((**body)@), Box::new((**next)@)),
                        execute(
                            instructions@,
                            World { tape: self@, streams: io@ },
                            remaining as nat,
                        ) == execute(instructions@, start, budget as nat),
                    decreases remaining,
                {
                    if remaining == 0 {
                        return None;
                    }
                    proof {
                        lemma_budget_never_grows(
                            (**body)@,
                            World { tape: self@, streams: io@ },
                            (remaining - 1) as nat,
                        );
                    }
                    match self.walk(body, io, remaining - 1) {
                        Some(rest) => {
                            remaining = rest;
                        },
                        None => {
                            return None;
                        },
                    }
                }
                self.walk(next, io, remaining)
            },
            AST::EOF => Some(budget),
        }
    }

    /// Runs a program with at most `budget` loop repetitions, and hands back
    /// the tape if the program came to its end.
    pub fn run(&mut self, instructions: &AST, io: &mut Channels, budget: u64) -> (result: Result<
        &Vec<u8>,
        RunError,
    >)
        requires
            old(self)@.valid(),
        ensures
            ({
                let outcome = execute(
                    instructions@,
                    World { tape: old(self)@, streams: old(io)@ },
                    budget as nat,
                );
                &&& final(self)@ == outcome.world.tape
                &&& final(io)@ == outcome.world.streams
                &&& match result {
                    Ok(memory) => outcome.budget is Some && memory@ == outcome.world.tape.cells,
                    Err(error) => outcome.budget is None && error == RunError::BudgetExhausted,
                }
            }),
            final(self)@.valid(),
    {
        match self.walk(instructions, io, budget) {
            Some(_) => Ok(&self.memory),
            None => Err(RunError::BudgetExhausted),
        }
    }
}

} // verus!
