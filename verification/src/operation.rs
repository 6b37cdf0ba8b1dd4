//! The seven instructions of the language and their one-character forms.

use vstd::prelude::*;

verus! {

/// Which way the pointer moves.
#[derive(Debug, PartialEq, Eq, Clone, Copy, Structural)]
pub enum Direction {
    Left,
    Right,
}

/// What happens to the current cell.
#[derive(Debug, PartialEq, Eq, Clone, Copy, Structural)]
pub enum Computation {
    Add,
    Substract,
}

/// One instruction.
#[derive(Debug, PartialEq, Eq, Clone, Copy, Structural)]
pub enum Operation {
    Move(Direction),
    Change(Computation),
    Print,
    Read,
    Debug,
}

impl Operation {
    /// The character that stands for this instruction.
    pub open spec fn symbol(self) -> char {
        match self {
            Operation::Move(Direction::Right) => '>',
            Operation::Move(Direction::Left) => '<',
            Operation::Change(Computation::Add) => '+',
            Operation::Change(Computation::Substract) => '-',
            Operation::Print => '.',
            Operation::Read => ',',
            Operation::Debug => '#',
        }
    }

    /// The instruction that a character stands for, if it stands for one.
    pub open spec fn of_symbol(c: char) -> Option<Operation> {
        if c == '>' {
            Some(Operation::Move(Direction::Right))
        } else if c == '<' {
            Some(Operation::Move(Direction::Left))
        } else if c == '+' {
            Some(Operation::Change(Computation::Add))
        } else if c == '-' {
            Some(Operation::Change(Computation::Substract))
        } else if c == '.' {
            Some(Operation::Print)
        } else if c == ',' {
            Some(Operation::Read)
        } else if c == '#' {
            Some(Operation::Debug)
        } else {
            None
        }
    }

    pub fn value(&self) -> (c: char)
        ensures
            c == self.symbol(),
    {
        match self {
            Self::Move(Direction::Right) => '>',
            Self::Move(Direction::Left) => '<',
            Self::Change(Computation::Add) => '+',
            Self::Change(Computation::Substract) => '-',
            Self::Print => '.',
            Self::Read => ',',
            Self::Debug => '#',
        }
    }

    /// The instruction's character as a string.
    pub fn as_str(&self) -> (text: &'static str)
        ensures
            text@ == seq![self.symbol()],
    {
        proof {
            reveal_strlit(">");
            reveal_strlit("<");
            reveal_strlit("+");
            reveal_strlit("-");
            reveal_strlit(".");
            reveal_strlit(",");
            reveal_strlit("#");
        }
        let text = match self {
            Self::Move(Direction::Right) => ">",
            Self::Move(Direction::Left) => "<",
            Self::Change(Computation::Add) => "+",
            Self::Change(Computation::Substract) => "-",
            Self::Print => ".",
            Self::Read => ",",
            Self::Debug => "#",
        };
        assert(text@ =~= seq![self.symbol()]);
        text
    }

    pub fn from(instr: char) -> (op: Option<Operation>)
        ensures
            op == Operation::of_symbol(instr),
    {
        match instr {
            '>' => Some(Self::Move(Direction::Right)),
            '<' => Some(Self::Move(Direction::Left)),
            '+' => Some(Self::Change(Computation::Add)),
            '-' => Some(Self::Change(Computation::Substract)),
            '.' => Some(Self::Print),
            ',' => Some(Self::Read),
            '#' => Some(Self::Debug),
            _ => None,
        }
    }
}

/// Every instruction is read back from its own character.
pub proof fn lemma_symbol_round_trip(op: Operation)
    ensures
        Operation::of_symbol(op.symbol()) == Some(op),
{
}

/// A character that stands for an instruction is that instruction's character.
pub proof fn lemma_of_symbol_inverse(c: char)
    requires
        Operation::of_symbol(c) is Some,
    ensures
        Operation::of_symbol(c)->0.symbol() == c,
{
}

} // verus!
