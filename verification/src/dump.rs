//! The text of a tape snapshot for the diagnostic channel.

use crate::machine::Tape;
use vstd::prelude::*;
use vstd::string::StringExecFns;

verus! {

/// How many cells a row of the snapshot holds.
pub const ROW_CELLS: usize = 15;

/// The upper-case hexadecimal digit for a value below sixteen.
pub open spec fn hex_digit(value: int) -> char {
    seq!['0', '1', '2', '3', '4', '5', '6', '7', '8', '9', 'A', 'B', 'C', 'D', 'E', 'F'][value]
}

/// One cell of the snapshot: a space, the value as two hexadecimal digits, a
/// space, a `<` if the pointer is on the cell and a space if not, and a
/// space.
pub open spec fn cell_text(value: u8, marked: bool) -> Seq<char> {
    seq![
        ' ',
        hex_digit(value as int / 16),
        hex_digit(value as int % 16),
        ' ',
        if marked {
            '<'
        } else {
            ' '
        },
        ' ',
    ]
}

/// The snapshot of the first `count` cells: the cells in order, with a line
/// break behind every full row.
pub open spec fn cells_text(tape: Tape, count: nat) -> Seq<char>
    decreases count,
{
    if count == 0 {
        Seq::empty()
    } else {
        let index = (count - 1) as nat;
        let cell = cell_text(tape.cells[index as int], index == tape.pointer);
        let row_end: Seq<char> = if count % (ROW_CELLS as nat) == 0 {
            seq!['\n']
        } else {
            Seq::empty()
        };
        cells_text(tape, index) + cell + row_end
    }
}

impl Tape {
    /// The snapshot of the whole tape.
    pub open spec fn dump(self) -> Seq<char> {
        cells_text(self, self.cells.len())
    }
}

/// The hexadecimal digit for `value` as a string.
fn hex_str(value: u8) -> (text: &'static str)
    requires
        value < 16,
    ensures
        text@ == seq![hex_digit(value as int)],
{
    proof {
        reveal_strlit("0");
        reveal_strlit("1");
        reveal_strlit("2");
        reveal_strlit("3");
        reveal_strlit("4");
        reveal_strlit("5");
        reveal_strlit("6");
        reveal_strlit("7");
        reveal_strlit("8");
        reveal_strlit("9");
        reveal_strlit("A");
        reveal_strlit("B");
        reveal_strlit("C");
        reveal_strlit("D");
        reveal_strlit("E");
        reveal_strlit("F");
    }
    let text = match value {
        0 => "0",
        1 => "1",
        2 => "2",
        3 => "3",
        4 => "4",
        5 => "5",
        6 => "6",
        7 => "7",
        8 => "8",
        9 => "9",
        10 => "A",
        11 => "B",
        12 => "C",
        13 => "D",
        14 => "E",
        _ => "F",
    };
    assert(text@ =~= seq![hex_digit(value as int)]);
    text
}

/// Appends one cell of the snapshot to `out`.
pub fn append_cell(out: &mut String, value: u8, marked: bool)
    ensures
        final(out)@ == old(out)@ + cell_text(value, marked),
{
    proof {
        reveal_strlit(" ");
        reveal_strlit("<");
    }
    out.append(" ");
    out.append(hex_str(value / 16));
    out.append(hex_str(value % 16));
    out.append(" ");
    out.append(if marked { "<" } else { " " });
    out.append(" ");
    assert(out@ =~= old(out)@ + cell_text(value, marked));
}

/// Appends a line break to `out`.
pub fn append_line_break(out: &mut String)
    ensures
        final(out)@ == old(out)@ + seq!['\n'],
{
    proof {
        reveal_strlit("\n");
    }
    out.append("\n");
    assert(out@ =~= old(out)@ + seq!['\n']);
}

} // verus!
