//! The instruction set: eight opcodes keyed by token length, the machine's
//! error kinds, and the decoding of one token.

use vstd::prelude::*;

verus! {

/// One of the machine's eight operations, decoded from a token whose
/// characters are all the same and whose length is 1 through 8.
#[derive(Clone, Copy, PartialEq, Eq, Structural, Debug)]
pub enum Opcode {
    /// Length 1: add one to the current cell, modulo 256.
    IncrCell,
    /// Length 2: subtract one from the current cell, modulo 256.
    DecrCell,
    /// Length 3: move the data pointer right, wrapping at the tape's end.
    IncrPtr,
    /// Length 4: move the data pointer left, wrapping at cell 0.
    DecrPtr,
    /// Length 5: enter a loop, or skip to the matching `LoopEnd` on a zero cell.
    LoopStart,
    /// Length 6: repeat the loop on a nonzero cell, else leave it.
    LoopEnd,
    /// Length 7: emit the current cell as one byte.
    Output,
    /// Length 8: store the first character of one trimmed input line.
    Input,
}

/// Every failure the machine can report. Each is fatal where it arises.
#[derive(Clone, Copy, PartialEq, Eq, Structural, Debug)]
pub enum VmError {
    /// A token's length is outside 1..=8 or its characters are not all
    /// identical; carries the token's position in the source.
    InvalidInstruction(usize),
    /// A forward skip from a `LoopStart` ran off the end of the program
    /// without finding the matching `LoopEnd`.
    UnterminatedLoop,
    /// A `LoopEnd` was reached while no loop was active.
    LoopStackEmpty,
    /// An `Input` opcode's line held no character after trimming.
    EmptyInput,
}

/// The opcode a run length 1 through 8 stands for.
pub open spec fn opcode_of_len(n: int) -> Opcode {
    if n == 1 {
        Opcode::IncrCell
    } else if n == 2 {
        Opcode::DecrCell
    } else if n == 3 {
        Opcode::IncrPtr
    } else if n == 4 {
        Opcode::DecrPtr
    } else if n == 5 {
        Opcode::LoopStart
    } else if n == 6 {
        Opcode::LoopEnd
    } else if n == 7 {
        Opcode::Output
    } else {
        Opcode::Input
    }
}

/// What one token decodes to: its length's opcode when all its characters
/// are the same and the length is 1 through 8, nothing otherwise.
pub open spec fn token_opcode(t: Seq<char>) -> Option<Opcode> {
    if 1 <= t.len() <= 8 && (forall|i: int| 0 <= i < t.len() ==> #[trigger] t[i] == t[0]) {
        Some(opcode_of_len(t.len() as int))
    } else {
        None
    }
}

/// Decode one token, or report that it is not a valid instruction.
pub fn decode_token(t: &Vec<char>) -> (r: Option<Opcode>)
    ensures
        r == token_opcode(t@),
{
    let n = t.len();
    if n < 1 || n > 8 {
        return None;
    }
    let first = t[0];
    let mut i: usize = 1;
    while i < n
        invariant
            1 <= i <= n,
            n == t@.len(),
            first == t@[0],
            forall|k: int| 0 <= k < i ==> #[trigger] t@[k] == t@[0],
        decreases n - i,
    {
        if t[i] != first {
            return None;
        }
        i = i + 1;
    }
    let op = if n == 1 {
        Opcode::IncrCell
    } else if n == 2 {
        Opcode::DecrCell
    } else if n == 3 {
        Opcode::IncrPtr
    } else if n == 4 {
        Opcode::DecrPtr
    } else if n == 5 {
        Opcode::LoopStart
    } else if n == 6 {
        Opcode::LoopEnd
    } else if n == 7 {
        Opcode::Output
    } else {
        Opcode::Input
    };
    Some(op)
}

} // verus!
