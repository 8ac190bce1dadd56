use vstd::prelude::*;

verus! {

/// One executable instruction of the language.
///
/// The two jump variants carry the absolute position of their partner
/// instruction inside the program; translation fills the position in, and it
/// never changes afterwards.
#[derive(Clone, Copy, Debug, PartialEq, Eq, Structural)]
pub enum OpCode {
    /// `>`: move the data pointer one cell forward, wrapping at the end.
    IncPtr,
    /// `<`: move the data pointer one cell backward, wrapping at the start.
    DecPtr,
    /// `+`: increment the current cell with 8-bit wraparound.
    IncVal,
    /// `-`: decrement the current cell with 8-bit wraparound.
    DecVal,
    /// `.`: write the current cell to the output stream.
    Write,
    /// `,`: read one byte from the input stream into the current cell.
    Read,
    /// `[`: jump just past the carried position when the current cell is zero.
    JmpFront(usize),
    /// `]`: jump just past the carried position when the current cell is not zero.
    JmpBack(usize),
}

/// The instruction a source character stands for, if any.
///
/// Only the eight recognized symbols map to an instruction; every other
/// character is a comment. A jump starts with the placeholder position 0,
/// which translation later replaces by the partner's real position.
pub open spec fn spec_op_of(c: char) -> Option<OpCode> {
    if c == '>' {
        Some(OpCode::IncPtr)
    } else if c == '<' {
        Some(OpCode::DecPtr)
    } else if c == '+' {
        Some(OpCode::IncVal)
    } else if c == '-' {
        Some(OpCode::DecVal)
    } else if c == '.' {
        Some(OpCode::Write)
    } else if c == ',' {
        Some(OpCode::Read)
    } else if c == '[' {
        Some(OpCode::JmpFront(0))
    } else if c == ']' {
        Some(OpCode::JmpBack(0))
    } else {
        None
    }
}

impl OpCode {
    /// Classify one source character: a recognized symbol yields its
    /// instruction, anything else is rejected as a comment character.
    pub fn try_from(c: char) -> (r: Result<OpCode, ()>)
        ensures
            r == (match spec_op_of(c) {
                Some(op) => Result::<OpCode, ()>::Ok(op),
                None => Result::<OpCode, ()>::Err(()),
            }),
    {
        match c {
            '>' => Ok(OpCode::IncPtr),
            '<' => Ok(OpCode::DecPtr),
            '+' => Ok(OpCode::IncVal),
            '-' => Ok(OpCode::DecVal),
            '.' => Ok(OpCode::Write),
            ',' => Ok(OpCode::Read),
            '[' => Ok(OpCode::JmpFront(0)),
            ']' => Ok(OpCode::JmpBack(0)),
            _ => Err(()),
        }
    }
}

} // verus!
