use vstd::prelude::*;

verus! {

/// Every way tokenizing, resolving a loop or running a program can fail.
#[derive(Debug, Clone, Copy, PartialEq, Eq, Structural)]
pub enum MachineError {
    /// A character that is no instruction, and its index in the source.
    LexError { ch: char, pos: usize },
    /// A loop start met while looking for the end of a skipped loop.
    NestedLoopError { pos: usize },
    /// A skipped loop whose start, at `pos`, has no matching end.
    UnmatchedLoopError { pos: usize },
    /// The data pointer left the tape: where it went, and the tape's capacity.
    AddressError { dp: isize, capacity: usize },
    /// A cell printed whose value is no Unicode scalar value.
    EncodingError { value: i32 },
    /// The input stream had no byte left or could not be read.
    IoError,
}

} // verus!
