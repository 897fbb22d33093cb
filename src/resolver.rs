use vstd::prelude::*;

use crate::error::MachineError;
use crate::token::{Token, TokenType};

verus! {

/// What a skip scan over `toks` from index `i` on finds for the loop starting
/// at position `start`: tokens at or before `start` are passed over, a later
/// loop start is refused, and the first later loop end is the match.
pub open spec fn resolve_from(start: usize, toks: Seq<Token>, i: int) -> Result<usize, MachineError>
    decreases toks.len() - i,
{
    if i < 0 || i >= toks.len() {
        Err(MachineError::UnmatchedLoopError { pos: start })
    } else if toks[i].pos <= start {
        resolve_from(start, toks, i + 1)
    } else if toks[i].typ == TokenType::Lpar {
        Err(MachineError::NestedLoopError { pos: toks[i].pos })
    } else if toks[i].typ == TokenType::Rpar {
        Ok(toks[i].pos)
    } else {
        resolve_from(start, toks, i + 1)
    }
}

/// The result of resolving the loop that starts at `start` in `toks`.
pub open spec fn resolve(start: usize, toks: Seq<Token>) -> Result<usize, MachineError> {
    resolve_from(start, toks, 0)
}

/// Finds the position of the loop end that closes the loop starting at
/// `start_id`, scanning the tokens after it in order. The scan is made afresh
/// on every call; no jump table is kept.
pub fn seek_closing(start_id: usize, program: &Vec<Token>) -> (r: Result<usize, MachineError>)
    ensures
        r == resolve(start_id, program@),
{
    let mut i: usize = 0;
    while i < program.len()
        invariant
            i <= program@.len(),
            resolve(start_id, program@) == resolve_from(start_id, program@, i as int),
        decreases program@.len() - i,
    {
        let t = program[i];
        if t.pos > start_id {
            if t.typ == TokenType::Lpar {
                return Err(MachineError::NestedLoopError { pos: t.pos });
            }
            if t.typ == TokenType::Rpar {
                return Ok(t.pos);
            }
        }
        i = i + 1;
    }
    Err(MachineError::UnmatchedLoopError { pos: start_id })
}

/// A successful match is a loop end that lies after the start, and every token
/// between the two is neither a loop start nor a loop end.
pub proof fn lemma_resolve_match(start: usize, toks: Seq<Token>, i: int)
    requires
        0 <= i,
        resolve_from(start, toks, i) is Ok,
    ensures
        exists|k: int|
            i <= k < toks.len() && toks[k].typ == TokenType::Rpar && toks[k].pos > start
                && resolve_from(start, toks, i) == Ok::<usize, MachineError>(toks[k].pos),
    decreases toks.len() - i,
{
    if toks[i].pos <= start || (toks[i].typ != TokenType::Lpar && toks[i].typ != TokenType::Rpar) {
        lemma_resolve_match(start, toks, i + 1);
    }
}

} // verus!
