//! The executor fuzz target's handling of raw input: the bytes are read as
//! little-endian instruction words, and the run's outcome is classified.
use vstd::prelude::*;
use crate::garble::{le_words, le_word};

verus! {

/// The instruction words of raw fuzzer input: every full group of four bytes,
/// little-endian; trailing bytes are ignored.
pub fn raw_instruction_words(data: &[u8]) -> (words: Vec<u32>)
    ensures
        words@ == le_words(data@),
{
    let mut words: Vec<u32> = Vec::new();
    let n = data.len() / 4;
    assert(4 * n <= data.len());
    let mut i: usize = 0;
    while i < n
        invariant
            i <= n,
            n == data@.len() / 4,
            4 * n <= data.len(),
            words@ == le_words(data@).subrange(0, i as int),
        decreases n - i,
    {
        let b0 = data[4 * i];
        let b1 = data[4 * i + 1];
        let b2 = data[4 * i + 2];
        let b3 = data[4 * i + 3];
        let w = (b0 as u32) | ((b1 as u32) << 8) | ((b2 as u32) << 16) | ((b3 as u32) << 24);
        assert(w == (b0 as int + 256 * (b1 as int) + 65536 * (b2 as int) + 16777216 * (b3 as int))) by (bit_vector)
            requires
                w == (b0 as u32) | ((b1 as u32) << 8) | ((b2 as u32) << 16) | ((b3 as u32) << 24),
        ;
        assert(w == le_word(b0, b1, b2, b3));
        words.push(w);
        assert(words@ =~= le_words(data@).subrange(0, i + 1));
        i += 1;
    }
    assert(le_words(data@).subrange(0, n as int) =~= le_words(data@));
    words
}

/// Whether the fuzz target runs the program decoded from raw input, given the
/// number of instructions that decoded to an implemented opcode: an empty
/// program is skipped.
pub fn raw_program_runs(decoded_count: usize) -> (runs: bool)
    ensures
        runs == (decoded_count != 0),
{
    decoded_count != 0
}

/// How a fuzzed program run ended.
#[derive(Clone, Copy, Debug, PartialEq, Eq, Structural)]
pub enum RunOutcome {
    Finished,
    HaltWithNonZeroExitCode,
    InvalidMemoryAccess,
    UnsupportedSyscall,
    UnsupportedInstruction,
    Breakpoint,
    InvalidSyscallUsage,
    /// Any other execution error.
    OtherError,
}

/// Whether the fuzz target accepts a run's outcome: a finished run and the
/// errors a random program can legitimately cause are accepted; any other
/// error is a finding.
pub fn raw_outcome_accepted(outcome: RunOutcome) -> (ok: bool)
    ensures
        ok == (outcome != RunOutcome::OtherError),
{
    match outcome {
        RunOutcome::OtherError => false,
        _ => true,
    }
}

} // verus!
