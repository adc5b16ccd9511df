//! Differential fuzzing of trace-population code against a reference, and an
//! AIR builder that checks the constraints on concrete values.
use vstd::prelude::*;
use std::ops::ControlFlow;
use vstd::std_specs::cmp::PartialEqSpec;
use crate::lookup::{AirLookup, ExecutionRecord, LookupKind, ByteOpcode, byte_opcode_code};
use crate::or_operation::{OrOperation, Word, word_limbs, lemma_byte_limbs, lemma_word_limbs_value, limbs_value};

verus! {

/// An operation whose trace population can be compared with a reference
/// computation (`oracle`) and whose constraints can be checked on the
/// populated columns (`check`).
pub trait DiffFuzzingTarget: Sized {
    type Input;
    type Result: PartialEq;

    /// The inputs on which `check` may run after `fuzz` populated the columns.
    spec fn check_admits(&self, input: &Self::Input) -> bool;

    /// What population gives for `input`.
    spec fn populated(input: &Self::Input) -> ControlFlow<(), Self::Result>;

    /// What the reference gives for `input`.
    spec fn reference(input: &Self::Input) -> ControlFlow<(), Self::Result>;

    fn create() -> Self;

    /// Populates the columns; when it does, `check` may follow.
    fn fuzz(&mut self, input: &Self::Input) -> (out: ControlFlow<(), Self::Result>)
        ensures
            out == Self::populated(input),
            out is Continue ==> final(self).check_admits(input),
    ;

    fn oracle(input: &Self::Input) -> (out: ControlFlow<(), Self::Result>)
        ensures
            out == Self::reference(input),
    ;

    fn check(&self, input: &Self::Input)
        requires
            self.check_admits(input),
    ;
}

/// An AIR builder over concrete field values (given by their canonical
/// representatives) that checks each constraint as it is emitted.
pub struct FuzzingAirBuilder;

/// Every value of a byte-lookup message is a byte.
pub open spec fn byte_message_ok(message: AirLookup<u32>) -> bool {
    forall|i: int| 0 <= i < message.values@.len() ==> #[trigger] message.values@[i] < 256
}

impl FuzzingAirBuilder {
    pub fn new() -> (builder: Self) {
        FuzzingAirBuilder
    }

    /// Checks a byte-lookup message: every value must be a byte. Only byte
    /// lookups can be checked by this builder.
    pub fn send(&mut self, message: &AirLookup<u32>)
        requires
            message.kind == LookupKind::Byte,
            byte_message_ok(*message),
    {
    }

    /// Checks that `x` is zero.
    pub fn assert_zero(&mut self, x: u32)
        requires
            x == 0,
    {
    }
}

impl DiffFuzzingTarget for OrOperation {
    type Input = ([u32; 2], bool);
    type Result = u32;

    open spec fn check_admits(&self, input: &([u32; 2], bool)) -> bool {
        forall|i: int| 0 <= i < 4 ==> #[trigger] self.value.0@[i] < 256
    }

    open spec fn populated(input: &([u32; 2], bool)) -> ControlFlow<(), u32> {
        ControlFlow::Continue(input.0[0] | input.0[1])
    }

    open spec fn reference(input: &([u32; 2], bool)) -> ControlFlow<(), u32> {
        ControlFlow::Continue(input.0[0] | input.0[1])
    }

    fn create() -> (op: Self)
        ensures
            op.value.0@ == seq![0u32, 0u32, 0u32, 0u32],
    {
        OrOperation::new()
    }

    fn fuzz(&mut self, input: &([u32; 2], bool)) -> (out: ControlFlow<(), u32>)
        ensures
            out == ControlFlow::<(), u32>::Continue(input.0[0] | input.0[1]),
            final(self).value.0@ == word_limbs(input.0[0] | input.0[1]),
    {
        let mut record = ExecutionRecord::new();
        let v = self.populate(&mut record, input.0[0], input.0[1]);
        proof {
            lemma_byte_limbs(input.0[0] | input.0[1]);
        }
        ControlFlow::Continue(v)
    }

    fn oracle(input: &([u32; 2], bool)) -> (out: ControlFlow<(), u32>)
        ensures
            out == ControlFlow::<(), u32>::Continue(input.0[0] | input.0[1]),
    {
        ControlFlow::Continue(input.0[0] | input.0[1])
    }

    fn check(&self, input: &([u32; 2], bool)) {
        let mut builder = FuzzingAirBuilder::new();
        let a = Word::from_u32(input.0[0]);
        let b = Word::from_u32(input.0[1]);
        let is_real: u32 = if input.1 { 1 } else { 0 };
        proof {
            lemma_byte_limbs(input.0[0]);
            lemma_byte_limbs(input.0[1]);
        }
        let sends = OrOperation::eval(&a, &b, self, is_real);
        let mut i: usize = 0;
        while i < sends.len()
            invariant
                sends@.len() == 4,
                forall|j: int| 0 <= j < 4 ==> #[trigger] self.value.0@[j] < 256,
                forall|j: int| 0 <= j < 4 ==> #[trigger] a.0@[j] < 256,
                forall|j: int| 0 <= j < 4 ==> #[trigger] b.0@[j] < 256,
                forall|j: int|
                    0 <= j < 4 ==> {
                        &&& (#[trigger] sends@[j]).values@ == crate::or_operation::byte_message_values(
                            byte_opcode_code(ByteOpcode::OR) as u32,
                            self.value.0@[j],
                            a.0@[j],
                            b.0@[j],
                        )
                        &&& sends@[j].kind == LookupKind::Byte
                    },
            decreases sends@.len() - i,
        {
            assert(a.0@[i as int] < 256);
            assert(b.0@[i as int] < 256);
            assert(self.value.0@[i as int] < 256);
            builder.send(&sends[i]);
            i += 1;
        }
    }
}

/// How one round of differential fuzzing ended.
#[derive(Clone, Copy, Debug, PartialEq, Eq, Structural)]
pub enum FuzzRound {
    /// The reference or the population declined the input.
    Declined,
    /// The populated result differs from the reference: a finding.
    Mismatch,
    /// The results agree, and the constraints were checked on the populated
    /// columns.
    Agreed,
}

/// Both the populated and the reference result are present, and they differ.
pub open spec fn fuzz_results_differ<T: DiffFuzzingTarget>(input: &T::Input) -> bool
    where
        T::Result: PartialEqSpec,
{
    match (T::populated(input), T::reference(input)) {
        (ControlFlow::Continue(p), ControlFlow::Continue(q)) => !p.eq_spec(&q),
        _ => false,
    }
}

/// One round of differential fuzzing of `T` on `input`: compute the
/// reference, populate the columns, compare the results, and when they agree
/// check the constraints on the populated columns.
///
/// The results are compared by the result type's `==`; where that type's
/// `==` follows its specification, `Mismatch` comes exactly when both results
/// are present and differ.
pub fn diff_fuzz<T: DiffFuzzingTarget>(input: &T::Input) -> (round: FuzzRound)
    where
        T::Result: PartialEqSpec,
    ensures
        (round == FuzzRound::Declined) == (T::reference(input) is Break || T::populated(input) is Break),
        round != FuzzRound::Declined ==> T::reference(input) is Continue && T::populated(input) is Continue,
        T::Result::obeys_eq_spec() ==> ((round == FuzzRound::Mismatch) <==> fuzz_results_differ::<T>(input)),
{
    let oracle = T::oracle(input);
    let expected = match oracle {
        ControlFlow::Break(_) => {
            return FuzzRound::Declined;
        },
        ControlFlow::Continue(r) => r,
    };
    let mut op = T::create();
    let output = op.fuzz(input);
    let got = match output {
        ControlFlow::Break(_) => {
            return FuzzRound::Declined;
        },
        ControlFlow::Continue(r) => r,
    };
    if !(got == expected) {
        return FuzzRound::Mismatch;
    }
    op.check(input);
    FuzzRound::Agreed
}

/// One round of differential fuzzing of the or operation: populate the
/// columns, compare with the reference, and check the constraints on the
/// populated columns. Returns the populated result and the reference result.
pub fn diff_fuzz_or(input: &([u32; 2], bool)) -> (outputs: (ControlFlow<(), u32>, ControlFlow<(), u32>))
    ensures
        outputs.0 == outputs.1,
        outputs.1 == ControlFlow::<(), u32>::Continue(input.0[0] | input.0[1]),
{
    let oracle = OrOperation::oracle(input);
    let mut op = OrOperation::create();
    let output = op.fuzz(input);
    op.check(input);
    (output, oracle)
}

/// The populated or columns always agree with the reference: for every pair of
/// words, population returns `x | y`, its limbs recombine to `x | y`, every limb
/// is a byte, and the constraint check accepts them.
pub proof fn lemma_or_population_agrees(x: u32, y: u32)
    ensures
        limbs_value(word_limbs(x | y)) == x | y,
        forall|i: int| 0 <= i < 4 ==> #[trigger] word_limbs(x | y)[i] < 256,
{
    lemma_word_limbs_value(x | y);
    lemma_byte_limbs(x | y);
}

} // verus!
