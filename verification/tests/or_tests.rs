use std::ops::ControlFlow;
use ziren::fuzzing::{diff_fuzz, diff_fuzz_or, DiffFuzzingTarget, FuzzRound, FuzzingAirBuilder};
use ziren::lookup::{AirLookup, ByteLookupEvent, ByteOpcode, ExecutionRecord, LookupKind};
use ziren::or_operation::{OrOperation, Word};
use ziren::dvsnark::DvSnarkBn254Prover;

#[test]
fn populate_writes_the_bytes_of_the_or() {
    let mut op = OrOperation::new();
    let mut record = ExecutionRecord::new();
    let r = op.populate(&mut record, 0x1234_5678, 0x0f0f_0f0f);
    assert_eq!(r, 0x1f3f_5f7f);
    assert_eq!(op.value, Word([0x7f, 0x5f, 0x3f, 0x1f]));
    assert_eq!(record.byte_lookups.len(), 4);
    assert_eq!(record.byte_lookups[0], ByteLookupEvent { opcode: ByteOpcode::OR, a: 0x7f, b: 0x78, c: 0x0f });
    assert_eq!(record.byte_lookups[3], ByteLookupEvent { opcode: ByteOpcode::OR, a: 0x1f, b: 0x12, c: 0x0f });
}

#[test]
fn populate_appends_to_existing_lookups() {
    let mut op = OrOperation::new();
    let mut record = ExecutionRecord::new();
    op.populate(&mut record, 1, 2);
    op.populate(&mut record, 0xff00_0000, 0x00ff_0000);
    assert_eq!(record.byte_lookups.len(), 8);
    assert_eq!(op.value, Word([0, 0, 0xff, 0xff]));
}

#[test]
fn eval_sends_one_byte_lookup_per_limb() {
    let a = Word::from_u32(0x0102_0304);
    let b = Word::from_u32(0x1000_0000);
    let cols = OrOperation { value: Word([4, 3, 2, 0x11]) };
    let sends = OrOperation::eval(&a, &b, &cols, 1);
    assert_eq!(sends.len(), 4);
    assert_eq!(
        sends[3],
        AirLookup { values: vec![ByteOpcode::OR.code() as u32, 0x11, 0, 0x01, 0x10], multiplicity: 1, kind: LookupKind::Byte }
    );
    assert_eq!(sends[0].values, vec![1, 4, 0, 4, 0]);
}

#[test]
fn fuzz_agrees_with_oracle() {
    for (x, y) in [(0u32, 0u32), (u32::MAX, 0), (0xdead_beef, 0x1234_5678), (1, 1 << 31)] {
        let (out, oracle) = diff_fuzz_or(&([x, y], true));
        assert_eq!(out, oracle);
        assert_eq!(oracle, ControlFlow::Continue(x | y));
    }
}

#[test]
fn check_runs_after_fuzz() {
    let mut op = <OrOperation as DiffFuzzingTarget>::create();
    let input = ([0xa5a5_a5a5u32, 0x5a5a_5a5au32], false);
    assert_eq!(op.fuzz(&input), ControlFlow::Continue(u32::MAX));
    assert_eq!(OrOperation::oracle(&input), ControlFlow::Continue(u32::MAX));
    op.check(&input);
    assert_eq!(op.value, Word([0xff, 0xff, 0xff, 0xff]));
}

#[test]
fn fuzzing_builder_accepts_byte_lookups_and_zero() {
    let mut b = FuzzingAirBuilder::new();
    b.send(&AirLookup { values: vec![1, 255, 0, 0, 7], multiplicity: 1, kind: LookupKind::Byte });
    b.assert_zero(0);
}

#[test]
fn byte_opcode_codes() {
    assert_eq!(ByteOpcode::AND.code(), 0);
    assert_eq!(ByteOpcode::OR.code(), 1);
    assert_eq!(ByteOpcode::U8Range.code(), 4);
    assert_eq!(ByteOpcode::U16Range.code(), 8);
}

#[test]
fn prover_constructors_agree() {
    assert_eq!(DvSnarkBn254Prover::new(), DvSnarkBn254Prover::default());
}

#[test]
fn generic_fuzz_round_agrees_for_the_or_operation() {
    for (x, y) in [(0u32, 0u32), (u32::MAX, 0), (0xdead_beef, 0x1234_5678)] {
        assert_eq!(diff_fuzz::<OrOperation>(&([x, y], true)), FuzzRound::Agreed);
        assert_eq!(diff_fuzz::<OrOperation>(&([x, y], false)), FuzzRound::Agreed);
    }
}
