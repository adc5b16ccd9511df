//! Byte-lookup interactions: Picus has no lookups, so each byte lookup becomes
//! range constraints, a decomposition, or a call of an auxiliary module.
use vstd::prelude::*;
use crate::lookup::{ByteOpcode, byte_opcode_code};
use crate::pcl::{
    PicusExpr, PicusConstraint, PicusCall, CallView, e_add, e_sub, e_mul, c_lt, c_leq,
    c_zero, c_equal, c_bit, c_implies, c_iff, c_and,
};
use crate::picus_builder::{PicusBuilder, ExtractState, ShrCarrySummaryMode, SubmoduleMode};

verus! {

/// `x < bound` for every constant among `vals`.
pub open spec fn consts_below(vals: Seq<PicusExpr>, bound: u64) -> bool {
    forall|i: int| 0 <= i < vals.len() ==> (#[trigger] vals[i] matches PicusExpr::Const(c) ==> c < bound)
}

/// `val * m <= bound` for every non-constant value, in order.
pub open spec fn range_checks(vals: Seq<PicusExpr>, m: PicusExpr, bound: u64) -> Seq<PicusConstraint>
    decreases vals.len(),
{
    if vals.len() == 0 {
        Seq::empty()
    } else {
        let prev = range_checks(vals.drop_last(), m, bound);
        if vals.last() is Const {
            prev
        } else {
            prev.push(c_leq(e_mul(vals.last(), m), PicusExpr::Const(bound)))
        }
    }
}

/// The constraints that decompose a non-zero byte as `msb * 128 + low` with a
/// fresh `low <= 127` and a bit `msb`; `fresh` is the next unused variable.
pub open spec fn msb_byte_step(st: ExtractState, m: PicusExpr, msb: PicusExpr, byte: PicusExpr) -> ExtractState {
    if byte == PicusExpr::Const(0) {
        st
    } else {
        let low = PicusExpr::Var(st.fresh as usize);
        st.add_constraints(
            seq![
                c_leq(e_mul(low, m), PicusExpr::Const(127)),
                c_zero(e_mul(e_mul(m, msb), e_sub(msb, PicusExpr::Const(1)))),
                c_zero(e_mul(m, e_sub(byte, e_add(e_mul(msb, PicusExpr::Const(128)), low)))),
            ],
        ).with_fresh(st.fresh + 1)
    }
}

/// Case `i` of the shift-right-with-carry summary.
pub open spec fn shr_carry_case(i: int, m: PicusExpr, out: PicusExpr, carry: PicusExpr, input: PicusExpr) -> PicusConstraint {
    if i == 0 {
        c_and(c_equal(out, input), c_equal(carry, PicusExpr::Const(0)))
    } else {
        let p2 = 1u64 << (i as u64);
        c_and(
            c_equal(input, e_add(e_mul(out, PicusExpr::Const(p2)), carry)),
            c_lt(e_mul(carry, m), PicusExpr::Const(p2)),
        )
    }
}

/// The precise summary of `values = [op, out, carry, input, shift]`: range
/// constraints, then for each shift amount `i` in `0..8`,
/// `shift == i ==> (i == 0 ? out == input && carry == 0 : input == out * 2^i + carry && carry < 2^i)`.
pub open spec fn shr_carry_constraints(m: PicusExpr, values: Seq<PicusExpr>) -> Seq<PicusConstraint> {
    let out = values[1];
    let carry = values[2];
    let input = values[3];
    let shift = values[4];
    seq![
        c_leq(e_mul(out, m), PicusExpr::Const(255)),
        c_leq(e_mul(input, m), PicusExpr::Const(255)),
        c_leq(e_mul(carry, m), PicusExpr::Const(255)),
        c_leq(e_mul(shift, m), PicusExpr::Const(7)),
    ] + Seq::new(
        8,
        |i: int| c_implies(c_equal(shift, PicusExpr::Const(i as u64)), shr_carry_case(i, m, out, carry, input)),
    )
}

/// The bitwise byte operations summarized by an abstract module.
pub open spec fn is_bitwise_code(v: u64) -> bool {
    v == byte_opcode_code(ByteOpcode::AND) || v == byte_opcode_code(ByteOpcode::OR) || v == byte_opcode_code(
        ByteOpcode::XOR,
    ) || v == byte_opcode_code(ByteOpcode::NOR)
}

/// `b & 127` with a constant mask: the result is the low seven bits of `b`.
pub open spec fn and_127_applies(values: Seq<PicusExpr>) -> bool {
    values[0] == PicusExpr::Const(byte_opcode_code(ByteOpcode::AND)) && values[4] == PicusExpr::Const(127)
}

/// `out < 128`, a fresh bit `hi`, and `b == hi * 128 + out`.
pub open spec fn and_127_constraints(values: Seq<PicusExpr>, hi: PicusExpr) -> Seq<PicusConstraint> {
    seq![
        c_lt(values[1], PicusExpr::Const(128)),
        c_bit(hi),
        c_equal(values[3], e_add(e_mul(hi, PicusExpr::Const(128)), values[1])),
    ]
}

/// The number of fresh variables a byte lookup takes: one for each non-zero
/// byte decomposed around its most significant bit, and one for the high bit
/// of `b & 127`; none otherwise.
pub open spec fn byte_fresh_count(values: Seq<PicusExpr>) -> int {
    if values[0] == PicusExpr::Const(byte_opcode_code(ByteOpcode::MSB)) {
        (if values[3] == PicusExpr::Const(0) { 0int } else { 1int }) + (if values[4] == PicusExpr::Const(0) {
            0int
        } else {
            1int
        })
    } else if and_127_applies(values) {
        1
    } else {
        0
    }
}

/// What a byte lookup adds to the extraction state.
pub open spec fn byte_step(
    shr_mode: ShrCarrySummaryMode,
    st: ExtractState,
    m: PicusExpr,
    values: Seq<PicusExpr>,
) -> ExtractState {
    match values[0] {
        PicusExpr::Const(v) => {
            if v == byte_opcode_code(ByteOpcode::U8Range) {
                st.add_constraints(range_checks(values.subrange(1, values.len() as int), m, 255))
            } else if v == byte_opcode_code(ByteOpcode::U16Range) {
                st.add_constraints(range_checks(values.subrange(1, values.len() as int), m, 65535))
            } else if v == byte_opcode_code(ByteOpcode::MSB) {
                msb_byte_step(msb_byte_step(st, m, values[1], values[3]), m, values[1], values[4])
            } else if v == byte_opcode_code(ByteOpcode::ShrCarry) {
                match shr_mode {
                    ShrCarrySummaryMode::AbstractModule => st.ensure_aux("ShrCarry"@, 2, 2).add_call(
                        CallView { mod_name: "ShrCarry"@, outputs: seq![values[1], values[2]], inputs: seq![values[3], values[4]] },
                    ),
                    ShrCarrySummaryMode::Precise => st.add_constraints(shr_carry_constraints(m, values)),
                }
            } else if v == byte_opcode_code(ByteOpcode::LTU) {
                let lt = c_lt(values[2], values[3]);
                if values[1] == PicusExpr::Const(1) {
                    st.add_constraints(seq![lt])
                } else {
                    st.add_constraints(seq![c_iff(c_equal(values[1], PicusExpr::Const(1)), lt), c_bit(values[1])])
                }
            } else if is_bitwise_code(v) {
                if and_127_applies(values) {
                    st.add_constraints(and_127_constraints(values, PicusExpr::Var(st.fresh as usize))).with_fresh(
                        st.fresh + 1,
                    )
                } else {
                    st.ensure_aux("byte_interaction_mod"@, 2, 1).add_call(
                        CallView { mod_name: "byte_interaction_mod"@, outputs: seq![values[1]], inputs: seq![values[3], values[4]] },
                    )
                }
            } else {
                st
            }
        },
        _ => st,
    }
}

/// The inputs on which a byte lookup can be summarized: the operation is a
/// constant (unless the selector module is being built, where such lookups
/// are skipped), constant range-checked values are in range, and the message
/// has the length the operation reads.
pub open spec fn byte_lookup_ok(selector_module: bool, values: Seq<PicusExpr>) -> bool {
    &&& values.len() >= 1
    &&& match values[0] {
        PicusExpr::Const(v) => {
            &&& v == byte_opcode_code(ByteOpcode::U8Range) ==> consts_below(values.subrange(1, values.len() as int), 256)
            &&& v == byte_opcode_code(ByteOpcode::U16Range) ==> consts_below(values.subrange(1, values.len() as int), 65536)
            &&& v == byte_opcode_code(ByteOpcode::MSB) ==> values.len() >= 5
            &&& v == byte_opcode_code(ByteOpcode::ShrCarry) ==> values.len() >= 5
            &&& v == byte_opcode_code(ByteOpcode::LTU) ==> values.len() >= 4
            &&& is_bitwise_code(v) ==> values.len() >= 5 && (!and_127_applies(values) ==> values.len() == 5)
        },
        _ => selector_module,
    }
}

impl<'chips> PicusBuilder<'chips> {
    /// Range checks `val * m <= bound` for the non-constant values of `values[1..]`.
    fn push_range_checks(&mut self, m: &PicusExpr, values: &[PicusExpr], bound: u64, limit: u64)
        requires
            values@.len() >= 1,
            consts_below(values@.subrange(1, values@.len() as int), limit),
            bound < limit,
        ensures
            final(self).same_setup(old(self)),
            final(self).state() == old(self).state().add_constraints(
                range_checks(values@.subrange(1, values@.len() as int), *m, bound),
            ),
    {
        let ghost st0 = self.state();
        let mut i: usize = 1;
        while i < values.len()
            invariant
                1 <= i <= values@.len(),
                self.same_setup(old(self)),
                st0 == old(self).state(),
                self.state() == st0.add_constraints(range_checks(values@.subrange(1, i as int), *m, bound)),
            decreases values@.len() - i,
        {
            let ghost before = self.state();
            assert(values@.subrange(1, i + 1).drop_last() =~= values@.subrange(1, i as int));
            assert(values@.subrange(1, i + 1).last() == values@[i as int]);
            match &values[i] {
                PicusExpr::Const(_) => {},
                _ => {
                    let val = values[i].duplicate();
                    let c = PicusConstraint::new_leq(val.times(m.duplicate()), PicusExpr::Const(bound));
                    self.push_constraint(c);
                },
            }
            assert(self.state() =~= st0.add_constraints(range_checks(values@.subrange(1, i + 1), *m, bound)));
            i += 1;
        }
    }

    /// Decomposes a non-zero byte as `msb * 128 + low`.
    fn push_msb_byte(&mut self, m: &PicusExpr, msb: &PicusExpr, byte: &PicusExpr)
        requires
            *byte != PicusExpr::Const(0) ==> old(self).fresh_var_ctr < usize::MAX,
        ensures
            final(self).same_setup(old(self)),
            final(self).state() == msb_byte_step(old(self).state(), *m, *msb, *byte),
    {
        if let PicusExpr::Const(0) = byte {
            return;
        }
        let low = self.fresh_var();
        let ghost st1 = self.state();
        self.push_constraint(PicusConstraint::new_leq(low.duplicate().times(m.duplicate()), PicusExpr::Const(127)));
        let bit = m.duplicate().times(msb.duplicate()).times(msb.duplicate().minus(PicusExpr::Const(1)));
        self.push_constraint(PicusConstraint::Eq(Box::new(bit)));
        let decomp = byte.duplicate().minus(msb.duplicate().times(PicusExpr::Const(128)).plus(low));
        self.push_constraint(PicusConstraint::Eq(Box::new(m.duplicate().times(decomp))));
        assert(self.state() =~= msb_byte_step(old(self).state(), *m, *msb, *byte));
    }

    /// The precise summary of a shift-right-with-carry lookup
    /// `values = [op, out, carry, input, shift]`.
    pub fn summarize_shr_carry_precise(&mut self, multiplicity: PicusExpr, values: &[PicusExpr])
        requires
            values@.len() >= 5,
        ensures
            final(self).same_setup(old(self)),
            final(self).state() == old(self).state().add_constraints(shr_carry_constraints(multiplicity, values@)),
    {
        let ghost cs = shr_carry_constraints(multiplicity, values@);
        let out = &values[1];
        let carry = &values[2];
        let input = &values[3];
        let num_bits_to_shift = &values[4];
        self.push_constraint(PicusConstraint::new_leq(out.duplicate().times(multiplicity.duplicate()), PicusExpr::Const(255)));
        self.push_constraint(PicusConstraint::new_leq(input.duplicate().times(multiplicity.duplicate()), PicusExpr::Const(255)));
        self.push_constraint(PicusConstraint::new_leq(carry.duplicate().times(multiplicity.duplicate()), PicusExpr::Const(255)));
        self.push_constraint(PicusConstraint::new_leq(num_bits_to_shift.duplicate().times(multiplicity.duplicate()), PicusExpr::Const(7)));
        let ghost st0 = old(self).state();
        assert(self.state() =~= st0.add_constraints(cs.subrange(0, 4)));
        let mut i: u64 = 0;
        while i < 8
            invariant
                i <= 8,
                self.same_setup(old(self)),
                st0 == old(self).state(),
                cs == shr_carry_constraints(multiplicity, values@),
                *out == values@[1],
                *carry == values@[2],
                *input == values@[3],
                *num_bits_to_shift == values@[4],
                self.state() == st0.add_constraints(cs.subrange(0, 4 + i)),
            decreases 8 - i,
        {
            let cond = PicusConstraint::new_equality(num_bits_to_shift.duplicate(), PicusExpr::Const(i));
            let consequence = if i == 0 {
                PicusConstraint::And(
                    Box::new(PicusConstraint::new_equality(out.duplicate(), input.duplicate())),
                    Box::new(PicusConstraint::new_equality(carry.duplicate(), PicusExpr::Const(0))),
                )
            } else {
                let p2 = 1u64 << i;
                PicusConstraint::And(
                    Box::new(PicusConstraint::new_equality(
                        input.duplicate(),
                        out.duplicate().times(PicusExpr::Const(p2)).plus(carry.duplicate()),
                    )),
                    Box::new(PicusConstraint::new_lt(carry.duplicate().times(multiplicity.duplicate()), PicusExpr::Const(p2))),
                )
            };
            assert(consequence == shr_carry_case(i as int, multiplicity, values@[1], values@[2], values@[3]));
            self.push_constraint(PicusConstraint::Implies(Box::new(cond), Box::new(consequence)));
            assert(cs.subrange(0, 4 + i + 1) =~= cs.subrange(0, 4 + i).push(cs[4 + i]));
            assert(self.state() =~= st0.add_constraints(cs.subrange(0, 4 + i + 1)));
            i += 1;
        }
        assert(cs.subrange(0, 12) =~= cs);
    }

    /// Whether `opcode` is one of the bitwise byte operations.
    pub fn is_default_bitwise_byte_opcode(opcode: u64) -> (b: bool)
        ensures
            b == is_bitwise_code(opcode),
    {
        opcode == ByteOpcode::AND.code() || opcode == ByteOpcode::OR.code() || opcode == ByteOpcode::XOR.code()
            || opcode == ByteOpcode::NOR.code()
    }

    /// Summarizes a bitwise byte lookup `[op, out, _, b, c]` by a call of the
    /// abstract byte module.
    pub fn add_default_bitwise_byte_call(&mut self, values: &[PicusExpr])
        requires
            values@.len() == 5,
        ensures
            final(self).same_setup(old(self)),
            final(self).state() == old(self).state().ensure_aux("byte_interaction_mod"@, 2, 1).add_call(
                CallView { mod_name: "byte_interaction_mod"@, outputs: seq![values@[1]], inputs: seq![values@[3], values@[4]] },
            ),
    {
        let byte_mod_name = "byte_interaction_mod".to_owned();
        self.ensure_aux_module(byte_mod_name.clone(), 2, 1);
        let call = PicusCall::new(byte_mod_name, &values[1..2], &values[3..5]);
        assert(values@.subrange(1, 2) =~= seq![values@[1]]);
        assert(values@.subrange(3, 5) =~= seq![values@[3], values@[4]]);
        self.push_call(call);
    }

    /// Summarizes `b & 127` as a decomposition of `b`; returns whether the
    /// lookup has that form.
    pub fn try_add_and_127_optimization(&mut self, values: &[PicusExpr]) -> (applied: bool)
        requires
            values@.len() >= 5,
            and_127_applies(values@) ==> old(self).fresh_var_ctr < usize::MAX,
        ensures
            applied == and_127_applies(values@),
            final(self).same_setup(old(self)),
            applied ==> final(self).state() == old(self).state().add_constraints(
                and_127_constraints(values@, PicusExpr::Var(old(self).fresh_var_ctr)),
            ).with_fresh(old(self).fresh_var_ctr + 1),
            !applied ==> final(self).state() == old(self).state(),
    {
        let and_code = ByteOpcode::AND.code();
        match &values[0] {
            PicusExpr::Const(v) => {
                if *v != and_code {
                    return false;
                }
            },
            _ => {
                return false;
            },
        }
        match &values[4] {
            PicusExpr::Const(127) => {},
            _ => {
                return false;
            },
        }
        let var_hi = self.fresh_var();
        self.push_constraint(PicusConstraint::new_lt(values[1].duplicate(), PicusExpr::Const(128)));
        self.push_constraint(PicusConstraint::new_bit(var_hi.duplicate()));
        self.push_constraint(PicusConstraint::new_equality(
            values[3].duplicate(),
            var_hi.times(PicusExpr::Const(128)).plus(values[1].duplicate()),
        ));
        assert(self.state() =~= old(self).state().add_constraints(
            and_127_constraints(values@, PicusExpr::Var(old(self).fresh_var_ctr)),
        ).with_fresh(old(self).fresh_var_ctr + 1));
        true
    }

    /// Turns a byte lookup into Picus constraints: range checks for the
    /// range-check operations, a decomposition for the most significant bit,
    /// a module call or a case split for the shift with carry, a comparison for
    /// the unsigned less-than, and a module call for the bitwise operations.
    pub fn handle_byte_interaction(&mut self, multiplicity: PicusExpr, values: &[PicusExpr])
        requires
            byte_lookup_ok(old(self).submodule_mode == SubmoduleMode::Ignore, values@),
            old(self).fresh_var_ctr + byte_fresh_count(values@) <= usize::MAX,
        ensures
            final(self).same_setup(old(self)),
            final(self).state() == byte_step(old(self).shr_carry_summary_mode, old(self).state(), multiplicity, values@),
    {
        match &values[0] {
            PicusExpr::Const(v) => {
                let v = *v;
                if v == ByteOpcode::U8Range.code() {
                    self.push_range_checks(&multiplicity, values, 255, 256);
                } else if v == ByteOpcode::U16Range.code() {
                    self.push_range_checks(&multiplicity, values, 65535, 65536);
                } else if v == ByteOpcode::MSB.code() {
                    let msb = &values[1];
                    self.push_msb_byte(&multiplicity, msb, &values[3]);
                    self.push_msb_byte(&multiplicity, msb, &values[4]);
                } else if v == ByteOpcode::ShrCarry.code() {
                    match self.shr_carry_summary_mode {
                        ShrCarrySummaryMode::AbstractModule => {
                            self.ensure_aux_module("ShrCarry".to_owned(), 2, 2);
                            let outs = vec![values[1].duplicate(), values[2].duplicate()];
                            let ins = vec![values[3].duplicate(), values[4].duplicate()];
                            let shrcarry = PicusCall::new("ShrCarry".to_owned(), outs.as_slice(), ins.as_slice());
                            assert(outs@ =~= seq![values@[1], values@[2]]);
                            assert(ins@ =~= seq![values@[3], values@[4]]);
                            self.push_call(shrcarry);
                        },
                        ShrCarrySummaryMode::Precise => {
                            self.summarize_shr_carry_precise(multiplicity, values);
                        },
                    }
                } else if v == ByteOpcode::LTU.code() {
                    let lt_const = PicusConstraint::new_lt(values[2].duplicate(), values[3].duplicate());
                    if let PicusExpr::Const(1) = values[1] {
                        self.push_constraint(lt_const);
                    } else {
                        let bit_const = PicusConstraint::new_bit(values[1].duplicate());
                        let eq_one = PicusConstraint::new_equality(values[1].duplicate(), PicusExpr::Const(1));
                        self.push_constraint(PicusConstraint::Iff(Box::new(eq_one), Box::new(lt_const)));
                        self.push_constraint(bit_const);
                        assert(self.state() =~= byte_step(old(self).shr_carry_summary_mode, old(self).state(), multiplicity, values@));
                    }
                } else if Self::is_default_bitwise_byte_opcode(v) {
                    if !self.try_add_and_127_optimization(values) {
                        self.add_default_bitwise_byte_call(values);
                    }
                }
            },
            _ => {},
        }
    }
}

} // verus!
