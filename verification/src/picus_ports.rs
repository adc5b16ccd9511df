//! Interactions that define a module's ports: memory accesses and the
//! instruction a chip receives.
use vstd::prelude::*;
use crate::pcl::{PicusExpr, PicusConstraint, e_add, e_mul, c_lt, c_leq, c_equal};
use crate::picus_builder::{PicusBuilder, ExtractState};

verus! {

/// `var == val * m`: the port variable carries the value when the interaction is active.
pub open spec fn eq_mul(m: PicusExpr, val: PicusExpr, var: PicusExpr) -> PicusConstraint {
    c_equal(var, e_mul(val, m))
}

/// Binds `value` to a fresh port variable: the variable becomes an input or
/// an output, carries the value, and with `byte_range` is also at most 255.
pub open spec fn bind_port(st: ExtractState, m: PicusExpr, value: PicusExpr, as_input: bool, byte_range: bool) -> ExtractState {
    let v = PicusExpr::Var(st.fresh as usize);
    let st1 = if as_input { st.add_inputs(seq![v]) } else { st.add_outputs(seq![v]) };
    let st2 = st1.add_constraints(seq![eq_mul(m, value, v)]);
    let st3 = if byte_range { st2.add_constraints(seq![c_leq(v, PicusExpr::Const(255))]) } else { st2 };
    st3.with_fresh(st.fresh + 1)
}

/// Binds `values[lo..hi]` to fresh port variables, in order.
pub open spec fn bind_ports(
    st: ExtractState,
    m: PicusExpr,
    values: Seq<PicusExpr>,
    lo: int,
    hi: int,
    as_input: bool,
    byte_range: bool,
) -> ExtractState
    decreases hi - lo,
{
    if hi <= lo {
        st
    } else {
        bind_port(bind_ports(st, m, values, lo, hi - 1, as_input, byte_range), m, values[hi - 1], as_input, byte_range)
    }
}

/// Binds each memory value `values[lo..hi]`: inputs strictly below 255 when the
/// access is a read, outputs otherwise.
pub open spec fn bind_memory_values(st: ExtractState, m: PicusExpr, values: Seq<PicusExpr>, lo: int, hi: int, is_send: bool) -> ExtractState
    decreases hi - lo,
{
    if hi <= lo {
        st
    } else {
        let prev = bind_memory_values(st, m, values, lo, hi - 1, is_send);
        let v = PicusExpr::Var(prev.fresh as usize);
        let st1 = if is_send {
            prev.add_inputs(seq![v]).add_constraints(seq![c_lt(v, PicusExpr::Const(255))])
        } else {
            prev.add_outputs(seq![v])
        };
        st1.add_constraints(seq![eq_mul(m, values[hi - 1], v)]).with_fresh(prev.fresh + 1)
    }
}

/// What a memory access `[shard, clk, addr, value...]` adds: the address and
/// the values become ports (inputs for a read, outputs for a write); shard and
/// clock are ignored. An inactive access adds nothing.
pub open spec fn memory_step(st: ExtractState, m: PicusExpr, values: Seq<PicusExpr>, is_send: bool) -> ExtractState {
    if m == PicusExpr::Const(0) {
        st
    } else {
        let addr = PicusExpr::Var(st.fresh as usize);
        let st1 = if is_send { st.add_inputs(seq![addr]) } else { st.add_outputs(seq![addr]) };
        let st2 = st1.add_constraints(seq![eq_mul(m, values[2], addr)]).with_fresh(st.fresh + 1);
        bind_memory_values(st2, m, values, 3, values.len() as int, is_send)
    }
}

/// An active memory access can be summarized: it carries an address, and
/// there are fresh variables for the address and each value.
pub open spec fn memory_access_ok(fresh: int, values: Seq<PicusExpr>) -> bool {
    values.len() >= 4 && fresh + values.len() - 2 <= usize::MAX
}

/// The inputs on which a received instruction can be summarized.
pub open spec fn receive_instruction_ok(m: PicusExpr, values: Seq<PicusExpr>) -> bool {
    m != PicusExpr::Const(0) ==> {
        &&& values.len() >= 25
        &&& (values[2] is Const || values[2] is Var)
        &&& (values[23] == PicusExpr::Const(0) || values[23] == PicusExpr::Const(1))
        &&& (values[24] == PicusExpr::Const(0) || values[24] == PicusExpr::Const(1))
    }
}

/// What a received instruction adds. Its message holds the pc (2), next pc
/// (3), next-next pc (4), opcode (6), operand `a` (7..11), `b` (11..15), `c`
/// (15..19), `hi` (19..23), and the flags `op_a_immutable` (23) and `is_rw_a`
/// (24). The pc is an input when it is a variable; the next pcs are outputs,
/// with `next_pc == pc + 4`; the opcode is assumed deterministic; `a` is an
/// input when immutable and an output otherwise, and its limbs are
/// range-checked to bytes either way; `b` and `c` are inputs; `hi` is an input
/// when `is_rw_a` and an output otherwise.
/// An inactive interaction adds nothing.
pub open spec fn receive_instruction_step(st: ExtractState, m: PicusExpr, values: Seq<PicusExpr>) -> ExtractState {
    if m == PicusExpr::Const(0) {
        st
    } else {
        let pc = values[2];
        let st1 = if pc is Var { st.add_inputs(seq![pc]) } else { st };
        let next_pc = PicusExpr::Var(st.fresh as usize);
        let st2 = st1.add_outputs(seq![next_pc]).add_constraints(
            seq![eq_mul(m, values[3], next_pc), c_equal(values[3], e_add(pc, PicusExpr::Const(4)))],
        ).add_assumed(values[6]);
        let next_next_pc = PicusExpr::Var((st.fresh + 1) as usize);
        let st3 = st2.add_constraints(seq![eq_mul(m, values[4], next_next_pc)]).add_outputs(seq![next_next_pc]).with_fresh(
            st.fresh + 2,
        );
        let op_a_immutable = values[23] == PicusExpr::Const(1);
        let is_rw_a = values[24] == PicusExpr::Const(1);
        let st4 = bind_ports(st3, m, values, 7, 11, op_a_immutable, true);
        let st5 = bind_ports(st4, m, values, 11, 15, true, false);
        let st6 = bind_ports(st5, m, values, 15, 19, true, false);
        bind_ports(st6, m, values, 19, 23, is_rw_a, false)
    }
}

impl<'chips> PicusBuilder<'chips> {
    /// Binds `values[lo..hi]` to fresh port variables.
    fn bind_port_range(
        &mut self,
        multiplicity: &PicusExpr,
        values: &[PicusExpr],
        lo: usize,
        hi: usize,
        as_input: bool,
        byte_range: bool,
    )
        requires
            lo <= hi <= values@.len(),
            old(self).fresh_var_ctr + (hi - lo) <= usize::MAX,
        ensures
            final(self).same_setup(old(self)),
            final(self).state() == bind_ports(old(self).state(), *multiplicity, values@, lo as int, hi as int, as_input, byte_range),
            final(self).fresh_var_ctr == old(self).fresh_var_ctr + (hi - lo),
    {
        let mut i = lo;
        while i < hi
            invariant
                lo <= i <= hi,
                hi <= values@.len(),
                self.same_setup(old(self)),
                self.fresh_var_ctr == old(self).fresh_var_ctr + (i - lo),
                old(self).fresh_var_ctr + (hi - lo) <= usize::MAX,
                self.state() == bind_ports(old(self).state(), *multiplicity, values@, lo as int, i as int, as_input, byte_range),
            decreases hi - i,
        {
            let ghost before = self.state();
            let var = self.fresh_var();
            if as_input {
                self.push_input(var.duplicate());
            } else {
                self.push_output(var.duplicate());
            }
            self.push_constraint(PicusConstraint::new_equality(var.duplicate(), values[i].duplicate().times(multiplicity.duplicate())));
            if byte_range {
                self.push_constraint(PicusConstraint::new_leq(var, PicusExpr::Const(255)));
            }
            assert(self.state() =~= bind_port(before, *multiplicity, values@[i as int], as_input, byte_range));
            i += 1;
        }
    }

    /// Summarizes a received instruction: decides which message values are
    /// inputs and which are outputs of the module, and binds them to fresh
    /// variables.
    pub fn handle_receive_instruction(&mut self, multiplicity: PicusExpr, values: &[PicusExpr])
        requires
            receive_instruction_ok(multiplicity, values@),
            multiplicity != PicusExpr::Const(0) ==> old(self).fresh_var_ctr + 18 <= usize::MAX,
        ensures
            final(self).same_setup(old(self)),
            final(self).state() == receive_instruction_step(old(self).state(), multiplicity, values@),
    {
        if let PicusExpr::Const(0) = multiplicity {
            return;
        }
        let pc_val = &values[2];
        if let PicusExpr::Var(_) = pc_val {
            self.push_input(pc_val.duplicate());
        }
        let next_pc_out = self.fresh_var();
        self.push_output(next_pc_out.duplicate());
        self.push_constraint(PicusConstraint::new_equality(next_pc_out, values[3].duplicate().times(multiplicity.duplicate())));
        self.push_constraint(PicusConstraint::new_equality(values[3].duplicate(), pc_val.duplicate().plus(PicusExpr::Const(4))));
        self.push_assumed(values[6].duplicate());
        let op_a_immutable = match &values[23] {
            PicusExpr::Const(0) => false,
            _ => true,
        };
        let is_rw_a = match &values[24] {
            PicusExpr::Const(0) => false,
            _ => true,
        };
        let next_next_pc_out = self.fresh_var();
        self.push_constraint(PicusConstraint::new_equality(next_next_pc_out.duplicate(), values[4].duplicate().times(multiplicity.duplicate())));
        self.push_output(next_next_pc_out);
        let ghost st0 = old(self).state();
        assert(self.state() =~= ({
            let pc = values@[2];
            let st1 = if pc is Var { st0.add_inputs(seq![pc]) } else { st0 };
            let next_pc = PicusExpr::Var(st0.fresh as usize);
            let st2 = st1.add_outputs(seq![next_pc]).add_constraints(
                seq![eq_mul(multiplicity, values@[3], next_pc), c_equal(values@[3], e_add(pc, PicusExpr::Const(4)))],
            ).add_assumed(values@[6]);
            let next_next_pc = PicusExpr::Var((st0.fresh + 1) as usize);
            st2.add_constraints(seq![eq_mul(multiplicity, values@[4], next_next_pc)]).add_outputs(seq![next_next_pc]).with_fresh(
                st0.fresh + 2,
            )
        }));
        self.bind_port_range(&multiplicity, values, 7, 11, op_a_immutable, true);
        self.bind_port_range(&multiplicity, values, 11, 15, true, false);
        self.bind_port_range(&multiplicity, values, 15, 19, true, false);
        self.bind_port_range(&multiplicity, values, 19, 23, is_rw_a, false);
    }

    /// Summarizes a memory access `[shard, clk, addr, value...]`: a read
    /// (`is_send`) makes the address and values inputs, a write makes them
    /// outputs.
    pub fn handle_memory_interaction(&mut self, multiplicity: PicusExpr, values: &[PicusExpr], is_send: bool)
        requires
            multiplicity != PicusExpr::Const(0) ==> memory_access_ok(old(self).fresh_var_ctr as int, values@),
        ensures
            final(self).same_setup(old(self)),
            final(self).state() == memory_step(old(self).state(), multiplicity, values@, is_send),
    {
        if let PicusExpr::Const(0) = multiplicity {
            return;
        }
        let addr_var = self.fresh_var();
        if is_send {
            self.push_input(addr_var.duplicate());
        } else {
            self.push_output(addr_var.duplicate());
        }
        self.push_constraint(PicusConstraint::new_equality(addr_var, values[2].duplicate().times(multiplicity.duplicate())));
        let ghost st2 = self.state();
        let mut i: usize = 3;
        while i < values.len()
            invariant
                3 <= i <= values@.len(),
                self.same_setup(old(self)),
                st2.fresh == old(self).fresh_var_ctr + 1,
                self.fresh_var_ctr == old(self).fresh_var_ctr + 1 + (i - 3),
                old(self).fresh_var_ctr + values@.len() - 2 <= usize::MAX,
                self.state() == bind_memory_values(st2, multiplicity, values@, 3, i as int, is_send),
            decreases values@.len() - i,
        {
            let ghost before = self.state();
            let value_var = self.fresh_var();
            if is_send {
                self.push_input(value_var.duplicate());
                self.push_constraint(PicusConstraint::new_lt(value_var.duplicate(), PicusExpr::Const(255)));
            } else {
                self.push_output(value_var.duplicate());
            }
            self.push_constraint(PicusConstraint::new_equality(value_var, values[i].duplicate().times(multiplicity.duplicate())));
            assert(self.state() =~= bind_memory_values(st2, multiplicity, values@, 3, i + 1, is_send));
            i += 1;
        }
    }
}

} // verus!
