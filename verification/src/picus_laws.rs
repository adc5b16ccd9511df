//! Properties of extraction that hold across all interactions.
use vstd::prelude::*;
use crate::lookup::LookupKind;
use crate::pcl::{PicusExpr, ModuleView, c_bit, c_lt};
use crate::picus_builder::{BuilderConfig, ExtractState, SubmoduleMode, AirOp};
use crate::picus_bytes::{byte_step, msb_byte_step};
use crate::picus_ports::{memory_step, receive_instruction_step, bind_port, bind_ports, bind_memory_values};
use crate::picus_calls::{
    send_allowed, specialize_all, instruction_send_step, call_row, place_value, place_range, place_args, opcode_of,
};
use crate::picus_extract::{air_op_step, run_air};
use crate::picus_program::{top_module, selector_vars, selector_sum};

verus! {

/// `b` extends `a`: everything recorded in `a` is still recorded, in order,
/// at the front of `b`, and no variable number is handed out twice.
pub open spec fn extends(a: ExtractState, b: ExtractState) -> bool {
    &&& a.module.name == b.module.name
    &&& a.module.inputs.is_prefix_of(b.module.inputs)
    &&& a.module.outputs.is_prefix_of(b.module.outputs)
    &&& a.module.constraints.is_prefix_of(b.module.constraints)
    &&& a.module.calls.is_prefix_of(b.module.calls)
    &&& a.module.postconditions.is_prefix_of(b.module.postconditions)
    &&& a.module.assume_deterministic.is_prefix_of(b.module.assume_deterministic)
    &&& a.tasks.is_prefix_of(b.tasks)
    &&& a.fresh <= b.fresh
}

pub proof fn lemma_extends_refl(a: ExtractState)
    ensures
        extends(a, a),
{
    assert(a.module.inputs.is_prefix_of(a.module.inputs));
}

pub proof fn lemma_extends_trans(a: ExtractState, b: ExtractState, c: ExtractState)
    requires
        extends(a, b),
        extends(b, c),
    ensures
        extends(a, c),
{
}

proof fn lemma_add_extends(st: ExtractState)
    ensures
        forall|cs: Seq<crate::pcl::PicusConstraint>| #[trigger] extends(st, st.add_constraints(cs)),
        forall|es: Seq<PicusExpr>| #[trigger] extends(st, st.add_inputs(es)),
        forall|es: Seq<PicusExpr>| #[trigger] extends(st, st.add_outputs(es)),
        forall|c: crate::pcl::CallView| #[trigger] extends(st, st.add_call(c)),
        forall|e: PicusExpr| #[trigger] extends(st, st.add_assumed(e)),
        forall|f: int| f >= st.fresh ==> #[trigger] extends(st, st.with_fresh(f)),
        forall|n: Seq<char>, i: int, o: int| #[trigger] extends(st, st.ensure_aux(n, i, o)),
{
    assert forall|cs: Seq<crate::pcl::PicusConstraint>| #[trigger] extends(st, st.add_constraints(cs)) by {
        assert(st.module.constraints.is_prefix_of(st.module.constraints + cs)) by {
            assert forall|i: int| 0 <= i < st.module.constraints.len() implies (st.module.constraints + cs)[i] == st.module.constraints[i] by {}
        }
    }
    assert forall|es: Seq<PicusExpr>| #[trigger] extends(st, st.add_inputs(es)) by {
        assert forall|i: int| 0 <= i < st.module.inputs.len() implies (st.module.inputs + es)[i] == st.module.inputs[i] by {}
    }
    assert forall|es: Seq<PicusExpr>| #[trigger] extends(st, st.add_outputs(es)) by {
        assert forall|i: int| 0 <= i < st.module.outputs.len() implies (st.module.outputs + es)[i] == st.module.outputs[i] by {}
    }
}

proof fn lemma_bind_port_extends(st: ExtractState, m: PicusExpr, value: PicusExpr, as_input: bool, byte_range: bool)
    ensures
        extends(st, bind_port(st, m, value, as_input, byte_range)),
        bind_port(st, m, value, as_input, byte_range).fresh == st.fresh + 1,
{
    let v = PicusExpr::Var(st.fresh as usize);
    let st1 = if as_input { st.add_inputs(seq![v]) } else { st.add_outputs(seq![v]) };
    lemma_add_extends(st);
    lemma_add_extends(st1);
    let st2 = st1.add_constraints(seq![crate::picus_ports::eq_mul(m, value, v)]);
    lemma_add_extends(st2);
    let st3 = if byte_range { st2.add_constraints(seq![crate::pcl::c_leq(v, PicusExpr::Const(255))]) } else { st2 };
    lemma_add_extends(st3);
}

proof fn lemma_bind_ports_extends(st: ExtractState, m: PicusExpr, values: Seq<PicusExpr>, lo: int, hi: int, as_input: bool, byte_range: bool)
    ensures
        extends(st, bind_ports(st, m, values, lo, hi, as_input, byte_range)),
    decreases hi - lo,
{
    if hi <= lo {
        lemma_extends_refl(st);
    } else {
        let prev = bind_ports(st, m, values, lo, hi - 1, as_input, byte_range);
        lemma_bind_ports_extends(st, m, values, lo, hi - 1, as_input, byte_range);
        lemma_bind_port_extends(prev, m, values[hi - 1], as_input, byte_range);
    }
}

proof fn lemma_bind_memory_values_extends(st: ExtractState, m: PicusExpr, values: Seq<PicusExpr>, lo: int, hi: int, is_send: bool)
    ensures
        extends(st, bind_memory_values(st, m, values, lo, hi, is_send)),
    decreases hi - lo,
{
    if hi <= lo {
        lemma_extends_refl(st);
    } else {
        let prev = bind_memory_values(st, m, values, lo, hi - 1, is_send);
        lemma_bind_memory_values_extends(st, m, values, lo, hi - 1, is_send);
        let v = PicusExpr::Var(prev.fresh as usize);
        lemma_add_extends(prev);
        let a = prev.add_inputs(seq![v]);
        lemma_add_extends(a);
        let st1 = if is_send {
            a.add_constraints(seq![c_lt(v, PicusExpr::Const(255))])
        } else {
            prev.add_outputs(seq![v])
        };
        lemma_add_extends(st1);
        let st2 = st1.add_constraints(seq![crate::picus_ports::eq_mul(m, values[hi - 1], v)]);
        lemma_add_extends(st2);
    }
}

proof fn lemma_memory_step_extends(st: ExtractState, m: PicusExpr, values: Seq<PicusExpr>, is_send: bool)
    ensures
        extends(st, memory_step(st, m, values, is_send)),
{
    lemma_extends_refl(st);
    if m != PicusExpr::Const(0) {
        let addr = PicusExpr::Var(st.fresh as usize);
        lemma_add_extends(st);
        let st1 = if is_send { st.add_inputs(seq![addr]) } else { st.add_outputs(seq![addr]) };
        lemma_add_extends(st1);
        let st1b = st1.add_constraints(seq![crate::picus_ports::eq_mul(m, values[2], addr)]);
        lemma_add_extends(st1b);
        let st2 = st1b.with_fresh(st.fresh + 1);
        lemma_bind_memory_values_extends(st2, m, values, 3, values.len() as int, is_send);
    }
}

proof fn lemma_receive_instruction_extends(st: ExtractState, m: PicusExpr, values: Seq<PicusExpr>)
    ensures
        extends(st, receive_instruction_step(st, m, values)),
{
    lemma_extends_refl(st);
    if m != PicusExpr::Const(0) {
        let pc = values[2];
        lemma_add_extends(st);
        let st1 = if pc is Var { st.add_inputs(seq![pc]) } else { st };
        let next_pc = PicusExpr::Var(st.fresh as usize);
        lemma_add_extends(st1);
        let s_a = st1.add_outputs(seq![next_pc]);
        lemma_add_extends(s_a);
        let s_b = s_a.add_constraints(
            seq![crate::picus_ports::eq_mul(m, values[3], next_pc), crate::pcl::c_equal(values[3], crate::pcl::e_add(pc, PicusExpr::Const(4)))],
        );
        lemma_add_extends(s_b);
        let st2 = s_b.add_assumed(values[6]);
        let next_next_pc = PicusExpr::Var((st.fresh + 1) as usize);
        lemma_add_extends(st2);
        let s_c = st2.add_constraints(seq![crate::picus_ports::eq_mul(m, values[4], next_next_pc)]);
        lemma_add_extends(s_c);
        let s_d = s_c.add_outputs(seq![next_next_pc]);
        lemma_add_extends(s_d);
        let st3 = s_d.with_fresh(st.fresh + 2);
        let op_a_immutable = values[23] == PicusExpr::Const(1);
        let is_rw_a = values[24] == PicusExpr::Const(1);
        lemma_bind_ports_extends(st3, m, values, 7, 11, op_a_immutable, true);
        let st4 = bind_ports(st3, m, values, 7, 11, op_a_immutable, true);
        lemma_bind_ports_extends(st4, m, values, 11, 15, true, false);
        let st5 = bind_ports(st4, m, values, 11, 15, true, false);
        lemma_bind_ports_extends(st5, m, values, 15, 19, true, false);
        let st6 = bind_ports(st5, m, values, 15, 19, true, false);
        lemma_bind_ports_extends(st6, m, values, 19, 23, is_rw_a, false);
        let st7 = bind_ports(st6, m, values, 19, 23, is_rw_a, false);
        lemma_extends_trans(st, st1, s_a);
        lemma_extends_trans(st, s_a, s_b);
        lemma_extends_trans(st, s_b, st2);
        lemma_extends_trans(st, st2, s_c);
        lemma_extends_trans(st, s_c, s_d);
        lemma_extends_trans(st, s_d, st3);
        lemma_extends_trans(st, st3, st4);
        lemma_extends_trans(st, st4, st5);
        lemma_extends_trans(st, st5, st6);
        lemma_extends_trans(st, st6, st7);
        assert(st7 == receive_instruction_step(st, m, values));
    }
}

proof fn lemma_byte_step_extends(shr: crate::picus_builder::ShrCarrySummaryMode, st: ExtractState, m: PicusExpr, values: Seq<PicusExpr>)
    ensures
        extends(st, byte_step(shr, st, m, values)),
{
    lemma_extends_refl(st);
    lemma_add_extends(st);
    let msb1 = msb_byte_step(st, m, values[1], values[3]);
    lemma_msb_extends(st, m, values[1], values[3]);
    lemma_msb_extends(msb1, m, values[1], values[4]);
    let e1 = st.ensure_aux("ShrCarry"@, 2, 2);
    lemma_add_extends(e1);
    let e2 = st.ensure_aux("byte_interaction_mod"@, 2, 1);
    lemma_add_extends(e2);
    let a = st.add_constraints(crate::picus_bytes::and_127_constraints(values, PicusExpr::Var(st.fresh as usize)));
    lemma_add_extends(a);
}

proof fn lemma_msb_extends(st: ExtractState, m: PicusExpr, msb: PicusExpr, byte: PicusExpr)
    ensures
        extends(st, msb_byte_step(st, m, msb, byte)),
{
    lemma_extends_refl(st);
    lemma_add_extends(st);
    let low = PicusExpr::Var(st.fresh as usize);
    let a = st.add_constraints(
        seq![
            crate::pcl::c_leq(crate::pcl::e_mul(low, m), PicusExpr::Const(127)),
            crate::pcl::c_zero(crate::pcl::e_mul(crate::pcl::e_mul(m, msb), crate::pcl::e_sub(msb, PicusExpr::Const(1)))),
            crate::pcl::c_zero(crate::pcl::e_mul(m, crate::pcl::e_sub(byte, crate::pcl::e_add(crate::pcl::e_mul(msb, PicusExpr::Const(128)), low)))),
        ],
    );
    lemma_add_extends(a);
}

proof fn lemma_place_value_extends(row: Seq<crate::pcl::PicusAtom>, st: ExtractState, pos: int, v: PicusExpr)
    ensures
        extends(st, place_value(row, st, pos, v).1),
{
    lemma_extends_refl(st);
    lemma_add_extends(st);
    let a = st.add_constraints(seq![crate::pcl::c_equal(PicusExpr::Var(st.fresh as usize), v)]);
    lemma_add_extends(a);
}

proof fn lemma_place_range_extends(row: Seq<crate::pcl::PicusAtom>, st: ExtractState, values: Seq<PicusExpr>, start: int, end: int, col0: int)
    ensures
        extends(st, place_range(row, st, values, start, end, col0).1),
    decreases end - start,
{
    if end <= start {
        lemma_extends_refl(st);
    } else {
        let p = place_range(row, st, values, start, end - 1, col0);
        lemma_place_range_extends(row, st, values, start, end - 1, col0);
        lemma_place_value_extends(p.0, p.1, col0 + (end - 1 - start), values[end - 1]);
    }
}

proof fn lemma_place_args_extends(
    row: Seq<crate::pcl::PicusAtom>,
    st: ExtractState,
    values: Seq<PicusExpr>,
    args: Seq<(crate::picus_builder::IndexSlice, String)>,
    entries: Seq<(String, (usize, usize))>,
)
    ensures
        extends(st, place_args(row, st, values, args, entries).1),
    decreases args.len(),
{
    if args.len() == 0 {
        lemma_extends_refl(st);
    } else {
        let p = place_args(row, st, values, args.drop_last(), entries);
        lemma_place_args_extends(row, st, values, args.drop_last(), entries);
        let r = crate::picus_calls::colrange_in(entries, args.last().1@).unwrap();
        match args.last().0 {
            crate::picus_builder::IndexSlice::Range { start, end } => {
                lemma_place_range_extends(p.0, p.1, values, start as int, end as int, r.0 as int);
            },
            crate::picus_builder::IndexSlice::Single(col) => {
                lemma_place_value_extends(p.0, p.1, r.0 as int, values[col as int]);
            },
        }
    }
}

proof fn lemma_instruction_send_extends(
    chips: Seq<crate::picus_builder::ChipDesc>,
    specs: Seq<crate::picus_builder::OpcodeSpec>,
    st: ExtractState,
    m: PicusExpr,
    values: Seq<PicusExpr>,
)
    ensures
        extends(st, instruction_send_step(chips, specs, st, m, values)),
{
    let spec = specs[opcode_of(values) as int];
    let target = chips[crate::picus_builder::first_chip_with_name(chips, spec.chip@)];
    let st0 = st.with_fresh(st.fresh + target.width);
    lemma_add_extends(st);
    lemma_place_args_extends(
        crate::picus_builder::atom_vars(st.fresh, target.width as int),
        st0,
        values,
        spec.arg_to_colname@,
        target.picus_info.name_to_colrange@,
    );
    let p = call_row(chips, specs, st, values);
    assert(p.1.tasks.is_prefix_of(p.1.tasks.push(crate::picus_builder::TaskView {
        chip_name: target.name@,
        main_vars: p.0,
        multiplicity: m,
        selector: spec.selector@,
    })));
}

/// Extraction only adds: every step of a chip's evaluation keeps everything
/// already recorded (ports, constraints, calls, deferred calls) at the front
/// of the module, and never hands out a variable number twice.
pub proof fn lemma_air_step_extends(cfg: BuilderConfig, st: ExtractState, op: AirOp)
    ensures
        extends(st, air_op_step(cfg, st, op)),
{
    lemma_add_extends(st);
    match op {
        AirOp::AssertZero(_) => {},
        AirOp::Send(l) => {
            let sv = specialize_all(cfg.env, crate::picus_extract::inst_all(l.values@, cfg.main));
            let sm = crate::picus_builder::specialize(cfg.env, crate::picus_extract::inst_expr(l.multiplicity, cfg.main));
            lemma_byte_step_extends(cfg.shr_mode, st, sm, sv);
            lemma_memory_step_extends(st, sm, sv, true);
            lemma_instruction_send_extends(cfg.chips, cfg.specs, st, sm, sv);
            lemma_extends_refl(st);
        },
        AirOp::Receive(l) => {
            let sv = specialize_all(cfg.env, crate::picus_extract::inst_all(l.values@, cfg.main));
            let sm = crate::picus_builder::specialize(cfg.env, crate::picus_extract::inst_expr(l.multiplicity, cfg.main));
            lemma_receive_instruction_extends(st, sm, sv);
            lemma_memory_step_extends(st, sm, sv, false);
            lemma_extends_refl(st);
        },
    }
}

/// Evaluating a whole chip only adds to what was recorded before.
pub proof fn lemma_run_air_extends(cfg: BuilderConfig, st: ExtractState, ops: Seq<AirOp>)
    requires
        run_air(cfg, st, ops) is Some,
    ensures
        extends(st, run_air(cfg, st, ops).unwrap()),
    decreases ops.len(),
{
    if ops.len() == 0 {
        lemma_extends_refl(st);
    } else {
        lemma_run_air_extends(cfg, st, ops.drop_last());
        let s = run_air(cfg, st, ops.drop_last()).unwrap();
        lemma_air_step_extends(cfg, s, ops.last());
        lemma_extends_trans(st, s, run_air(cfg, st, ops).unwrap());
    }
}

/// An inactive memory access or received instruction (multiplicity 0 after
/// specialization) adds nothing.
pub proof fn lemma_inactive_interactions_add_nothing(st: ExtractState, values: Seq<PicusExpr>, is_send: bool)
    ensures
        memory_step(st, PicusExpr::Const(0), values, is_send) == st,
        receive_instruction_step(st, PicusExpr::Const(0), values) == st,
{
}

/// An instruction lookup whose opcode has no routing entry cannot be
/// extracted (outside the selector module).
pub proof fn lemma_unrouted_opcode_fails(cfg: BuilderConfig, st: ExtractState, values: Seq<PicusExpr>, m: PicusExpr)
    requires
        cfg.mode != SubmoduleMode::Ignore,
        specialize_all(cfg.env, values).len() > 6,
        specialize_all(cfg.env, values)[6] matches PicusExpr::Const(op) && op >= cfg.specs.len(),
    ensures
        !send_allowed(cfg, st, LookupKind::Instruction, values, m),
{
}

/// The top module exposes exactly the selectors, and its last
/// postconditions state that each selector is a bit and that at most one
/// selector is set (their sum is below 2).
pub proof fn lemma_top_module_selectors(base: ModuleView, sels: Seq<(usize, String)>, assume_deterministic: bool)
    requires
        sels.len() > 0,
    ensures
        ({
            let top = top_module(base, sels, assume_deterministic);
            let n = base.postconditions.len() as int;
            &&& top.name == "top"@
            &&& top.outputs == selector_vars(sels)
            &&& top.postconditions.len() == n + sels.len() + 1
            &&& forall|j: int| 0 <= j < sels.len() ==> top.postconditions[n + j] == c_bit(PicusExpr::Var(#[trigger] sels[j].0))
            &&& top.postconditions[n + sels.len()] == c_lt(selector_sum(sels), PicusExpr::Const(2))
            &&& top.constraints == base.constraints
        }),
{
}

/// `b`'s module extends `a`'s: everything `a` recorded is still at the front,
/// and no variable number is handed out twice.
pub open spec fn module_extends(a: ExtractState, b: ExtractState) -> bool {
    &&& a.module.name == b.module.name
    &&& a.module.inputs.is_prefix_of(b.module.inputs)
    &&& a.module.outputs.is_prefix_of(b.module.outputs)
    &&& a.module.constraints.is_prefix_of(b.module.constraints)
    &&& a.module.calls.is_prefix_of(b.module.calls)
    &&& a.module.postconditions.is_prefix_of(b.module.postconditions)
    &&& a.module.assume_deterministic.is_prefix_of(b.module.assume_deterministic)
    &&& a.fresh <= b.fresh
}

proof fn lemma_prefix_append<T>(a: Seq<T>, b: Seq<T>, c: Seq<T>)
    requires
        a.is_prefix_of(b),
    ensures
        a.is_prefix_of(b + c),
{
    assert forall|i: int| 0 <= i < a.len() implies (b + c)[i] == a[i] by {}
}

/// Extracting a chip only adds to its module: the constraints, calls and
/// postconditions recorded before stay at the front (inlined calls append
/// theirs), the ports only grow, and fresh variables are never reused.
pub proof fn lemma_analyze_extends(cfg: BuilderConfig, chip: crate::picus_builder::ChipDesc, st: ExtractState, depth: nat)
    requires
        crate::picus_extract::analyze_spec(cfg, chip, st, depth) is Some,
    ensures
        module_extends(st, crate::picus_extract::analyze_spec(cfg, chip, st, depth).unwrap()),
    decreases depth, 1int, 0int,
{
    let s = run_air(cfg, st, chip.air@).unwrap();
    lemma_run_air_extends(cfg, st, chip.air@);
    lemma_process_tasks_extends(cfg, s, depth);
}

/// Inlining the deferred calls only adds to the module.
pub proof fn lemma_process_tasks_extends(cfg: BuilderConfig, st: ExtractState, depth: nat)
    requires
        crate::picus_extract::process_tasks(cfg, st, depth) is Some,
    ensures
        module_extends(st, crate::picus_extract::process_tasks(cfg, st, depth).unwrap()),
    decreases depth, 0int, st.tasks.len(),
{
    if st.tasks.len() == 0 {
        assert(st.module.inputs.is_prefix_of(st.module.inputs));
    } else {
        let t = st.tasks.last();
        let st1 = ExtractState { tasks: st.tasks.drop_last(), ..st };
        let target = cfg.chips[crate::picus_builder::first_chip_with_name(cfg.chips, t.chip_name)];
        let r = crate::picus_calls::colrange_in(target.picus_info.name_to_colrange@, t.selector).unwrap();
        let env = crate::picus_extract::call_env(t, target.picus_info, r.0 as int).unwrap();
        let sub_start = crate::picus_extract::call_start(t, st1.fresh);
        let sub_cfg = crate::picus_extract::call_config(cfg, t, env);
        lemma_analyze_extends(sub_cfg, target, sub_start, (depth - 1) as nat);
        let sub = crate::picus_extract::analyze_spec(sub_cfg, target, sub_start, (depth - 1) as nat).unwrap();
        let merged = crate::picus_extract::inline_call(st1, t, env, sub);
        let gated = crate::pcl::gate_module(sub.module, t.multiplicity);
        let updated = crate::pcl::partial_eval_module(gated, env);
        lemma_prefix_append(st.module.constraints, st.module.constraints, updated.constraints);
        lemma_prefix_append(st.module.calls, st.module.calls, updated.calls);
        lemma_prefix_append(st.module.postconditions, st.module.postconditions, gated.postconditions);
        assert(st.module.inputs.is_prefix_of(st.module.inputs));
        assert(st.module.outputs.is_prefix_of(st.module.outputs));
        assert(st.module.assume_deterministic.is_prefix_of(st.module.assume_deterministic));
        assert(module_extends(st, merged));
        lemma_process_tasks_extends(cfg, merged, depth);
        let fin = crate::picus_extract::process_tasks(cfg, merged, depth).unwrap();
        assert(module_extends(merged, fin));
        assert(module_extends(st, fin)) by {
            assert(st.module.inputs.is_prefix_of(fin.module.inputs));
        }
    }
}

/// The depth bound only cuts off nesting: an extraction that succeeds within
/// `depth` gives the same result with any larger bound, so the error for too
/// deep calls comes only from calls nested deeper than the bound.
pub proof fn lemma_analyze_depth(cfg: BuilderConfig, chip: crate::picus_builder::ChipDesc, st: ExtractState, depth: nat, larger: nat)
    requires
        crate::picus_extract::analyze_spec(cfg, chip, st, depth) is Some,
        depth <= larger,
    ensures
        crate::picus_extract::analyze_spec(cfg, chip, st, larger) == crate::picus_extract::analyze_spec(cfg, chip, st, depth),
    decreases depth, 1int, 0int,
{
    let s = run_air(cfg, st, chip.air@).unwrap();
    lemma_process_tasks_depth(cfg, s, depth, larger);
}

/// Inlining the deferred calls that succeeds within `depth` gives the same
/// result with any larger bound.
pub proof fn lemma_process_tasks_depth(cfg: BuilderConfig, st: ExtractState, depth: nat, larger: nat)
    requires
        crate::picus_extract::process_tasks(cfg, st, depth) is Some,
        depth <= larger,
    ensures
        crate::picus_extract::process_tasks(cfg, st, larger) == crate::picus_extract::process_tasks(cfg, st, depth),
    decreases depth, 0int, st.tasks.len(),
{
    if st.tasks.len() > 0 {
        let t = st.tasks.last();
        let st1 = ExtractState { tasks: st.tasks.drop_last(), ..st };
        let target = cfg.chips[crate::picus_builder::first_chip_with_name(cfg.chips, t.chip_name)];
        let r = crate::picus_calls::colrange_in(target.picus_info.name_to_colrange@, t.selector).unwrap();
        let env = crate::picus_extract::call_env(t, target.picus_info, r.0 as int).unwrap();
        let sub_start = crate::picus_extract::call_start(t, st1.fresh);
        let sub_cfg = crate::picus_extract::call_config(cfg, t, env);
        lemma_analyze_depth(sub_cfg, target, sub_start, (depth - 1) as nat, (larger - 1) as nat);
        let sub = crate::picus_extract::analyze_spec(sub_cfg, target, sub_start, (depth - 1) as nat).unwrap();
        let merged = crate::picus_extract::inline_call(st1, t, env, sub);
        lemma_process_tasks_depth(cfg, merged, depth, larger);
    }
}

/// A byte lookup touches only the constraints, the calls, the auxiliary
/// modules and the counter: the module's name, ports, postconditions, values
/// assumed deterministic and deferred calls stay as they were. A lookup whose
/// operation is not a constant (skipped while building the selector module),
/// or is a constant naming none of the summarized byte operations, changes
/// nothing.
pub proof fn lemma_byte_step_scope(
    shr: crate::picus_builder::ShrCarrySummaryMode,
    st: ExtractState,
    m: PicusExpr,
    values: Seq<PicusExpr>,
)
    ensures
        ({
            let r = byte_step(shr, st, m, values);
            &&& r.module.name == st.module.name
            &&& r.module.inputs == st.module.inputs
            &&& r.module.outputs == st.module.outputs
            &&& r.module.postconditions == st.module.postconditions
            &&& r.module.assume_deterministic == st.module.assume_deterministic
            &&& r.tasks == st.tasks
            &&& r.symbolic == st.symbolic
            &&& !(values[0] is Const) ==> r == st
            &&& (values[0] matches PicusExpr::Const(v) && !byte_op_summarized(v)) ==> r == st
        }),
{
    let s1 = msb_byte_step(st, m, values[1], values[3]);
    let s2 = msb_byte_step(s1, m, values[1], values[4]);
    assert(s1.module.inputs == st.module.inputs && s1.tasks == st.tasks && s1.module.name == st.module.name);
    assert(s2.module.inputs == st.module.inputs && s2.tasks == st.tasks && s2.module.name == st.module.name);
}

/// The byte operations a byte lookup is summarized for.
pub open spec fn byte_op_summarized(v: u64) -> bool {
    ||| v == crate::lookup::byte_opcode_code(crate::lookup::ByteOpcode::U8Range)
    ||| v == crate::lookup::byte_opcode_code(crate::lookup::ByteOpcode::U16Range)
    ||| v == crate::lookup::byte_opcode_code(crate::lookup::ByteOpcode::MSB)
    ||| v == crate::lookup::byte_opcode_code(crate::lookup::ByteOpcode::ShrCarry)
    ||| v == crate::lookup::byte_opcode_code(crate::lookup::ByteOpcode::LTU)
    ||| crate::picus_bytes::is_bitwise_code(v)
}

// ---------------------------------------------------------------------------
// What the interactions mean
// ---------------------------------------------------------------------------

/// The other selectors' cells are fixed to 0, and every earlier assignment to
/// a variable that no other selector cell holds is kept.
proof fn lemma_other_selectors_env(env: Map<usize, u64>, t: crate::picus_builder::TaskView, sels: Seq<(usize, String)>, chosen: usize)
    requires
        crate::picus_extract::other_selectors_env(env, t, sels, chosen) is Some,
    ensures
        ({
            let e = crate::picus_extract::other_selectors_env(env, t, sels, chosen).unwrap();
            &&& forall|k: int| 0 <= k < sels.len() ==> (#[trigger] crate::picus_extract::task_var(t, sels[k].0 as int)) is Some
            &&& forall|k: int|
                0 <= k < sels.len() && crate::picus_extract::task_var(t, sels[k].0 as int) != Some(chosen) ==> {
                    let v = (#[trigger] crate::picus_extract::task_var(t, sels[k].0 as int))->Some_0;
                    e.contains_key(v) && e[v] == 0
                }
            &&& forall|v: usize|
                #[trigger] env.contains_key(v) && (v == chosen || forall|k: int|
                    0 <= k < sels.len() ==> crate::picus_extract::task_var(t, sels[k].0 as int) != Some(v)) ==> e.contains_key(v)
                    && e[v] == env[v]
        }),
    decreases sels.len(),
{
    if sels.len() > 0 {
        let init = sels.drop_last();
        lemma_other_selectors_env(env, t, init, chosen);
        let e0 = crate::picus_extract::other_selectors_env(env, t, init, chosen).unwrap();
        let e = crate::picus_extract::other_selectors_env(env, t, sels, chosen).unwrap();
        let last = sels.len() - 1;
        assert forall|k: int| 0 <= k < sels.len() implies (#[trigger] crate::picus_extract::task_var(t, sels[k].0 as int)) is Some by {
            if k < last {
                assert(sels[k] == init[k]);
            }
        }
        assert forall|k: int| 0 <= k < sels.len() && crate::picus_extract::task_var(t, sels[k].0 as int) != Some(chosen) implies {
            let v = (#[trigger] crate::picus_extract::task_var(t, sels[k].0 as int))->Some_0;
            e.contains_key(v) && e[v] == 0
        } by {
            if k < last {
                assert(sels[k] == init[k]);
            }
        }
        assert forall|v: usize| #[trigger] env.contains_key(v) && (v == chosen || forall|k: int|
            0 <= k < sels.len() ==> crate::picus_extract::task_var(t, sels[k].0 as int) != Some(v)) implies e.contains_key(v)
            && e[v] == env[v] by {
            if v != chosen {
                assert forall|k: int| 0 <= k < init.len() implies crate::picus_extract::task_var(t, init[k].0 as int) != Some(v) by {
                    assert(init[k] == sels[k]);
                }
                assert(crate::picus_extract::task_var(t, sels[last].0 as int) != Some(v));
            }
        }
    }
}

/// A call is inlined under fixed values that make its selector and its
/// `is_real` cell 1 and every other selector cell 0: the call's selector
/// column holds a variable fixed to 1, each other selector column holds a
/// variable fixed to 0 (unless it is the call's selector variable), and when
/// the target chip has an `is_real` column, the variable there is fixed to 1
/// unless another selector column holds the same variable.
pub proof fn lemma_call_env_fixes(t: crate::picus_builder::TaskView, info: crate::picus_builder::PicusInfo, sel_col: int)
    requires
        crate::picus_extract::call_env(t, info, sel_col) is Some,
    ensures
        ({
            let env = crate::picus_extract::call_env(t, info, sel_col).unwrap();
            let sels = info.selector_indices@;
            &&& 0 <= sel_col < t.main_vars.len()
            &&& t.main_vars[sel_col] matches crate::pcl::PicusAtom::Var(sel) && env.contains_key(sel) && env[sel] == 1
            &&& forall|k: int|
                0 <= k < sels.len() ==> ((#[trigger] t.main_vars[sels[k].0 as int]) matches crate::pcl::PicusAtom::Var(v)
                    && (t.main_vars[sel_col] != crate::pcl::PicusAtom::Var(v) ==> env.contains_key(v) && env[v] == 0))
            &&& info.is_real_index matches Some(id) ==> (t.main_vars[id as int] matches crate::pcl::PicusAtom::Var(r) && ((
            t.main_vars[sel_col] == crate::pcl::PicusAtom::Var(r) || forall|k: int|
                0 <= k < sels.len() ==> t.main_vars[sels[k].0 as int] != crate::pcl::PicusAtom::Var(r)) ==> env.contains_key(r)
                && env[r] == 1))
        }),
{
    let sel = crate::picus_extract::task_var(t, sel_col).unwrap();
    let base: Map<usize, u64> = match info.is_real_index {
        Some(id) => Map::<usize, u64>::empty().insert(crate::picus_extract::task_var(t, id as int).unwrap(), 1),
        None => Map::<usize, u64>::empty(),
    };
    let b1 = base.insert(sel, 1);
    let sels = info.selector_indices@;
    lemma_other_selectors_env(b1, t, sels, sel);
    let env = crate::picus_extract::call_env(t, info, sel_col).unwrap();
    assert(b1.contains_key(sel));
    assert forall|k: int| 0 <= k < sels.len() implies ((#[trigger] t.main_vars[sels[k].0 as int]) matches crate::pcl::PicusAtom::Var(v)
        && (t.main_vars[sel_col] != crate::pcl::PicusAtom::Var(v) ==> env.contains_key(v) && env[v] == 0)) by {
        assert(crate::picus_extract::task_var(t, sels[k].0 as int) is Some);
    }
    if let Some(id) = info.is_real_index {
        let r = crate::picus_extract::task_var(t, id as int).unwrap();
        if t.main_vars[sel_col] == crate::pcl::PicusAtom::Var(r) || forall|k: int|
            0 <= k < sels.len() ==> t.main_vars[sels[k].0 as int] != crate::pcl::PicusAtom::Var(r) {
            assert(b1.contains_key(r));
            if r != sel {
                assert forall|k: int| 0 <= k < sels.len() implies crate::picus_extract::task_var(t, sels[k].0 as int) != Some(r) by {
                    assert(t.main_vars[sels[k].0 as int] != crate::pcl::PicusAtom::Var(r));
                }
            }
        }
    }
}

/// A sent instruction lookup (outside the selector module) defers a call of
/// the chip that implements its opcode: the calls deferred before stay in
/// front, and the new call, last, names that chip and the opcode's selector
/// and carries the lookup's multiplicity as the fixed values specialize it, so
/// that the inlined constraints are guarded by it.
pub proof fn lemma_instruction_send_task(
    cfg: BuilderConfig,
    st: ExtractState,
    values: Seq<PicusExpr>,
    m: PicusExpr,
)
    requires
        cfg.mode != SubmoduleMode::Ignore,
    ensures
        ({
            let sv = specialize_all(cfg.env, values);
            let r = crate::picus_calls::send_step(cfg, st, LookupKind::Instruction, values, m);
            let spec = cfg.specs[opcode_of(sv) as int];
            &&& r.tasks.len() > 0
            &&& st.tasks.is_prefix_of(r.tasks)
            &&& r.tasks.last().multiplicity == crate::picus_builder::specialize(cfg.env, m)
            &&& r.tasks.last().selector == spec.selector@
            &&& crate::picus_builder::has_chip(cfg.chips, spec.chip@) ==> r.tasks.last().chip_name == spec.chip@
        }),
{
    let sv = specialize_all(cfg.env, values);
    let sm = crate::picus_builder::specialize(cfg.env, m);
    let spec = cfg.specs[opcode_of(sv) as int];
    lemma_instruction_send_extends(cfg.chips, cfg.specs, st, sm, sv);
    crate::picus_builder::lemma_first_chip(cfg.chips, spec.chip@);
}

/// The variables `x_lo, ..., x_(hi-1)` that port binding hands out from the
/// counter, `x_k` standing for `values[k]`.
pub open spec fn port_var(st: ExtractState, lo: int, k: int) -> PicusExpr {
    PicusExpr::Var((st.fresh + (k - lo)) as usize)
}

proof fn lemma_prefix_contains<T>(a: Seq<T>, b: Seq<T>, x: T)
    requires
        a.is_prefix_of(b),
        a.contains(x),
    ensures
        b.contains(x),
{
    let i = choose|i: int| 0 <= i < a.len() && a[i] == x;
    assert(b[i] == x);
}

/// Binding `values[lo..hi]` to ports: each value gets a new variable that
/// carries it (`x == value * m`), becomes an input or an output as asked, and
/// with `byte_range` is at most 255; what was recorded before stays in front.
proof fn lemma_bind_ports_contents(
    st: ExtractState,
    m: PicusExpr,
    values: Seq<PicusExpr>,
    lo: int,
    hi: int,
    as_input: bool,
    byte_range: bool,
)
    requires
        lo <= hi,
    ensures
        ({
            let r = bind_ports(st, m, values, lo, hi, as_input, byte_range);
            &&& r.fresh == st.fresh + (hi - lo)
            &&& extends(st, r)
            &&& forall|k: int|
                lo <= k < hi ==> {
                    &&& r.module.constraints.contains(
                        crate::pcl::c_equal(#[trigger] port_var(st, lo, k), crate::pcl::e_mul(values[k], m)),
                    )
                    &&& as_input ==> r.module.inputs.contains(port_var(st, lo, k))
                    &&& !as_input ==> r.module.outputs.contains(port_var(st, lo, k))
                    &&& byte_range ==> r.module.constraints.contains(crate::pcl::c_leq(port_var(st, lo, k), PicusExpr::Const(255)))
                }
        }),
    decreases hi - lo,
{
    if hi == lo {
        lemma_extends_refl(st);
    } else {
        lemma_bind_ports_contents(st, m, values, lo, hi - 1, as_input, byte_range);
        let prev = bind_ports(st, m, values, lo, hi - 1, as_input, byte_range);
        let r = bind_ports(st, m, values, lo, hi, as_input, byte_range);
        lemma_bind_port_extends(prev, m, values[hi - 1], as_input, byte_range);
        lemma_extends_trans(st, prev, r);
        let x = PicusExpr::Var(prev.fresh as usize);
        assert(x == port_var(st, lo, hi - 1));
        let st1 = if as_input { prev.add_inputs(seq![x]) } else { prev.add_outputs(seq![x]) };
        let eqc = crate::picus_ports::eq_mul(m, values[hi - 1], x);
        let st2 = st1.add_constraints(seq![eqc]);
        assert(st2.module.constraints[prev.module.constraints.len() as int] == eqc);
        assert(r.module.constraints[prev.module.constraints.len() as int] == eqc);
        if as_input {
            assert(r.module.inputs[prev.module.inputs.len() as int] == x);
        } else {
            assert(r.module.outputs[prev.module.outputs.len() as int] == x);
        }
        if byte_range {
            assert(r.module.constraints[prev.module.constraints.len() as int + 1] == crate::pcl::c_leq(x, PicusExpr::Const(255)));
        }
        assert forall|k: int| lo <= k < hi implies {
            &&& r.module.constraints.contains(crate::pcl::c_equal(#[trigger] port_var(st, lo, k), crate::pcl::e_mul(values[k], m)))
            &&& as_input ==> r.module.inputs.contains(port_var(st, lo, k))
            &&& !as_input ==> r.module.outputs.contains(port_var(st, lo, k))
            &&& byte_range ==> r.module.constraints.contains(crate::pcl::c_leq(port_var(st, lo, k), PicusExpr::Const(255)))
        } by {
            if k < hi - 1 {
                let y = port_var(st, lo, k);
                lemma_prefix_contains(prev.module.constraints, r.module.constraints, crate::pcl::c_equal(y, crate::pcl::e_mul(values[k], m)));
                if byte_range {
                    lemma_prefix_contains(prev.module.constraints, r.module.constraints, crate::pcl::c_leq(y, PicusExpr::Const(255)));
                }
                if as_input {
                    lemma_prefix_contains(prev.module.inputs, r.module.inputs, y);
                } else {
                    lemma_prefix_contains(prev.module.outputs, r.module.outputs, y);
                }
            }
        }
    }
}

/// An active memory access, read or write, binds its address `values[2]` to
/// a new port variable: the first constraint it adds is
/// `addr == values[2] * m`, and the port is an input for a read and an output
/// for a write. Each value `values[k]`, `k >= 3`, gets the next new variable,
/// which carries it and is an input below 255 for a read, an output for a
/// write.
pub proof fn lemma_memory_ports(st: ExtractState, m: PicusExpr, values: Seq<PicusExpr>, is_send: bool)
    requires
        m != PicusExpr::Const(0),
        values.len() >= 3,
    ensures
        ({
            let r = memory_step(st, m, values, is_send);
            let addr = PicusExpr::Var(st.fresh as usize);
            &&& extends(st, r)
            &&& r.module.constraints.len() > st.module.constraints.len()
            &&& r.module.constraints[st.module.constraints.len() as int] == crate::pcl::c_equal(addr, crate::pcl::e_mul(values[2], m))
            &&& is_send ==> r.module.inputs.contains(addr)
            &&& !is_send ==> r.module.outputs.contains(addr)
            &&& forall|k: int|
                3 <= k < values.len() ==> {
                    let x = #[trigger] port_var(st, 2, k);
                    &&& r.module.constraints.contains(crate::pcl::c_equal(x, crate::pcl::e_mul(values[k], m)))
                    &&& is_send ==> r.module.inputs.contains(x) && r.module.constraints.contains(c_lt(x, PicusExpr::Const(255)))
                    &&& !is_send ==> r.module.outputs.contains(x)
                }
        }),
{
    let addr = PicusExpr::Var(st.fresh as usize);
    let st1 = if is_send { st.add_inputs(seq![addr]) } else { st.add_outputs(seq![addr]) };
    let eqc = crate::picus_ports::eq_mul(m, values[2], addr);
    let st1b = st1.add_constraints(seq![eqc]);
    let st2 = st1b.with_fresh(st.fresh + 1);
    lemma_memory_step_extends(st, m, values, is_send);
    lemma_add_extends(st);
    lemma_add_extends(st1);
    lemma_add_extends(st1b);
    lemma_extends_trans(st, st1, st1b);
    lemma_extends_trans(st, st1b, st2);
    lemma_bind_memory_contents(st2, m, values, 3, values.len() as int, is_send);
    let r = memory_step(st, m, values, is_send);
    assert(st2.module.constraints[st.module.constraints.len() as int] == eqc);
    assert(r.module.constraints[st.module.constraints.len() as int] == eqc);
    if is_send {
        assert(st2.module.inputs[st.module.inputs.len() as int] == addr);
        lemma_prefix_contains(st2.module.inputs, r.module.inputs, addr);
    } else {
        assert(st2.module.outputs[st.module.outputs.len() as int] == addr);
        lemma_prefix_contains(st2.module.outputs, r.module.outputs, addr);
    }
    assert forall|k: int| 3 <= k < values.len() implies {
        let x = #[trigger] port_var(st, 2, k);
        &&& r.module.constraints.contains(crate::pcl::c_equal(x, crate::pcl::e_mul(values[k], m)))
        &&& is_send ==> r.module.inputs.contains(x) && r.module.constraints.contains(c_lt(x, PicusExpr::Const(255)))
        &&& !is_send ==> r.module.outputs.contains(x)
    } by {
        assert(port_var(st, 2, k) == port_var(st2, 3, k));
    }
}

/// Binding memory values to ports: each `values[k]` gets a new variable that
/// carries it, an input below 255 for a read and an output for a write.
proof fn lemma_bind_memory_contents(st: ExtractState, m: PicusExpr, values: Seq<PicusExpr>, lo: int, hi: int, is_send: bool)
    requires
        lo <= hi,
    ensures
        ({
            let r = bind_memory_values(st, m, values, lo, hi, is_send);
            &&& r.fresh == st.fresh + (hi - lo)
            &&& extends(st, r)
            &&& forall|k: int|
                lo <= k < hi ==> {
                    let x = #[trigger] port_var(st, lo, k);
                    &&& r.module.constraints.contains(crate::pcl::c_equal(x, crate::pcl::e_mul(values[k], m)))
                    &&& is_send ==> r.module.inputs.contains(x) && r.module.constraints.contains(c_lt(x, PicusExpr::Const(255)))
                    &&& !is_send ==> r.module.outputs.contains(x)
                }
        }),
    decreases hi - lo,
{
    lemma_bind_memory_values_extends(st, m, values, lo, hi, is_send);
    if hi > lo {
        lemma_bind_memory_contents(st, m, values, lo, hi - 1, is_send);
        let prev = bind_memory_values(st, m, values, lo, hi - 1, is_send);
        let r = bind_memory_values(st, m, values, lo, hi, is_send);
        lemma_bind_memory_values_extends(prev, m, values, hi - 1, hi, is_send);
        assert(bind_memory_values(prev, m, values, hi - 1, hi, is_send) == r) by {
            lemma_bind_memory_split(st, m, values, lo, hi, is_send);
        }
        let x = PicusExpr::Var(prev.fresh as usize);
        assert(x == port_var(st, lo, hi - 1));
        let eqc = crate::picus_ports::eq_mul(m, values[hi - 1], x);
        let n = prev.module.constraints.len() as int;
        if is_send {
            assert(r.module.inputs[prev.module.inputs.len() as int] == x);
            assert(r.module.constraints[n] == c_lt(x, PicusExpr::Const(255)));
            assert(r.module.constraints[n + 1] == eqc);
        } else {
            assert(r.module.outputs[prev.module.outputs.len() as int] == x);
            assert(r.module.constraints[n] == eqc);
        }
        assert forall|k: int| lo <= k < hi implies {
            let x = #[trigger] port_var(st, lo, k);
            &&& r.module.constraints.contains(crate::pcl::c_equal(x, crate::pcl::e_mul(values[k], m)))
            &&& is_send ==> r.module.inputs.contains(x) && r.module.constraints.contains(c_lt(x, PicusExpr::Const(255)))
            &&& !is_send ==> r.module.outputs.contains(x)
        } by {
            if k < hi - 1 {
                let y = port_var(st, lo, k);
                lemma_prefix_contains(prev.module.constraints, r.module.constraints, crate::pcl::c_equal(y, crate::pcl::e_mul(values[k], m)));
                if is_send {
                    lemma_prefix_contains(prev.module.constraints, r.module.constraints, c_lt(y, PicusExpr::Const(255)));
                    lemma_prefix_contains(prev.module.inputs, r.module.inputs, y);
                } else {
                    lemma_prefix_contains(prev.module.outputs, r.module.outputs, y);
                }
            }
        }
    }
}

proof fn lemma_bind_memory_split(st: ExtractState, m: PicusExpr, values: Seq<PicusExpr>, lo: int, hi: int, is_send: bool)
    requires
        lo < hi,
    ensures
        bind_memory_values(bind_memory_values(st, m, values, lo, hi - 1, is_send), m, values, hi - 1, hi, is_send)
            == bind_memory_values(st, m, values, lo, hi, is_send),
{
    let prev = bind_memory_values(st, m, values, lo, hi - 1, is_send);
    assert(bind_memory_values(prev, m, values, hi - 1, hi - 1, is_send) == prev);
}

/// Facts about `a` carried to a state `b` that extends it.
proof fn lemma_carry(a: ExtractState, b: ExtractState, c: crate::pcl::PicusConstraint, x: PicusExpr)
    requires
        extends(a, b),
    ensures
        a.module.constraints.contains(c) ==> b.module.constraints.contains(c),
        a.module.inputs.contains(x) ==> b.module.inputs.contains(x),
        a.module.outputs.contains(x) ==> b.module.outputs.contains(x),
        a.module.assume_deterministic.contains(x) ==> b.module.assume_deterministic.contains(x),
{
    if a.module.constraints.contains(c) {
        lemma_prefix_contains(a.module.constraints, b.module.constraints, c);
    }
    if a.module.inputs.contains(x) {
        lemma_prefix_contains(a.module.inputs, b.module.inputs, x);
    }
    if a.module.outputs.contains(x) {
        lemma_prefix_contains(a.module.outputs, b.module.outputs, x);
    }
    if a.module.assume_deterministic.contains(x) {
        lemma_prefix_contains(a.module.assume_deterministic, b.module.assume_deterministic, x);
    }
}

/// A received instruction (active) defines the module's ports. Slot `k` of
/// `values[7..23]` gets the new variable `port_var(st, 5, k)`, which carries
/// `values[k] * m`. The next pcs get the two variables before them, as
/// outputs carrying `values[3] * m` and `values[4] * m`, with
/// `values[3] == values[2] + 4`; the pc is an input when it is a variable;
/// the opcode `values[6]` is assumed deterministic. Operand `a`
/// (`values[7..11]`) is range-checked to bytes and is an input exactly when
/// `op_a_immutable` (`values[23]`) is 1, an output otherwise; `b` and `c`
/// (`values[11..19]`) are inputs; `hi` (`values[19..23]`) is an input exactly
/// when `is_rw_a` (`values[24]`) is 1, an output otherwise. Eighteen
/// variables are taken.
#[verifier::spinoff_prover]
#[verifier::rlimit(60)]
pub proof fn lemma_receive_instruction_ports(st: ExtractState, m: PicusExpr, values: Seq<PicusExpr>)
    requires
        m != PicusExpr::Const(0),
        crate::picus_ports::receive_instruction_ok(m, values),
    ensures
        ({
            let r = receive_instruction_step(st, m, values);
            let next_pc = PicusExpr::Var(st.fresh as usize);
            let next_next_pc = PicusExpr::Var((st.fresh + 1) as usize);
            &&& extends(st, r)
            &&& r.fresh == st.fresh + 18
            &&& r.module.outputs.contains(next_pc)
            &&& r.module.outputs.contains(next_next_pc)
            &&& r.module.constraints.contains(crate::pcl::c_equal(next_pc, crate::pcl::e_mul(values[3], m)))
            &&& r.module.constraints.contains(crate::pcl::c_equal(next_next_pc, crate::pcl::e_mul(values[4], m)))
            &&& r.module.constraints.contains(crate::pcl::c_equal(values[3], crate::pcl::e_add(values[2], PicusExpr::Const(4))))
            &&& values[2] is Var ==> r.module.inputs.contains(values[2])
            &&& r.module.assume_deterministic.contains(values[6])
            &&& forall|k: int|
                7 <= k < 23 ==> r.module.constraints.contains(
                    crate::pcl::c_equal(#[trigger] port_var(st, 5, k), crate::pcl::e_mul(values[k], m)),
                )
            &&& forall|k: int|
                7 <= k < 11 ==> {
                    &&& r.module.constraints.contains(crate::pcl::c_leq(#[trigger] port_var(st, 5, k), PicusExpr::Const(255)))
                    &&& values[23] == PicusExpr::Const(1) ==> r.module.inputs.contains(port_var(st, 5, k))
                    &&& values[23] != PicusExpr::Const(1) ==> r.module.outputs.contains(port_var(st, 5, k))
                }
            &&& forall|k: int| 11 <= k < 19 ==> r.module.inputs.contains(#[trigger] port_var(st, 5, k))
            &&& forall|k: int|
                19 <= k < 23 ==> {
                    &&& values[24] == PicusExpr::Const(1) ==> r.module.inputs.contains(#[trigger] port_var(st, 5, k))
                    &&& values[24] != PicusExpr::Const(1) ==> r.module.outputs.contains(port_var(st, 5, k))
                }
        }),
{
    let pc = values[2];
    lemma_add_extends(st);
    let st1 = if pc is Var { st.add_inputs(seq![pc]) } else { st };
    let next_pc = PicusExpr::Var(st.fresh as usize);
    lemma_add_extends(st1);
    let s_a = st1.add_outputs(seq![next_pc]);
    lemma_add_extends(s_a);
    let c1 = crate::picus_ports::eq_mul(m, values[3], next_pc);
    let c2 = crate::pcl::c_equal(values[3], crate::pcl::e_add(pc, PicusExpr::Const(4)));
    let s_b = s_a.add_constraints(seq![c1, c2]);
    lemma_add_extends(s_b);
    let st2 = s_b.add_assumed(values[6]);
    let next_next_pc = PicusExpr::Var((st.fresh + 1) as usize);
    lemma_add_extends(st2);
    let c3 = crate::picus_ports::eq_mul(m, values[4], next_next_pc);
    let s_c = st2.add_constraints(seq![c3]);
    lemma_add_extends(s_c);
    let s_d = s_c.add_outputs(seq![next_next_pc]);
    lemma_add_extends(s_d);
    let st3 = s_d.with_fresh(st.fresh + 2);
    let ia = values[23] == PicusExpr::Const(1);
    let rw = values[24] == PicusExpr::Const(1);
    lemma_bind_ports_contents(st3, m, values, 7, 11, ia, true);
    let st4 = bind_ports(st3, m, values, 7, 11, ia, true);
    lemma_bind_ports_contents(st4, m, values, 11, 15, true, false);
    let st5 = bind_ports(st4, m, values, 11, 15, true, false);
    lemma_bind_ports_contents(st5, m, values, 15, 19, true, false);
    let st6 = bind_ports(st5, m, values, 15, 19, true, false);
    lemma_bind_ports_contents(st6, m, values, 19, 23, rw, false);
    let r = bind_ports(st6, m, values, 19, 23, rw, false);
    assert(r == receive_instruction_step(st, m, values));
    lemma_extends_trans(st, st1, s_a);
    lemma_extends_trans(st, s_a, s_b);
    lemma_extends_trans(st, s_b, st2);
    lemma_extends_trans(st, st2, s_c);
    lemma_extends_trans(st, s_c, s_d);
    lemma_extends_trans(st, s_d, st3);
    lemma_extends_trans(st5, st6, r);
    lemma_extends_trans(st4, st5, r);
    lemma_extends_trans(st3, st4, r);
    lemma_extends_trans(st, st3, r);
    lemma_extends_trans(s_a, s_b, st3);
    lemma_extends_trans(s_a, st3, r);
    lemma_extends_trans(s_b, st3, r);
    lemma_extends_trans(st2, st3, r);
    lemma_extends_trans(s_c, st3, r);
    lemma_extends_trans(s_d, st3, r);
    lemma_extends_trans(st1, s_a, r);
    assert(s_a.module.outputs[st1.module.outputs.len() as int] == next_pc);
    lemma_carry(s_a, r, c1, next_pc);
    assert(s_b.module.constraints[s_a.module.constraints.len() as int] == c1);
    assert(s_b.module.constraints[s_a.module.constraints.len() as int + 1] == c2);
    lemma_carry(s_b, r, c1, next_pc);
    lemma_carry(s_b, r, c2, next_pc);
    assert(st2.module.assume_deterministic[s_b.module.assume_deterministic.len() as int] == values[6]);
    lemma_carry(st2, r, c1, values[6]);
    assert(s_c.module.constraints[st2.module.constraints.len() as int] == c3);
    lemma_carry(s_c, r, c3, next_next_pc);
    assert(s_d.module.outputs[s_c.module.outputs.len() as int] == next_next_pc);
    lemma_carry(s_d, r, c3, next_next_pc);
    if pc is Var {
        assert(st1.module.inputs[st.module.inputs.len() as int] == pc);
        lemma_carry(st1, r, c1, pc);
    }
    assert forall|k: int| 7 <= k < 23 implies r.module.constraints.contains(
        crate::pcl::c_equal(#[trigger] port_var(st, 5, k), crate::pcl::e_mul(values[k], m)),
    ) by {
        let c = crate::pcl::c_equal(port_var(st, 5, k), crate::pcl::e_mul(values[k], m));
        if k < 11 {
            assert(port_var(st, 5, k) == port_var(st3, 7, k));
            lemma_carry(st4, r, c, port_var(st, 5, k));
        } else if k < 15 {
            assert(port_var(st, 5, k) == port_var(st4, 11, k));
            lemma_carry(st5, r, c, port_var(st, 5, k));
        } else if k < 19 {
            assert(port_var(st, 5, k) == port_var(st5, 15, k));
            lemma_carry(st6, r, c, port_var(st, 5, k));
        } else {
            assert(port_var(st, 5, k) == port_var(st6, 19, k));
        }
    }
    assert forall|k: int| 7 <= k < 11 implies {
        &&& r.module.constraints.contains(crate::pcl::c_leq(#[trigger] port_var(st, 5, k), PicusExpr::Const(255)))
        &&& values[23] == PicusExpr::Const(1) ==> r.module.inputs.contains(port_var(st, 5, k))
        &&& values[23] != PicusExpr::Const(1) ==> r.module.outputs.contains(port_var(st, 5, k))
    } by {
        assert(port_var(st, 5, k) == port_var(st3, 7, k));
        lemma_carry(st4, r, crate::pcl::c_leq(port_var(st, 5, k), PicusExpr::Const(255)), port_var(st, 5, k));
    }
    assert forall|k: int| 11 <= k < 19 implies r.module.inputs.contains(#[trigger] port_var(st, 5, k)) by {
        if k < 15 {
            assert(port_var(st, 5, k) == port_var(st4, 11, k));
            lemma_carry(st5, r, c1, port_var(st, 5, k));
        } else {
            assert(port_var(st, 5, k) == port_var(st5, 15, k));
            lemma_carry(st6, r, c1, port_var(st, 5, k));
        }
    }
    assert forall|k: int| 19 <= k < 23 implies {
        &&& values[24] == PicusExpr::Const(1) ==> r.module.inputs.contains(#[trigger] port_var(st, 5, k))
        &&& values[24] != PicusExpr::Const(1) ==> r.module.outputs.contains(port_var(st, 5, k))
    } by {
        assert(port_var(st, 5, k) == port_var(st6, 19, k));
    }
}

/// `x == 1` holds exactly when `x` is 1 in the field.
proof fn lemma_equal_one(x: PicusExpr, asg: spec_fn(usize) -> int)
    ensures
        crate::pcl::holds(crate::pcl::c_equal(x, PicusExpr::Const(1)), asg) == (crate::pcl::eval_expr(x, asg) == 1),
{
    let p = crate::lookup::KOALA_BEAR_PRIME as int;
    crate::pcl::lemma_eval_canonical(x, asg);
    let ex = crate::pcl::eval_expr(x, asg);
    assert(crate::pcl::eval_expr(PicusExpr::Const(1), asg) == 1);
    assert(crate::pcl::eval_expr(crate::pcl::e_sub(x, PicusExpr::Const(1)), asg) == (ex - 1) % p);
    if ex == 0 {
        assert((0int - 1) % p == p - 1);
    } else {
        assert(0 <= ex - 1 < p);
        assert((ex - 1) % p == ex - 1) by {
            vstd::arithmetic::div_mod::lemma_small_mod((ex - 1) as nat, p as nat);
        }
    }
}

/// A bit satisfies the bit constraint.
proof fn lemma_bit_holds(x: PicusExpr, asg: spec_fn(usize) -> int)
    requires
        crate::pcl::eval_expr(x, asg) == 0 || crate::pcl::eval_expr(x, asg) == 1,
    ensures
        crate::pcl::holds(c_bit(x), asg),
{
    let p = crate::lookup::KOALA_BEAR_PRIME as int;
    let ex = crate::pcl::eval_expr(x, asg);
    assert(crate::pcl::eval_expr(PicusExpr::Const(1), asg) == 1);
    let d = crate::pcl::eval_expr(crate::pcl::e_sub(x, PicusExpr::Const(1)), asg);
    assert(d == (ex - 1) % p);
    if ex == 1 {
        assert(d == 0);
        assert(ex * d == 0);
    } else {
        assert(ex * d == 0);
    }
    assert(crate::pcl::eval_expr(crate::pcl::e_mul(x, crate::pcl::e_sub(x, PicusExpr::Const(1))), asg) == (ex * d) % p);
}

/// An unsigned-less-than lookup `[LTU, flag, b, c]` makes the flag the
/// comparison: under every assignment, the constraints it adds hold only
/// when `flag == 1` exactly when `b < c`, and they do hold whenever the flag
/// is a bit equal to that comparison. Nothing recorded before changes.
pub proof fn lemma_ltu_meaning(
    shr: crate::picus_builder::ShrCarrySummaryMode,
    st: ExtractState,
    m: PicusExpr,
    values: Seq<PicusExpr>,
    asg: spec_fn(usize) -> int,
)
    requires
        values.len() >= 4,
        values[0] == PicusExpr::Const(crate::lookup::byte_opcode_code(crate::lookup::ByteOpcode::LTU)),
    ensures
        ({
            let r = byte_step(shr, st, m, values);
            let added = r.module.constraints.subrange(st.module.constraints.len() as int, r.module.constraints.len() as int);
            let flag = crate::pcl::eval_expr(values[1], asg);
            let lt = crate::pcl::eval_expr(values[2], asg) < crate::pcl::eval_expr(values[3], asg);
            &&& st.module.constraints.is_prefix_of(r.module.constraints)
            &&& (forall|i: int| 0 <= i < added.len() ==> crate::pcl::holds(#[trigger] added[i], asg)) ==> ((flag == 1) == lt)
            &&& ((flag == 0 || flag == 1) && ((flag == 1) == lt)) ==> forall|i: int|
                0 <= i < added.len() ==> crate::pcl::holds(#[trigger] added[i], asg)
        }),
{
    let r = byte_step(shr, st, m, values);
    let lt_c = c_lt(values[2], values[3]);
    let cs = if values[1] == PicusExpr::Const(1) {
        seq![lt_c]
    } else {
        seq![crate::pcl::c_iff(crate::pcl::c_equal(values[1], PicusExpr::Const(1)), lt_c), c_bit(values[1])]
    };
    assert(r == st.add_constraints(cs));
    lemma_add_extends(st);
    let added = r.module.constraints.subrange(st.module.constraints.len() as int, r.module.constraints.len() as int);
    assert(added =~= cs);
    lemma_equal_one(values[1], asg);
    let flag = crate::pcl::eval_expr(values[1], asg);
    if flag == 0 || flag == 1 {
        lemma_bit_holds(values[1], asg);
    }
    let lt = crate::pcl::eval_expr(values[2], asg) < crate::pcl::eval_expr(values[3], asg);
    assert(crate::pcl::holds(lt_c, asg) == lt);
    if values[1] == PicusExpr::Const(1) {
        assert(crate::pcl::eval_expr(values[1], asg) == 1);
        assert(added.len() == 1 && added[0] == lt_c);
        if forall|i: int| 0 <= i < added.len() ==> crate::pcl::holds(#[trigger] added[i], asg) {
            assert(crate::pcl::holds(added[0], asg));
        }
    } else {
        let eq1 = crate::pcl::c_equal(values[1], PicusExpr::Const(1));
        assert(crate::pcl::holds(crate::pcl::c_iff(eq1, lt_c), asg) == (crate::pcl::holds(eq1, asg) == crate::pcl::holds(lt_c, asg)));
        assert(added.len() == 2 && added[0] == crate::pcl::c_iff(eq1, lt_c) && added[1] == c_bit(values[1]));
        if forall|i: int| 0 <= i < added.len() ==> crate::pcl::holds(#[trigger] added[i], asg) {
            assert(crate::pcl::holds(added[0], asg));
        }
        if (flag == 0 || flag == 1) && ((flag == 1) == lt) {
            assert forall|i: int| 0 <= i < added.len() implies crate::pcl::holds(#[trigger] added[i], asg) by {
                if i == 0 {
                    assert(crate::pcl::holds(added[0], asg));
                } else {
                    assert(crate::pcl::holds(added[1], asg));
                }
            }
        }
    }
}

/// Range checks: every non-constant value `v` gets `v * m <= bound`, and
/// every check is of that form.
proof fn lemma_range_checks_contents(vals: Seq<PicusExpr>, m: PicusExpr, bound: u64)
    ensures
        forall|i: int|
            0 <= i < vals.len() && !(vals[i] is Const) ==> crate::picus_bytes::range_checks(vals, m, bound).contains(
                crate::pcl::c_leq(crate::pcl::e_mul(#[trigger] vals[i], m), PicusExpr::Const(bound)),
            ),
        forall|j: int|
            0 <= j < crate::picus_bytes::range_checks(vals, m, bound).len() ==> exists|i: int|
                0 <= i < vals.len() && !(vals[i] is Const) && #[trigger] crate::picus_bytes::range_checks(vals, m, bound)[j]
                    == crate::pcl::c_leq(crate::pcl::e_mul(vals[i], m), PicusExpr::Const(bound)),
    decreases vals.len(),
{
    if vals.len() > 0 {
        let init = vals.drop_last();
        lemma_range_checks_contents(init, m, bound);
        let prev = crate::picus_bytes::range_checks(init, m, bound);
        let r = crate::picus_bytes::range_checks(vals, m, bound);
        assert forall|i: int| 0 <= i < vals.len() && !(vals[i] is Const) implies r.contains(
            crate::pcl::c_leq(crate::pcl::e_mul(#[trigger] vals[i], m), PicusExpr::Const(bound)),
        ) by {
            if i < init.len() {
                assert(init[i] == vals[i]);
                let c = crate::pcl::c_leq(crate::pcl::e_mul(vals[i], m), PicusExpr::Const(bound));
                let k = choose|k: int| 0 <= k < prev.len() && prev[k] == c;
                assert(r[k] == c);
            } else {
                assert(r[prev.len() as int] == crate::pcl::c_leq(crate::pcl::e_mul(vals[i], m), PicusExpr::Const(bound)));
            }
        }
        assert forall|j: int| 0 <= j < r.len() implies exists|i: int|
            0 <= i < vals.len() && !(vals[i] is Const) && #[trigger] r[j] == crate::pcl::c_leq(crate::pcl::e_mul(vals[i], m), PicusExpr::Const(bound)) by {
            if j < prev.len() {
                assert(r[j] == prev[j]);
                let i = choose|i: int|
                    0 <= i < init.len() && !(init[i] is Const) && #[trigger] prev[j] == crate::pcl::c_leq(crate::pcl::e_mul(init[i], m), PicusExpr::Const(bound));
                assert(init[i] == vals[i]);
            } else {
                assert(r[j] == crate::pcl::c_leq(crate::pcl::e_mul(vals[vals.len() - 1], m), PicusExpr::Const(bound)));
            }
        }
    }
}

/// A range-check lookup `[U8Range | U16Range, v1, v2, ...]` bounds each
/// non-constant value: it adds `v * m <= 255` (`65535` for 16-bit ranges)
/// for every such `v`, and nothing else, keeping what was recorded before.
pub proof fn lemma_range_check_meaning(
    shr: crate::picus_builder::ShrCarrySummaryMode,
    st: ExtractState,
    m: PicusExpr,
    values: Seq<PicusExpr>,
    wide: bool,
)
    requires
        values.len() >= 1,
        values[0] == PicusExpr::Const(
            crate::lookup::byte_opcode_code(if wide { crate::lookup::ByteOpcode::U16Range } else { crate::lookup::ByteOpcode::U8Range }),
        ),
    ensures
        ({
            let r = byte_step(shr, st, m, values);
            let bound: u64 = if wide { 65535 } else { 255 };
            let added = r.module.constraints.subrange(st.module.constraints.len() as int, r.module.constraints.len() as int);
            &&& st.module.constraints.is_prefix_of(r.module.constraints)
            &&& r.module.calls == st.module.calls
            &&& r.aux == st.aux
            &&& r.fresh == st.fresh
            &&& forall|i: int|
                1 <= i < values.len() && !(values[i] is Const) ==> added.contains(
                    crate::pcl::c_leq(crate::pcl::e_mul(#[trigger] values[i], m), PicusExpr::Const(bound)),
                )
            &&& forall|j: int|
                0 <= j < added.len() ==> exists|i: int|
                    1 <= i < values.len() && !(values[i] is Const) && #[trigger] added[j] == crate::pcl::c_leq(
                        crate::pcl::e_mul(values[i], m),
                        PicusExpr::Const(bound),
                    )
        }),
{
    let bound: u64 = if wide { 65535 } else { 255 };
    let rest = values.subrange(1, values.len() as int);
    let cs = crate::picus_bytes::range_checks(rest, m, bound);
    let r = byte_step(shr, st, m, values);
    assert(r == st.add_constraints(cs));
    lemma_add_extends(st);
    let added = r.module.constraints.subrange(st.module.constraints.len() as int, r.module.constraints.len() as int);
    assert(added =~= cs);
    lemma_range_checks_contents(rest, m, bound);
    assert forall|i: int| 1 <= i < values.len() && !(values[i] is Const) implies added.contains(
        crate::pcl::c_leq(crate::pcl::e_mul(#[trigger] values[i], m), PicusExpr::Const(bound)),
    ) by {
        assert(rest[i - 1] == values[i]);
    }
    assert forall|j: int| 0 <= j < added.len() implies exists|i: int|
        1 <= i < values.len() && !(values[i] is Const) && #[trigger] added[j] == crate::pcl::c_leq(
            crate::pcl::e_mul(values[i], m),
            PicusExpr::Const(bound),
        ) by {
        let k = choose|k: int| 0 <= k < rest.len() && !(rest[k] is Const) && #[trigger] cs[j] == crate::pcl::c_leq(
            crate::pcl::e_mul(rest[k], m),
            PicusExpr::Const(bound),
        );
        assert(rest[k] == values[k + 1]);
    }
}

/// A bitwise byte lookup `[op, out, _, b, c]` that is not `b & 127` becomes
/// a call `out = byte_interaction_mod(b, c)`, added last, with that module
/// present afterwards; the constraints and the counter stay.
pub proof fn lemma_bitwise_call(
    shr: crate::picus_builder::ShrCarrySummaryMode,
    st: ExtractState,
    m: PicusExpr,
    values: Seq<PicusExpr>,
)
    requires
        values.len() >= 5,
        values[0] matches PicusExpr::Const(v) && crate::picus_bytes::is_bitwise_code(v),
        !crate::picus_bytes::and_127_applies(values),
    ensures
        ({
            let r = byte_step(shr, st, m, values);
            &&& r.module.constraints == st.module.constraints
            &&& r.fresh == st.fresh
            &&& r.module.calls == st.module.calls.push(
                crate::pcl::CallView { mod_name: "byte_interaction_mod"@, outputs: seq![values[1]], inputs: seq![values[3], values[4]] },
            )
            &&& crate::picus_builder::has_module(r.aux, "byte_interaction_mod"@)
        }),
{
    crate::picus_aux::lemma_ensure_aux(st, "byte_interaction_mod"@, 2, 1);
}

/// A shift-right-with-carry lookup `[op, out, carry, input, shift]`
/// summarized by a module becomes a call `(out, carry) = ShrCarry(input,
/// shift)`, added last, with that module present afterwards.
pub proof fn lemma_shr_carry_call(st: ExtractState, m: PicusExpr, values: Seq<PicusExpr>)
    requires
        values.len() >= 5,
        values[0] == PicusExpr::Const(crate::lookup::byte_opcode_code(crate::lookup::ByteOpcode::ShrCarry)),
    ensures
        ({
            let r = byte_step(crate::picus_builder::ShrCarrySummaryMode::AbstractModule, st, m, values);
            &&& r.module.constraints == st.module.constraints
            &&& r.module.calls == st.module.calls.push(
                crate::pcl::CallView { mod_name: "ShrCarry"@, outputs: seq![values[1], values[2]], inputs: seq![values[3], values[4]] },
            )
            &&& crate::picus_builder::has_module(r.aux, "ShrCarry"@)
        }),
{
    crate::picus_aux::lemma_ensure_aux(st, "ShrCarry"@, 2, 2);
}

} // verus!
