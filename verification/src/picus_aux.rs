//! Module names: adding or merging modules never loses a module and keeps
//! the modules sorted by name, one per name. Extraction keeps the auxiliary
//! modules in this way, and the extracted program has one module per name, in
//! name order.
use vstd::prelude::*;
use crate::pcl::{PicusAtom, PicusExpr, ModuleView};
use crate::picus_builder::{
    ExtractState, BuilderConfig, ChipDesc, OpcodeSpec, IndexSlice, AirOp, SubmoduleMode, ShrCarrySummaryMode, has_module,
};
use crate::module_map::{put_module, merge_modules, insert_pos, names_sorted, lemma_insert_pos, lemma_name_order};
use crate::picus_extract::{
    air_op_step, run_air, analyze_spec, process_tasks, inline_call, call_config, call_start, call_env, inst_all,
    inst_expr,
};
use crate::picus_ports::{bind_ports, bind_memory_values, memory_step, receive_instruction_step};
use crate::picus_calls::{place_range, place_args, instruction_send_step, specialize_all};
use crate::picus_bytes::{byte_step, msb_byte_step};
use crate::picus_program::{extract_spec, selector_passes, pass_result, top_module};

verus! {

/// No two modules share a name.
pub open spec fn names_unique(ms: Seq<ModuleView>) -> bool {
    forall|i: int, j: int| #![trigger ms[i], ms[j]] 0 <= i < j < ms.len() ==> ms[i].name != ms[j].name
}

/// Modules sorted by name have one module per name.
pub proof fn lemma_sorted_unique(ms: Seq<ModuleView>)
    requires
        names_sorted(ms),
    ensures
        names_unique(ms),
{
    assert forall|i: int, j: int| 0 <= i < j < ms.len() implies #[trigger] ms[i].name != #[trigger] ms[j].name by {
        lemma_name_order(ms[i].name, ms[j].name, ms[j].name);
    }
}

/// `b` keeps `a`'s modules: every name of `a` is still there, and if `a` was
/// sorted by name, so is `b`.
pub open spec fn modules_kept(a: Seq<ModuleView>, b: Seq<ModuleView>) -> bool {
    &&& forall|name: Seq<char>| has_module(a, name) ==> #[trigger] has_module(b, name)
    &&& names_sorted(a) ==> names_sorted(b)
}

pub proof fn lemma_modules_kept_refl(a: Seq<ModuleView>)
    ensures
        modules_kept(a, a),
{
}

pub proof fn lemma_modules_kept_trans(a: Seq<ModuleView>, b: Seq<ModuleView>, c: Seq<ModuleView>)
    requires
        modules_kept(a, b),
        modules_kept(b, c),
    ensures
        modules_kept(a, c),
{
    assert forall|name: Seq<char>| has_module(a, name) implies #[trigger] has_module(c, name) by {
        assert(has_module(b, name));
    }
}

/// Adding a module: it is there afterwards, every name before stays, no
/// other name appears, and modules sorted by name stay sorted.
pub proof fn lemma_put_module(ms: Seq<ModuleView>, m: ModuleView)
    ensures
        put_module(ms, m)[insert_pos(ms, m.name)] == m,
        has_module(put_module(ms, m), m.name),
        modules_kept(ms, put_module(ms, m)),
        forall|name: Seq<char>| #[trigger] has_module(put_module(ms, m), name) ==> has_module(ms, name) || name == m.name,
{
    lemma_insert_pos(ms, m.name);
    let p = insert_pos(ms, m.name);
    let r = put_module(ms, m);
    assert(r[p] == m);
    if p < ms.len() && ms[p].name == m.name {
        assert forall|i: int| 0 <= i < ms.len() implies #[trigger] r[i].name == ms[i].name by {}
        assert forall|name: Seq<char>| has_module(ms, name) implies #[trigger] has_module(r, name) by {
            let i = choose|i: int| 0 <= i < ms.len() && ms[i].name == name;
            assert(r[i].name == name);
        }
        assert forall|name: Seq<char>| #[trigger] has_module(r, name) implies has_module(ms, name) || name == m.name by {
            let i = choose|i: int| 0 <= i < r.len() && r[i].name == name;
            assert(ms[i].name == name);
        }
        if names_sorted(ms) {
            assert forall|i: int, j: int| 0 <= i < j < r.len() implies crate::module_map::name_lt(#[trigger] r[i].name, #[trigger] r[j].name) by {
                assert(crate::module_map::name_lt(ms[i].name, ms[j].name));
            }
        }
    } else {
        assert forall|i: int| 0 <= i < p implies #[trigger] r[i] == ms[i] by {}
        assert forall|i: int| p < i <= ms.len() implies #[trigger] r[i] == ms[i - 1] by {}
        assert forall|name: Seq<char>| has_module(ms, name) implies #[trigger] has_module(r, name) by {
            let i = choose|i: int| 0 <= i < ms.len() && ms[i].name == name;
            if i < p {
                assert(r[i].name == name);
            } else {
                assert(r[i + 1].name == name);
            }
        }
        assert forall|name: Seq<char>| #[trigger] has_module(r, name) implies has_module(ms, name) || name == m.name by {
            let i = choose|i: int| 0 <= i < r.len() && r[i].name == name;
            if i < p {
                assert(ms[i].name == name);
            } else if i > p {
                assert(ms[i - 1].name == name);
            }
        }
        if names_sorted(ms) {
            if p < ms.len() {
                lemma_name_order(ms[p].name, m.name, m.name);
            }
            assert forall|i: int, j: int| 0 <= i < j < r.len() implies crate::module_map::name_lt(#[trigger] r[i].name, #[trigger] r[j].name) by {
                if j < p {
                    assert(crate::module_map::name_lt(ms[i].name, ms[j].name));
                } else if j == p {
                    assert(crate::module_map::name_lt(ms[i].name, m.name));
                } else if i < p {
                    assert(crate::module_map::name_lt(ms[i].name, ms[j - 1].name));
                } else if i == p {
                    if j - 1 > p {
                        assert(crate::module_map::name_lt(ms[p].name, ms[j - 1].name));
                        lemma_name_order(m.name, ms[p].name, ms[j - 1].name);
                    }
                } else {
                    assert(crate::module_map::name_lt(ms[i - 1].name, ms[j - 1].name));
                }
            }
        }
    }
}

/// Merging modules: every name before stays, each merged module's name is
/// there afterwards, no other name appears, and modules sorted by name stay
/// sorted.
pub proof fn lemma_merge_modules(aux: Seq<ModuleView>, ms: Seq<ModuleView>)
    ensures
        modules_kept(aux, merge_modules(aux, ms)),
        forall|name: Seq<char>| has_module(ms, name) ==> #[trigger] has_module(merge_modules(aux, ms), name),
        forall|name: Seq<char>|
            #[trigger] has_module(merge_modules(aux, ms), name) ==> has_module(aux, name) || has_module(ms, name),
    decreases ms.len(),
{
    if ms.len() == 0 {
        lemma_modules_kept_refl(aux);
    } else {
        let init = ms.drop_last();
        lemma_merge_modules(aux, init);
        let prev = merge_modules(aux, init);
        lemma_put_module(prev, ms.last());
        lemma_modules_kept_trans(aux, prev, merge_modules(aux, ms));
        assert forall|name: Seq<char>| has_module(ms, name) implies #[trigger] has_module(merge_modules(aux, ms), name) by {
            let i = choose|i: int| 0 <= i < ms.len() && ms[i].name == name;
            if i < init.len() {
                assert(init[i].name == name);
                assert(has_module(init, name));
                assert(has_module(prev, name));
            }
        }
        assert forall|name: Seq<char>| #[trigger] has_module(merge_modules(aux, ms), name) implies has_module(aux, name)
            || has_module(ms, name) by {
            if has_module(prev, name) {
                if has_module(init, name) {
                    let i = choose|i: int| 0 <= i < init.len() && init[i].name == name;
                    assert(ms[i].name == name);
                }
            } else {
                assert(ms[ms.len() - 1].name == name);
            }
        }
    }
}

/// Adding an auxiliary module unless one with its name exists keeps the modules.
pub proof fn lemma_ensure_aux(st: ExtractState, name: Seq<char>, num_inputs: int, num_outputs: int)
    ensures
        modules_kept(st.aux, st.ensure_aux(name, num_inputs, num_outputs).aux),
        has_module(st.ensure_aux(name, num_inputs, num_outputs).aux, name),
{
    lemma_modules_kept_refl(st.aux);
    lemma_put_module(st.aux, crate::pcl::empty_module_with_ports(name, num_inputs, num_outputs));
}

proof fn lemma_bind_ports_aux(st: ExtractState, m: PicusExpr, values: Seq<PicusExpr>, lo: int, hi: int, as_input: bool, byte_range: bool)
    ensures
        bind_ports(st, m, values, lo, hi, as_input, byte_range).aux == st.aux,
    decreases hi - lo,
{
    if hi > lo {
        lemma_bind_ports_aux(st, m, values, lo, hi - 1, as_input, byte_range);
    }
}

proof fn lemma_bind_memory_values_aux(st: ExtractState, m: PicusExpr, values: Seq<PicusExpr>, lo: int, hi: int, is_send: bool)
    ensures
        bind_memory_values(st, m, values, lo, hi, is_send).aux == st.aux,
    decreases hi - lo,
{
    if hi > lo {
        lemma_bind_memory_values_aux(st, m, values, lo, hi - 1, is_send);
    }
}

/// Memory accesses and received instructions leave the auxiliary modules alone.
proof fn lemma_port_steps_aux(st: ExtractState, m: PicusExpr, values: Seq<PicusExpr>)
    ensures
        receive_instruction_step(st, m, values).aux == st.aux,
        memory_step(st, m, values, true).aux == st.aux,
        memory_step(st, m, values, false).aux == st.aux,
{
    if m != PicusExpr::Const(0) {
        let pc = values[2];
        let st1 = if pc is Var { st.add_inputs(seq![pc]) } else { st };
        let next_pc = PicusExpr::Var(st.fresh as usize);
        let st2 = st1.add_outputs(seq![next_pc]).add_constraints(
            seq![crate::picus_ports::eq_mul(m, values[3], next_pc), crate::pcl::c_equal(values[3], crate::pcl::e_add(pc, PicusExpr::Const(4)))],
        ).add_assumed(values[6]);
        let next_next_pc = PicusExpr::Var((st.fresh + 1) as usize);
        let s3 = st2.add_constraints(seq![crate::picus_ports::eq_mul(m, values[4], next_next_pc)]).add_outputs(seq![next_next_pc]).with_fresh(
            st.fresh + 2,
        );
        let a = values[23] == PicusExpr::Const(1);
        let b = values[24] == PicusExpr::Const(1);
        lemma_bind_ports_aux(s3, m, values, 7, 11, a, true);
        let s4 = bind_ports(s3, m, values, 7, 11, a, true);
        lemma_bind_ports_aux(s4, m, values, 11, 15, true, false);
        let s5 = bind_ports(s4, m, values, 11, 15, true, false);
        lemma_bind_ports_aux(s5, m, values, 15, 19, true, false);
        let s6 = bind_ports(s5, m, values, 15, 19, true, false);
        lemma_bind_ports_aux(s6, m, values, 19, 23, b, false);
        let addr = PicusExpr::Var(st.fresh as usize);
        let m1 = st.add_inputs(seq![addr]).add_constraints(seq![crate::picus_ports::eq_mul(m, values[2], addr)]).with_fresh(st.fresh + 1);
        lemma_bind_memory_values_aux(m1, m, values, 3, values.len() as int, true);
        let m2 = st.add_outputs(seq![addr]).add_constraints(seq![crate::picus_ports::eq_mul(m, values[2], addr)]).with_fresh(st.fresh + 1);
        lemma_bind_memory_values_aux(m2, m, values, 3, values.len() as int, false);
    }
}

proof fn lemma_place_range_aux(row: Seq<PicusAtom>, st: ExtractState, values: Seq<PicusExpr>, start: int, end: int, col0: int)
    ensures
        place_range(row, st, values, start, end, col0).1.aux == st.aux,
    decreases end - start,
{
    if end > start {
        lemma_place_range_aux(row, st, values, start, end - 1, col0);
    }
}

proof fn lemma_place_args_aux(
    row: Seq<PicusAtom>,
    st: ExtractState,
    values: Seq<PicusExpr>,
    args: Seq<(IndexSlice, String)>,
    entries: Seq<(String, (usize, usize))>,
)
    ensures
        place_args(row, st, values, args, entries).1.aux == st.aux,
    decreases args.len(),
{
    if args.len() > 0 {
        lemma_place_args_aux(row, st, values, args.drop_last(), entries);
        let p = place_args(row, st, values, args.drop_last(), entries);
        let r = crate::picus_calls::colrange_in(entries, args.last().1@).unwrap();
        match args.last().0 {
            IndexSlice::Range { start, end } => {
                lemma_place_range_aux(p.0, p.1, values, start as int, end as int, r.0 as int);
            },
            IndexSlice::Single(_) => {},
        }
    }
}

proof fn lemma_instruction_send_aux(chips: Seq<ChipDesc>, specs: Seq<OpcodeSpec>, st: ExtractState, m: PicusExpr, values: Seq<PicusExpr>)
    ensures
        instruction_send_step(chips, specs, st, m, values).aux == st.aux,
{
    let spec = specs[crate::picus_calls::opcode_of(values) as int];
    let target = chips[crate::picus_builder::first_chip_with_name(chips, spec.chip@)];
    lemma_place_args_aux(
        crate::picus_builder::atom_vars(st.fresh, target.width as int),
        st.with_fresh(st.fresh + target.width),
        values,
        spec.arg_to_colname@,
        target.picus_info.name_to_colrange@,
    );
}

/// Every step of a chip's evaluation keeps the auxiliary modules: those
/// present stay, and they stay sorted by name; a byte lookup summarized by a
/// module call adds that module when it is missing.
pub proof fn lemma_air_step_keeps_aux(cfg: BuilderConfig, st: ExtractState, op: AirOp)
    ensures
        modules_kept(st.aux, air_op_step(cfg, st, op).aux),
{
    lemma_modules_kept_refl(st.aux);
    match op {
        AirOp::AssertZero(_) => {},
        AirOp::Send(l) => {
            let sv = specialize_all(cfg.env, inst_all(l.values@, cfg.main));
            let sm = crate::picus_builder::specialize(cfg.env, inst_expr(l.multiplicity, cfg.main));
            lemma_port_steps_aux(st, sm, sv);
            lemma_instruction_send_aux(cfg.chips, cfg.specs, st, sm, sv);
            lemma_ensure_aux(st, "ShrCarry"@, 2, 2);
            lemma_ensure_aux(st, "byte_interaction_mod"@, 2, 1);
            let b = byte_step(cfg.shr_mode, st, sm, sv);
            assert(b.aux == st.aux || b.aux == st.ensure_aux("ShrCarry"@, 2, 2).aux || b.aux == st.ensure_aux(
                "byte_interaction_mod"@,
                2,
                1,
            ).aux) by {
                if sv[0] == PicusExpr::Const(crate::lookup::byte_opcode_code(crate::lookup::ByteOpcode::MSB)) {
                    let s1 = msb_byte_step(st, sm, sv[1], sv[3]);
                    assert(s1.aux == st.aux);
                    assert(msb_byte_step(s1, sm, sv[1], sv[4]).aux == st.aux);
                }
            }
        },
        AirOp::Receive(l) => {
            let sv = specialize_all(cfg.env, inst_all(l.values@, cfg.main));
            let sm = crate::picus_builder::specialize(cfg.env, inst_expr(l.multiplicity, cfg.main));
            lemma_port_steps_aux(st, sm, sv);
        },
    }
}

/// Evaluating a chip keeps the auxiliary modules.
pub proof fn lemma_run_air_keeps_aux(cfg: BuilderConfig, st: ExtractState, ops: Seq<AirOp>)
    requires
        run_air(cfg, st, ops) is Some,
    ensures
        modules_kept(st.aux, run_air(cfg, st, ops).unwrap().aux),
    decreases ops.len(),
{
    if ops.len() == 0 {
        lemma_modules_kept_refl(st.aux);
    } else {
        lemma_run_air_keeps_aux(cfg, st, ops.drop_last());
        let s = run_air(cfg, st, ops.drop_last()).unwrap();
        lemma_air_step_keeps_aux(cfg, s, ops.last());
        lemma_modules_kept_trans(st.aux, s.aux, run_air(cfg, st, ops).unwrap().aux);
    }
}

/// Extracting a chip keeps the auxiliary modules present before it: each is
/// still there, and if they were sorted by name (one per name), they still
/// are, though inlined calls bring their own.
pub proof fn lemma_analyze_keeps_aux(cfg: BuilderConfig, chip: ChipDesc, st: ExtractState, depth: nat)
    requires
        analyze_spec(cfg, chip, st, depth) is Some,
    ensures
        modules_kept(st.aux, analyze_spec(cfg, chip, st, depth).unwrap().aux),
        forall|name: Seq<char>|
            has_module(st.aux, name) ==> #[trigger] has_module(analyze_spec(cfg, chip, st, depth).unwrap().aux, name),
    decreases depth, 1int, 0int,
{
    lemma_run_air_keeps_aux(cfg, st, chip.air@);
    let s = run_air(cfg, st, chip.air@).unwrap();
    lemma_process_tasks_keeps_aux(cfg, s, depth);
    let r = analyze_spec(cfg, chip, st, depth).unwrap();
    lemma_modules_kept_trans(st.aux, s.aux, r.aux);
}

/// Inlining the deferred calls keeps the auxiliary modules and adds those of
/// the inlined calls.
pub proof fn lemma_process_tasks_keeps_aux(cfg: BuilderConfig, st: ExtractState, depth: nat)
    requires
        process_tasks(cfg, st, depth) is Some,
    ensures
        modules_kept(st.aux, process_tasks(cfg, st, depth).unwrap().aux),
    decreases depth, 0int, st.tasks.len(),
{
    if st.tasks.len() == 0 {
        lemma_modules_kept_refl(st.aux);
    } else {
        let t = st.tasks.last();
        let st1 = ExtractState { tasks: st.tasks.drop_last(), ..st };
        let target = cfg.chips[crate::picus_builder::first_chip_with_name(cfg.chips, t.chip_name)];
        let r = crate::picus_calls::colrange_in(target.picus_info.name_to_colrange@, t.selector).unwrap();
        let env = call_env(t, target.picus_info, r.0 as int).unwrap();
        let sub_cfg = call_config(cfg, t, env);
        let sub_start = call_start(t, st1.fresh);
        let sub = analyze_spec(sub_cfg, target, sub_start, (depth - 1) as nat).unwrap();
        let merged = inline_call(st1, t, env, sub);
        lemma_merge_modules(st.aux, sub.aux);
        lemma_process_tasks_keeps_aux(cfg, merged, depth);
        lemma_modules_kept_trans(st.aux, merged.aux, process_tasks(cfg, st, depth).unwrap().aux);
    }
}

proof fn lemma_selector_passes_sorted(
    chip: ChipDesc,
    chips: Seq<ChipDesc>,
    specs: Seq<OpcodeSpec>,
    shr_mode: ShrCarrySummaryMode,
    depth: nat,
    sels: Seq<(usize, String)>,
)
    requires
        selector_passes(chip, chips, specs, shr_mode, depth, sels) is Some,
    ensures
        names_sorted(selector_passes(chip, chips, specs, shr_mode, depth, sels).unwrap().0),
        names_sorted(selector_passes(chip, chips, specs, shr_mode, depth, sels).unwrap().1),
    decreases sels.len(),
{
    if sels.len() > 0 {
        lemma_selector_passes_sorted(chip, chips, specs, shr_mode, depth, sels.drop_last());
        let acc = selector_passes(chip, chips, specs, shr_mode, depth, sels.drop_last()).unwrap();
        let col = sels.last().0;
        let r = pass_result(chip, chips, specs, shr_mode, depth, Some(col), SubmoduleMode::Inline).unwrap();
        lemma_merge_modules(acc.0, r.aux);
        lemma_put_module(
            acc.1,
            crate::pcl::partial_eval_module(r.module, crate::picus_program::selector_env(chip.picus_info, Some(col))),
        );
    }
}

/// The extracted program holds one module per name, in name order: the
/// auxiliary modules, the selector-specialized modules and the top module are
/// each added by replacing a module of the same name.
pub proof fn lemma_program_names_sorted(
    chip_name: Seq<char>,
    chips: Seq<ChipDesc>,
    specs: Seq<OpcodeSpec>,
    assume_selectors_deterministic: bool,
    shr_mode: ShrCarrySummaryMode,
    depth: nat,
)
    requires
        extract_spec(chip_name, chips, specs, assume_selectors_deterministic, shr_mode, depth) is Some,
    ensures
        names_sorted(extract_spec(chip_name, chips, specs, assume_selectors_deterministic, shr_mode, depth).unwrap()),
        names_unique(extract_spec(chip_name, chips, specs, assume_selectors_deterministic, shr_mode, depth).unwrap()),
{
    let chip = chips[crate::picus_builder::first_chip_with_name(chips, chip_name)];
    let info = chip.picus_info;
    let sels = info.selector_indices@;
    let empty = Seq::<ModuleView>::empty();
    assert(names_sorted(empty));
    let p = if sels.len() == 0 {
        let r = pass_result(chip, chips, specs, shr_mode, depth, None, SubmoduleMode::Inline).unwrap();
        lemma_merge_modules(empty, r.aux);
        let m = crate::pcl::partial_eval_module(r.module, crate::picus_program::selector_env(info, None));
        lemma_put_module(empty, m);
        (merge_modules(empty, r.aux), put_module(empty, m))
    } else {
        lemma_selector_passes_sorted(chip, chips, specs, shr_mode, depth, sels);
        selector_passes(chip, chips, specs, shr_mode, depth, sels).unwrap()
    };
    let t = pass_result(chip, chips, specs, shr_mode, depth, None, SubmoduleMode::Ignore).unwrap();
    let a = merge_modules(empty, p.0);
    lemma_merge_modules(empty, p.0);
    let b = merge_modules(a, p.1);
    lemma_merge_modules(a, p.1);
    let c = merge_modules(b, t.aux);
    lemma_merge_modules(b, t.aux);
    let top = top_module(
        crate::pcl::partial_eval_module(t.module, crate::picus_program::selector_env(info, None)),
        sels,
        assume_selectors_deterministic,
    );
    lemma_put_module(c, top);
    lemma_sorted_unique(put_module(c, top));
}

} // verus!
