use std::collections::BTreeMap;
use ziren::lookup::{AirLookup, ByteOpcode, LookupKind, KOALA_BEAR_PRIME};
use ziren::pcl::{partial_evaluate_expr, PicusAtom, PicusConstraint, PicusExpr, PicusModule};
use ziren::picus_builder::{
    AirOp, ChipDesc, ConcretePendingTask, IndexSlice, OpcodeSpec, PicusBuilder, PicusInfo, ShrCarrySummaryMode,
    SubmoduleMode,
};
use ziren::picus_extract::ExtractError;
use ziren::picus_program::{analyze_chip, build_selector_env, build_top_module, extract_picus_program};

fn c(v: u64) -> PicusExpr {
    PicusExpr::Const(v)
}
fn v(i: usize) -> PicusExpr {
    PicusExpr::Var(i)
}
fn mul(a: PicusExpr, b: PicusExpr) -> PicusExpr {
    a.times(b)
}
fn eq(a: PicusExpr, b: PicusExpr) -> PicusConstraint {
    PicusConstraint::new_equality(a, b)
}
fn leq(a: PicusExpr, b: PicusExpr) -> PicusConstraint {
    PicusConstraint::new_leq(a, b)
}

fn info(cols: &[(&str, usize, usize)], selectors: &[(usize, &str)], is_real: Option<usize>) -> PicusInfo {
    PicusInfo {
        name_to_colrange: cols.iter().map(|(n, a, b)| (n.to_string(), (*a, *b))).collect(),
        selector_indices: selectors.iter().map(|(i, n)| (*i, n.to_string())).collect(),
        is_real_index: is_real,
    }
}

fn chip(name: &str, width: usize, picus_info: PicusInfo, air: Vec<AirOp>) -> ChipDesc {
    ChipDesc { name: name.to_string(), width, preprocessed_width: 0, picus_info, air }
}

fn plain_chip(width: usize) -> ChipDesc {
    chip("Plain", width, info(&[], &[(0, "is_a")], None), vec![])
}

fn builder<'a>(
    c: &ChipDesc,
    chips: &'a [ChipDesc],
    specs: &'a [OpcodeSpec],
    env: Option<BTreeMap<usize, u64>>,
    mode: SubmoduleMode,
    shr: ShrCarrySummaryMode,
) -> PicusBuilder<'a> {
    PicusBuilder::new(c, PicusModule::new("m".to_string()), chips, specs, None, env, Some(mode), Some(shr), 3, 100)
}

#[test]
fn get_actual_var_num_for_col_reads_the_variable() {
    let t = ConcretePendingTask {
        chip_name: "X".to_string(),
        main_vars: vec![PicusAtom::Const(1), PicusAtom::Var(42)],
        multiplicity: c(1),
        selector: "s".to_string(),
    };
    assert_eq!(t.get_actual_var_num_for_col(1), 42);
}

#[test]
fn new_specializes_the_main_row() {
    let ch = plain_chip(3);
    let chips = [plain_chip(3)];
    let mut env = BTreeMap::new();
    env.insert(1usize, 7u64);
    let b = builder(&ch, &chips, &[], Some(env), SubmoduleMode::Inline, ShrCarrySummaryMode::AbstractModule);
    assert_eq!(b.main, vec![PicusAtom::Var(0), PicusAtom::Const(7), PicusAtom::Var(2)]);
    assert_eq!(b.public_values, vec![PicusAtom::Var(0), PicusAtom::Var(1), PicusAtom::Var(2)]);
    assert!(b.preprocessed.is_empty());
    assert_eq!(b.fresh_var_ctr, 100);
    assert!(!b.is_selector_module_builder());
    let d = PicusBuilder::new(&ch, PicusModule::new("m".to_string()), &chips, &[], None, None, None, None, 0, 0);
    assert_eq!(d.submodule_mode, SubmoduleMode::Inline);
    assert_eq!(d.shr_carry_summary_mode, ShrCarrySummaryMode::AbstractModule);
    assert_eq!(d.main, vec![PicusAtom::Var(0), PicusAtom::Var(1), PicusAtom::Var(2)]);
}

#[test]
fn partial_evaluation_folds_constants() {
    let mut env = BTreeMap::new();
    env.insert(1usize, 4u64);
    assert_eq!(partial_evaluate_expr(&c(3).plus(v(1)), &env), c(7));
    assert_eq!(partial_evaluate_expr(&c(0).minus(v(1)), &env), c(KOALA_BEAR_PRIME - 4));
    assert_eq!(partial_evaluate_expr(&c(KOALA_BEAR_PRIME - 1).times(c(2)), &env), c(KOALA_BEAR_PRIME - 2));
    assert_eq!(partial_evaluate_expr(&v(2).plus(v(1)), &env), v(2).plus(c(4)));
}

#[test]
fn specialize_leaves_expressions_alone_without_fixed_values() {
    let ch = plain_chip(1);
    let chips = [plain_chip(1)];
    let b = builder(&ch, &chips, &[], None, SubmoduleMode::Inline, ShrCarrySummaryMode::AbstractModule);
    assert_eq!(b.specialize_expr(&c(1).plus(c(2))), c(1).plus(c(2)));
}

#[test]
fn u8_range_checks_the_symbolic_values() {
    let ch = plain_chip(1);
    let chips = [plain_chip(1)];
    let mut b = builder(&ch, &chips, &[], None, SubmoduleMode::Inline, ShrCarrySummaryMode::AbstractModule);
    b.handle_byte_interaction(v(9), &[c(ByteOpcode::U8Range.code()), v(3), c(5), v(4)]);
    assert_eq!(b.picus_module.constraints, vec![leq(mul(v(3), v(9)), c(255)), leq(mul(v(4), v(9)), c(255))]);
}

#[test]
fn msb_decomposes_nonzero_bytes() {
    let ch = plain_chip(1);
    let chips = [plain_chip(1)];
    let mut b = builder(&ch, &chips, &[], None, SubmoduleMode::Inline, ShrCarrySummaryMode::AbstractModule);
    b.handle_byte_interaction(c(1), &[c(ByteOpcode::MSB.code()), v(1), c(0), v(3), c(0)]);
    assert_eq!(b.fresh_var_ctr, 101);
    assert_eq!(b.picus_module.constraints.len(), 3);
    assert_eq!(b.picus_module.constraints[0], leq(mul(v(100), c(1)), c(127)));
    assert_eq!(
        b.picus_module.constraints[2],
        PicusConstraint::Eq(Box::new(mul(c(1), v(3).minus(mul(v(1), c(128)).plus(v(100))))))
    );
}

#[test]
fn shr_carry_abstract_calls_a_module() {
    let ch = plain_chip(1);
    let chips = [plain_chip(1)];
    let mut b = builder(&ch, &chips, &[], None, SubmoduleMode::Inline, ShrCarrySummaryMode::AbstractModule);
    let vals = [c(ByteOpcode::ShrCarry.code()), v(1), v(2), v(3), c(2)];
    b.handle_byte_interaction(c(1), &vals);
    b.handle_byte_interaction(c(1), &vals);
    assert_eq!(b.aux_modules.len(), 1);
    assert_eq!(b.aux_modules[0].name, "ShrCarry");
    assert_eq!(b.aux_modules[0].inputs, vec![v(0), v(1)]);
    assert_eq!(b.aux_modules[0].outputs, vec![v(2), v(3)]);
    assert_eq!(b.picus_module.calls.len(), 2);
    assert_eq!(b.picus_module.calls[0].outputs, vec![v(1), v(2)]);
    assert_eq!(b.picus_module.calls[0].inputs, vec![v(3), c(2)]);
}

#[test]
fn shr_carry_precise_splits_cases() {
    let ch = plain_chip(1);
    let chips = [plain_chip(1)];
    let mut b = builder(&ch, &chips, &[], None, SubmoduleMode::Inline, ShrCarrySummaryMode::Precise);
    b.handle_byte_interaction(c(1), &[c(ByteOpcode::ShrCarry.code()), v(1), v(2), v(3), v(4)]);
    let cs = &b.picus_module.constraints;
    assert_eq!(cs.len(), 12);
    assert_eq!(cs[3], leq(mul(v(4), c(1)), c(7)));
    assert_eq!(
        cs[4],
        PicusConstraint::Implies(
            Box::new(eq(v(4), c(0))),
            Box::new(PicusConstraint::And(Box::new(eq(v(1), v(3))), Box::new(eq(v(2), c(0))))),
        )
    );
    assert_eq!(
        cs[7],
        PicusConstraint::Implies(
            Box::new(eq(v(4), c(3))),
            Box::new(PicusConstraint::And(
                Box::new(eq(v(3), mul(v(1), c(8)).plus(v(2)))),
                Box::new(PicusConstraint::new_lt(mul(v(2), c(1)), c(8))),
            )),
        )
    );
}

#[test]
fn ltu_with_constant_result_is_a_comparison() {
    let ch = plain_chip(1);
    let chips = [plain_chip(1)];
    let mut b = builder(&ch, &chips, &[], None, SubmoduleMode::Inline, ShrCarrySummaryMode::AbstractModule);
    b.handle_byte_interaction(c(1), &[c(ByteOpcode::LTU.code()), c(1), v(2), v(3)]);
    assert_eq!(b.picus_module.constraints, vec![PicusConstraint::new_lt(v(2), v(3))]);
    b.handle_byte_interaction(c(1), &[c(ByteOpcode::LTU.code()), v(1), v(2), v(3)]);
    assert_eq!(b.picus_module.constraints.len(), 3);
    assert_eq!(b.picus_module.constraints[2], PicusConstraint::new_bit(v(1)));
}

#[test]
fn and_127_is_a_decomposition() {
    let ch = plain_chip(1);
    let chips = [plain_chip(1)];
    let mut b = builder(&ch, &chips, &[], None, SubmoduleMode::Inline, ShrCarrySummaryMode::AbstractModule);
    b.handle_byte_interaction(c(1), &[c(ByteOpcode::AND.code()), v(1), v(2), v(3), c(127)]);
    assert!(b.aux_modules.is_empty());
    assert_eq!(
        b.picus_module.constraints,
        vec![
            PicusConstraint::new_lt(v(1), c(128)),
            PicusConstraint::new_bit(v(100)),
            eq(v(3), mul(v(100), c(128)).plus(v(1))),
        ]
    );
}

#[test]
fn other_bitwise_lookups_call_the_byte_module() {
    let ch = plain_chip(1);
    let chips = [plain_chip(1)];
    let mut b = builder(&ch, &chips, &[], None, SubmoduleMode::Inline, ShrCarrySummaryMode::AbstractModule);
    b.handle_byte_interaction(c(1), &[c(ByteOpcode::OR.code()), v(1), v(2), v(3), v(4)]);
    assert_eq!(b.aux_modules[0].name, "byte_interaction_mod");
    assert_eq!(b.aux_modules[0].inputs.len(), 2);
    assert_eq!(b.aux_modules[0].outputs.len(), 1);
    assert_eq!(b.picus_module.calls[0].mod_name, "byte_interaction_mod");
    assert_eq!(b.picus_module.calls[0].outputs, vec![v(1)]);
    assert_eq!(b.picus_module.calls[0].inputs, vec![v(3), v(4)]);
    assert!(b.picus_module.constraints.is_empty());
}

#[test]
fn memory_reads_are_inputs_and_writes_are_outputs() {
    let ch = plain_chip(1);
    let chips = [plain_chip(1)];
    let mut b = builder(&ch, &chips, &[], None, SubmoduleMode::Inline, ShrCarrySummaryMode::AbstractModule);
    b.handle_memory_interaction(c(1), &[v(0), v(1), v(5), v(6)], true);
    assert_eq!(b.picus_module.inputs, vec![v(100), v(101)]);
    assert_eq!(
        b.picus_module.constraints,
        vec![eq(v(100), mul(v(5), c(1))), PicusConstraint::new_lt(v(101), c(255)), eq(v(101), mul(v(6), c(1)))]
    );
    b.handle_memory_interaction(c(1), &[v(0), v(1), v(5), v(6), v(7)], false);
    assert_eq!(b.picus_module.outputs, vec![v(102), v(103), v(104)]);
    b.handle_memory_interaction(c(0), &[v(0), v(1), v(5), v(6)], false);
    assert_eq!(b.fresh_var_ctr, 105);
}

fn instruction_values(op_a_immutable: u64, is_rw_a: u64) -> Vec<PicusExpr> {
    let mut vals: Vec<PicusExpr> = (0..23).map(|i| v(200 + i)).collect();
    vals[6] = c(0);
    vals.push(c(op_a_immutable));
    vals.push(c(is_rw_a));
    vals
}

#[test]
fn received_instruction_defines_the_ports() {
    let ch = plain_chip(1);
    let chips = [plain_chip(1)];
    let mut b = builder(&ch, &chips, &[], None, SubmoduleMode::Inline, ShrCarrySummaryMode::AbstractModule);
    b.handle_receive_instruction(c(1), &instruction_values(0, 1));
    let m = &b.picus_module;
    // pc, then b and c, then hi (is_rw_a = 1).
    assert_eq!(m.inputs.len(), 1 + 4 + 4 + 4);
    assert_eq!(m.inputs[0], v(202));
    // next pc, next-next pc, then a (mutable).
    assert_eq!(m.outputs, vec![v(100), v(101), v(102), v(103), v(104), v(105)]);
    assert_eq!(m.constraints[0], eq(v(100), mul(v(203), c(1))));
    assert_eq!(m.constraints[1], eq(v(203), v(202).plus(c(4))));
    assert_eq!(m.constraints[4], leq(v(102), c(255)));
    assert_eq!(m.assume_deterministic, vec![c(0)]);
    assert_eq!(b.fresh_var_ctr, 118);
}

#[test]
fn inactive_received_instruction_adds_nothing() {
    let ch = plain_chip(1);
    let chips = [plain_chip(1)];
    let mut b = builder(&ch, &chips, &[], None, SubmoduleMode::Inline, ShrCarrySummaryMode::AbstractModule);
    b.handle_receive_instruction(c(0), &instruction_values(0, 0));
    assert!(b.picus_module.constraints.is_empty());
    assert_eq!(b.fresh_var_ctr, 100);
}

fn add_chip() -> ChipDesc {
    // Columns: 0 = is_add, 1 = is_sub, 2..4 = operand, 4 = is_real.
    chip(
        "AddSub",
        5,
        info(&[("is_add", 0, 1), ("is_sub", 1, 2), ("operand", 2, 4)], &[(0, "is_add"), (1, "is_sub")], Some(4)),
        vec![AirOp::AssertZero(v(2).times(v(0)).minus(v(3).times(v(1))))],
    )
}

fn routing() -> Vec<OpcodeSpec> {
    vec![OpcodeSpec {
        chip: "AddSub".to_string(),
        selector: "is_add".to_string(),
        arg_to_colname: vec![(IndexSlice::Range { start: 7, end: 9 }, "operand".to_string())],
    }]
}

#[test]
fn sent_instruction_becomes_a_pending_call() {
    let ch = plain_chip(1);
    let chips = [plain_chip(1), add_chip()];
    let specs = routing();
    let mut b = builder(&ch, &chips, &specs, None, SubmoduleMode::Inline, ShrCarrySummaryMode::AbstractModule);
    let mut vals: Vec<PicusExpr> = (0..10).map(|i| v(50 + i)).collect();
    vals[6] = c(0);
    vals[8] = v(1).plus(c(1));
    b.send(AirLookup { values: vals, multiplicity: c(1), kind: LookupKind::Instruction });
    assert_eq!(b.concrete_pending_tasks.len(), 1);
    let t = &b.concrete_pending_tasks[0];
    assert_eq!(t.chip_name, "AddSub");
    assert_eq!(t.selector, "is_add");
    assert_eq!(
        t.main_vars,
        vec![PicusAtom::Var(100), PicusAtom::Var(101), PicusAtom::Var(57), PicusAtom::Var(105), PicusAtom::Var(104)]
    );
    assert_eq!(b.picus_module.constraints, vec![eq(v(105), v(1).plus(c(1)))]);
    assert_eq!(b.fresh_var_ctr, 106);
}

#[test]
fn selector_module_ignores_instruction_sends() {
    let ch = plain_chip(1);
    let chips = [plain_chip(1), add_chip()];
    let specs = routing();
    let mut b = builder(&ch, &chips, &specs, None, SubmoduleMode::Ignore, ShrCarrySummaryMode::AbstractModule);
    b.send(AirLookup { values: (0..10).map(|_| c(0)).collect(), multiplicity: c(1), kind: LookupKind::Instruction });
    assert!(b.concrete_pending_tasks.is_empty());
    b.receive(AirLookup { values: instruction_values(0, 0), multiplicity: c(1), kind: LookupKind::Instruction });
    assert_eq!(b.picus_module.assume_deterministic, vec![c(0)]);
    assert!(b.picus_module.outputs.is_empty());
}

#[test]
fn get_chip_finds_by_name() {
    let ch = plain_chip(1);
    let chips = [plain_chip(1), add_chip()];
    let b = builder(&ch, &chips, &[], None, SubmoduleMode::Inline, ShrCarrySummaryMode::AbstractModule);
    assert_eq!(b.get_chip("AddSub").width, 5);
}

#[test]
fn selector_env_is_one_hot() {
    let i = info(&[], &[(0, "a"), (1, "b"), (2, "c")], Some(4));
    let env = build_selector_env(&i, Some(1));
    let expected: BTreeMap<usize, u64> = [(0, 0), (1, 1), (2, 0), (4, 1)].into_iter().collect();
    assert_eq!(env, expected);
    let env = build_selector_env(&i, None);
    let expected: BTreeMap<usize, u64> = [(4, 1)].into_iter().collect();
    assert_eq!(env, expected);
}

#[test]
fn top_module_states_one_hot_selectors() {
    let mut base = PicusModule::new("Cpu".to_string());
    base.outputs.push(v(9));
    let i = info(&[], &[(0, "a"), (1, "b")], None);
    let top = build_top_module(base, &i, true);
    assert_eq!(top.name, "top");
    assert_eq!(top.outputs, vec![v(0), v(1)]);
    assert_eq!(
        top.postconditions,
        vec![
            PicusConstraint::new_bit(v(0)),
            PicusConstraint::new_bit(v(1)),
            PicusConstraint::new_lt(c(0).plus(v(0)).plus(v(1)), c(2)),
        ]
    );
    assert_eq!(top.assume_deterministic, vec![v(0), v(1)]);
}

fn cpu_chip() -> ChipDesc {
    // Columns: 0 = is_alu (selector), 1..10 payload.
    let mut vals: Vec<PicusExpr> = (0..10).map(v).collect();
    vals[6] = c(0);
    chip(
        "Cpu",
        10,
        info(&[("is_alu", 0, 1)], &[(0, "is_alu")], None),
        vec![
            AirOp::Send(AirLookup { values: vals, multiplicity: v(0), kind: LookupKind::Instruction }),
            AirOp::Send(AirLookup {
                values: vec![c(ByteOpcode::U8Range.code()), v(7), v(8)],
                multiplicity: v(0),
                kind: LookupKind::Byte,
            }),
        ],
    )
}

#[test]
fn analyze_chip_inlines_the_call() {
    let chips = [cpu_chip(), add_chip()];
    let specs = routing();
    let mut env = BTreeMap::new();
    env.insert(0usize, 1u64);
    let (m, aux, fresh) = analyze_chip(
        &chips[0],
        &chips,
        &specs,
        Some(env),
        SubmoduleMode::Inline,
        ShrCarrySummaryMode::AbstractModule,
        0,
        11,
        4,
    )
    .unwrap();
    assert!(aux.is_empty());
    assert_eq!(m.name, "Cpu");
    // Two range checks from the Cpu, then the AddSub constraint with is_add = 1,
    // is_sub = 0 and operand = columns 7, 8 of the Cpu.
    assert_eq!(m.constraints.len(), 3);
    assert_eq!(m.constraints[0], leq(mul(v(7), c(1)), c(255)));
    assert_eq!(
        m.constraints[2],
        PicusConstraint::Eq(Box::new(mul(v(7).times(c(1)).minus(v(8).times(c(0))), c(1))))
    );
    assert_eq!(fresh, 16);
}

#[test]
fn analyze_chip_reports_too_deep_calls() {
    let chips = [cpu_chip(), add_chip()];
    let specs = routing();
    let r = analyze_chip(&chips[0], &chips, &specs, None, SubmoduleMode::Inline, ShrCarrySummaryMode::AbstractModule, 0, 11, 0);
    assert_eq!(r.err(), Some(ExtractError::TooDeep));
}

#[test]
fn analyze_chip_reports_unroutable_opcodes() {
    let chips = [cpu_chip(), add_chip()];
    let r = analyze_chip(&chips[0], &chips, &[], None, SubmoduleMode::Inline, ShrCarrySummaryMode::AbstractModule, 0, 11, 4);
    assert_eq!(r.err(), Some(ExtractError::InvalidLookup));
}

#[test]
fn extract_program_builds_selector_and_top_modules() {
    let chips = [cpu_chip(), add_chip()];
    let specs = routing();
    let p = extract_picus_program(
        &"Cpu".to_string(),
        &chips,
        &specs,
        false,
        ShrCarrySummaryMode::AbstractModule,
        0,
        4,
    )
    .unwrap();
    assert_eq!(p.prime, KOALA_BEAR_PRIME);
    let names: Vec<&str> = p.modules.iter().map(|m| m.name.as_str()).collect();
    assert_eq!(names, vec!["Cpu", "top"]);
    let top = &p.modules[1];
    assert_eq!(top.outputs, vec![v(0)]);
    assert_eq!(top.postconditions.len(), 2);
    // The top pass ignores the instruction call: only the range checks remain.
    assert_eq!(top.constraints.len(), 2);
    // The selector pass fixed is_alu = 1, so the multiplicity folded to 1.
    assert_eq!(p.modules[0].constraints[0], leq(mul(v(7), c(1)), c(255)));
}

#[test]
fn extract_program_reports_unknown_chips_and_missing_selectors() {
    let chips = [cpu_chip(), add_chip(), chip("Bare", 1, info(&[], &[], None), vec![])];
    let r = extract_picus_program(&"Nope".to_string(), &chips, &[], false, ShrCarrySummaryMode::AbstractModule, 0, 4);
    assert_eq!(r.err(), Some(ExtractError::UnknownChip));
    let r = extract_picus_program(&"Bare".to_string(), &chips, &[], false, ShrCarrySummaryMode::AbstractModule, 0, 4);
    assert_eq!(r.err(), Some(ExtractError::NoSelectors));
}

#[test]
fn module_partial_eval_and_multiplier() {
    let mut m = PicusModule::new("M".to_string());
    m.constraints.push(PicusConstraint::Eq(Box::new(v(1))));
    m.constraints.push(leq(v(1), c(3)));
    m.apply_multiplier(&v(5));
    assert_eq!(m.constraints[0], PicusConstraint::Eq(Box::new(mul(v(1), v(5)))));
    assert_eq!(m.constraints[1], leq(v(1), c(3)));
    let mut env = BTreeMap::new();
    env.insert(5usize, 0u64);
    env.insert(1usize, 2u64);
    let p = m.partial_eval(&env);
    assert_eq!(p.constraints, vec![PicusConstraint::Eq(Box::new(c(0))), leq(c(2), c(3))]);
}

#[test]
fn analyze_chip_reports_missing_selector_columns() {
    let chips = [cpu_chip(), add_chip()];
    let mut specs = routing();
    specs[0].selector = "is_mul".to_string();
    let r = analyze_chip(&chips[0], &chips, &specs, None, SubmoduleMode::Inline, ShrCarrySummaryMode::AbstractModule, 0, 11, 4);
    assert_eq!(r.err(), Some(ExtractError::UnknownColumn));
}

#[test]
fn analyze_chip_reports_constant_selectors() {
    let chips = [cpu_chip(), add_chip()];
    let mut specs = routing();
    // Route the (constant) opcode slot into the selector column.
    specs[0].arg_to_colname.push((IndexSlice::Single(6), "is_add".to_string()));
    let r = analyze_chip(&chips[0], &chips, &specs, None, SubmoduleMode::Inline, ShrCarrySummaryMode::AbstractModule, 0, 11, 4);
    assert_eq!(r.err(), Some(ExtractError::NotAVariable));
}

#[test]
fn analyze_reports_calls_of_the_wrong_width() {
    let chips = [plain_chip(1), add_chip()];
    let ch = plain_chip(1);
    let mut b = builder(&ch, &chips, &[], None, SubmoduleMode::Inline, ShrCarrySummaryMode::AbstractModule);
    b.concrete_pending_tasks.push(ConcretePendingTask {
        chip_name: "AddSub".to_string(),
        main_vars: (0..6).map(PicusAtom::Var).collect(),
        multiplicity: c(1),
        selector: "is_add".to_string(),
    });
    assert_eq!(b.analyze(&ch, 3), Err(ExtractError::WidthMismatch));
}

#[test]
fn analyze_reports_calls_of_unknown_chips() {
    let chips = [plain_chip(1)];
    let ch = plain_chip(1);
    let mut b = builder(&ch, &chips, &[], None, SubmoduleMode::Inline, ShrCarrySummaryMode::AbstractModule);
    b.concrete_pending_tasks.push(ConcretePendingTask {
        chip_name: "Missing".to_string(),
        main_vars: vec![],
        multiplicity: c(1),
        selector: "s".to_string(),
    });
    assert_eq!(b.analyze(&ch, 3), Err(ExtractError::UnknownChip));
}

#[test]
fn eval_air_records_zero_assertions_on_the_main_row() {
    let ch = chip("Z", 2, info(&[], &[(0, "a")], None), vec![AirOp::AssertZero(v(0).minus(v(1)))]);
    let chips = [plain_chip(1)];
    let mut env = BTreeMap::new();
    env.insert(1usize, 5u64);
    let mut b = builder(&ch, &chips, &[], Some(env), SubmoduleMode::Inline, ShrCarrySummaryMode::AbstractModule);
    assert_eq!(b.eval_air(&ch.air), Ok(()));
    assert_eq!(b.picus_module.constraints, vec![PicusConstraint::Eq(Box::new(v(0).minus(c(5))))]);
}

fn max_var(e: &PicusExpr) -> Option<usize> {
    match e {
        PicusExpr::Const(_) => None,
        PicusExpr::Var(i) => Some(*i),
        PicusExpr::Add(a, b) | PicusExpr::Sub(a, b) | PicusExpr::Mul(a, b) => max_var(a).max(max_var(b)),
    }
}

fn max_var_in(c: &PicusConstraint) -> Option<usize> {
    match c {
        PicusConstraint::Lt(a, b) | PicusConstraint::Leq(a, b) => max_var(a).max(max_var(b)),
        PicusConstraint::Eq(e) => max_var(e),
        PicusConstraint::Implies(a, b) | PicusConstraint::Iff(a, b) | PicusConstraint::And(a, b) => {
            max_var_in(a).max(max_var_in(b))
        }
    }
}

#[test]
fn extraction_hands_out_only_new_variables() {
    let chips = [cpu_chip(), add_chip()];
    let specs = routing();
    let mut env = BTreeMap::new();
    env.insert(0usize, 1u64);
    let (m, _, fresh) = analyze_chip(
        &chips[0],
        &chips,
        &specs,
        Some(env),
        SubmoduleMode::Inline,
        ShrCarrySummaryMode::AbstractModule,
        0,
        11,
        4,
    )
    .unwrap();
    for c in &m.constraints {
        assert!(max_var_in(c).map_or(true, |x| x < fresh));
    }
    for e in m.inputs.iter().chain(m.outputs.iter()) {
        assert!(max_var(e).map_or(true, |x| x < fresh));
    }
}

fn fresh_builder<'a>(c: &ChipDesc, chips: &'a [ChipDesc], fresh: usize) -> PicusBuilder<'a> {
    PicusBuilder::new(c, PicusModule::new("m".to_string()), chips, &[], None, None, None, None, 0, fresh)
}

#[test]
fn lookups_that_take_no_variable_work_with_an_exhausted_counter() {
    let ch = plain_chip(1);
    let chips = [plain_chip(1)];
    let mut b = fresh_builder(&ch, &chips, usize::MAX);
    let range = [c(ByteOpcode::U8Range.code()), v(3)];
    assert!(b.send_allowed_now(LookupKind::Byte, &range, &c(1)));
    b.handle_byte_interaction(c(1), &range);
    assert_eq!(b.picus_module.constraints, vec![leq(mul(v(3), c(1)), c(255))]);
    let ltu = [c(ByteOpcode::LTU.code()), c(1), v(1), v(2)];
    assert!(b.send_allowed_now(LookupKind::Byte, &ltu, &c(1)));
    let msb_zero = [c(ByteOpcode::MSB.code()), v(1), c(0), c(0), c(0)];
    assert!(b.send_allowed_now(LookupKind::Byte, &msb_zero, &c(1)));
    let msb = [c(ByteOpcode::MSB.code()), v(1), c(0), v(3), c(0)];
    assert!(!b.send_allowed_now(LookupKind::Byte, &msb, &c(1)));
    let and_mask = [c(ByteOpcode::AND.code()), v(1), c(0), v(3), c(127)];
    assert!(!b.send_allowed_now(LookupKind::Byte, &and_mask, &c(1)));
    let mem = [v(0), v(1), v(2), v(3)];
    assert!(b.send_allowed_now(LookupKind::Memory, &mem, &c(0)));
    assert!(!b.send_allowed_now(LookupKind::Memory, &mem, &c(1)));
    b.handle_memory_interaction(c(0), &mem, true);
    assert!(b.receive_allowed_now(LookupKind::Instruction, &instruction_values(0, 0), &c(0)));
    assert!(!b.receive_allowed_now(LookupKind::Instruction, &instruction_values(0, 0), &c(1)));
    b.handle_receive_instruction(c(0), &instruction_values(0, 0));
    assert_eq!(b.picus_module.constraints.len(), 1);
    assert_eq!(b.fresh_var_ctr, usize::MAX);
}

#[test]
fn a_memory_access_takes_one_variable_per_port() {
    let ch = plain_chip(1);
    let chips = [plain_chip(1)];
    let mem = [v(0), v(1), v(2), v(3), v(4), v(5)];
    let mut b = fresh_builder(&ch, &chips, usize::MAX - 4);
    assert!(b.send_allowed_now(LookupKind::Memory, &mem, &c(1)));
    b.handle_memory_interaction(c(1), &mem, false);
    assert_eq!(b.fresh_var_ctr, usize::MAX);
    assert_eq!(b.picus_module.outputs.len(), 4);
    let b = fresh_builder(&ch, &chips, usize::MAX - 3);
    assert!(!b.send_allowed_now(LookupKind::Memory, &mem, &c(1)));
}

fn two_selector_chip() -> ChipDesc {
    // Columns: 0 = is_a, 1 = is_b (selectors), 2, 3 = operands, 4 = result.
    chip(
        "Bits",
        5,
        info(&[("is_a", 0, 1), ("is_b", 1, 2)], &[(0, "is_a"), (1, "is_b")], None),
        vec![AirOp::Send(AirLookup {
            values: vec![c(ByteOpcode::XOR.code()), v(4), c(0), v(2), v(3)],
            multiplicity: v(0).plus(v(1)),
            kind: LookupKind::Byte,
        })],
    )
}

#[test]
fn extracted_program_has_one_module_per_name() {
    let chips = [two_selector_chip()];
    let p = extract_picus_program(&"Bits".to_string(), &chips, &[], false, ShrCarrySummaryMode::AbstractModule, 0, 4)
        .unwrap();
    let names: Vec<&str> = p.modules.iter().map(|m| m.name.as_str()).collect();
    assert_eq!(names, vec!["Bits", "byte_interaction_mod", "top"]);
}

#[test]
fn auxiliary_modules_are_kept_in_name_order() {
    let ch = plain_chip(1);
    let chips = [plain_chip(1)];
    let mut b = builder(&ch, &chips, &[], None, SubmoduleMode::Inline, ShrCarrySummaryMode::AbstractModule);
    b.ensure_aux_module("byte_interaction_mod".to_string(), 2, 1);
    b.ensure_aux_module("ShrCarry".to_string(), 2, 2);
    b.ensure_aux_module("byte_interaction_mod".to_string(), 2, 1);
    let names: Vec<&str> = b.aux_modules.iter().map(|m| m.name.as_str()).collect();
    assert_eq!(names, vec!["ShrCarry", "byte_interaction_mod"]);
    b.put_aux_module(PicusModule::new("ShrCarry".to_string()));
    assert_eq!(b.aux_modules.len(), 2);
    assert!(b.aux_modules[0].inputs.is_empty());
    b.put_aux_module(PicusModule::new("Abs".to_string()));
    let names: Vec<&str> = b.aux_modules.iter().map(|m| m.name.as_str()).collect();
    assert_eq!(names, vec!["Abs", "ShrCarry", "byte_interaction_mod"]);
}

#[test]
fn a_larger_depth_gives_the_same_extraction() {
    let chips = [cpu_chip(), add_chip()];
    let specs = routing();
    let run = |depth: usize| {
        let mut env = BTreeMap::new();
        env.insert(0usize, 1u64);
        analyze_chip(&chips[0], &chips, &specs, Some(env), SubmoduleMode::Inline, ShrCarrySummaryMode::AbstractModule, 0, 11, depth)
            .unwrap()
    };
    let (m4, aux4, f4) = run(4);
    let (m9, aux9, f9) = run(9);
    assert_eq!(m4, m9);
    assert_eq!(aux4, aux9);
    assert_eq!(f4, f9);
}

#[test]
fn unknown_byte_operations_and_symbolic_operations_change_nothing() {
    let ch = plain_chip(1);
    let chips = [plain_chip(1)];
    let mut b = builder(&ch, &chips, &[], None, SubmoduleMode::Inline, ShrCarrySummaryMode::AbstractModule);
    b.handle_byte_interaction(c(1), &[c(3), v(1), v(2)]);
    assert!(b.picus_module.constraints.is_empty());
    assert!(b.picus_module.calls.is_empty());
    assert_eq!(b.fresh_var_ctr, 100);
    let mut s = builder(&ch, &chips, &[], None, SubmoduleMode::Ignore, ShrCarrySummaryMode::AbstractModule);
    s.handle_byte_interaction(c(1), &[v(0), v(1), v(2)]);
    assert!(s.picus_module.constraints.is_empty());
    assert!(s.aux_modules.is_empty());
}
