//! Extraction of a chip: evaluate its constraints with the builder, then
//! inline every deferred call into an instruction chip, specialized to the
//! selector the call enables.
use vstd::prelude::*;
use std::collections::BTreeMap;
use crate::lookup::AirLookup;
use crate::pcl::{
    PicusAtom, PicusExpr, PicusModule, ModuleView, atom_expr, e_add, e_sub, e_mul,
    c_zero, empty_module, gate_module, partial_eval_module,
};
use crate::picus_builder::{
    PicusBuilder, BuilderConfig, ExtractState, TaskView, ChipDesc, PicusInfo, ConcretePendingTask, SubmoduleMode,
    has_chip, first_chip_with_name, specialize_row,
};
use crate::picus_calls::{send_step, send_allowed, receive_step, receive_allowed, colrange_in, find_colrange};
use crate::picus_checks::find_chip;
use crate::module_map::{put_module, merge_modules, put_module_into};

verus! {

broadcast use {vstd::std_specs::btree::group_btree_axioms, vstd::laws_cmp::group_laws_cmp};

/// Why a chip could not be extracted.
#[derive(Clone, Copy, Debug, PartialEq, Eq, Structural)]
pub enum ExtractError {
    /// An interaction the builder cannot turn into Picus constructs.
    InvalidLookup,
    /// A call names a chip that does not exist.
    UnknownChip,
    /// A call names a column the target chip does not have.
    UnknownColumn,
    /// A selector or `is_real` cell of a call is not a variable.
    NotAVariable,
    /// A call binds a number of cells other than the target chip's width.
    WidthMismatch,
    /// Calls nest deeper than allowed.
    TooDeep,
    /// The chip has neither selector columns nor an `is_real` column.
    NoSelectors,
}

// ---------------------------------------------------------------------------
// Evaluating a chip's constraints
// ---------------------------------------------------------------------------

/// An expression over main-trace columns, with column `i` replaced by the
/// row's cell `i`.
pub open spec fn inst_expr(e: PicusExpr, row: Seq<PicusAtom>) -> PicusExpr
    decreases e,
{
    match e {
        PicusExpr::Const(c) => PicusExpr::Const(c),
        PicusExpr::Var(i) => if i < row.len() {
            atom_expr(row[i as int])
        } else {
            PicusExpr::Var(i)
        },
        PicusExpr::Add(a, b) => e_add(inst_expr(*a, row), inst_expr(*b, row)),
        PicusExpr::Sub(a, b) => e_sub(inst_expr(*a, row), inst_expr(*b, row)),
        PicusExpr::Mul(a, b) => e_mul(inst_expr(*a, row), inst_expr(*b, row)),
    }
}

pub open spec fn inst_all(es: Seq<PicusExpr>, row: Seq<PicusAtom>) -> Seq<PicusExpr> {
    es.map_values(|e: PicusExpr| inst_expr(e, row))
}

/// Replaces column variables by the row's cells.
pub fn instantiate_expr(e: &PicusExpr, row: &[PicusAtom]) -> (r: PicusExpr)
    ensures
        r == inst_expr(*e, row@),
    decreases e,
{
    match e {
        PicusExpr::Const(c) => PicusExpr::Const(*c),
        PicusExpr::Var(i) => if *i < row.len() {
            PicusExpr::from_atom(row[*i])
        } else {
            PicusExpr::Var(*i)
        },
        PicusExpr::Add(a, b) => PicusExpr::Add(Box::new(instantiate_expr(a, row)), Box::new(instantiate_expr(b, row))),
        PicusExpr::Sub(a, b) => PicusExpr::Sub(Box::new(instantiate_expr(a, row)), Box::new(instantiate_expr(b, row))),
        PicusExpr::Mul(a, b) => PicusExpr::Mul(Box::new(instantiate_expr(a, row)), Box::new(instantiate_expr(b, row))),
    }
}

fn instantiate_lookup(l: &AirLookup<PicusExpr>, row: &[PicusAtom]) -> (r: AirLookup<PicusExpr>)
    ensures
        r.values@ == inst_all(l.values@, row@),
        r.multiplicity == inst_expr(l.multiplicity, row@),
        r.kind == l.kind,
{
    let mut values: Vec<PicusExpr> = Vec::new();
    let mut i: usize = 0;
    while i < l.values.len()
        invariant
            i <= l.values@.len(),
            values@ == inst_all(l.values@.subrange(0, i as int), row@),
        decreases l.values@.len() - i,
    {
        values.push(instantiate_expr(&l.values[i], row));
        assert(inst_all(l.values@.subrange(0, i + 1), row@) =~= inst_all(l.values@.subrange(0, i as int), row@).push(
            inst_expr(l.values@[i as int], row@),
        ));
        i += 1;
    }
    assert(l.values@.subrange(0, l.values@.len() as int) =~= l.values@);
    AirLookup { values, multiplicity: instantiate_expr(&l.multiplicity, row), kind: l.kind }
}

/// Whether one step of a chip's evaluation can be recorded.
pub open spec fn air_op_allowed(cfg: BuilderConfig, st: ExtractState, op: crate::picus_builder::AirOp) -> bool {
    match op {
        crate::picus_builder::AirOp::AssertZero(_) => true,
        crate::picus_builder::AirOp::Send(l) => send_allowed(cfg, st, l.kind, inst_all(l.values@, cfg.main), inst_expr(l.multiplicity, cfg.main)),
        crate::picus_builder::AirOp::Receive(l) => receive_allowed(cfg, st, l.kind, inst_all(l.values@, cfg.main), inst_expr(l.multiplicity, cfg.main)),
    }
}

/// What one step of a chip's evaluation records.
pub open spec fn air_op_step(cfg: BuilderConfig, st: ExtractState, op: crate::picus_builder::AirOp) -> ExtractState {
    match op {
        crate::picus_builder::AirOp::AssertZero(e) => st.add_constraints(seq![c_zero(inst_expr(e, cfg.main))]),
        crate::picus_builder::AirOp::Send(l) => send_step(cfg, st, l.kind, inst_all(l.values@, cfg.main), inst_expr(l.multiplicity, cfg.main)),
        crate::picus_builder::AirOp::Receive(l) => receive_step(cfg, st, l.kind, inst_all(l.values@, cfg.main), inst_expr(l.multiplicity, cfg.main)),
    }
}

/// The state after recording the steps `ops`, or `None` if a step cannot be recorded.
pub open spec fn run_air(cfg: BuilderConfig, st: ExtractState, ops: Seq<crate::picus_builder::AirOp>) -> Option<ExtractState>
    decreases ops.len(),
{
    if ops.len() == 0 {
        Some(st)
    } else {
        match run_air(cfg, st, ops.drop_last()) {
            Some(s) => if air_op_allowed(cfg, s, ops.last()) {
                Some(air_op_step(cfg, s, ops.last()))
            } else {
                None
            },
            None => None,
        }
    }
}

impl<'chips> PicusBuilder<'chips> {
    /// Evaluates a chip's constraints on the builder's main row, recording each
    /// step; fails at the first interaction that cannot be recorded.
    pub fn eval_air(&mut self, air: &[crate::picus_builder::AirOp]) -> (r: Result<(), ExtractError>)
        ensures
            final(self).same_setup(old(self)),
            r is Ok <==> run_air(old(self).config(), old(self).state(), air@) is Some,
            r is Ok ==> run_air(old(self).config(), old(self).state(), air@) == Some(final(self).state()),
            r matches Err(e) ==> e == ExtractError::InvalidLookup,
    {
        let mut i: usize = 0;
        assert(air@.subrange(0, 0) =~= Seq::<crate::picus_builder::AirOp>::empty());
        while i < air.len()
            invariant
                i <= air@.len(),
                self.same_setup(old(self)),
                self.config() == old(self).config(),
                run_air(old(self).config(), old(self).state(), air@.subrange(0, i as int)) == Some(self.state()),
            decreases air@.len() - i,
        {
            assert(air@.subrange(0, i + 1).drop_last() =~= air@.subrange(0, i as int));
            assert(air@.subrange(0, i + 1).last() == air@[i as int]);
            match &air[i] {
                crate::picus_builder::AirOp::AssertZero(e) => {
                    let x = instantiate_expr(e, self.main.as_slice());
                    self.assert_zero(x);
                },
                crate::picus_builder::AirOp::Send(l) => {
                    let msg = instantiate_lookup(l, self.main.as_slice());
                    if !self.send_allowed_now(msg.kind, msg.values.as_slice(), &msg.multiplicity) {
                        proof {
                            lemma_run_air_stuck(old(self).config(), old(self).state(), air@, i as int);
                        }
                        return Err(ExtractError::InvalidLookup);
                    }
                    self.send(msg);
                },
                crate::picus_builder::AirOp::Receive(l) => {
                    let msg = instantiate_lookup(l, self.main.as_slice());
                    if !self.receive_allowed_now(msg.kind, msg.values.as_slice(), &msg.multiplicity) {
                        proof {
                            lemma_run_air_stuck(old(self).config(), old(self).state(), air@, i as int);
                        }
                        return Err(ExtractError::InvalidLookup);
                    }
                    self.receive(msg);
                },
            }
            i += 1;
        }
        assert(air@.subrange(0, air@.len() as int) =~= air@);
        Ok(())
    }
}

/// Once a step cannot be recorded, no longer sequence of steps can be.
pub proof fn lemma_run_air_stuck(cfg: BuilderConfig, st: ExtractState, ops: Seq<crate::picus_builder::AirOp>, i: int)
    requires
        0 <= i < ops.len(),
        run_air(cfg, st, ops.subrange(0, i)) is Some,
        !air_op_allowed(cfg, run_air(cfg, st, ops.subrange(0, i)).unwrap(), ops[i]),
    ensures
        run_air(cfg, st, ops) is None,
    decreases ops.len() - i,
{
    assert(ops.subrange(0, i + 1).drop_last() =~= ops.subrange(0, i));
    assert(run_air(cfg, st, ops.subrange(0, i + 1)) is None);
    lemma_run_air_none_extends(cfg, st, ops, i + 1);
}

/// A prefix that cannot be recorded keeps every extension from being recorded.
pub proof fn lemma_run_air_none_extends(cfg: BuilderConfig, st: ExtractState, ops: Seq<crate::picus_builder::AirOp>, k: int)
    requires
        0 <= k <= ops.len(),
        run_air(cfg, st, ops.subrange(0, k)) is None,
    ensures
        run_air(cfg, st, ops) is None,
    decreases ops.len() - k,
{
    if k == ops.len() {
        assert(ops.subrange(0, k) =~= ops);
    } else {
        assert(ops.subrange(0, k + 1).drop_last() =~= ops.subrange(0, k));
        lemma_run_air_none_extends(cfg, st, ops, k + 1);
    }
}

// ---------------------------------------------------------------------------
// Inlining deferred calls
// ---------------------------------------------------------------------------

/// The variable a call binds to column `col` of the target chip.
pub open spec fn task_var(t: TaskView, col: int) -> Option<usize> {
    if 0 <= col < t.main_vars.len() && t.main_vars[col] is Var {
        Some(t.main_vars[col]->Var_0)
    } else {
        None
    }
}

/// Zero assignments for the selectors other than the chosen one, in order.
pub open spec fn other_selectors_env(env: Map<usize, u64>, t: TaskView, sels: Seq<(usize, String)>, chosen: usize) -> Option<Map<usize, u64>>
    decreases sels.len(),
{
    if sels.len() == 0 {
        Some(env)
    } else {
        match other_selectors_env(env, t, sels.drop_last(), chosen) {
            None => None,
            Some(e) => match task_var(t, sels.last().0 as int) {
                None => None,
                Some(v) => if v == chosen {
                    Some(e)
                } else {
                    Some(e.insert(v, 0))
                },
            },
        }
    }
}

/// The fixed assignments under which a call is inlined: `is_real = 1` when the
/// target chip has such a column, the call's selector `= 1` and every other
/// selector `= 0`. `None` when one of these cells is not a variable.
pub open spec fn call_env(t: TaskView, info: PicusInfo, selector_col: int) -> Option<Map<usize, u64>> {
    match task_var(t, selector_col) {
        None => None,
        Some(sel) => {
            let base: Option<Map<usize, u64>> = match info.is_real_index {
                Some(id) => match task_var(t, id as int) {
                    Some(r) => Some(Map::<usize, u64>::empty().insert(r, 1)),
                    None => None,
                },
                None => Some(Map::<usize, u64>::empty()),
            };
            match base {
                None => None,
                Some(b) => other_selectors_env(b.insert(sel, 1), t, info.selector_indices@, sel),
            }
        },
    }
}

/// The builder setup for inlining a call under `env`.
pub open spec fn call_config(cfg: BuilderConfig, t: TaskView, env: Map<usize, u64>) -> BuilderConfig {
    BuilderConfig {
        main: specialize_row(t.main_vars, env),
        chips: cfg.chips,
        specs: cfg.specs,
        mode: SubmoduleMode::Inline,
        shr_mode: cfg.shr_mode,
        env,
    }
}

/// The empty extraction state of a call's module, continuing the fresh variables.
pub open spec fn call_start(t: TaskView, fresh: int) -> ExtractState {
    ExtractState { module: empty_module(t.chip_name), aux: Seq::empty(), tasks: Seq::empty(), symbolic: Seq::empty(), fresh }
}

/// Inlines an analyzed call: the call's module is guarded by the call's
/// multiplicity and specialized under `env`; its constraints and calls are
/// added to the caller's, its postconditions too (unspecialized), and its
/// auxiliary modules are merged into the caller's.
pub open spec fn inline_call(st: ExtractState, t: TaskView, env: Map<usize, u64>, sub: ExtractState) -> ExtractState {
    let gated = gate_module(sub.module, t.multiplicity);
    let updated = partial_eval_module(gated, env);
    ExtractState {
        module: ModuleView {
            constraints: st.module.constraints + updated.constraints,
            calls: st.module.calls + updated.calls,
            postconditions: st.module.postconditions + gated.postconditions,
            ..st.module
        },
        aux: merge_modules(st.aux, sub.aux),
        fresh: sub.fresh,
        ..st
    }
}

/// Extraction of a chip: record its constraints, then inline the deferred
/// calls, last first. `None` when a step is refused (an invalid lookup, an
/// unknown chip or column, a missing selector), or when calls nest deeper than
/// `depth`.
pub open spec fn analyze_spec(cfg: BuilderConfig, chip: ChipDesc, st: ExtractState, depth: nat) -> Option<ExtractState>
    decreases depth, 1int, 0int,
{
    match run_air(cfg, st, chip.air@) {
        None => None,
        Some(s) => process_tasks(cfg, s, depth),
    }
}

/// Inlines the deferred calls of `st`, last first.
pub open spec fn process_tasks(cfg: BuilderConfig, st: ExtractState, depth: nat) -> Option<ExtractState>
    decreases depth, 0int, st.tasks.len(),
{
    if st.tasks.len() == 0 {
        Some(st)
    } else {
        let t = st.tasks.last();
        let st1 = ExtractState { tasks: st.tasks.drop_last(), ..st };
        if !has_chip(cfg.chips, t.chip_name) {
            None
        } else {
            let target = cfg.chips[first_chip_with_name(cfg.chips, t.chip_name)];
            match colrange_in(target.picus_info.name_to_colrange@, t.selector) {
                None => None,
                Some(r) => match call_env(t, target.picus_info, r.0 as int) {
                    None => None,
                    Some(env) => if depth == 0 || t.main_vars.len() != target.width {
                        None
                    } else {
                        match analyze_spec(call_config(cfg, t, env), target, call_start(t, st1.fresh), (depth - 1) as nat) {
                            None => None,
                            Some(sub) => process_tasks(cfg, inline_call(st1, t, env, sub), depth),
                        }
                    },
                },
            }
        }
    }
}

/// The variable a call binds to column `col`.
fn task_var_exec(task: &ConcretePendingTask, col: usize) -> (r: Option<usize>)
    ensures
        r == task_var(task@, col as int),
{
    if col < task.main_vars.len() {
        match task.main_vars[col] {
            PicusAtom::Var(v) => Some(v),
            PicusAtom::Const(_) => None,
        }
    } else {
        None
    }
}

/// The fixed assignments under which a call is inlined.
pub fn build_call_env(task: &ConcretePendingTask, info: &PicusInfo, selector_col: usize) -> (r: Option<BTreeMap<usize, u64>>)
    ensures
        match (r, call_env(task@, *info, selector_col as int)) {
            (Some(m), Some(e)) => m@ == e,
            (None, None) => true,
            _ => false,
        },
{
    let sel = match task_var_exec(task, selector_col) {
        Some(v) => v,
        None => {
            return None;
        },
    };
    let mut env: BTreeMap<usize, u64> = BTreeMap::new();
    if let Some(id) = info.is_real_index {
        match task_var_exec(task, id) {
            Some(r) => {
                env.insert(r, 1);
            },
            None => {
                return None;
            },
        }
    }
    env.insert(sel, 1);
    let ghost sels = info.selector_indices@;
    let mut i: usize = 0;
    assert(sels.subrange(0, 0) =~= Seq::<(usize, String)>::empty());
    let ghost start = env@;
    assert(call_env(task@, *info, selector_col as int) == other_selectors_env(start, task@, sels, sel));
    while i < info.selector_indices.len()
        invariant
            i <= sels.len(),
            call_env(task@, *info, selector_col as int) == other_selectors_env(start, task@, sels, sel),
            sels == info.selector_indices@,
            other_selectors_env(start, task@, sels.subrange(0, i as int), sel) == Some(env@),
        decreases sels.len() - i,
    {
        assert(sels.subrange(0, i + 1).drop_last() =~= sels.subrange(0, i as int));
        assert(sels.subrange(0, i + 1).last() == sels[i as int]);
        let other = match task_var_exec(task, info.selector_indices[i].0) {
            Some(v) => v,
            None => {
                assert(task_var(task@, sels[i as int].0 as int) is None);
                assert(other_selectors_env(start, task@, sels.subrange(0, i + 1), sel) is None);
                proof {
                    lemma_other_selectors_none(start, task@, sels, sel, i as int + 1);
                }
                return None;
            },
        };
        if other != sel {
            env.insert(other, 0);
        }
        i += 1;
    }
    assert(sels.subrange(0, sels.len() as int) =~= sels);
    Some(env)
}

/// A selector prefix that fails makes the whole selector list fail.
pub proof fn lemma_other_selectors_none(env: Map<usize, u64>, t: TaskView, sels: Seq<(usize, String)>, chosen: usize, k: int)
    requires
        0 <= k <= sels.len(),
        other_selectors_env(env, t, sels.subrange(0, k), chosen) is None,
    ensures
        other_selectors_env(env, t, sels, chosen) is None,
    decreases sels.len() - k,
{
    if k == sels.len() {
        assert(sels.subrange(0, k) =~= sels);
    } else {
        assert(sels.subrange(0, k + 1).drop_last() =~= sels.subrange(0, k));
        lemma_other_selectors_none(env, t, sels, chosen, k + 1);
    }
}

fn copy_atoms(v: &[PicusAtom]) -> (r: Vec<PicusAtom>)
    ensures
        r@ == v@,
{
    let mut r: Vec<PicusAtom> = Vec::new();
    let mut i: usize = 0;
    while i < v.len()
        invariant
            i <= v@.len(),
            r@ == v@.subrange(0, i as int),
        decreases v@.len() - i,
    {
        r.push(v[i]);
        assert(r@ =~= v@.subrange(0, i + 1));
        i += 1;
    }
    assert(v@.subrange(0, v@.len() as int) =~= v@);
    r
}

impl<'chips> PicusBuilder<'chips> {
    /// Adds a module, replacing the auxiliary module with the same name.
    pub fn put_aux_module(&mut self, m: PicusModule)
        ensures
            final(self).same_setup(old(self)),
            final(self).state() == (ExtractState { aux: put_module(old(self).state().aux, m@), ..old(self).state() }),
    {
        put_module_into(&mut self.aux_modules, m);
        assert(self.state() =~= (ExtractState { aux: put_module(old(self).state().aux, m@), ..old(self).state() }));
    }

    /// Adds modules one after the other, each replacing the auxiliary module
    /// with its name.
    pub fn merge_aux_modules(&mut self, ms: &Vec<PicusModule>)
        ensures
            final(self).same_setup(old(self)),
            final(self).state() == (ExtractState {
                aux: merge_modules(old(self).state().aux, ms@.map_values(|m: PicusModule| m@)),
                ..old(self).state()
            }),
    {
        let ghost mvs = ms@.map_values(|m: PicusModule| m@);
        let mut i: usize = 0;
        assert(mvs.subrange(0, 0) =~= Seq::<ModuleView>::empty());
        while i < ms.len()
            invariant
                i <= ms@.len(),
                mvs == ms@.map_values(|m: PicusModule| m@),
                self.same_setup(old(self)),
                self.state() == (ExtractState { aux: merge_modules(old(self).state().aux, mvs.subrange(0, i as int)), ..old(self).state() }),
            decreases ms@.len() - i,
        {
            assert(mvs.subrange(0, i + 1).drop_last() =~= mvs.subrange(0, i as int));
            assert(mvs.subrange(0, i + 1).last() == ms@[i as int]@);
            self.put_aux_module(ms[i].duplicate());
            i += 1;
        }
        assert(mvs.subrange(0, mvs.len() as int) =~= mvs);
    }

    /// Records a chip's constraints, then inlines its deferred calls, last
    /// first: each call's chip is extracted with the call's cells as its main
    /// row, specialized to `is_real = 1`, the call's selector `= 1` and the
    /// other selectors `= 0`; the result is guarded by the call's multiplicity,
    /// specialized, and added to this module. Calls may nest `depth` deep.
    pub fn analyze(&mut self, chip: &ChipDesc, depth: usize) -> (r: Result<(), ExtractError>)
        ensures
            final(self).same_setup(old(self)),
            r is Ok <==> analyze_spec(old(self).config(), *chip, old(self).state(), depth as nat) is Some,
            r is Ok ==> analyze_spec(old(self).config(), *chip, old(self).state(), depth as nat) == Some(final(self).state()),
        decreases depth,
    {
        match self.eval_air(chip.air.as_slice()) {
            Ok(()) => {},
            Err(e) => {
                return Err(e);
            },
        }
        let ghost cfg = old(self).config();
        let ghost s_air = self.state();
        loop
            invariant
                self.same_setup(old(self)),
                self.config() == cfg,
                cfg == old(self).config(),
                analyze_spec(cfg, *chip, old(self).state(), depth as nat) == process_tasks(cfg, s_air, depth as nat),
                process_tasks(cfg, self.state(), depth as nat) == process_tasks(cfg, s_air, depth as nat),
            decreases self.concrete_pending_tasks@.len(),
        {
            let ghost st = self.state();
            let popped = self.concrete_pending_tasks.pop();
            let task = match popped {
                None => {
                    assert(st.tasks.len() == 0);
                    return Ok(());
                },
                Some(t) => t,
            };
            let ghost t = task@;
            let ghost st1 = ExtractState { tasks: st.tasks.drop_last(), ..st };
            assert(t == st.tasks.last());
            assert(self.state() =~= st1);
            let target = match find_chip(self.chips, &task.chip_name) {
                Some(c) => c,
                None => {
                    return Err(ExtractError::UnknownChip);
                },
            };
            let colrange = match find_colrange(target.picus_info.name_to_colrange.as_slice(), &task.selector) {
                Some(r) => r,
                None => {
                    return Err(ExtractError::UnknownColumn);
                },
            };
            let env = match build_call_env(&task, &target.picus_info, colrange.0) {
                Some(e) => e,
                None => {
                    return Err(ExtractError::NotAVariable);
                },
            };
            if depth == 0 {
                return Err(ExtractError::TooDeep);
            }
            if task.main_vars.len() != target.width {
                return Err(ExtractError::WidthMismatch);
            }
            let num_public_values = self.public_values.len();
            let mut sub = PicusBuilder::new(
                target,
                PicusModule::new(task.chip_name.clone()),
                self.chips,
                self.opcode_specs,
                Some(copy_atoms(task.main_vars.as_slice())),
                Some(env.clone()),
                Some(SubmoduleMode::Inline),
                Some(self.shr_carry_summary_mode),
                num_public_values,
                self.fresh_var_ctr,
            );
            assert(sub.config() == call_config(cfg, t, env@));
            assert(sub.state() =~= call_start(t, st1.fresh));
            match sub.analyze(target, depth - 1) {
                Ok(()) => {},
                Err(e) => {
                    return Err(e);
                },
            }
            let ghost sub_st = sub.state();
            self.fresh_var_ctr = sub.fresh_var_ctr;
            assert(self.state() =~= (ExtractState { fresh: sub_st.fresh, ..st1 }));
            self.merge_aux_modules(&sub.aux_modules);
            let mut sub_module = sub.picus_module;
            sub_module.apply_multiplier(&task.multiplicity);
            let updated = sub_module.partial_eval(&env);
            let ghost pre = self.state();
            let mut i: usize = 0;
            while i < updated.constraints.len()
                invariant
                    i <= updated.constraints@.len(),
                    self.same_setup(old(self)),
                    self.state() == pre.add_constraints(updated.constraints@.subrange(0, i as int)),
                decreases updated.constraints@.len() - i,
            {
                self.push_constraint(updated.constraints[i].duplicate());
                assert(updated.constraints@.subrange(0, i + 1) =~= updated.constraints@.subrange(0, i as int).push(updated.constraints@[i as int]));
                assert(self.state() =~= pre.add_constraints(updated.constraints@.subrange(0, i + 1)));
                i += 1;
            }
            assert(updated.constraints@.subrange(0, updated.constraints@.len() as int) =~= updated.constraints@);
            let ghost pre2 = self.state();
            let mut i: usize = 0;
            while i < updated.calls.len()
                invariant
                    i <= updated.calls@.len(),
                    self.same_setup(old(self)),
                    self.state() == (ExtractState {
                        module: ModuleView { calls: pre2.module.calls + updated@.calls.subrange(0, i as int), ..pre2.module },
                        ..pre2
                    }),
                decreases updated.calls@.len() - i,
            {
                let ghost before = self.state();
                self.push_call(updated.calls[i].duplicate());
                assert(updated@.calls.subrange(0, i + 1) =~= updated@.calls.subrange(0, i as int).push(updated@.calls[i as int]));
                assert(self.state() =~= (ExtractState {
                    module: ModuleView { calls: pre2.module.calls + updated@.calls.subrange(0, i + 1), ..pre2.module },
                    ..pre2
                }));
                i += 1;
            }
            assert(updated@.calls.subrange(0, updated@.calls.len() as int) =~= updated@.calls);
            let ghost pre3 = self.state();
            let mut i: usize = 0;
            while i < sub_module.postconditions.len()
                invariant
                    i <= sub_module.postconditions@.len(),
                    self.same_setup(old(self)),
                    self.state() == (ExtractState {
                        module: ModuleView {
                            postconditions: pre3.module.postconditions + sub_module.postconditions@.subrange(0, i as int),
                            ..pre3.module
                        },
                        ..pre3
                    }),
                decreases sub_module.postconditions@.len() - i,
            {
                self.picus_module.postconditions.push(sub_module.postconditions[i].duplicate());
                assert(sub_module.postconditions@.subrange(0, i + 1) =~= sub_module.postconditions@.subrange(0, i as int).push(
                    sub_module.postconditions@[i as int],
                ));
                assert(self.state() =~= (ExtractState {
                    module: ModuleView {
                        postconditions: pre3.module.postconditions + sub_module.postconditions@.subrange(0, i + 1),
                        ..pre3.module
                    },
                    ..pre3
                }));
                i += 1;
            }
            assert(sub_module.postconditions@.subrange(0, sub_module.postconditions@.len() as int) =~= sub_module.postconditions@);
            assert(self.state() =~= inline_call(st1, t, env@, sub_st));
        }
    }
}

} // verus!
